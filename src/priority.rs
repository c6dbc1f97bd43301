//! Priority grades of a task.

use crate::error::TodoError;
use crate::modify::out_of_range;
use crate::text::{chars_of, string_from_chars, string_views};
use crate::todo::{Todo, TodoView};
use crate::utility::views;
use vstd::prelude::*;

verus! {

/// A letter grade, `A` most urgent, or no priority at all.
#[derive(Default, Debug, Clone, Copy, PartialEq, Eq, PartialOrd, Ord, Hash, Structural)]
pub enum TodoPriority {
    A,
    B,
    C,
    D,
    E,
    F,
    G,
    H,
    I,
    J,
    K,
    L,
    M,
    N,
    O,
    P,
    Q,
    R,
    S,
    T,
    U,
    V,
    W,
    X,
    Y,
    Z,
    #[default]
    Unset,
}

impl TodoPriority {
    /// Position in the order of urgency: `A` is 0, `Z` is 25, no priority is 26.
    pub open spec fn rank(self) -> int {
        match self {
            TodoPriority::A => 0,
            TodoPriority::B => 1,
            TodoPriority::C => 2,
            TodoPriority::D => 3,
            TodoPriority::E => 4,
            TodoPriority::F => 5,
            TodoPriority::G => 6,
            TodoPriority::H => 7,
            TodoPriority::I => 8,
            TodoPriority::J => 9,
            TodoPriority::K => 10,
            TodoPriority::L => 11,
            TodoPriority::M => 12,
            TodoPriority::N => 13,
            TodoPriority::O => 14,
            TodoPriority::P => 15,
            TodoPriority::Q => 16,
            TodoPriority::R => 17,
            TodoPriority::S => 18,
            TodoPriority::T => 19,
            TodoPriority::U => 20,
            TodoPriority::V => 21,
            TodoPriority::W => 22,
            TodoPriority::X => 23,
            TodoPriority::Y => 24,
            TodoPriority::Z => 25,
            TodoPriority::Unset => 26,
        }
    }

    /// The grade's letter; a space when there is none.
    pub open spec fn letter(self) -> char {
        match self {
            TodoPriority::A => 'A',
            TodoPriority::B => 'B',
            TodoPriority::C => 'C',
            TodoPriority::D => 'D',
            TodoPriority::E => 'E',
            TodoPriority::F => 'F',
            TodoPriority::G => 'G',
            TodoPriority::H => 'H',
            TodoPriority::I => 'I',
            TodoPriority::J => 'J',
            TodoPriority::K => 'K',
            TodoPriority::L => 'L',
            TodoPriority::M => 'M',
            TodoPriority::N => 'N',
            TodoPriority::O => 'O',
            TodoPriority::P => 'P',
            TodoPriority::Q => 'Q',
            TodoPriority::R => 'R',
            TodoPriority::S => 'S',
            TodoPriority::T => 'T',
            TodoPriority::U => 'U',
            TodoPriority::V => 'V',
            TodoPriority::W => 'W',
            TodoPriority::X => 'X',
            TodoPriority::Y => 'Y',
            TodoPriority::Z => 'Z',
            TodoPriority::Unset => ' ',
        }
    }

    /// The grade that a letter names, in either case; no priority for anything else.
    pub open spec fn of_char(c: char) -> TodoPriority {
        match c {
            'A' | 'a' => TodoPriority::A,
            'B' | 'b' => TodoPriority::B,
            'C' | 'c' => TodoPriority::C,
            'D' | 'd' => TodoPriority::D,
            'E' | 'e' => TodoPriority::E,
            'F' | 'f' => TodoPriority::F,
            'G' | 'g' => TodoPriority::G,
            'H' | 'h' => TodoPriority::H,
            'I' | 'i' => TodoPriority::I,
            'J' | 'j' => TodoPriority::J,
            'K' | 'k' => TodoPriority::K,
            'L' | 'l' => TodoPriority::L,
            'M' | 'm' => TodoPriority::M,
            'N' | 'n' => TodoPriority::N,
            'O' | 'o' => TodoPriority::O,
            'P' | 'p' => TodoPriority::P,
            'Q' | 'q' => TodoPriority::Q,
            'R' | 'r' => TodoPriority::R,
            'S' | 's' => TodoPriority::S,
            'T' | 't' => TodoPriority::T,
            'U' | 'u' => TodoPriority::U,
            'V' | 'v' => TodoPriority::V,
            'W' | 'w' => TodoPriority::W,
            'X' | 'x' => TodoPriority::X,
            'Y' | 'y' => TodoPriority::Y,
            'Z' | 'z' => TodoPriority::Z,
            _ => TodoPriority::Unset,
        }
    }

    /// How the grade is written in a task line: `(A)`, or nothing.
    pub open spec fn marker(self) -> Seq<char> {
        if self == TodoPriority::Unset {
            seq![]
        } else {
            seq!['(', self.letter(), ')']
        }
    }

    pub fn rank_of(&self) -> (r: u8)
        ensures
            r as int == self.rank(),
    {
        match self {
            TodoPriority::A => 0,
            TodoPriority::B => 1,
            TodoPriority::C => 2,
            TodoPriority::D => 3,
            TodoPriority::E => 4,
            TodoPriority::F => 5,
            TodoPriority::G => 6,
            TodoPriority::H => 7,
            TodoPriority::I => 8,
            TodoPriority::J => 9,
            TodoPriority::K => 10,
            TodoPriority::L => 11,
            TodoPriority::M => 12,
            TodoPriority::N => 13,
            TodoPriority::O => 14,
            TodoPriority::P => 15,
            TodoPriority::Q => 16,
            TodoPriority::R => 17,
            TodoPriority::S => 18,
            TodoPriority::T => 19,
            TodoPriority::U => 20,
            TodoPriority::V => 21,
            TodoPriority::W => 22,
            TodoPriority::X => 23,
            TodoPriority::Y => 24,
            TodoPriority::Z => 25,
            TodoPriority::Unset => 26,
        }
    }

    pub fn letter_of(&self) -> (r: char)
        ensures
            r == self.letter(),
    {
        match self {
            TodoPriority::A => 'A',
            TodoPriority::B => 'B',
            TodoPriority::C => 'C',
            TodoPriority::D => 'D',
            TodoPriority::E => 'E',
            TodoPriority::F => 'F',
            TodoPriority::G => 'G',
            TodoPriority::H => 'H',
            TodoPriority::I => 'I',
            TodoPriority::J => 'J',
            TodoPriority::K => 'K',
            TodoPriority::L => 'L',
            TodoPriority::M => 'M',
            TodoPriority::N => 'N',
            TodoPriority::O => 'O',
            TodoPriority::P => 'P',
            TodoPriority::Q => 'Q',
            TodoPriority::R => 'R',
            TodoPriority::S => 'S',
            TodoPriority::T => 'T',
            TodoPriority::U => 'U',
            TodoPriority::V => 'V',
            TodoPriority::W => 'W',
            TodoPriority::X => 'X',
            TodoPriority::Y => 'Y',
            TodoPriority::Z => 'Z',
            TodoPriority::Unset => ' ',
        }
    }

    pub fn from_char(c: char) -> (r: TodoPriority)
        ensures
            r == TodoPriority::of_char(c),
    {
        match c {
            'A' | 'a' => TodoPriority::A,
            'B' | 'b' => TodoPriority::B,
            'C' | 'c' => TodoPriority::C,
            'D' | 'd' => TodoPriority::D,
            'E' | 'e' => TodoPriority::E,
            'F' | 'f' => TodoPriority::F,
            'G' | 'g' => TodoPriority::G,
            'H' | 'h' => TodoPriority::H,
            'I' | 'i' => TodoPriority::I,
            'J' | 'j' => TodoPriority::J,
            'K' | 'k' => TodoPriority::K,
            'L' | 'l' => TodoPriority::L,
            'M' | 'm' => TodoPriority::M,
            'N' | 'n' => TodoPriority::N,
            'O' | 'o' => TodoPriority::O,
            'P' | 'p' => TodoPriority::P,
            'Q' | 'q' => TodoPriority::Q,
            'R' | 'r' => TodoPriority::R,
            'S' | 's' => TodoPriority::S,
            'T' | 't' => TodoPriority::T,
            'U' | 'u' => TodoPriority::U,
            'V' | 'v' => TodoPriority::V,
            'W' | 'w' => TodoPriority::W,
            'X' | 'x' => TodoPriority::X,
            'Y' | 'y' => TodoPriority::Y,
            'Z' | 'z' => TodoPriority::Z,
            _ => TodoPriority::Unset,
        }
    }

    /// Reads a grade from its letter, in either case; any other text gives no priority.
    pub fn from_text(s: &str) -> (r: TodoPriority)
        ensures
            r == (if s@.len() == 1 {
                TodoPriority::of_char(s@[0])
            } else {
                TodoPriority::Unset
            }),
    {
        let cs = chars_of(s);
        if cs.len() == 1 {
            TodoPriority::from_char(cs[0])
        } else {
            TodoPriority::Unset
        }
    }

    /// The grade as a task line writes it: `(A)`, or the empty string.
    pub fn to_text(&self) -> (r: String)
        ensures
            r@ == self.marker(),
    {
        let mut out: Vec<char> = Vec::new();
        if *self != TodoPriority::Unset {
            out.push('(');
            out.push(self.letter_of());
            out.push(')');
            assert(out@ =~= self.marker());
        }
        string_from_chars(out.as_slice())
    }
}

pub open spec fn is_digit(c: char) -> bool {
    '0' <= c && c <= '9'
}

/// The number that a run of decimal digits spells.
pub open spec fn digits_value(s: Seq<char>) -> nat
    decreases s.len(),
{
    if s.len() == 0 {
        0
    } else {
        digits_value(s.drop_last()) * 10 + ((s.last() as u32) - 48) as nat
    }
}

/// A run of one or more decimal digits with a value that fits a `usize`.
pub open spec fn digits_arg(s: Seq<char>) -> Option<usize> {
    if s.len() > 0 && (forall|i: int| 0 <= i < s.len() ==> is_digit(#[trigger] s[i]))
        && digits_value(s) <= usize::MAX {
        Some(digits_value(s) as usize)
    } else {
        None
    }
}

/// The position that a command argument names: decimal digits, after an
/// optional `+`, with a value that fits a `usize`.
pub open spec fn index_arg(s: Seq<char>) -> Option<usize> {
    if s.len() > 0 && s[0] == '+' {
        digits_arg(s.skip(1))
    } else {
        digits_arg(s)
    }
}

proof fn lemma_digits_grow(s: Seq<char>)
    requires
        forall|i: int| 0 <= i < s.len() ==> is_digit(#[trigger] s[i]),
    ensures
        forall|k: int| 0 <= k <= s.len() ==> #[trigger] digits_value(s.take(k)) <= digits_value(s),
    decreases s.len(),
{
    if s.len() > 0 {
        let p = s.drop_last();
        assert forall|i: int| 0 <= i < p.len() implies is_digit(#[trigger] p[i]) by {
            assert(p[i] == s[i]);
        }
        lemma_digits_grow(p);
        assert forall|k: int| 0 <= k <= s.len() implies #[trigger] digits_value(s.take(k)) <= digits_value(s) by {
            if k < s.len() {
                assert(s.take(k) =~= p.take(k));
            } else {
                assert(s.take(k) =~= s);
            }
        }
    }
}

fn parse_digits(cs: &Vec<char>) -> (r: Option<usize>)
    ensures
        r == digits_arg(cs@),
{
    if cs.len() == 0 {
        return None;
    }
    let mut i: usize = 0;
    while i < cs.len()
        invariant
            i <= cs@.len(),
            forall|k: int| 0 <= k < i ==> is_digit(#[trigger] cs@[k]),
        decreases cs@.len() - i,
    {
        if !('0' <= cs[i] && cs[i] <= '9') {
            assert(!is_digit(cs@[i as int]));
            return None;
        }
        i = i + 1;
    }
    proof {
        lemma_digits_grow(cs@);
    }
    let mut acc: usize = 0;
    let mut j: usize = 0;
    while j < cs.len()
        invariant
            j <= cs@.len(),
            forall|k: int| 0 <= k < cs@.len() ==> is_digit(#[trigger] cs@[k]),
            forall|k: int| 0 <= k <= cs@.len() ==> #[trigger] digits_value(cs@.take(k)) <= digits_value(cs@),
            acc == digits_value(cs@.take(j as int)),
        decreases cs@.len() - j,
    {
        assert(cs@.take(j + 1).drop_last() =~= cs@.take(j as int));
        assert(is_digit(cs@[j as int]));
        let d = (cs[j] as u32 - 48) as usize;
        if acc > (usize::MAX - d) / 10 {
            assert(digits_value(cs@.take(j + 1)) == acc * 10 + d);
            assert(acc * 10 + d > usize::MAX) by (nonlinear_arith)
                requires
                    acc > (usize::MAX - d) / 10,
                    d <= 9,
            {
            }
            assert(digits_value(cs@) > usize::MAX);
            return None;
        }
        assert(acc * 10 + d <= usize::MAX) by (nonlinear_arith)
            requires
                acc <= (usize::MAX - d) / 10,
                d <= 9,
        {
        }
        acc = acc * 10 + d;
        j = j + 1;
    }
    assert(cs@.take(cs@.len() as int) =~= cs@);
    Some(acc)
}

/// Reads a position from a command argument.
pub fn parse_index(s: &str) -> (r: Option<usize>)
    ensures
        r == index_arg(s@),
{
    let cs = chars_of(s);
    if cs.len() > 0 && cs[0] == '+' {
        let rest = crate::text::slice_from(&cs, 1);
        parse_digits(&rest)
    } else {
        parse_digits(&cs)
    }
}

/// What a priority command does: the position in `args[0]` and the grade it
/// gives, or the error.
pub open spec fn change_target(args: Seq<Seq<char>>, len: nat) -> Result<usize, TodoError> {
    if args.len() == 0 {
        Err(TodoError::MissingArgument)
    } else {
        match index_arg(args[0]) {
            None => Err(TodoError::InvalidIndex),
            Some(i) => if i >= len {
                Err(out_of_range(i, len))
            } else {
                Ok(i)
            },
        }
    }
}

fn change_priority(args: &[String], todos: &mut Vec<Todo>, grade: TodoPriority) -> (r: Result<
    (),
    TodoError,
>)
    ensures
        match change_target(string_views(args@), old(todos)@.len()) {
            Err(e) => r == Err::<(), TodoError>(e) && final(todos)@ == old(todos)@,
            Ok(i) => r is Ok && views(final(todos)@) == views(old(todos)@).update(
                i as int,
                TodoView { pri: grade, ..old(todos)@[i as int]@ },
            ),
        },
{
    if args.len() == 0 {
        return Err(TodoError::MissingArgument);
    }
    assert(string_views(args@)[0] == args@[0]@);
    let idx = match parse_index(args[0].as_str()) {
        Some(i) => i,
        None => return Err(TodoError::InvalidIndex),
    };
    if idx >= todos.len() {
        return Err(TodoError::IndexOutOfRange { index: idx, len: todos.len() });
    }
    let ghost before = todos@;
    let mut t = todos.remove(idx);
    t.prioritise(grade);
    todos.insert(idx, t);
    assert(views(todos@) =~= views(before).update(idx as int, t@));
    Ok(())
}

/// Gives the task at the position in `args[0]` the top priority `A`.
pub fn upgrade(args: &[String], todos: &mut Vec<Todo>) -> (r: Result<(), TodoError>)
    ensures
        match change_target(string_views(args@), old(todos)@.len()) {
            Err(e) => r == Err::<(), TodoError>(e) && final(todos)@ == old(todos)@,
            Ok(i) => r is Ok && views(final(todos)@) == views(old(todos)@).update(
                i as int,
                TodoView { pri: TodoPriority::A, ..old(todos)@[i as int]@ },
            ),
        },
{
    change_priority(args, todos, TodoPriority::A)
}

/// Clears the priority of the task at the position in `args[0]`.
pub fn downgrade(args: &[String], todos: &mut Vec<Todo>) -> (r: Result<(), TodoError>)
    ensures
        match change_target(string_views(args@), old(todos)@.len()) {
            Err(e) => r == Err::<(), TodoError>(e) && final(todos)@ == old(todos)@,
            Ok(i) => r is Ok && views(final(todos)@) == views(old(todos)@).update(
                i as int,
                TodoView { pri: TodoPriority::Unset, ..old(todos)@[i as int]@ },
            ),
        },
{
    change_priority(args, todos, TodoPriority::Unset)
}

} // verus!
