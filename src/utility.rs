//! Filtering and ordering lists of tasks.

use crate::text::{chars_of, push_all, string_from_chars, string_views};
use crate::error::TodoError;
use crate::modify::at_position;
use crate::todo::{matches_terms, parse_line, save_text, str_views, Todo, TodoView};
use vstd::prelude::*;

verus! {

pub open spec fn views(s: Seq<Todo>) -> Seq<TodoView> {
    s.map_values(|t: Todo| t@)
}

/// The records of `s` whose priority has rank `k`, in their order.
pub open spec fn with_rank(s: Seq<TodoView>, k: int) -> Seq<TodoView>
    decreases s.len(),
{
    if s.len() == 0 {
        seq![]
    } else if s.last().pri.rank() == k {
        with_rank(s.drop_last(), k).push(s.last())
    } else {
        with_rank(s.drop_last(), k)
    }
}

/// The records of `s` with a priority of rank below `k`, by rank and, within a
/// rank, in their order in `s`.
pub open spec fn ranked_below(s: Seq<TodoView>, k: nat) -> Seq<TodoView>
    decreases k,
{
    if k == 0 {
        seq![]
    } else {
        ranked_below(s, (k - 1) as nat) + with_rank(s, k - 1)
    }
}

/// `s` ordered by priority, `A` first and no priority last, keeping the order
/// of records of equal priority.
pub open spec fn by_priority(s: Seq<TodoView>) -> Seq<TodoView> {
    ranked_below(s, 27)
}

proof fn lemma_with_rank_concat(a: Seq<TodoView>, b: Seq<TodoView>, k: int)
    ensures
        with_rank(a + b, k) == with_rank(a, k) + with_rank(b, k),
    decreases b.len(),
{
    if b.len() == 0 {
        assert(a + b =~= a);
        assert(with_rank(a, k) + with_rank(b, k) =~= with_rank(a, k));
    } else {
        lemma_with_rank_concat(a, b.drop_last(), k);
        assert((a + b).drop_last() =~= a + b.drop_last());
        assert((a + b).last() == b.last());
        if b.last().pri.rank() == k {
            assert(with_rank(a, k) + with_rank(b, k) =~= (with_rank(a, k) + with_rank(
                b.drop_last(),
                k,
            )).push(b.last()));
        }
    }
}

proof fn lemma_with_rank_twice(s: Seq<TodoView>, j: int, k: int)
    ensures
        with_rank(with_rank(s, j), k) == (if j == k {
            with_rank(s, k)
        } else {
            Seq::<TodoView>::empty()
        }),
    decreases s.len(),
{
    if s.len() > 0 {
        lemma_with_rank_twice(s.drop_last(), j, k);
        if s.last().pri.rank() == j {
            assert(with_rank(s, j).drop_last() =~= with_rank(s.drop_last(), j));
        }
    }
}

proof fn lemma_with_rank_ranks(s: Seq<TodoView>, k: int)
    ensures
        forall|i: int| 0 <= i < with_rank(s, k).len() ==> (#[trigger] with_rank(s, k)[i]).pri.rank() == k,
    decreases s.len(),
{
    if s.len() > 0 {
        lemma_with_rank_ranks(s.drop_last(), k);
        let p = with_rank(s.drop_last(), k);
        if s.last().pri.rank() == k {
            assert forall|i: int| 0 <= i < p.len() + 1 implies (#[trigger] p.push(s.last())[i]).pri.rank()
                == k by {
                if i < p.len() {
                    assert(p.push(s.last())[i] == p[i]);
                }
            }
        }
    }
}

proof fn lemma_ranked_below(s: Seq<TodoView>, n: nat, k: int)
    requires
        n <= 27,
    ensures
        forall|i: int, j: int|
            0 <= i < j < ranked_below(s, n).len() ==> (#[trigger] ranked_below(s, n)[i]).pri.rank()
                <= (#[trigger] ranked_below(s, n)[j]).pri.rank(),
        forall|i: int| 0 <= i < ranked_below(s, n).len() ==> (#[trigger] ranked_below(s, n)[i]).pri.rank() < n,
        with_rank(ranked_below(s, n), k) == (if 0 <= k < n {
            with_rank(s, k)
        } else {
            Seq::<TodoView>::empty()
        }),
    decreases n,
{
    if n > 0 {
        let m = (n - 1) as nat;
        lemma_ranked_below(s, m, k);
        let a = ranked_below(s, m);
        let b = with_rank(s, m as int);
        lemma_with_rank_ranks(s, m as int);
        lemma_with_rank_concat(a, b, k);
        lemma_with_rank_twice(s, m as int, k);
        let r = a + b;
        assert forall|i: int, j: int| 0 <= i < j < r.len() implies (#[trigger] r[i]).pri.rank() <= (
        #[trigger] r[j]).pri.rank() by {
            if j < a.len() {
                assert(r[i] == a[i] && r[j] == a[j]);
            } else if i < a.len() {
                assert(r[i] == a[i] && r[j] == b[j - a.len()]);
            } else {
                assert(r[i] == b[i - a.len()] && r[j] == b[j - a.len()]);
            }
        }
        assert forall|i: int| 0 <= i < r.len() implies (#[trigger] r[i]).pri.rank() < n by {
            if i < a.len() {
                assert(r[i] == a[i]);
            } else {
                assert(r[i] == b[i - a.len()]);
            }
        }
        if 0 <= k < m {
            assert(with_rank(s, k) + Seq::<TodoView>::empty() =~= with_rank(s, k));
        } else if k == m {
            assert(Seq::<TodoView>::empty() + with_rank(s, k) =~= with_rank(s, k));
        } else {
            assert(Seq::<TodoView>::empty() + Seq::<TodoView>::empty() =~= Seq::<TodoView>::empty());
        }
    } else {
        assert(with_rank(Seq::<TodoView>::empty(), k) == Seq::<TodoView>::empty());
    }
}

/// Priority order: the records come out by rank, `A` first and no priority
/// last; and the records of any one priority come out exactly as they came
/// in, in the same order.
pub proof fn lemma_priority_order(s: Seq<TodoView>)
    ensures
        forall|i: int, j: int|
            0 <= i < j < by_priority(s).len() ==> (#[trigger] by_priority(s)[i]).pri.rank() <= (
            #[trigger] by_priority(s)[j]).pri.rank(),
        forall|k: int| 0 <= k < 27 ==> #[trigger] with_rank(by_priority(s), k) == with_rank(s, k),
{
    lemma_ranked_below(s, 27, 0);
    assert forall|k: int| 0 <= k < 27 implies #[trigger] with_rank(by_priority(s), k) == with_rank(s, k) by {
        lemma_ranked_below(s, 27, k);
    }
}

/// A copy of `todos` ordered by priority: letters `A` to `Z`, then tasks with no
/// priority; tasks of equal priority keep their order.
pub fn sort_by_priority(todos: &[Todo]) -> (r: Vec<Todo>)
    ensures
        views(r@) == by_priority(views(todos@)),
{
    let ghost vs = views(todos@);
    let n = todos.len();
    let mut out: Vec<Todo> = Vec::new();
    let mut k: u8 = 0;
    while k < 27
        invariant
            k <= 27,
            n == todos@.len(),
            vs == views(todos@),
            views(out@) == ranked_below(vs, k as nat),
        decreases 27 - k,
    {
        let mut i: usize = 0;
        assert(vs.take(0) =~= Seq::<TodoView>::empty());
        assert(views(out@) =~= ranked_below(vs, k as nat) + with_rank(vs.take(0), k as int));
        while i < n
            invariant
                k < 27,
                i <= n,
                n == todos@.len(),
                vs == views(todos@),
                views(out@) == ranked_below(vs, k as nat) + with_rank(vs.take(i as int), k as int),
            decreases n - i,
        {
            assert(vs.take(i + 1).drop_last() =~= vs.take(i as int));
            assert(vs.take(i + 1).last() == todos@[i as int]@);
            if todos[i].pri.rank_of() == k {
                let ghost before = out@;
                out.push(todos[i].duplicate());
                assert(views(out@) =~= views(before).push(todos@[i as int]@));
            }
            i = i + 1;
        }
        assert(vs.take(n as int) =~= vs);
        k = k + 1;
    }
    out
}

/// The filter words that start with `-`, that mark terms a task must not hold.
pub open spec fn is_negative(f: Seq<char>) -> bool {
    f.len() > 0 && f[0] == '-'
}

/// The terms a task must hold: the filter words not starting with `-`.
pub open spec fn positive_terms(fs: Seq<Seq<char>>) -> Seq<Seq<char>>
    decreases fs.len(),
{
    if fs.len() == 0 {
        seq![]
    } else if is_negative(fs.last()) {
        positive_terms(fs.drop_last())
    } else {
        positive_terms(fs.drop_last()).push(fs.last())
    }
}

/// The terms a task must not hold: the filter words starting with `-`, without it.
pub open spec fn negative_terms(fs: Seq<Seq<char>>) -> Seq<Seq<char>>
    decreases fs.len(),
{
    if fs.len() == 0 {
        seq![]
    } else if is_negative(fs.last()) {
        negative_terms(fs.drop_last()).push(fs.last().skip(1))
    } else {
        negative_terms(fs.drop_last())
    }
}

/// The records of `s` that the filter words `fs` select, in their order.
pub open spec fn selected(s: Seq<TodoView>, fs: Seq<Seq<char>>) -> Seq<TodoView>
    decreases s.len(),
{
    if s.len() == 0 {
        seq![]
    } else if matches_terms(s.last(), positive_terms(fs), negative_terms(fs)) {
        selected(s.drop_last(), fs).push(s.last())
    } else {
        selected(s.drop_last(), fs)
    }
}

/// Copies of the tasks that the filter words select: a word starting with `-`
/// names a term the task must not hold, any other word a term it must hold.
pub fn todo_filter(todos: &[Todo], filters: &[String]) -> (r: Vec<Todo>)
    ensures
        views(r@) == selected(views(todos@), string_views(filters@)),
{
    let ghost fs = string_views(filters@);
    let mut negs: Vec<String> = Vec::new();
    let mut pos: Vec<&str> = Vec::new();
    let mut i: usize = 0;
    while i < filters.len()
        invariant
            fs == string_views(filters@),
            i <= filters@.len(),
            str_views(pos@) == positive_terms(fs.take(i as int)),
            string_views(negs@) == negative_terms(fs.take(i as int)),
        decreases filters@.len() - i,
    {
        assert(fs.take(i + 1).drop_last() =~= fs.take(i as int));
        assert(fs.take(i + 1).last() == filters@[i as int]@);
        let cs = chars_of(filters[i].as_str());
        if cs.len() > 0 && cs[0] == '-' {
            let ghost before = negs@;
            let rest = crate::text::slice_from(&cs, 1);
            negs.push(string_from_chars(rest.as_slice()));
            assert(string_views(negs@) =~= string_views(before).push(cs@.skip(1)));
        } else {
            let ghost before = pos@;
            pos.push(filters[i].as_str());
            assert(str_views(pos@) =~= str_views(before).push(filters@[i as int]@));
        }
        i = i + 1;
    }
    assert(fs.take(filters@.len() as int) =~= fs);
    let mut neg: Vec<&str> = Vec::new();
    let mut j: usize = 0;
    while j < negs.len()
        invariant
            j <= negs@.len(),
            str_views(neg@) == string_views(negs@).take(j as int),
        decreases negs@.len() - j,
    {
        let ghost before = neg@;
        let w = negs[j].as_str();
        assert(w@ == negs@[j as int]@);
        neg.push(w);
        assert(str_views(neg@) =~= str_views(before).push(w@));
        assert(string_views(negs@).take(j + 1) =~= string_views(negs@).take(j as int).push(w@));
        j = j + 1;
    }
    assert(string_views(negs@).take(negs@.len() as int) =~= string_views(negs@));
    let ghost vs = views(todos@);
    let mut out: Vec<Todo> = Vec::new();
    let mut k: usize = 0;
    while k < todos.len()
        invariant
            vs == views(todos@),
            k <= todos@.len(),
            str_views(pos@) == positive_terms(fs),
            str_views(neg@) == negative_terms(fs),
            views(out@) == selected(vs.take(k as int), fs),
        decreases todos@.len() - k,
    {
        assert(vs.take(k + 1).drop_last() =~= vs.take(k as int));
        assert(vs.take(k + 1).last() == todos@[k as int]@);
        if todos[k].matches(pos.as_slice(), neg.as_slice()) {
            let ghost before = out@;
            out.push(todos[k].duplicate());
            assert(views(out@) =~= views(before).push(todos@[k as int]@));
        }
        k = k + 1;
    }
    assert(vs.take(todos@.len() as int) =~= vs);
    out
}

/// The records of a list file's lines, each at its line's position; the error
/// of the first line that does not parse.
pub open spec fn parse_all(lines: Seq<Seq<char>>) -> Result<Seq<TodoView>, TodoError>
    decreases lines.len(),
{
    if lines.len() == 0 {
        Ok(seq![])
    } else {
        match parse_all(lines.drop_last()) {
            Err(e) => Err(e),
            Ok(vs) => match parse_line(lines.last()) {
                Err(e) => Err(e),
                Ok(v) => Ok(vs.push(at_position(v, lines.len() - 1))),
            },
        }
    }
}

proof fn lemma_parse_all_err(ls: Seq<Seq<char>>, k: int)
    requires
        0 <= k <= ls.len(),
        parse_all(ls.take(k)) is Err,
    ensures
        parse_all(ls) == parse_all(ls.take(k)),
    decreases ls.len() - k,
{
    if k < ls.len() {
        assert(ls.take(k + 1).drop_last() =~= ls.take(k));
        lemma_parse_all_err(ls, k + 1);
    } else {
        assert(ls.take(k) =~= ls);
    }
}

/// Reads the lines of a list, numbering the tasks by line.
pub fn parse_lines(lines: &[String]) -> (r: Result<Vec<Todo>, TodoError>)
    ensures
        match r {
            Ok(ts) => parse_all(string_views(lines@)) == Ok::<Seq<TodoView>, TodoError>(views(ts@)),
            Err(e) => parse_all(string_views(lines@)) == Err::<Seq<TodoView>, TodoError>(e),
        },
{
    let ghost ls = string_views(lines@);
    let mut out: Vec<Todo> = Vec::new();
    let mut i: usize = 0;
    assert(ls.take(0) =~= Seq::<Seq<char>>::empty());
    assert(views(out@) =~= Seq::<TodoView>::empty());
    while i < lines.len()
        invariant
            ls == string_views(lines@),
            i <= lines@.len(),
            parse_all(ls.take(i as int)) == Ok::<Seq<TodoView>, TodoError>(views(out@)),
            out@.len() == i,
        decreases lines@.len() - i,
    {
        assert(ls.take(i + 1).drop_last() =~= ls.take(i as int));
        assert(ls.take(i + 1).last() == lines@[i as int]@);
        let mut t = match Todo::parse(lines[i].as_str()) {
            Ok(t) => t,
            Err(e) => {
                proof {
                    lemma_parse_all_err(ls, i + 1);
                }
                return Err(e);
            },
        };
        t.idx = i;
        let ghost before = out@;
        out.push(t);
        assert(views(out@) =~= views(before).push(t@));
        i = i + 1;
    }
    assert(ls.take(lines@.len() as int) =~= ls);
    Ok(out)
}

/// The stored lines of `s`, one per record, separated by newlines.
pub open spec fn saved_lines(s: Seq<TodoView>) -> Seq<char>
    decreases s.len(),
{
    if s.len() == 0 {
        seq![]
    } else if s.len() == 1 {
        save_text(s[0])
    } else {
        saved_lines(s.drop_last()) + seq!['\n'] + save_text(s.last())
    }
}

/// The text of a list file: each task's stored line, newline-separated, with
/// no newline after the last.
pub fn render(todos: &[Todo]) -> (r: String)
    ensures
        r@ == saved_lines(views(todos@)),
{
    let ghost vs = views(todos@);
    let mut out: Vec<char> = Vec::new();
    let mut i: usize = 0;
    while i < todos.len()
        invariant
            vs == views(todos@),
            i <= todos@.len(),
            out@ == saved_lines(vs.take(i as int)),
        decreases todos@.len() - i,
    {
        assert(vs.take(i + 1).drop_last() =~= vs.take(i as int));
        assert(vs.take(i + 1).last() == todos@[i as int]@);
        if i > 0 {
            out.push('\n');
        }
        let line = todos[i].format_for_save();
        let lc = chars_of(line.as_str());
        push_all(&mut out, lc.as_slice());
        i = i + 1;
        assert(out@ =~= saved_lines(vs.take(i as int)));
    }
    assert(vs.take(todos@.len() as int) =~= vs);
    string_from_chars(out.as_slice())
}

} // verus!
