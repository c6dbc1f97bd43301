//! The task record, and its text form.

use crate::date::{date_today, iso_date, iso_days, parse_iso_days, resolve, Day};
use crate::error::TodoError;
use crate::priority::TodoPriority;
use crate::text::{
    char_views, chars_of, contains, find, join_nonempty, join_non_empty, join_words, lower_seq,
    lowered, push_all, string_from_chars, string_views, tokenize, tokens,
};
use vstd::prelude::*;

verus! {

/// One task: a line of a todo list.
///
/// `projects` and `tags` hold their tokens as written, marker included
/// (`+garden`, `@home`); `idx` is the task's position in the list that holds it.
#[derive(Clone, Debug, PartialEq)]
pub struct Todo {
    pub idx: usize,
    pub task: String,
    pub pri: TodoPriority,
    pub projects: Vec<String>,
    pub tags: Vec<String>,
    pub done_date: Option<String>,
    pub due_date: Option<String>,
}

/// The mathematical content of a [`Todo`].
pub struct TodoView {
    pub idx: nat,
    pub task: Seq<char>,
    pub pri: TodoPriority,
    pub projects: Seq<Seq<char>>,
    pub tags: Seq<Seq<char>>,
    pub done_date: Option<Seq<char>>,
    pub due_date: Option<Seq<char>>,
}

pub open spec fn opt_view(o: Option<String>) -> Option<Seq<char>> {
    match o {
        Some(s) => Some(s@),
        None => None,
    }
}

impl View for Todo {
    type V = TodoView;

    open spec fn view(&self) -> TodoView {
        TodoView {
            idx: self.idx as nat,
            task: self.task@,
            pri: self.pri,
            projects: string_views(self.projects@),
            tags: string_views(self.tags@),
            done_date: opt_view(self.done_date),
            due_date: opt_view(self.due_date),
        }
    }
}

/// The targets of the Markdown links `[text](target)` in a text, as the
/// pattern `\[.+?\]\((.+)\)` finds them left to right.
pub uninterp spec fn link_targets(s: Seq<char>) -> Seq<Seq<char>>;

/// Relies on regex's `Regex::new` and `Regex::captures_iter`: the first group of
/// each match of the Markdown link pattern, left to right. The pattern is valid
/// and its first group takes part in every match, so neither call fails.
#[verifier::external_body]
fn markdown_links(s: &str) -> (r: Vec<String>)
    ensures
        string_views(r@) == link_targets(s@),
{
    let re = regex::Regex::new(r"\[.+?\]\((.+)\)").unwrap();
    re.captures_iter(s).map(|cap| cap[1].to_string()).collect()
}

/// `(X)` with one ASCII character inside: a priority marker.
pub open spec fn is_priority_token(t: Seq<char>) -> bool {
    t.len() == 3 && t[0] == '(' && t[2] == ')' && (t[1] as u32) < 0x80
}

pub open spec fn due_prefix() -> Seq<char> {
    seq!['d', 'u', 'e', ':']
}

pub open spec fn is_due_token(t: Seq<char>) -> bool {
    t.len() >= 4 && t.take(4) == due_prefix()
}

pub open spec fn starts_with(t: Seq<char>, c: char) -> bool {
    t.len() > 0 && t[0] == c
}

/// What the tokens of a line read so far have set.
pub struct Fields {
    pub pri: TodoPriority,
    pub desc: Seq<Seq<char>>,
    pub projects: Seq<Seq<char>>,
    pub tags: Seq<Seq<char>>,
    pub due: Option<Seq<char>>,
}

pub open spec fn no_fields() -> Fields {
    Fields { pri: TodoPriority::Unset, desc: seq![], projects: seq![], tags: seq![], due: None }
}

/// Reads one token: a priority marker, a due date, a tag (`@`), a project (`+`),
/// or else a word of the description.
pub open spec fn classify(st: Fields, t: Seq<char>) -> Fields {
    if is_priority_token(t) {
        Fields { pri: TodoPriority::of_char(t[1]), ..st }
    } else if is_due_token(t) {
        Fields { due: Some(t.skip(4)), ..st }
    } else if starts_with(t, '@') {
        Fields { tags: st.tags.push(t), ..st }
    } else if starts_with(t, '+') {
        Fields { projects: st.projects.push(t), ..st }
    } else {
        Fields { desc: st.desc.push(t), ..st }
    }
}

pub open spec fn read_tokens(st: Fields, ts: Seq<Seq<char>>) -> Fields
    decreases ts.len(),
{
    if ts.len() == 0 {
        st
    } else {
        classify(read_tokens(st, ts.drop_last()), ts.last())
    }
}

pub open spec fn record_of(st: Fields, done: Option<Seq<char>>) -> TodoView {
    TodoView {
        idx: 0,
        task: join_words(st.desc),
        pri: st.pri,
        projects: st.projects,
        tags: st.tags,
        done_date: done,
        due_date: st.due,
    }
}

/// The record that a line describes. A first token `x` marks the task done and
/// the token after it is the completion date; it is an error for that token to
/// be missing.
pub open spec fn parse_line(s: Seq<char>) -> Result<TodoView, TodoError> {
    let ts = tokens(s);
    if ts.len() > 0 && ts[0] == seq!['x'] {
        if ts.len() < 2 {
            Err(TodoError::MissingCompletionDate)
        } else {
            Ok(record_of(read_tokens(no_fields(), ts.skip(2)), Some(ts[1])))
        }
    } else {
        Ok(record_of(read_tokens(no_fields(), ts), None))
    }
}

/// `x <date>` for a done task, else the priority marker.
pub open spec fn lead(v: TodoView) -> Seq<char> {
    match v.done_date {
        Some(d) => seq!['x', ' '] + d,
        None => v.pri.marker(),
    }
}

pub open spec fn due_text(v: TodoView) -> Seq<char> {
    match v.due_date {
        Some(d) => due_prefix() + d,
        None => seq![],
    }
}

/// The line that stores a record.
pub open spec fn save_text(v: TodoView) -> Seq<char> {
    join_nonempty(
        seq![lead(v), v.task, due_text(v), join_words(v.projects), join_words(v.tags)],
    )
}

/// The text that filter terms are looked for in: the description, then the
/// projects and then the tags, each list joined by spaces.
pub open spec fn haystack(v: TodoView) -> Seq<char> {
    v.task + join_words(v.projects) + join_words(v.tags)
}

/// A term occurs in the record, ASCII case ignored.
pub open spec fn has_term(v: TodoView, term: Seq<char>) -> bool {
    contains(lower_seq(haystack(v)), lower_seq(term))
}

/// Every positive term occurs, and no negative one does.
pub open spec fn matches_terms(v: TodoView, pos: Seq<Seq<char>>, neg: Seq<Seq<char>>) -> bool {
    &&& forall|i: int| 0 <= i < pos.len() ==> has_term(v, #[trigger] pos[i])
    &&& forall|i: int| 0 <= i < neg.len() ==> !has_term(v, #[trigger] neg[i])
}

pub open spec fn str_views(v: Seq<&str>) -> Seq<Seq<char>> {
    v.map_values(|w: &str| w@)
}

pub open spec fn digit(d: nat) -> char {
    ((d + 48) as u8) as char
}

/// `n` in decimal.
pub open spec fn decimal(n: nat) -> Seq<char>
    decreases n,
{
    if n < 10 {
        seq![digit(n)]
    } else {
        decimal(n / 10).push(digit(n % 10))
    }
}

/// The position as a listing shows it: right-aligned in three columns, then `.`.
pub open spec fn label(i: nat) -> Seq<char> {
    let d = decimal(i);
    let pad = if d.len() < 3 { (3 - d.len()) as nat } else { 0 };
    Seq::new(pad, |k: int| ' ') + d + seq!['.']
}

/// The line that lists a record at a position.
pub open spec fn display_text(v: TodoView, i: nat) -> Seq<char> {
    join_nonempty(seq![label(i), save_text(v)])
}

/// The line of a record in a summary of done tasks.
pub open spec fn summary_text(v: TodoView) -> Seq<char> {
    join_nonempty(seq![v.task, join_words(v.projects), join_words(v.tags)])
}

/// `v` marked done on day `today`: completion date set, priority cleared.
pub open spec fn done_on(v: TodoView, today: int) -> TodoView {
    TodoView { done_date: Some(iso_date(today)), pri: TodoPriority::Unset, ..v }
}

/// `v` with its due date set from the schedule word `s`, read on day `today`.
pub open spec fn scheduled_on(v: TodoView, today: int, s: Seq<char>) -> TodoView {
    TodoView { due_date: Some(resolve(today, s)), ..v }
}

/// Days from the date `d` (`YYYY-MM-DD`) to day `today`, if `d` reads as a date.
pub open spec fn days_between(d: Option<Seq<char>>, today: int) -> Option<int> {
    match d {
        Some(text) => match iso_days(text) {
            Some(n) => Some(today - n),
            None => None,
        },
        None => None,
    }
}

pub fn push_decimal(out: &mut Vec<char>, n: u64)
    ensures
        final(out)@ == old(out)@ + decimal(n as nat),
    decreases n,
{
    if n >= 10 {
        push_decimal(out, n / 10);
    }
    let d = (n % 10) as u8;
    out.push((d + 48u8) as char);
    assert(final(out)@ =~= old(out)@ + decimal(n as nat));
}

/// Joins strings with single spaces, empty ones included.
pub fn join_strings(ss: &[String]) -> (r: String)
    ensures
        r@ == join_words(string_views(ss@)),
{
    let mut out: Vec<char> = Vec::new();
    let n = ss.len();
    let mut i: usize = 0;
    while i < n
        invariant
            n == ss@.len(),
            i <= n,
            out@ == join_words(string_views(ss@.take(i as int))),
        decreases n - i,
    {
        let piece = chars_of(ss[i].as_str());
        assert(string_views(ss@.take(i + 1)).drop_last() =~= string_views(ss@.take(i as int)));
        assert(string_views(ss@.take(i + 1)).last() == ss@[i as int]@);
        if i > 0 {
            out.push(' ');
        }
        push_all(&mut out, piece.as_slice());
        i = i + 1;
        assert(out@ =~= join_words(string_views(ss@.take(i as int))));
    }
    assert(ss@.take(n as int) =~= ss@);
    string_from_chars(out.as_slice())
}

fn join_char_words(ts: &Vec<Vec<char>>) -> (r: Vec<char>)
    ensures
        r@ == join_words(char_views(ts@)),
{
    let mut out: Vec<char> = Vec::new();
    let n = ts.len();
    let mut i: usize = 0;
    while i < n
        invariant
            n == ts@.len(),
            i <= n,
            out@ == join_words(char_views(ts@.take(i as int))),
        decreases n - i,
    {
        assert(char_views(ts@.take(i + 1)).drop_last() =~= char_views(ts@.take(i as int)));
        assert(char_views(ts@.take(i + 1)).last() == ts@[i as int]@);
        if i > 0 {
            out.push(' ');
        }
        push_all(&mut out, ts[i].as_slice());
        i = i + 1;
        assert(out@ =~= join_words(char_views(ts@.take(i as int))));
    }
    assert(ts@.take(n as int) =~= ts@);
    out
}

fn is_x(t: &Vec<char>) -> (r: bool)
    ensures
        r == (t@ == seq!['x']),
{
    if t.len() == 1 && t[0] == 'x' {
        assert(t@ =~= seq!['x']);
        true
    } else {
        false
    }
}

fn is_priority_word(t: &Vec<char>) -> (r: bool)
    ensures
        r == is_priority_token(t@),
{
    t.len() == 3 && t[0] == '(' && t[2] == ')' && (t[1] as u32) < 0x80
}

fn is_due_word(t: &Vec<char>) -> (r: bool)
    ensures
        r == is_due_token(t@),
{
    if t.len() >= 4 && t[0] == 'd' && t[1] == 'u' && t[2] == 'e' && t[3] == ':' {
        assert(t@.take(4) =~= due_prefix());
        true
    } else {
        proof {
            if t@.len() >= 4 && t@.take(4) == due_prefix() {
                assert(t@.take(4)[0] == 'd');
                assert(t@.take(4)[1] == 'u');
                assert(t@.take(4)[2] == 'e');
                assert(t@.take(4)[3] == ':');
            }
        }
        false
    }
}

impl std::str::FromStr for Todo {
    type Err = TodoError;

    /// Reads a task line, as [`Todo::parse`] does.
    fn from_str(s: &str) -> (r: Result<Todo, TodoError>)
        ensures
            match r {
                Ok(t) => parse_line(s@) == Ok::<TodoView, TodoError>(t@),
                Err(e) => parse_line(s@) == Err::<TodoView, TodoError>(e),
            },
    {
        Todo::parse(s)
    }
}

impl Todo {
    /// A copy of the record.
    pub fn duplicate(&self) -> (r: Todo)
        ensures
            r@ == self@,
    {
        let projects = self.projects.clone();
        let tags = self.tags.clone();
        assert(string_views(projects@) =~= string_views(self.projects@));
        assert(string_views(tags@) =~= string_views(self.tags@));
        Todo {
            idx: self.idx,
            task: self.task.clone(),
            pri: self.pri,
            projects,
            tags,
            done_date: self.done_date.clone(),
            due_date: self.due_date.clone(),
        }
    }

    /// Reads a task line.
    pub fn parse(line: &str) -> (r: Result<Todo, TodoError>)
        ensures
            match r {
                Ok(t) => parse_line(line@) == Ok::<TodoView, TodoError>(t@),
                Err(e) => parse_line(line@) == Err::<TodoView, TodoError>(e),
            },
    {
        let cs = chars_of(line);
        let toks = tokenize(cs.as_slice());
        let ghost ts = tokens(line@);
        assert(char_views(toks@) == ts);
        let n = toks.len();
        let mut done_date: Option<String> = None;
        let mut start: usize = 0;
        if n > 0 && is_x(&toks[0]) {
            assert(ts[0] == toks@[0]@);
            if n < 2 {
                return Err(TodoError::MissingCompletionDate);
            }
            done_date = Some(string_from_chars(toks[1].as_slice()));
            assert(ts[1] == toks@[1]@);
            start = 2;
        } else {
            proof {
                if n > 0 {
                    assert(ts[0] == toks@[0]@);
                }
            }
        }
        let mut pri = TodoPriority::Unset;
        let mut desc: Vec<Vec<char>> = Vec::new();
        let mut projects: Vec<String> = Vec::new();
        let mut tags: Vec<String> = Vec::new();
        let mut due_date: Option<String> = None;
        let mut i: usize = start;
        assert(ts.subrange(start as int, start as int) =~= Seq::<Seq<char>>::empty());
        assert(char_views(desc@) =~= Seq::<Seq<char>>::empty());
        assert(string_views(projects@) =~= Seq::<Seq<char>>::empty());
        assert(string_views(tags@) =~= Seq::<Seq<char>>::empty());
        while i < n
            invariant
                n == toks@.len(),
                char_views(toks@) == ts,
                start <= i <= n,
                read_tokens(no_fields(), ts.subrange(start as int, i as int)) == (Fields {
                    pri,
                    desc: char_views(desc@),
                    projects: string_views(projects@),
                    tags: string_views(tags@),
                    due: opt_view(due_date),
                }),
            decreases n - i,
        {
            let t = &toks[i];
            let ghost tv = t@;
            assert(tv == ts[i as int]);
            assert(ts.subrange(start as int, i + 1).drop_last() =~= ts.subrange(
                start as int,
                i as int,
            ));
            assert(ts.subrange(start as int, i + 1).last() == tv);
            if is_priority_word(t) {
                pri = TodoPriority::from_char(t[1]);
            } else if is_due_word(t) {
                let rest = crate::text::slice_from(t, 4);
                due_date = Some(string_from_chars(rest.as_slice()));
            } else if t.len() > 0 && t[0] == '@' {
                let ghost before = tags@;
                tags.push(string_from_chars(t.as_slice()));
                assert(string_views(tags@) =~= string_views(before).push(tv));
            } else if t.len() > 0 && t[0] == '+' {
                let ghost before = projects@;
                projects.push(string_from_chars(t.as_slice()));
                assert(string_views(projects@) =~= string_views(before).push(tv));
            } else {
                let ghost before = desc@;
                let mut w: Vec<char> = Vec::new();
                push_all(&mut w, t.as_slice());
                desc.push(w);
                assert(char_views(desc@) =~= char_views(before).push(tv));
            }
            i = i + 1;
        }
        proof {
            if start == 2 {
                assert(ts.subrange(2, n as int) =~= ts.skip(2));
            } else {
                assert(ts.subrange(0, n as int) =~= ts);
            }
        }
        let words = join_char_words(&desc);
        Ok(Todo {
            idx: 0,
            task: string_from_chars(words.as_slice()),
            pri,
            projects,
            tags,
            done_date,
            due_date,
        })
    }

    fn lead_string(&self) -> (r: String)
        ensures
            r@ == lead(self@),
    {
        match &self.done_date {
            Some(d) => {
                let mut out: Vec<char> = Vec::new();
                out.push('x');
                out.push(' ');
                let dc = chars_of(d.as_str());
                push_all(&mut out, dc.as_slice());
                string_from_chars(out.as_slice())
            },
            None => self.pri.to_text(),
        }
    }

    fn due_string(&self) -> (r: String)
        ensures
            r@ == due_text(self@),
    {
        match &self.due_date {
            Some(d) => {
                let mut out: Vec<char> = Vec::new();
                out.push('d');
                out.push('u');
                out.push('e');
                out.push(':');
                let dc = chars_of(d.as_str());
                push_all(&mut out, dc.as_slice());
                assert(out@ =~= due_prefix() + d@);
                string_from_chars(out.as_slice())
            },
            None => {
                let out: Vec<char> = Vec::new();
                assert(out@ =~= seq![]);
                string_from_chars(out.as_slice())
            },
        }
    }

    /// The line that stores the task:
    /// `[x <done> | (<P>)] <task> [due:<date>] [projects] [tags]`, with empty
    /// parts left out and single spaces between the rest.
    pub fn format_for_save(&self) -> (r: String)
        ensures
            r@ == save_text(self@),
    {
        let mut pieces: Vec<String> = Vec::new();
        pieces.push(self.lead_string());
        pieces.push(self.task.clone());
        pieces.push(self.due_string());
        pieces.push(join_strings(self.projects.as_slice()));
        pieces.push(join_strings(self.tags.as_slice()));
        assert(string_views(pieces@) =~= seq![
            lead(self@),
            self@.task,
            due_text(self@),
            join_words(self@.projects),
            join_words(self@.tags),
        ]);
        join_non_empty(pieces.as_slice())
    }

    /// The line that lists the task at position `index`: the position
    /// right-aligned in three columns and a `.`, then the stored form.
    pub fn format_for_display(&self, index: usize) -> (r: String)
        ensures
            r@ == display_text(self@, index as nat),
    {
        let mut lab: Vec<char> = Vec::new();
        push_decimal(&mut lab, index as u64);
        let ghost d = decimal(index as nat);
        assert(lab@ == d);
        let mut out: Vec<char> = Vec::new();
        while out.len() + lab.len() < 3
            invariant
                lab@ == d,
                out@.len() + d.len() <= 3 || out@.len() == 0,
                forall|k: int| 0 <= k < out@.len() ==> out@[k] == ' ',
            decreases 3 - out@.len(),
        {
            out.push(' ');
        }
        push_all(&mut out, lab.as_slice());
        out.push('.');
        let ghost pad: nat = if d.len() < 3 { (3 - d.len()) as nat } else { 0 };
        assert(out@ =~= Seq::new(pad, |k: int| ' ') + d + seq!['.']);
        let mut pieces: Vec<String> = Vec::new();
        pieces.push(string_from_chars(out.as_slice()));
        pieces.push(self.format_for_save());
        assert(string_views(pieces@) =~= seq![label(index as nat), save_text(self@)]);
        join_non_empty(pieces.as_slice())
    }

    /// The line of the task in a summary of done tasks: description, projects
    /// and tags.
    pub fn donesummary_format(&self) -> (r: String)
        ensures
            r@ == summary_text(self@),
    {
        let mut pieces: Vec<String> = Vec::new();
        pieces.push(self.task.clone());
        pieces.push(join_strings(self.projects.as_slice()));
        pieces.push(join_strings(self.tags.as_slice()));
        assert(string_views(pieces@) =~= seq![
            self@.task,
            join_words(self@.projects),
            join_words(self@.tags),
        ]);
        join_non_empty(pieces.as_slice())
    }

    /// Whether every term of `positives` and none of `negatives` occurs in the
    /// description, projects and tags, ASCII case ignored.
    pub fn matches(&self, positives: &[&str], negatives: &[&str]) -> (r: bool)
        ensures
            r == matches_terms(self@, str_views(positives@), str_views(negatives@)),
    {
        let mut hay: Vec<char> = Vec::new();
        let tc = chars_of(self.task.as_str());
        push_all(&mut hay, tc.as_slice());
        let ps = join_strings(self.projects.as_slice());
        let pc = chars_of(ps.as_str());
        push_all(&mut hay, pc.as_slice());
        let ts = join_strings(self.tags.as_slice());
        let tsc = chars_of(ts.as_str());
        push_all(&mut hay, tsc.as_slice());
        let hs = string_from_chars(hay.as_slice());
        let h = lowered(hs.as_str());
        assert(h@ == lower_seq(haystack(self@)));
        let mut i: usize = 0;
        while i < positives.len()
            invariant
                h@ == lower_seq(haystack(self@)),
                i <= positives@.len(),
                forall|k: int| 0 <= k < i ==> has_term(self@, #[trigger] str_views(positives@)[k]),
            decreases positives@.len() - i,
        {
            let n = lowered(positives[i]);
            if !find(&h, &n) {
                assert(!has_term(self@, str_views(positives@)[i as int]));
                return false;
            }
            i = i + 1;
        }
        let mut j: usize = 0;
        while j < negatives.len()
            invariant
                h@ == lower_seq(haystack(self@)),
                j <= negatives@.len(),
                forall|k: int| 0 <= k < j ==> !has_term(self@, #[trigger] str_views(negatives@)[k]),
            decreases negatives@.len() - j,
        {
            let n = lowered(negatives[j]);
            if find(&h, &n) {
                assert(has_term(self@, str_views(negatives@)[j as int]));
                return false;
            }
            j = j + 1;
        }
        true
    }

    /// Adds `text` after the description, with a space between.
    pub fn append_text(&mut self, text: &str)
        ensures
            final(self)@ == (TodoView { task: old(self)@.task + seq![' '] + text@, ..old(self)@ }),
    {
        let mut out: Vec<char> = Vec::new();
        let tc = chars_of(self.task.as_str());
        push_all(&mut out, tc.as_slice());
        out.push(' ');
        let xc = chars_of(text);
        push_all(&mut out, xc.as_slice());
        assert(out@ =~= tc@ + seq![' '] + text@);
        self.task = string_from_chars(out.as_slice());
    }

    /// Puts `text` before the description, with a space between.
    pub fn prepend_text(&mut self, text: &str)
        ensures
            final(self)@ == (TodoView { task: text@ + seq![' '] + old(self)@.task, ..old(self)@ }),
    {
        let mut out: Vec<char> = Vec::new();
        let xc = chars_of(text);
        push_all(&mut out, xc.as_slice());
        out.push(' ');
        let tc = chars_of(self.task.as_str());
        push_all(&mut out, tc.as_slice());
        assert(out@ =~= text@ + seq![' '] + tc@);
        self.task = string_from_chars(out.as_slice());
    }

    /// Sets the priority; [`TodoPriority::Unset`] removes it.
    pub fn prioritise(&mut self, priority: TodoPriority)
        ensures
            final(self)@ == (TodoView { pri: priority, ..old(self)@ }),
    {
        self.pri = priority;
    }

    /// Marks the task done on day `today`, which also clears its priority.
    pub fn mark_done_on(&mut self, today: Day)
        ensures
            final(self)@ == done_on(old(self)@, today.num()),
    {
        self.done_date = Some(today.format_iso());
        self.pri = TodoPriority::Unset;
    }

    /// Marks the task done today (UTC). Where the clock shows a day outside
    /// 0001-01-01 to 9999-12-31 the task is left as it was.
    pub fn mark_done(&mut self)
        ensures
            final(self)@ == old(self)@ || exists|d: Day| final(self)@ == done_on(old(self)@, d.num()),
    {
        match date_today() {
            Some(today) => self.mark_done_on(today),
            None => {},
        }
    }

    /// Marks the task as not done.
    pub fn mark_undone(&mut self)
        ensures
            final(self)@ == (TodoView { done_date: None, ..old(self)@ }),
    {
        self.done_date = None;
    }

    /// Sets the due date from a schedule word (see [`crate::date::resolve`])
    /// read on day `today`.
    pub fn schedule_on(&mut self, today: Day, date: &str)
        ensures
            final(self)@ == scheduled_on(old(self)@, today.num(), date@),
    {
        self.due_date = Some(crate::date::parse_date_string_relative(today, date));
    }

    /// Sets the due date from a schedule word read today (UTC). Where the clock
    /// shows a day outside 0001-01-01 to 9999-12-31 the task is left as it was.
    pub fn schedule(&mut self, date: &str)
        ensures
            final(self)@ == old(self)@ || exists|d: Day| final(self)@ == scheduled_on(old(self)@, d.num(), date@),
    {
        match date_today() {
            Some(today) => self.schedule_on(today, date),
            None => {},
        }
    }

    /// Removes the due date.
    pub fn unschedule(&mut self)
        ensures
            final(self)@ == (TodoView { due_date: None, ..old(self)@ }),
    {
        self.due_date = None;
    }

    /// Days from the due date to `today`: positive when overdue, negative when
    /// still ahead. An error names the task when it has no due date or the date
    /// does not read as a `YYYY-MM-DD` date.
    pub fn days_overdue(&self, today: Day) -> (r: Result<i64, TodoError>)
        ensures
            match days_between(self@.due_date, today.num()) {
                Some(n) => r is Ok && r->Ok_0 as int == n,
                None => r == Err::<i64, TodoError>(TodoError::MalformedDate(self.idx)),
            },
            r matches Ok(d) ==> today.num() - crate::date::MAX_CHRONO_DAY <= d <= today.num()
                - crate::date::MIN_CHRONO_DAY,
    {
        let t = today.days();
        match &self.due_date {
            Some(d) => match parse_iso_days(d.as_str()) {
                Some(n) => Ok(t as i64 - n as i64),
                None => Err(TodoError::MalformedDate(self.idx)),
            },
            None => Err(TodoError::MalformedDate(self.idx)),
        }
    }

    /// Days from the completion date to `today`. An error names the task when
    /// it is not done or the date does not read as a `YYYY-MM-DD` date.
    pub fn days_since_done(&self, today: Day) -> (r: Result<i64, TodoError>)
        ensures
            match days_between(self@.done_date, today.num()) {
                Some(n) => r is Ok && r->Ok_0 as int == n,
                None => r == Err::<i64, TodoError>(TodoError::MalformedDate(self.idx)),
            },
            r matches Ok(d) ==> today.num() - crate::date::MAX_CHRONO_DAY <= d <= today.num()
                - crate::date::MIN_CHRONO_DAY,
    {
        let t = today.days();
        match &self.done_date {
            Some(d) => match parse_iso_days(d.as_str()) {
                Some(n) => Ok(t as i64 - n as i64),
                None => Err(TodoError::MalformedDate(self.idx)),
            },
            None => Err(TodoError::MalformedDate(self.idx)),
        }
    }

    /// The targets of the Markdown links in the description.
    pub fn links(&self) -> (r: Vec<String>)
        ensures
            string_views(r@) == link_targets(self@.task),
    {
        markdown_links(self.task.as_str())
    }
}

} // verus!
