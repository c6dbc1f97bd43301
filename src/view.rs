//! The task lists that the listing commands show, in the order shown.

use crate::date::{iso_date, Day};
use crate::error::TodoError;
use crate::text::{chars_of, push_all, string_from_chars, string_views};
use crate::todo::{days_between, decimal, display_text, push_decimal, summary_text, Todo, TodoView};
use crate::utility::{by_priority, selected, sort_by_priority, todo_filter, views};
use vstd::prelude::*;

verus! {

/// The records of `s` that have a priority, in their order.
pub open spec fn prioritised(s: Seq<TodoView>) -> Seq<TodoView>
    decreases s.len(),
{
    if s.len() == 0 {
        seq![]
    } else if s.last().pri != crate::priority::TodoPriority::Unset {
        prioritised(s.drop_last()).push(s.last())
    } else {
        prioritised(s.drop_last())
    }
}

/// The records of `s` without a due date, in their order.
pub open spec fn undated(s: Seq<TodoView>) -> Seq<TodoView>
    decreases s.len(),
{
    if s.len() == 0 {
        seq![]
    } else if s.last().due_date is None {
        undated(s.drop_last()).push(s.last())
    } else {
        undated(s.drop_last())
    }
}

/// Keeps the copies of the records that have a priority (`want_priority`) or
/// that have no due date (`!want_priority`).
fn keep(todos: Vec<Todo>, want_priority: bool) -> (r: Vec<Todo>)
    ensures
        want_priority ==> views(r@) == prioritised(views(todos@)),
        !want_priority ==> views(r@) == undated(views(todos@)),
{
    let ghost vs = views(todos@);
    let mut out: Vec<Todo> = Vec::new();
    let mut i: usize = 0;
    while i < todos.len()
        invariant
            vs == views(todos@),
            i <= todos@.len(),
            want_priority ==> views(out@) == prioritised(vs.take(i as int)),
            !want_priority ==> views(out@) == undated(vs.take(i as int)),
        decreases todos@.len() - i,
    {
        assert(vs.take(i + 1).drop_last() =~= vs.take(i as int));
        assert(vs.take(i + 1).last() == todos@[i as int]@);
        let t = &todos[i];
        let wanted = if want_priority {
            t.pri != crate::priority::TodoPriority::Unset
        } else {
            t.due_date.is_none()
        };
        if wanted {
            let ghost before = out@;
            out.push(t.duplicate());
            assert(views(out@) =~= views(before).push(todos@[i as int]@));
        }
        i = i + 1;
    }
    assert(vs.take(todos@.len() as int) =~= vs);
    out
}

/// The open tasks that the filter words select, by priority.
pub fn list(todos: &[Todo], filters: &[String]) -> (r: Vec<Todo>)
    ensures
        views(r@) == by_priority(selected(views(todos@), string_views(filters@))),
{
    let picked = todo_filter(todos, filters);
    sort_by_priority(picked.as_slice())
}

/// The selected open tasks that have a priority, by priority.
pub fn list_priority(todos: &[Todo], filters: &[String]) -> (r: Vec<Todo>)
    ensures
        views(r@) == by_priority(prioritised(selected(views(todos@), string_views(filters@)))),
{
    let picked = keep(todo_filter(todos, filters), true);
    sort_by_priority(picked.as_slice())
}

/// The done tasks that the filter words select, by priority.
pub fn done(dones: &[Todo], filters: &[String]) -> (r: Vec<Todo>)
    ensures
        views(r@) == by_priority(selected(views(dones@), string_views(filters@))),
{
    let picked = todo_filter(dones, filters);
    sort_by_priority(picked.as_slice())
}

/// The selected tasks without a due date, by priority.
pub fn no_date(todos: &[Todo], filters: &[String]) -> (r: Vec<Todo>)
    ensures
        views(r@) == by_priority(undated(selected(views(todos@), string_views(filters@)))),
{
    let picked = keep(todo_filter(todos, filters), false);
    sort_by_priority(picked.as_slice())
}

pub open spec fn pair_views(s: Seq<(i64, Todo)>) -> Seq<(int, TodoView)> {
    s.map_values(|p: (i64, Todo)| (p.0 as int, p.1@))
}

/// `x` placed into `s`, which is ordered by falling key, after every element
/// whose key is at least its own.
pub open spec fn insert_by_key(s: Seq<(int, TodoView)>, x: (int, TodoView)) -> Seq<(int, TodoView)>
    decreases s.len(),
{
    if s.len() == 0 || s.last().0 >= x.0 {
        s.push(x)
    } else {
        insert_by_key(s.drop_last(), x).push(s.last())
    }
}

/// `s` ordered by falling key; elements with equal keys keep their order.
pub open spec fn sort_by_key_desc(s: Seq<(int, TodoView)>) -> Seq<(int, TodoView)>
    decreases s.len(),
{
    if s.len() == 0 {
        seq![]
    } else {
        insert_by_key(sort_by_key_desc(s.drop_last()), s.last())
    }
}

proof fn lemma_insert_at(s: Seq<(int, TodoView)>, x: (int, TodoView), k: int)
    requires
        0 <= k <= s.len(),
        k == 0 || s[k - 1].0 >= x.0,
        forall|j: int| k <= j < s.len() ==> (#[trigger] s[j]).0 < x.0,
    ensures
        insert_by_key(s, x) == s.take(k).push(x) + s.skip(k),
    decreases s.len(),
{
    if k == s.len() {
        assert(s.take(k) =~= s);
        assert(s.skip(k) =~= Seq::<(int, TodoView)>::empty());
        assert(s.push(x) + Seq::<(int, TodoView)>::empty() =~= s.push(x));
    } else {
        assert(s.last().0 < x.0);
        let t = s.drop_last();
        lemma_insert_at(t, x, k);
        assert(t.take(k) =~= s.take(k));
        assert((t.take(k).push(x) + t.skip(k)).push(s.last()) =~= s.take(k).push(x) + s.skip(k));
    }
}

proof fn lemma_insert_members(s: Seq<(int, TodoView)>, x: (int, TodoView))
    ensures
        forall|i: int| 0 <= i < insert_by_key(s, x).len() ==> #[trigger] insert_by_key(s, x)[i] == x
            || s.contains(insert_by_key(s, x)[i]),
        insert_by_key(s, x).len() == s.len() + 1,
    decreases s.len(),
{
    if !(s.len() == 0 || s.last().0 >= x.0) {
        lemma_insert_members(s.drop_last(), x);
        let r = insert_by_key(s, x);
        let r1 = insert_by_key(s.drop_last(), x);
        assert forall|i: int| 0 <= i < r.len() implies #[trigger] r[i] == x || s.contains(r[i]) by {
            if i < r1.len() {
                assert(r[i] == r1[i]);
                if r1[i] != x {
                    let j = choose|j: int| 0 <= j < s.drop_last().len() && s.drop_last()[j] == r1[i];
                    assert(s[j] == r1[i]);
                }
            } else {
                assert(r[i] == s[s.len() - 1]);
            }
        }
    } else {
        let r = s.push(x);
        assert forall|i: int| 0 <= i < r.len() implies #[trigger] r[i] == x || s.contains(r[i]) by {
            if i < s.len() {
                assert(r[i] == s[i]);
            }
        }
    }
}

fn insert_desc(out: &mut Vec<(i64, Todo)>, x: (i64, Todo))
    ensures
        pair_views(final(out)@) == insert_by_key(pair_views(old(out)@), (x.0 as int, x.1@)),
{
    let ghost s = pair_views(out@);
    let ghost xv = (x.0 as int, x.1@);
    let mut k = out.len();
    while k > 0 && out[k - 1].0 < x.0
        invariant
            k <= out@.len(),
            s == pair_views(out@),
            forall|j: int| k <= j < s.len() ==> (#[trigger] s[j]).0 < xv.0,
            xv == (x.0 as int, x.1@),
        decreases k,
    {
        k = k - 1;
    }
    proof {
        lemma_insert_at(s, xv, k as int);
    }
    let ghost before = out@;
    out.insert(k, x);
    assert(pair_views(out@) =~= s.take(k as int).push(xv) + s.skip(k as int));
}

/// The selected records that have a due date, with the days they are overdue;
/// the error of the first whose date does not read.
pub open spec fn overdue_pairs(s: Seq<TodoView>, today: int) -> Result<Seq<(int, TodoView)>, TodoError>
    decreases s.len(),
{
    if s.len() == 0 {
        Ok(seq![])
    } else {
        match overdue_pairs(s.drop_last(), today) {
            Err(e) => Err(e),
            Ok(ps) => {
                let v = s.last();
                if v.due_date is None {
                    Ok(ps)
                } else {
                    match days_between(v.due_date, today) {
                        Some(d) => Ok(ps.push((d, v))),
                        None => Err(TodoError::MalformedDate(v.idx as usize)),
                    }
                }
            },
        }
    }
}

/// The pairs that the agenda shows: overdue, due today, or due within
/// `horizon` days.
pub open spec fn within(s: Seq<(int, TodoView)>, horizon: int) -> Seq<(int, TodoView)>
    decreases s.len(),
{
    if s.len() == 0 {
        seq![]
    } else if s.last().0 < 0 && -s.last().0 > horizon {
        within(s.drop_last(), horizon)
    } else {
        within(s.drop_last(), horizon).push(s.last())
    }
}

pub open spec fn dots(n: int) -> Seq<char> {
    Seq::new(if n > 0 { n as nat } else { 0 }, |i: int| '.')
}

/// `Today`, `Overdue N days` or `In N days`.
pub open spec fn due_heading(d: int) -> Seq<char> {
    if d == 0 {
        "Today"@
    } else if d > 0 {
        "Overdue "@ + decimal(d as nat) + " days"@
    } else {
        "In "@ + decimal((-d) as nat) + " days"@
    }
}

/// A heading padded with dots to a fixed width.
pub open spec fn heading_line(h: Seq<char>) -> Seq<char> {
    "..... "@ + h + seq![' '] + dots(73 - h.len())
}

/// The agenda's lines: a heading before each run of tasks with the same number
/// of days, blank lines around headings, and each task's listing line.
pub open spec fn due_lines(s: Seq<(int, TodoView)>) -> Seq<Seq<char>>
    decreases s.len(),
{
    if s.len() == 0 {
        seq![]
    } else {
        let d = s.last().0;
        let v = s.last().1;
        let head = if s.len() == 1 {
            seq![heading_line(due_heading(d)), seq![]]
        } else if s[s.len() - 2].0 != d {
            seq![seq![], heading_line(due_heading(d)), seq![]]
        } else {
            seq![]
        };
        due_lines(s.drop_last()) + head + seq![display_text(v, v.idx)]
    }
}

fn heading(d: i64) -> (r: Vec<char>)
    requires
        -0x1_0000_0000 <= d <= 0x1_0000_0000,
    ensures
        r@ == heading_line(due_heading(d as int)),
{
    let mut h: Vec<char> = Vec::new();
    if d == 0 {
        let w = chars_of("Today");
        push_all(&mut h, w.as_slice());
    } else if d > 0 {
        let w = chars_of("Overdue ");
        push_all(&mut h, w.as_slice());
        push_decimal(&mut h, d as u64);
        let e = chars_of(" days");
        push_all(&mut h, e.as_slice());
    } else {
        let w = chars_of("In ");
        push_all(&mut h, w.as_slice());
        push_decimal(&mut h, (-d) as u64);
        let e = chars_of(" days");
        push_all(&mut h, e.as_slice());
    }
    let mut out = chars_of("..... ");
    push_all(&mut out, h.as_slice());
    out.push(' ');
    let mut n: usize = 0;
    let target: usize = if h.len() < 73 { 73 - h.len() } else { 0 };
    while n < target
        invariant
            n <= target,
            out@ == "..... "@ + h@ + seq![' '] + Seq::new(n as nat, |i: int| '.'),
        decreases target - n,
    {
        out.push('.');
        n = n + 1;
        assert(out@ =~= "..... "@ + h@ + seq![' '] + Seq::new(n as nat, |i: int| '.'));
    }
    assert(dots(73 - h@.len()) =~= Seq::new(target as nat, |i: int| '.'));
    out
}

fn push_line(lines: &mut Vec<String>, l: &[char])
    ensures
        string_views(final(lines)@) == string_views(old(lines)@).push(l@),
{
    let ghost before = lines@;
    lines.push(string_from_chars(l));
    assert(string_views(lines@) =~= string_views(before).push(l@));
}

/// The agenda: the selected tasks that have a due date, most overdue first, up
/// to `n_days` days ahead, under headings. An error names the first selected
/// task whose due date does not read.
pub fn due(todos: &[Todo], n_days: usize, filters: &[String], today: Day) -> (r: Result<
    Vec<String>,
    TodoError,
>)
    ensures
        match overdue_pairs(selected(views(todos@), string_views(filters@)), today.num()) {
            Err(e) => r == Err::<Vec<String>, TodoError>(e),
            Ok(ps) => r matches Ok(lines) && string_views(lines@) == due_lines(
                within(sort_by_key_desc(ps), n_days as int),
            ),
        },
{
    let picked = todo_filter(todos, filters);
    let ghost sel = views(picked@);
    let tn = today.days();
    let ghost t = today.num();
    let mut sorted: Vec<(i64, Todo)> = Vec::new();
    let mut i: usize = 0;
    let mut j: usize = 0;
    assert(sel.take(0) =~= Seq::<TodoView>::empty());
    while i < picked.len()
        invariant
            sel == views(picked@),
            sel == selected(views(todos@), string_views(filters@)),
            i <= picked@.len(),
            t == today.num(),
            tn == t,
            1 <= tn <= crate::date::MAX_DAY,
            overdue_pairs(sel.take(i as int), t) matches Ok(ps) && pair_views(sorted@)
                == sort_by_key_desc(ps),
            forall|k: int| 0 <= k < sorted@.len() ==> -0x1_0000_0000 <= (#[trigger] sorted@[k]).0
                <= 0x1_0000_0000,
        decreases picked@.len() - i,
    {
        assert(sel.take(i + 1).drop_last() =~= sel.take(i as int));
        assert(sel.take(i + 1).last() == picked@[i as int]@);
        let ghost ps = overdue_pairs(sel.take(i as int), t)->Ok_0;
        if picked[i].due_date.is_some() {
            match picked[i].days_overdue(today) {
                Ok(d) => {
                    let ghost dd = days_between(picked@[i as int]@.due_date, t);
                    assert(dd is Some);
                    assert(d as int == dd->Some_0);
                    assert(-0x1_0000_0000 <= d <= 0x1_0000_0000);
                    let ghost before = sorted@;
                    proof {
                        lemma_insert_members(pair_views(before), (d as int, picked@[i as int]@));
                    }
                    let c = picked[i].duplicate();
                    let ghost x = (d as int, c@);
                    insert_desc(&mut sorted, (d, c));
                    assert(ps.push(x).drop_last() =~= ps);
                    assert(sort_by_key_desc(ps.push(x)) == insert_by_key(sort_by_key_desc(ps), x));
                    assert(overdue_pairs(sel.take(i + 1), t) == Ok::<Seq<(int, TodoView)>, TodoError>(ps.push(x)));
                    assert forall|k: int| 0 <= k < sorted@.len() implies -0x1_0000_0000 <= (
                    #[trigger] sorted@[k]).0 <= 0x1_0000_0000 by {
                        let e = pair_views(sorted@)[k];
                        assert(e.0 == sorted@[k].0);
                        if e != (d as int, picked@[i as int]@) {
                            let m = choose|m: int|
                                0 <= m < pair_views(before).len() && pair_views(before)[m] == e;
                            assert(pair_views(before)[m].0 == before[m].0);
                        }
                    }
                },
                Err(e) => {
                    assert(overdue_pairs(sel.take(i + 1), t) == Err::<Seq<(int, TodoView)>, TodoError>(e));
                    proof {
                        lemma_overdue_err(sel, i as int + 1, t);
                    }
                    assert(overdue_pairs(sel, t) == Err::<Seq<(int, TodoView)>, TodoError>(e));
                    assert(sel == selected(views(todos@), string_views(filters@)));
                    return Err(e);
                },
            }
        }
        i = i + 1;
    }
    assert(sel.take(picked@.len() as int) =~= sel);
    let ghost all = pair_views(sorted@);
    let mut shown: Vec<(i64, Todo)> = Vec::new();
    while j < sorted.len()
        invariant
            all == pair_views(sorted@),
            all == sort_by_key_desc(overdue_pairs(selected(views(todos@), string_views(filters@)), today.num())->Ok_0),
            overdue_pairs(selected(views(todos@), string_views(filters@)), today.num()) is Ok,
            j <= sorted@.len(),
            pair_views(shown@) == within(all.take(j as int), n_days as int),
            forall|k: int| 0 <= k < sorted@.len() ==> -0x1_0000_0000 <= (#[trigger] sorted@[k]).0
                <= 0x1_0000_0000,
            forall|k: int| 0 <= k < shown@.len() ==> -0x1_0000_0000 <= (#[trigger] shown@[k]).0
                <= 0x1_0000_0000,
        decreases sorted@.len() - j,
    {
        assert(all.take(j + 1).drop_last() =~= all.take(j as int));
        assert(all.take(j + 1).last() == all[j as int]);
        let d = sorted[j].0;
        assert(d == all[j as int].0);
        if !(d < 0 && ((-d) as u64) > (n_days as u64)) {
            let ghost before = shown@;
            shown.push((d, sorted[j].1.duplicate()));
            assert(pair_views(shown@) =~= pair_views(before).push(all[j as int]));
        }
        j = j + 1;
    }
    assert(all.take(sorted@.len() as int) =~= all);
    let ghost sh = pair_views(shown@);
    let mut lines: Vec<String> = Vec::new();
    let mut k: usize = 0;
    while k < shown.len()
        invariant
            sh == pair_views(shown@),
            sh == within(sort_by_key_desc(overdue_pairs(selected(views(todos@), string_views(filters@)), today.num())->Ok_0), n_days as int),
            overdue_pairs(selected(views(todos@), string_views(filters@)), today.num()) is Ok,
            k <= shown@.len(),
            string_views(lines@) == due_lines(sh.take(k as int)),
            forall|m: int| 0 <= m < shown@.len() ==> -0x1_0000_0000 <= (#[trigger] shown@[m]).0
                <= 0x1_0000_0000,
        decreases shown@.len() - k,
    {
        let ghost pre = sh.take(k as int);
        assert(sh.take(k + 1).drop_last() =~= pre);
        assert(sh.take(k + 1).last() == sh[k as int]);
        let d = shown[k].0;
        let ghost before = string_views(lines@);
        if k == 0 || shown[k - 1].0 != d {
            if k > 0 {
                assert(sh.take(k + 1)[k - 1] == sh[k - 1]);
                let empty: Vec<char> = Vec::new();
                push_line(&mut lines, empty.as_slice());
            }
            let h = heading(d);
            push_line(&mut lines, h.as_slice());
            let empty: Vec<char> = Vec::new();
            push_line(&mut lines, empty.as_slice());
        } else {
            assert(sh.take(k + 1)[k - 1] == sh[k - 1]);
        }
        let t = &shown[k].1;
        let shown_line = t.format_for_display(t.idx);
        let ghost mid = string_views(lines@);
        lines.push(shown_line);
        assert(string_views(lines@) =~= mid.push(shown_line@));
        k = k + 1;
        assert(string_views(lines@) =~= due_lines(sh.take(k as int)));
    }
    assert(sh.take(shown@.len() as int) =~= sh);
    Ok(lines)
}

proof fn lemma_overdue_err(s: Seq<TodoView>, k: int, today: int)
    requires
        0 <= k <= s.len(),
        overdue_pairs(s.take(k), today) is Err,
    ensures
        overdue_pairs(s, today) == overdue_pairs(s.take(k), today),
    decreases s.len() - k,
{
    if k < s.len() {
        assert(s.take(k + 1).drop_last() =~= s.take(k));
        lemma_overdue_err(s, k + 1, today);
    } else {
        assert(s.take(k) =~= s);
    }
}

/// The selected done tasks finished fewer than `n_days` days before `today`,
/// with those days; the error of the first selected task whose completion
/// date does not read.
pub open spec fn since_done_pairs(s: Seq<TodoView>, today: int, n_days: int) -> Result<
    Seq<(int, TodoView)>,
    TodoError,
>
    decreases s.len(),
{
    if s.len() == 0 {
        Ok(seq![])
    } else {
        match since_done_pairs(s.drop_last(), today, n_days) {
            Err(e) => Err(e),
            Ok(ps) => {
                let v = s.last();
                match days_between(v.done_date, today) {
                    Some(d) => if d < n_days {
                        Ok(ps.push((d, v)))
                    } else {
                        Ok(ps)
                    },
                    None => Err(TodoError::MalformedDate(v.idx as usize)),
                }
            },
        }
    }
}

/// The pairs with a key of at least zero.
pub open spec fn not_ahead(s: Seq<(int, TodoView)>) -> Seq<(int, TodoView)>
    decreases s.len(),
{
    if s.len() == 0 {
        seq![]
    } else if s.last().0 >= 0 {
        not_ahead(s.drop_last()).push(s.last())
    } else {
        not_ahead(s.drop_last())
    }
}

/// The heading of the day `n`.
pub open spec fn day_heading(n: int) -> Seq<char> {
    "... "@ + iso_date(n) + " .........."@
}

pub open spec fn summary_body(s: Seq<(int, TodoView)>, today: int) -> Seq<Seq<char>>
    decreases s.len(),
{
    if s.len() == 0 {
        seq![]
    } else {
        let d = s.last().0;
        let head = if s.len() == 1 {
            seq![day_heading(today - d)]
        } else if s[s.len() - 2].0 != d {
            seq![seq![], day_heading(today - d)]
        } else {
            seq![]
        };
        summary_body(s.drop_last(), today) + head + seq!["    "@ + summary_text(s.last().1)]
    }
}

/// The summary's lines: for each day, newest first, a heading with the date and
/// the tasks finished that day, and a blank line after each day.
pub open spec fn summary_lines(s: Seq<(int, TodoView)>, today: int) -> Seq<Seq<char>> {
    if s.len() == 0 {
        seq![]
    } else {
        summary_body(s, today).push(seq![])
    }
}

/// The done tasks that the filter words select, finished within the last
/// `n_days` days before `today`, grouped by day. An error names the first
/// selected task whose completion date does not read.
#[verifier::rlimit(40)]
pub fn done_summary(dones: &[Todo], filters: &[String], n_days: i64, today: Day) -> (r: Result<
    Vec<String>,
    TodoError,
>)
    ensures
        match since_done_pairs(selected(views(dones@), string_views(filters@)), today.num(), n_days as int) {
            Err(e) => r == Err::<Vec<String>, TodoError>(e),
            Ok(ps) => r matches Ok(lines) && string_views(lines@) == summary_lines(
                not_ahead(sort_by_key_desc(ps)),
                today.num(),
            ),
        },
{
    let picked = todo_filter(dones, filters);
    let ghost sel = views(picked@);
    let tn = today.days();
    let ghost t = today.num();
    let ghost nd = n_days as int;
    let mut sorted: Vec<(i64, Todo)> = Vec::new();
    let mut i: usize = 0;
    assert(sel.take(0) =~= Seq::<TodoView>::empty());
    while i < picked.len()
        invariant
            sel == views(picked@),
            sel == selected(views(dones@), string_views(filters@)),
            i <= picked@.len(),
            t == today.num(),
            nd == n_days as int,
            tn == t,
            1 <= tn <= crate::date::MAX_DAY,
            since_done_pairs(sel.take(i as int), t, nd) matches Ok(ps) && pair_views(sorted@)
                == sort_by_key_desc(ps),
            forall|k: int| 0 <= k < sorted@.len() ==> tn - crate::date::MAX_CHRONO_DAY <= (
            #[trigger] sorted@[k]).0 <= tn - crate::date::MIN_CHRONO_DAY,
        decreases picked@.len() - i,
    {
        assert(sel.take(i + 1).drop_last() =~= sel.take(i as int));
        assert(sel.take(i + 1).last() == picked@[i as int]@);
        let ghost ps = since_done_pairs(sel.take(i as int), t, nd)->Ok_0;
        match picked[i].days_since_done(today) {
            Ok(d) => {
                let ghost dd = days_between(picked@[i as int]@.done_date, t);
                assert(dd is Some);
                assert(d as int == dd->Some_0);
                if d < n_days {
                    let ghost before = sorted@;
                    let c = picked[i].duplicate();
                    let ghost x = (d as int, c@);
                    proof {
                        lemma_insert_members(pair_views(before), x);
                    }
                    insert_desc(&mut sorted, (d, c));
                    assert(ps.push(x).drop_last() =~= ps);
                    assert(sort_by_key_desc(ps.push(x)) == insert_by_key(sort_by_key_desc(ps), x));
                    assert(since_done_pairs(sel.take(i + 1), t, nd) == Ok::<Seq<(int, TodoView)>, TodoError>(
                        ps.push(x),
                    ));
                    assert forall|k: int| 0 <= k < sorted@.len() implies tn - crate::date::MAX_CHRONO_DAY <= (
                    #[trigger] sorted@[k]).0 <= tn - crate::date::MIN_CHRONO_DAY by {
                        let e = pair_views(sorted@)[k];
                        assert(e.0 == sorted@[k].0);
                        if e != x {
                            let m = choose|m: int|
                                0 <= m < pair_views(before).len() && pair_views(before)[m] == e;
                            assert(pair_views(before)[m].0 == before[m].0);
                        }
                    }
                }
            },
            Err(e) => {
                assert(since_done_pairs(sel.take(i + 1), t, nd) == Err::<Seq<(int, TodoView)>, TodoError>(e));
                proof {
                    lemma_since_done_err(sel, i as int + 1, t, nd);
                }
                return Err(e);
            },
        }
        i = i + 1;
    }
    assert(sel.take(picked@.len() as int) =~= sel);
    let ghost all = pair_views(sorted@);
    let mut shown: Vec<(i64, Todo)> = Vec::new();
    let mut j: usize = 0;
    while j < sorted.len()
        invariant
            all == pair_views(sorted@),
            j <= sorted@.len(),
            pair_views(shown@) == not_ahead(all.take(j as int)),
            1 <= tn <= crate::date::MAX_DAY,
            forall|k: int| 0 <= k < sorted@.len() ==> tn - crate::date::MAX_CHRONO_DAY <= (
            #[trigger] sorted@[k]).0 <= tn - crate::date::MIN_CHRONO_DAY,
            forall|k: int| 0 <= k < shown@.len() ==> tn - crate::date::MAX_CHRONO_DAY <= (
            #[trigger] shown@[k]).0 <= tn - crate::date::MIN_CHRONO_DAY,
        decreases sorted@.len() - j,
    {
        assert(all.take(j + 1).drop_last() =~= all.take(j as int));
        assert(all.take(j + 1).last() == all[j as int]);
        let d = sorted[j].0;
        assert(d == all[j as int].0);
        if d >= 0 {
            let ghost before = shown@;
            shown.push((d, sorted[j].1.duplicate()));
            assert(pair_views(shown@) =~= pair_views(before).push(all[j as int]));
        }
        j = j + 1;
    }
    assert(all.take(sorted@.len() as int) =~= all);
    let ghost sh = pair_views(shown@);
    let mut lines: Vec<String> = Vec::new();
    let mut k: usize = 0;
    let indent = chars_of("    ");
    while k < shown.len()
        invariant
            sh == pair_views(shown@),
            k <= shown@.len(),
            tn == t,
            indent@ == "    "@,
            1 <= tn <= crate::date::MAX_DAY,
            string_views(lines@) == summary_body(sh.take(k as int), t),
            forall|m: int| 0 <= m < shown@.len() ==> tn - crate::date::MAX_CHRONO_DAY <= (
            #[trigger] shown@[m]).0 <= tn - crate::date::MIN_CHRONO_DAY,
        decreases shown@.len() - k,
    {
        let ghost pre = sh.take(k as int);
        assert(sh.take(k + 1).drop_last() =~= pre);
        assert(sh.take(k + 1).last() == sh[k as int]);
        let d = shown[k].0;
        if k == 0 || shown[k - 1].0 != d {
            if k > 0 {
                assert(sh.take(k + 1)[k - 1] == sh[k - 1]);
                let empty: Vec<char> = Vec::new();
                push_line(&mut lines, empty.as_slice());
            }
            let n = (tn as i64 - d) as i32;
            let date = crate::date::format_iso(n);
            let mut h = chars_of("... ");
            let dc = chars_of(date.as_str());
            push_all(&mut h, dc.as_slice());
            let tail = chars_of(" ..........");
            push_all(&mut h, tail.as_slice());
            push_line(&mut lines, h.as_slice());
        } else {
            assert(sh.take(k + 1)[k - 1] == sh[k - 1]);
        }
        let mut item: Vec<char> = Vec::new();
        push_all(&mut item, indent.as_slice());
        let text = shown[k].1.donesummary_format();
        let tc = chars_of(text.as_str());
        push_all(&mut item, tc.as_slice());
        push_line(&mut lines, item.as_slice());
        k = k + 1;
        assert(string_views(lines@) =~= summary_body(sh.take(k as int), t));
    }
    assert(sh.take(shown@.len() as int) =~= sh);
    if shown.len() > 0 {
        let empty: Vec<char> = Vec::new();
        push_line(&mut lines, empty.as_slice());
    }
    Ok(lines)
}

proof fn lemma_since_done_err(s: Seq<TodoView>, k: int, today: int, n_days: int)
    requires
        0 <= k <= s.len(),
        since_done_pairs(s.take(k), today, n_days) is Err,
    ensures
        since_done_pairs(s, today, n_days) == since_done_pairs(s.take(k), today, n_days),
    decreases s.len() - k,
{
    if k < s.len() {
        assert(s.take(k + 1).drop_last() =~= s.take(k));
        lemma_since_done_err(s, k + 1, today, n_days);
    } else {
        assert(s.take(k) =~= s);
    }
}

/// The projects (`tags == false`) or the tags (`tags == true`) of a record.
pub open spec fn labels_of(v: TodoView, tags: bool) -> Seq<Seq<char>> {
    if tags {
        v.tags
    } else {
        v.projects
    }
}

/// Every project (or tag) of every record, in order, repeats included.
pub open spec fn all_labels(s: Seq<TodoView>, tags: bool) -> Seq<Seq<char>>
    decreases s.len(),
{
    if s.len() == 0 {
        seq![]
    } else {
        all_labels(s.drop_last(), tags) + labels_of(s.last(), tags)
    }
}

/// Each word of `ws` once, in order of first appearance.
pub open spec fn distinct(ws: Seq<Seq<char>>) -> Seq<Seq<char>>
    decreases ws.len(),
{
    if ws.len() == 0 {
        seq![]
    } else if distinct(ws.drop_last()).contains(ws.last()) {
        distinct(ws.drop_last())
    } else {
        distinct(ws.drop_last()).push(ws.last())
    }
}

/// How often `w` occurs in `ws`.
pub open spec fn count(ws: Seq<Seq<char>>, w: Seq<char>) -> nat
    decreases ws.len(),
{
    if ws.len() == 0 {
        0
    } else {
        count(ws.drop_last(), w) + if ws.last() == w {
            1nat
        } else {
            0nat
        }
    }
}

/// How many records have no project (or no tag).
pub open spec fn unlabelled(s: Seq<TodoView>, tags: bool) -> nat
    decreases s.len(),
{
    if s.len() == 0 {
        0
    } else {
        unlabelled(s.drop_last(), tags) + if labels_of(s.last(), tags).len() == 0 {
            1nat
        } else {
            0nat
        }
    }
}

proof fn lemma_distinct(ws: Seq<Seq<char>>)
    ensures
        forall|w: Seq<char>| #[trigger] distinct(ws).contains(w) == ws.contains(w),
        forall|w: Seq<char>| !ws.contains(w) ==> #[trigger] count(ws, w) == 0,
        forall|w: Seq<char>| #[trigger] count(ws, w) <= ws.len(),
        forall|i: int, j: int|
            0 <= i < j < distinct(ws).len() ==> #[trigger] distinct(ws)[i] != #[trigger] distinct(ws)[j],
    decreases ws.len(),
{
    if ws.len() > 0 {
        let p = ws.drop_last();
        lemma_distinct(p);
        let dp = distinct(p);
        if !dp.contains(ws.last()) {
            assert forall|i: int, j: int|
                0 <= i < j < distinct(ws).len() implies #[trigger] distinct(ws)[i] != #[trigger] distinct(ws)[j] by {
                if j == dp.len() {
                    assert(distinct(ws)[i] == dp[i]);
                    assert(distinct(ws)[j] == ws.last());
                } else {
                    assert(distinct(ws)[i] == dp[i]);
                    assert(distinct(ws)[j] == dp[j]);
                }
            }
        }
        assert forall|w: Seq<char>| #[trigger] distinct(ws).contains(w) == ws.contains(w) by {
            if ws.contains(w) {
                let j = choose|j: int| 0 <= j < ws.len() && ws[j] == w;
                if j < p.len() {
                    assert(p[j] == w);
                    assert(p.contains(w));
                }
            }
            if p.contains(w) {
                let j = choose|j: int| 0 <= j < p.len() && p[j] == w;
                assert(ws[j] == w);
            }
            if distinct(ws).contains(w) && !distinct(p).contains(w) {
                assert(distinct(ws) == distinct(p).push(ws.last()));
                let j = choose|j: int| 0 <= j < distinct(ws).len() && distinct(ws)[j] == w;
                if j < distinct(p).len() {
                    assert(distinct(p)[j] == w);
                }
                assert(ws[ws.len() - 1] == w);
            }
            if !distinct(p).contains(ws.last()) {
                assert(distinct(ws)[distinct(p).len() as int] == ws.last());
                if distinct(p).contains(w) {
                    let j = choose|j: int| 0 <= j < distinct(p).len() && distinct(p)[j] == w;
                    assert(distinct(ws)[j] == w);
                }
            }
        }
        assert forall|w: Seq<char>| !ws.contains(w) implies #[trigger] count(ws, w) == 0 by {
            if p.contains(w) {
                let j = choose|j: int| 0 <= j < p.len() && p[j] == w;
                assert(ws[j] == w);
            }
            assert(count(p, w) == 0);
            assert(ws[ws.len() - 1] != w);
        }
        assert forall|w: Seq<char>| #[trigger] count(ws, w) <= ws.len() by {
            assert(count(p, w) <= p.len());
        }
    }
}

proof fn lemma_labels_prefix(s: Seq<TodoView>, i: int, tags: bool)
    requires
        0 <= i < s.len(),
    ensures
        all_labels(s.take(i + 1), tags) == all_labels(s.take(i), tags) + labels_of(s[i], tags),
        all_labels(s.take(i + 1), tags).len() <= all_labels(s, tags).len(),
    decreases s.len() - i,
{
    assert(s.take(i + 1).drop_last() =~= s.take(i));
    if i + 1 < s.len() {
        lemma_labels_prefix(s, i + 1, tags);
    } else {
        assert(s.take(i + 1) =~= s);
    }
}

/// Counts the projects (or the tags) of the records: each one once, in order of
/// first appearance, with how many times it occurs; and how many records have
/// none.
fn tally(todos: &[Todo], tags: bool) -> (r: (Vec<String>, Vec<usize>, usize))
    requires
        all_labels(views(todos@), tags).len() <= usize::MAX,
    ensures
        string_views(r.0@) == distinct(all_labels(views(todos@), tags)),
        r.1@.len() == r.0@.len(),
        forall|k: int| 0 <= k < r.1@.len() ==> #[trigger] r.1@[k] == count(all_labels(views(todos@), tags), r.0@[k]@),
        r.2 == unlabelled(views(todos@), tags),
{
    let ghost vs = views(todos@);
    let ghost total = all_labels(vs, tags).len();
    let mut keys: Vec<String> = Vec::new();
    let mut counts: Vec<usize> = Vec::new();
    let mut none: usize = 0;
    let mut i: usize = 0;
    assert(vs.take(0) =~= Seq::<TodoView>::empty());
    assert(string_views(keys@) =~= Seq::<Seq<char>>::empty());
    while i < todos.len()
        invariant
            vs == views(todos@),
            total == all_labels(vs, tags).len(),
            total <= usize::MAX,
            i <= todos@.len(),
            string_views(keys@) == distinct(all_labels(vs.take(i as int), tags)),
            counts@.len() == keys@.len(),
            forall|k: int| 0 <= k < counts@.len() ==> #[trigger] counts@[k] == count(all_labels(vs.take(i as int), tags), keys@[k]@),
            none == unlabelled(vs.take(i as int), tags),
            none <= i,
        decreases todos@.len() - i,
    {
        proof {
            lemma_labels_prefix(vs, i as int, tags);
        }
        assert(vs.take(i + 1).drop_last() =~= vs.take(i as int));
        assert(vs.take(i + 1).last() == todos@[i as int]@);
        let ghost base = all_labels(vs.take(i as int), tags);
        let words: &Vec<String> = if tags { &todos[i].tags } else { &todos[i].projects };
        let ghost ws = string_views(words@);
        assert(ws == labels_of(vs[i as int], tags));
        let mut j: usize = 0;
        assert(base + ws.take(0) =~= base);
        while j < words.len()
            invariant
                ws == string_views(words@),
                j <= words@.len(),
                base.len() + ws.len() <= total,
                total <= usize::MAX,
                string_views(keys@) == distinct(base + ws.take(j as int)),
                counts@.len() == keys@.len(),
                forall|k: int| 0 <= k < counts@.len() ==> #[trigger] counts@[k] == count(base + ws.take(j as int), keys@[k]@),
            decreases words@.len() - j,
        {
            let ghost p = base + ws.take(j as int);
            let ghost w = ws[j as int];
            assert(w == words@[j as int]@);
            assert((base + ws.take(j + 1)) =~= p.push(w));
            assert(p.push(w).drop_last() =~= p);
            proof {
                lemma_distinct(p);
            }
            let mut k: usize = 0;
            while k < keys.len() && !(keys[k] == words[j])
                invariant
                    k <= keys@.len(),
                    j < words@.len(),
                    w == words@[j as int]@,
                    forall|m: int| 0 <= m < k ==> keys@[m]@ != w,
                decreases keys@.len() - k,
            {
                k = k + 1;
            }
            if k < keys.len() {
                assert(keys@[k as int]@ == w);
                assert(string_views(keys@)[k as int] == w);
                assert(distinct(p).contains(w));
                assert(counts@[k as int] == count(p, w));
                assert(count(p, w) <= p.len());
                assert(p.len() < base.len() + ws.len());
                let c = counts[k] + 1;
                let ghost old_counts = counts@;
                counts[k] = c;
                assert forall|m: int| 0 <= m < counts@.len() implies #[trigger] counts@[m] == count(p.push(w), keys@[m]@) by {
                    if m != k {
                        assert(old_counts[m] == count(p, keys@[m]@));
                        assert(string_views(keys@)[m] == keys@[m]@);
                        if m < k {
                            assert(keys@[m]@ != w);
                        } else {
                            assert(distinct(p)[k as int] != distinct(p)[m]);
                        }
                    }
                }
            } else {
                assert(!distinct(p).contains(w)) by {
                    if distinct(p).contains(w) {
                        let m = choose|m: int| 0 <= m < distinct(p).len() && distinct(p)[m] == w;
                        assert(string_views(keys@)[m] == keys@[m]@);
                    }
                }
                assert(count(p, w) == 0);
                let ghost old_keys = keys@;
                let ghost old_counts = counts@;
                keys.push(words[j].clone());
                counts.push(1);
                assert(string_views(keys@) =~= string_views(old_keys).push(w));
                assert forall|m: int| 0 <= m < counts@.len() implies #[trigger] counts@[m] == count(p.push(w), keys@[m]@) by {
                    if m < old_counts.len() {
                        assert(old_counts[m] == count(p, old_keys[m]@));
                        assert(keys@[m] == old_keys[m]);
                        assert(string_views(old_keys).contains(old_keys[m]@)) by {
                            assert(string_views(old_keys)[m] == old_keys[m]@);
                        }
                    }
                }
            }
            j = j + 1;
        }
        assert(ws.take(words@.len() as int) =~= ws);
        if words.len() == 0 {
            none = none + 1;
        }
        i = i + 1;
    }
    assert(vs.take(todos@.len() as int) =~= vs);
    (keys, counts, none)
}

/// Each project of the tasks once, in order of first appearance, with how many
/// times it occurs; and how many tasks have no project.
pub fn projects(todos: &[Todo]) -> (r: (Vec<(String, usize)>, usize))
    requires
        all_labels(views(todos@), false).len() <= usize::MAX,
    ensures
        r.0@.len() == distinct(all_labels(views(todos@), false)).len(),
        forall|k: int| 0 <= k < r.0@.len() ==> (#[trigger] r.0@[k]).0@ == distinct(
            all_labels(views(todos@), false),
        )[k] && r.0@[k].1 == count(all_labels(views(todos@), false), r.0@[k].0@),
        r.1 == unlabelled(views(todos@), false),
{
    let (keys, counts, none) = tally(todos, false);
    (zip_counts(keys, counts), none)
}

/// Each tag of the tasks once, in order of first appearance, with how many
/// times it occurs; and how many tasks have no tag.
pub fn contexts(todos: &[Todo]) -> (r: (Vec<(String, usize)>, usize))
    requires
        all_labels(views(todos@), true).len() <= usize::MAX,
    ensures
        r.0@.len() == distinct(all_labels(views(todos@), true)).len(),
        forall|k: int| 0 <= k < r.0@.len() ==> (#[trigger] r.0@[k]).0@ == distinct(
            all_labels(views(todos@), true),
        )[k] && r.0@[k].1 == count(all_labels(views(todos@), true), r.0@[k].0@),
        r.1 == unlabelled(views(todos@), true),
{
    let (keys, counts, none) = tally(todos, true);
    (zip_counts(keys, counts), none)
}

fn zip_counts(keys: Vec<String>, counts: Vec<usize>) -> (r: Vec<(String, usize)>)
    requires
        keys@.len() == counts@.len(),
    ensures
        r@.len() == keys@.len(),
        forall|k: int| 0 <= k < r@.len() ==> (#[trigger] r@[k]).0@ == keys@[k]@ && r@[k].1 == counts@[k],
{
    let mut out: Vec<(String, usize)> = Vec::new();
    let mut i: usize = 0;
    while i < keys.len()
        invariant
            keys@.len() == counts@.len(),
            i <= keys@.len(),
            out@.len() == i,
            forall|k: int| 0 <= k < i ==> (#[trigger] out@[k]).0@ == keys@[k]@ && out@[k].1 == counts@[k],
        decreases keys@.len() - i,
    {
        out.push((keys[i].clone(), counts[i]));
        i = i + 1;
    }
    out
}

/// The records that carry project (or tag) `key`, in order, a record listed
/// once for each time it carries it.
pub open spec fn members(s: Seq<TodoView>, key: Seq<char>, tags: bool) -> Seq<TodoView>
    decreases s.len(),
{
    if s.len() == 0 {
        seq![]
    } else {
        members(s.drop_last(), key, tags) + Seq::new(count(labels_of(s.last(), tags), key), |i: int| s.last())
    }
}

/// The records without a project (or without a tag), in order.
pub open spec fn unlabelled_records(s: Seq<TodoView>, tags: bool) -> Seq<TodoView>
    decreases s.len(),
{
    if s.len() == 0 {
        seq![]
    } else if labels_of(s.last(), tags).len() == 0 {
        unlabelled_records(s.drop_last(), tags).push(s.last())
    } else {
        unlabelled_records(s.drop_last(), tags)
    }
}

/// The listing line of each record.
pub open spec fn listing(rs: Seq<TodoView>) -> Seq<Seq<char>> {
    Seq::new(rs.len(), |i: int| display_text(rs[i], rs[i].idx))
}

/// For each key: the key, the listing of its records, and a blank line.
pub open spec fn group_blocks(s: Seq<TodoView>, keys: Seq<Seq<char>>, tags: bool) -> Seq<Seq<char>>
    decreases keys.len(),
{
    if keys.len() == 0 {
        seq![]
    } else {
        group_blocks(s, keys.drop_last(), tags) + seq![keys.last()] + listing(members(s, keys.last(), tags))
            + seq![seq![]]
    }
}

/// Records grouped under each project (or tag) in order of first appearance,
/// then under `none_label` those that have none.
pub open spec fn grouped_lines(s: Seq<TodoView>, tags: bool, none_label: Seq<char>) -> Seq<Seq<char>> {
    group_blocks(s, distinct(all_labels(s, tags)), tags) + seq![none_label] + listing(
        unlabelled_records(s, tags),
    ) + seq![seq![]]
}

/// Each project (or tag) of the records once, in order of first appearance.
fn distinct_labels(todos: &Vec<Todo>, tags: bool) -> (r: Vec<String>)
    ensures
        string_views(r@) == distinct(all_labels(views(todos@), tags)),
{
    let ghost vs = views(todos@);
    let mut keys: Vec<String> = Vec::new();
    let mut i: usize = 0;
    assert(vs.take(0) =~= Seq::<TodoView>::empty());
    assert(string_views(keys@) =~= Seq::<Seq<char>>::empty());
    while i < todos.len()
        invariant
            vs == views(todos@),
            i <= todos@.len(),
            string_views(keys@) == distinct(all_labels(vs.take(i as int), tags)),
        decreases todos@.len() - i,
    {
        assert(vs.take(i + 1).drop_last() =~= vs.take(i as int));
        assert(vs.take(i + 1).last() == todos@[i as int]@);
        let ghost base = all_labels(vs.take(i as int), tags);
        let words: &Vec<String> = if tags { &todos[i].tags } else { &todos[i].projects };
        let ghost ws = string_views(words@);
        assert(ws == labels_of(vs[i as int], tags));
        let mut j: usize = 0;
        assert(base + ws.take(0) =~= base);
        while j < words.len()
            invariant
                ws == string_views(words@),
                j <= words@.len(),
                string_views(keys@) == distinct(base + ws.take(j as int)),
            decreases words@.len() - j,
        {
            let ghost p = base + ws.take(j as int);
            let ghost w = ws[j as int];
            assert(w == words@[j as int]@);
            assert((base + ws.take(j + 1)) =~= p.push(w));
            assert(p.push(w).drop_last() =~= p);
            let mut k: usize = 0;
            while k < keys.len() && !(keys[k] == words[j])
                invariant
                    k <= keys@.len(),
                    j < words@.len(),
                    w == words@[j as int]@,
                    forall|m: int| 0 <= m < k ==> keys@[m]@ != w,
                decreases keys@.len() - k,
            {
                k = k + 1;
            }
            if k < keys.len() {
                assert(string_views(keys@)[k as int] == w);
            } else {
                assert(!distinct(p).contains(w)) by {
                    if distinct(p).contains(w) {
                        let m = choose|m: int| 0 <= m < distinct(p).len() && distinct(p)[m] == w;
                        assert(string_views(keys@)[m] == keys@[m]@);
                    }
                }
                let ghost old_keys = keys@;
                keys.push(words[j].clone());
                assert(string_views(keys@) =~= string_views(old_keys).push(w));
            }
            j = j + 1;
        }
        assert(ws.take(words@.len() as int) =~= ws);
        i = i + 1;
    }
    assert(vs.take(todos@.len() as int) =~= vs);
    keys
}

fn push_string(lines: &mut Vec<String>, l: &String)
    ensures
        string_views(final(lines)@) == string_views(old(lines)@).push(l@),
{
    let ghost before = lines@;
    lines.push(l.clone());
    assert(string_views(lines@) =~= string_views(before).push(l@));
}

/// Appends the listing lines of the members of group `key`.
fn push_members(lines: &mut Vec<String>, sorted: &Vec<Todo>, key: &String, tags: bool)
    ensures
        string_views(final(lines)@) == string_views(old(lines)@) + listing(
            members(views(sorted@), key@, tags),
        ),
{
    let ghost vs = views(sorted@);
    let ghost start = string_views(lines@);
    let mut i: usize = 0;
    assert(vs.take(0) =~= Seq::<TodoView>::empty());
    assert(start + listing(members(vs.take(0), key@, tags)) =~= start);
    while i < sorted.len()
        invariant
            vs == views(sorted@),
            i <= sorted@.len(),
            string_views(lines@) == start + listing(members(vs.take(i as int), key@, tags)),
        decreases sorted@.len() - i,
    {
        assert(vs.take(i + 1).drop_last() =~= vs.take(i as int));
        assert(vs.take(i + 1).last() == sorted@[i as int]@);
        let t = &sorted[i];
        let v = Ghost(sorted@[i as int]@);
        let line = t.format_for_display(t.idx);
        let words: &Vec<String> = if tags { &t.tags } else { &t.projects };
        let ghost ws = string_views(words@);
        let ghost prev = string_views(lines@);
        let mut j: usize = 0;
        assert(ws.take(0) =~= Seq::<Seq<char>>::empty());
        while j < words.len()
            invariant
                ws == string_views(words@),
                j <= words@.len(),
                line@ == display_text(v@, v@.idx),
                string_views(lines@) == prev + Seq::new(count(ws.take(j as int), key@), |k: int| line@),
            decreases words@.len() - j,
        {
            assert(ws.take(j + 1).drop_last() =~= ws.take(j as int));
            assert(ws.take(j + 1).last() == words@[j as int]@);
            if words[j] == *key {
                let ghost before = string_views(lines@);
                push_string(lines, &line);
                assert(string_views(lines@) =~= prev + Seq::new(count(ws.take(j + 1), key@), |k: int| line@));
            } else {
                assert(Seq::new(count(ws.take(j + 1), key@), |k: int| line@) =~= Seq::new(count(ws.take(j as int), key@), |k: int| line@));
            }
            j = j + 1;
        }
        assert(ws.take(words@.len() as int) =~= ws);
        assert(ws == labels_of(v@, tags));
        let ghost m0 = members(vs.take(i as int), key@, tags);
        let ghost rep = Seq::new(count(labels_of(v@, tags), key@), |k: int| v@);
        assert(members(vs.take(i + 1), key@, tags) == m0 + rep);
        assert(listing(m0 + rep) =~= listing(m0) + Seq::new(count(ws, key@), |k: int| line@));
        i = i + 1;
    }
    assert(vs.take(sorted@.len() as int) =~= vs);
}

#[verifier::rlimit(40)]
fn grouped(todos: &[Todo], filters: &[String], tags: bool, none_label: &str) -> (r: Vec<String>)
    ensures
        string_views(r@) == grouped_lines(
            by_priority(selected(views(todos@), string_views(filters@))),
            tags,
            none_label@,
        ),
{
    let sorted = sort_by_priority(todo_filter(todos, filters).as_slice());
    let ghost s = views(sorted@);
    let keys = distinct_labels(&sorted, tags);
    let ghost ks = string_views(keys@);
    let mut lines: Vec<String> = Vec::new();
    let mut k: usize = 0;
    assert(ks.take(0) =~= Seq::<Seq<char>>::empty());
    assert(string_views(lines@) =~= Seq::<Seq<char>>::empty());
    while k < keys.len()
        invariant
            s == views(sorted@),
            ks == string_views(keys@),
            k <= keys@.len(),
            string_views(lines@) == group_blocks(s, ks.take(k as int), tags),
        decreases keys@.len() - k,
    {
        assert(ks.take(k + 1).drop_last() =~= ks.take(k as int));
        assert(ks.take(k + 1).last() == keys@[k as int]@);
        push_string(&mut lines, &keys[k]);
        push_members(&mut lines, &sorted, &keys[k], tags);
        let empty = String::new();
        push_string(&mut lines, &empty);
        k = k + 1;
        assert(string_views(lines@) =~= group_blocks(s, ks.take(k as int), tags));
    }
    assert(ks.take(keys@.len() as int) =~= ks);
    let label = string_from_chars(chars_of(none_label).as_slice());
    push_string(&mut lines, &label);
    let ghost head = string_views(lines@);
    let mut i: usize = 0;
    assert(s.take(0) =~= Seq::<TodoView>::empty());
    assert(head + listing(unlabelled_records(s.take(0), tags)) =~= head);
    while i < sorted.len()
        invariant
            s == views(sorted@),
            i <= sorted@.len(),
            string_views(lines@) == head + listing(unlabelled_records(s.take(i as int), tags)),
        decreases sorted@.len() - i,
    {
        assert(s.take(i + 1).drop_last() =~= s.take(i as int));
        assert(s.take(i + 1).last() == sorted@[i as int]@);
        let t = &sorted[i];
        let none = if tags { t.tags.len() == 0 } else { t.projects.len() == 0 };
        if none {
            let line = t.format_for_display(t.idx);
            let ghost u = unlabelled_records(s.take(i as int), tags);
            push_string(&mut lines, &line);
            assert(listing(u.push(sorted@[i as int]@)) =~= listing(u).push(line@));
        }
        i = i + 1;
    }
    assert(s.take(sorted@.len() as int) =~= s);
    let empty = String::new();
    push_string(&mut lines, &empty);
    lines
}

/// The selected tasks by priority, grouped under each project in order of first
/// appearance (a task once per mention of the project), then under
/// `NO PROJECT` those without one; a blank line closes each group.
pub fn grouped_by_project(todos: &[Todo], filters: &[String]) -> (r: Vec<String>)
    ensures
        string_views(r@) == grouped_lines(
            by_priority(selected(views(todos@), string_views(filters@))),
            false,
            "NO PROJECT"@,
        ),
{
    grouped(todos, filters, false, "NO PROJECT")
}

/// The selected tasks by priority, grouped under each tag in order of first
/// appearance (a task once per mention of the tag), then under `NO CONTEXT`
/// those without one; a blank line closes each group.
pub fn grouped_by_context(todos: &[Todo], filters: &[String]) -> (r: Vec<String>)
    ensures
        string_views(r@) == grouped_lines(
            by_priority(selected(views(todos@), string_views(filters@))),
            true,
            "NO CONTEXT"@,
        ),
{
    grouped(todos, filters, true, "NO CONTEXT")
}

fn without_labels(todos: &[Todo], tags: bool) -> (r: Vec<Todo>)
    ensures
        views(r@) == unlabelled_records(views(todos@), tags),
{
    let ghost vs = views(todos@);
    let mut out: Vec<Todo> = Vec::new();
    let mut i: usize = 0;
    assert(vs.take(0) =~= Seq::<TodoView>::empty());
    assert(views(out@) =~= Seq::<TodoView>::empty());
    while i < todos.len()
        invariant
            vs == views(todos@),
            i <= todos@.len(),
            views(out@) == unlabelled_records(vs.take(i as int), tags),
        decreases todos@.len() - i,
    {
        assert(vs.take(i + 1).drop_last() =~= vs.take(i as int));
        assert(vs.take(i + 1).last() == todos@[i as int]@);
        let t = &todos[i];
        let none = if tags { t.tags.len() == 0 } else { t.projects.len() == 0 };
        if none {
            let ghost before = out@;
            out.push(t.duplicate());
            assert(views(out@) =~= views(before).push(todos@[i as int]@));
        }
        i = i + 1;
    }
    assert(vs.take(todos@.len() as int) =~= vs);
    out
}

/// The tasks that have no project, in order.
pub fn no_projects(todos: &[Todo]) -> (r: Vec<Todo>)
    ensures
        views(r@) == unlabelled_records(views(todos@), false),
{
    without_labels(todos, false)
}

/// The tasks that have no tag, in order.
pub fn no_tags(todos: &[Todo]) -> (r: Vec<Todo>)
    ensures
        views(r@) == unlabelled_records(views(todos@), true),
{
    without_labels(todos, true)
}

} // verus!
