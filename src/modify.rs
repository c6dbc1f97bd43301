//! Commands that change the lists: adding, editing, removing, completing and
//! archiving tasks.

use crate::date::{iso_date, Day};
use crate::error::TodoError;
use crate::priority::TodoPriority;
use crate::todo::{done_on, parse_line, Todo, TodoView};
use crate::utility::views;
use vstd::prelude::*;

verus! {

pub open spec fn at_position(v: TodoView, i: int) -> TodoView {
    TodoView { idx: i as nat, ..v }
}

/// `s` placed at positions `base`, `base + 1`, ...
pub open spec fn shifted(s: Seq<TodoView>, base: int) -> Seq<TodoView> {
    Seq::new(s.len(), |i: int| at_position(s[i], base + i))
}

/// `s` with each record's position set to its index.
pub open spec fn renumber(s: Seq<TodoView>) -> Seq<TodoView> {
    shifted(s, 0)
}

pub open spec fn is_done(v: TodoView) -> bool {
    v.done_date is Some
}

/// The records of `s` that are done (`done == true`) or open (`done == false`),
/// in their order.
pub open spec fn with_status(s: Seq<TodoView>, done: bool) -> Seq<TodoView>
    decreases s.len(),
{
    if s.len() == 0 {
        seq![]
    } else if is_done(s.last()) == done {
        with_status(s.drop_last(), done).push(s.last())
    } else {
        with_status(s.drop_last(), done)
    }
}

/// The open list after archiving: its own open records, then the open records
/// of the done list.
pub open spec fn reconciled_open(open: Seq<TodoView>, done: Seq<TodoView>) -> Seq<TodoView> {
    renumber(with_status(open, false) + with_status(done, false))
}

/// The done list after archiving: its own done records, then the done records
/// of the open list.
pub open spec fn reconciled_done(open: Seq<TodoView>, done: Seq<TodoView>) -> Seq<TodoView> {
    renumber(with_status(done, true) + with_status(open, true))
}

/// Appends to `out` copies of the records of `src` with status `done`, each at
/// its new position in `out`; returns how many.
fn append_with_status(out: &mut Vec<Todo>, src: &Vec<Todo>, done: bool) -> (moved: usize)
    ensures
        views(final(out)@) == views(old(out)@) + shifted(
            with_status(views(src@), done),
            old(out)@.len() as int,
        ),
        moved == with_status(views(src@), done).len(),
{
    let ghost vs = views(src@);
    let ghost base = views(out@);
    let start = out.len();
    let mut i: usize = 0;
    assert(vs.take(0) =~= Seq::<TodoView>::empty());
    assert(views(out@) =~= base + shifted(with_status(vs.take(0), done), start as int));
    while i < src.len()
        invariant
            vs == views(src@),
            i <= src@.len(),
            start == base.len(),
            views(out@) == base + shifted(with_status(vs.take(i as int), done), start as int),
            out@.len() == start + with_status(vs.take(i as int), done).len(),
        decreases src@.len() - i,
    {
        let ghost sel = with_status(vs.take(i as int), done);
        assert(vs.take(i + 1).drop_last() =~= vs.take(i as int));
        assert(vs.take(i + 1).last() == src@[i as int]@);
        if src[i].done_date.is_some() == done {
            let mut c = src[i].duplicate();
            c.idx = out.len();
            let ghost before = out@;
            out.push(c);
            assert(views(out@) =~= views(before).push(c@));
            assert(shifted(sel.push(src@[i as int]@), start as int) =~= shifted(sel, start as int).push(
                at_position(src@[i as int]@, start + sel.len()),
            ));
        }
        i = i + 1;
    }
    assert(vs.take(src@.len() as int) =~= vs);
    out.len() - start
}

/// Moves every done task of `todos` to the end of `dones` and every open task
/// of `dones` to the end of `todos`; both lists keep their order otherwise and
/// are renumbered. Returns how many tasks were archived and how many came back.
pub fn archive(todos: &mut Vec<Todo>, dones: &mut Vec<Todo>) -> (r: (usize, usize))
    ensures
        views(final(todos)@) == reconciled_open(views(old(todos)@), views(old(dones)@)),
        views(final(dones)@) == reconciled_done(views(old(todos)@), views(old(dones)@)),
        r.0 == with_status(views(old(todos)@), true).len(),
        r.1 == with_status(views(old(dones)@), false).len(),
{
    let ghost o = views(todos@);
    let ghost d = views(dones@);
    let mut new_open: Vec<Todo> = Vec::new();
    let mut new_done: Vec<Todo> = Vec::new();
    append_with_status(&mut new_open, todos, false);
    let unarchived = append_with_status(&mut new_open, dones, false);
    append_with_status(&mut new_done, dones, true);
    let archived = append_with_status(&mut new_done, todos, true);
    assert(views(new_open@) =~= reconciled_open(o, d));
    assert(views(new_done@) =~= reconciled_done(o, d));
    *todos = new_open;
    *dones = new_done;
    (archived, unarchived)
}

/// Archiving twice in a row moves nothing the second time: after one pass the
/// open list holds only open tasks and the done list only done ones, and a
/// second pass leaves both as they are.
pub proof fn lemma_archive_idempotent(open: Seq<TodoView>, done: Seq<TodoView>)
    ensures
        with_status(reconciled_open(open, done), true).len() == 0,
        with_status(reconciled_done(open, done), false).len() == 0,
        reconciled_open(reconciled_open(open, done), reconciled_done(open, done)) == reconciled_open(
            open,
            done,
        ),
        reconciled_done(reconciled_open(open, done), reconciled_done(open, done)) == reconciled_done(
            open,
            done,
        ),
{
    let o1 = reconciled_open(open, done);
    let d1 = reconciled_done(open, done);
    lemma_status_all(open, false);
    lemma_status_all(done, false);
    lemma_status_all(open, true);
    lemma_status_all(done, true);
    lemma_filter_uniform(o1, false);
    lemma_filter_uniform(d1, true);
    lemma_renumber_twice(o1, with_status(open, false) + with_status(done, false));
    lemma_renumber_twice(d1, with_status(done, true) + with_status(open, true));
    assert(o1 + Seq::<TodoView>::empty() =~= o1);
    assert(d1 + Seq::<TodoView>::empty() =~= d1);
}

proof fn lemma_status_all(s: Seq<TodoView>, done: bool)
    ensures
        forall|i: int| 0 <= i < with_status(s, done).len() ==> is_done(#[trigger] with_status(s, done)[i]) == done,
    decreases s.len(),
{
    if s.len() > 0 {
        lemma_status_all(s.drop_last(), done);
        let prev = with_status(s.drop_last(), done);
        if is_done(s.last()) == done {
            assert forall|i: int| 0 <= i < prev.len() + 1 implies is_done(
                #[trigger] prev.push(s.last())[i],
            ) == done by {
                if i < prev.len() {
                    assert(prev.push(s.last())[i] == prev[i]);
                }
            }
        }
    }
}

/// In a list whose records all have status `done`, selecting that status keeps
/// everything and selecting the other keeps nothing.
proof fn lemma_filter_uniform(s: Seq<TodoView>, done: bool)
    requires
        forall|i: int| 0 <= i < s.len() ==> is_done(#[trigger] s[i]) == done,
    ensures
        with_status(s, done) == s,
        with_status(s, !done) == Seq::<TodoView>::empty(),
    decreases s.len(),
{
    if s.len() > 0 {
        lemma_filter_uniform(s.drop_last(), done);
        assert(s.drop_last().push(s.last()) =~= s);
    }
}

proof fn lemma_renumber_twice(r: Seq<TodoView>, s: Seq<TodoView>)
    requires
        r == renumber(s),
    ensures
        renumber(r) == r,
{
    assert(renumber(r) =~= r);
}

/// The first position of `idxs`, in list order, that is at or past `len`.
pub open spec fn first_out_of_range(idxs: Seq<usize>, len: nat) -> Option<usize>
    decreases idxs.len(),
{
    if idxs.len() == 0 {
        None
    } else if idxs[0] >= len {
        Some(idxs[0])
    } else {
        first_out_of_range(idxs.skip(1), len)
    }
}

proof fn lemma_in_range(idxs: Seq<usize>, len: nat)
    requires
        first_out_of_range(idxs, len) is None,
    ensures
        forall|k: int| 0 <= k < idxs.len() ==> idxs[k] < len,
    decreases idxs.len(),
{
    if idxs.len() > 0 {
        lemma_in_range(idxs.skip(1), len);
        assert forall|k: int| 0 <= k < idxs.len() implies idxs[k] < len by {
            if k > 0 {
                assert(idxs[k] == idxs.skip(1)[k - 1]);
            }
        }
    }
}

pub open spec fn out_of_range(index: usize, len: nat) -> TodoError {
    TodoError::IndexOutOfRange { index, len: len as usize }
}

fn check_indices(idxs: &[usize], len: usize) -> (r: Result<(), TodoError>)
    ensures
        match first_out_of_range(idxs@, len as nat) {
            Some(i) => r == Err::<(), TodoError>(out_of_range(i, len as nat)),
            None => r is Ok,
        },
{
    let mut i: usize = 0;
    assert(idxs@.skip(0) =~= idxs@);
    while i < idxs.len()
        invariant
            i <= idxs@.len(),
            first_out_of_range(idxs@, len as nat) == first_out_of_range(idxs@.skip(i as int), len as nat),
        decreases idxs@.len() - i,
    {
        assert(idxs@.skip(i as int)[0] == idxs@[i as int]);
        if idxs[i] >= len {
            return Err(TodoError::IndexOutOfRange { index: idxs[i], len });
        }
        assert(idxs@.skip(i as int).skip(1) =~= idxs@.skip(i + 1));
        i = i + 1;
    }
    assert(idxs@.skip(i as int) =~= Seq::<usize>::empty());
    Ok(())
}

fn listed(idxs: &[usize], p: usize) -> (r: bool)
    ensures
        r == idxs@.contains(p),
{
    let mut i: usize = 0;
    while i < idxs.len()
        invariant
            i <= idxs@.len(),
            forall|k: int| 0 <= k < i ==> idxs@[k] != p,
        decreases idxs@.len() - i,
    {
        if idxs[i] == p {
            return true;
        }
        i = i + 1;
    }
    false
}

fn listed_before(idxs: &[usize], k: usize, p: usize) -> (r: bool)
    requires
        k <= idxs@.len(),
    ensures
        r == idxs@.take(k as int).contains(p),
{
    let mut i: usize = 0;
    while i < k
        invariant
            k <= idxs@.len(),
            i <= k,
            forall|m: int| 0 <= m < i ==> idxs@[m] != p,
        decreases k - i,
    {
        if idxs[i] == p {
            assert(idxs@.take(k as int)[i as int] == p);
            return true;
        }
        i = i + 1;
    }
    assert forall|m: int| 0 <= m < k implies idxs@.take(k as int)[m] != p by {
        assert(idxs@.take(k as int)[m] == idxs@[m]);
    }
    false
}

/// The records that [`undo`] brings back, made not done: the record at each
/// listed position once, walking the list from its last position to its first.
pub open spec fn restored(ds: Seq<TodoView>, idxs: Seq<usize>) -> Seq<TodoView>
    decreases idxs.len(),
{
    if idxs.len() == 0 {
        seq![]
    } else {
        let i = idxs.last();
        let rest = idxs.drop_last();
        (if rest.contains(i) {
            seq![]
        } else {
            seq![undone(ds[i as int])]
        }) + restored(ds, rest)
    }
}

/// The records of `s` whose position is not in `idxs`, in their order.
pub open spec fn unlisted(s: Seq<TodoView>, idxs: Seq<usize>) -> Seq<TodoView>
    decreases s.len(),
{
    if s.len() == 0 {
        seq![]
    } else if idxs.contains((s.len() - 1) as usize) {
        unlisted(s.drop_last(), idxs)
    } else {
        unlisted(s.drop_last(), idxs).push(s.last())
    }
}

pub open spec fn undone(v: TodoView) -> TodoView {
    TodoView { done_date: None, ..v }
}

/// The records of `src` whose position is not listed, copied and renumbered.
fn keep_unlisted(src: &Vec<Todo>, idxs: &[usize]) -> (r: Vec<Todo>)
    ensures
        views(r@) == renumber(unlisted(views(src@), idxs@)),
{
    let ghost vs = views(src@);
    let mut out: Vec<Todo> = Vec::new();
    let mut i: usize = 0;
    assert(vs.take(0) =~= Seq::<TodoView>::empty());
    assert(views(out@) =~= renumber(unlisted(vs.take(0), idxs@)));
    while i < src.len()
        invariant
            vs == views(src@),
            i <= src@.len(),
            views(out@) == renumber(unlisted(vs.take(i as int), idxs@)),
            out@.len() == unlisted(vs.take(i as int), idxs@).len(),
        decreases src@.len() - i,
    {
        let ghost sel = unlisted(vs.take(i as int), idxs@);
        assert(vs.take(i + 1).drop_last() =~= vs.take(i as int));
        assert(vs.take(i + 1).last() == src@[i as int]@);
        if !listed(idxs, i) {
            let mut c = src[i].duplicate();
            c.idx = out.len();
            let ghost before = out@;
            out.push(c);
            assert(views(out@) =~= views(before).push(c@));
            let ghost v = src@[i as int]@;
            assert(renumber(sel.push(v)) =~= renumber(sel).push(at_position(v, sel.len() as int)));
        }
        i = i + 1;
    }
    assert(vs.take(src@.len() as int) =~= vs);
    out
}

/// Adds the task that `text` describes at the end of the list.
pub fn add(text: &str, todos: &mut Vec<Todo>) -> (r: Result<(), TodoError>)
    ensures
        match parse_line(text@) {
            Ok(v) => r is Ok && views(final(todos)@) == views(old(todos)@).push(
                at_position(v, old(todos)@.len() as int),
            ),
            Err(e) => r == Err::<(), TodoError>(e) && final(todos)@ == old(todos)@,
        },
{
    let mut t = Todo::parse(text)?;
    t.idx = todos.len();
    let ghost before = todos@;
    todos.push(t);
    assert(views(todos@) =~= views(before).push(t@));
    Ok(())
}

/// Adds `text` after the description of the task at `idx`.
pub fn append(idx: usize, todos: &mut Vec<Todo>, text: &str) -> (r: Result<(), TodoError>)
    ensures
        idx >= old(todos)@.len() ==> r == Err::<(), TodoError>(out_of_range(idx, old(todos)@.len()))
            && final(todos)@ == old(todos)@,
        idx < old(todos)@.len() ==> r is Ok && views(final(todos)@) == views(old(todos)@).update(
            idx as int,
            TodoView { task: old(todos)@[idx as int]@.task + seq![' '] + text@, ..old(todos)@[idx as int]@ },
        ),
{
    if idx >= todos.len() {
        return Err(TodoError::IndexOutOfRange { index: idx, len: todos.len() });
    }
    let ghost before = todos@;
    let mut t = todos.remove(idx);
    t.append_text(text);
    todos.insert(idx, t);
    assert(views(todos@) =~= views(before).update(idx as int, t@));
    Ok(())
}

/// Puts `text` before the description of the task at `idx`.
pub fn prepend(idx: usize, todos: &mut Vec<Todo>, text: &str) -> (r: Result<(), TodoError>)
    ensures
        idx >= old(todos)@.len() ==> r == Err::<(), TodoError>(out_of_range(idx, old(todos)@.len()))
            && final(todos)@ == old(todos)@,
        idx < old(todos)@.len() ==> r is Ok && views(final(todos)@) == views(old(todos)@).update(
            idx as int,
            TodoView { task: text@ + seq![' '] + old(todos)@[idx as int]@.task, ..old(todos)@[idx as int]@ },
        ),
{
    if idx >= todos.len() {
        return Err(TodoError::IndexOutOfRange { index: idx, len: todos.len() });
    }
    let ghost before = todos@;
    let mut t = todos.remove(idx);
    t.prepend_text(text);
    todos.insert(idx, t);
    assert(views(todos@) =~= views(before).update(idx as int, t@));
    Ok(())
}

/// The priority that a command argument names: a letter in either case; no
/// argument, or any other text, clears the priority.
pub open spec fn priority_arg(p: Option<Seq<char>>) -> TodoPriority {
    match p {
        Some(s) => if s.len() == 1 {
            TodoPriority::of_char(s[0])
        } else {
            TodoPriority::Unset
        },
        None => TodoPriority::Unset,
    }
}

/// Sets the priority of the task at `idx` from a letter, or clears it.
pub fn prioritise(idx: usize, todos: &mut Vec<Todo>, priority: Option<String>) -> (r: Result<
    (),
    TodoError,
>)
    ensures
        idx >= old(todos)@.len() ==> r == Err::<(), TodoError>(out_of_range(idx, old(todos)@.len()))
            && final(todos)@ == old(todos)@,
        idx < old(todos)@.len() ==> r is Ok && views(final(todos)@) == views(old(todos)@).update(
            idx as int,
            TodoView {
                pri: priority_arg(crate::todo::opt_view(priority)),
                ..old(todos)@[idx as int]@
            },
        ),
{
    if idx >= todos.len() {
        return Err(TodoError::IndexOutOfRange { index: idx, len: todos.len() });
    }
    let p = match &priority {
        Some(s) => TodoPriority::from_text(s.as_str()),
        None => TodoPriority::Unset,
    };
    let ghost before = todos@;
    let mut t = todos.remove(idx);
    t.prioritise(p);
    todos.insert(idx, t);
    assert(views(todos@) =~= views(before).update(idx as int, t@));
    Ok(())
}

/// Sets the due date of the task at `idx` from a schedule word read on `today`.
pub fn schedule(idx: usize, todos: &mut Vec<Todo>, date: &str, today: Day) -> (r: Result<
    (),
    TodoError,
>)
    ensures
        idx >= old(todos)@.len() ==> r == Err::<(), TodoError>(out_of_range(idx, old(todos)@.len()))
            && final(todos)@ == old(todos)@,
        idx < old(todos)@.len() ==> r is Ok && views(final(todos)@) == views(old(todos)@).update(
            idx as int,
            crate::todo::scheduled_on(old(todos)@[idx as int]@, today.num(), date@),
        ),
{
    if idx >= todos.len() {
        return Err(TodoError::IndexOutOfRange { index: idx, len: todos.len() });
    }
    let ghost before = todos@;
    let mut t = todos.remove(idx);
    t.schedule_on(today, date);
    todos.insert(idx, t);
    assert(views(todos@) =~= views(before).update(idx as int, t@));
    Ok(())
}

/// Removes the tasks at the listed positions; the rest keep their order and
/// are renumbered. Nothing changes when a position is out of range.
pub fn remove(indices: &[usize], todos: &mut Vec<Todo>) -> (r: Result<(), TodoError>)
    ensures
        match first_out_of_range(indices@, old(todos)@.len()) {
            Some(i) => r == Err::<(), TodoError>(out_of_range(i, old(todos)@.len()))
                && final(todos)@ == old(todos)@,
            None => r is Ok && views(final(todos)@) == renumber(
                unlisted(views(old(todos)@), indices@),
            ),
        },
{
    check_indices(indices, todos.len())?;
    *todos = keep_unlisted(todos, indices);
    Ok(())
}

/// Moves the done tasks at the listed positions back to the open list, not
/// done any more: they follow its tasks, from the last listed position to the
/// first. The done list keeps the rest, renumbered. Nothing changes when a
/// position is out of range.
pub fn undo(indices: &[usize], todos: &mut Vec<Todo>, dones: &mut Vec<Todo>) -> (r: Result<
    (),
    TodoError,
>)
    ensures
        match first_out_of_range(indices@, old(dones)@.len()) {
            Some(i) => r == Err::<(), TodoError>(out_of_range(i, old(dones)@.len()))
                && final(todos)@ == old(todos)@ && final(dones)@ == old(dones)@,
            None => r is Ok && views(final(todos)@) == views(old(todos)@) + shifted(
                restored(views(old(dones)@), indices@),
                old(todos)@.len() as int,
            ) && views(final(dones)@) == renumber(unlisted(views(old(dones)@), indices@)),
        },
{
    check_indices(indices, dones.len())?;
    proof {
        lemma_in_range(indices@, dones@.len());
    }
    let ghost ds = views(dones@);
    let ghost base = views(todos@);
    let start = todos.len();
    let mut k: usize = indices.len();
    let ghost mut got: Seq<TodoView> = seq![];
    assert(indices@.take(k as int) =~= indices@);
    assert(got + restored(ds, indices@) =~= restored(ds, indices@));
    assert(views(todos@) =~= base + shifted(got, start as int));
    while k > 0
        invariant
            k <= indices@.len(),
            ds == views(dones@),
            forall|m: int| 0 <= m < indices@.len() ==> indices@[m] < dones@.len(),
            got + restored(ds, indices@.take(k as int)) == restored(ds, indices@),
            start == base.len(),
            views(todos@) == base + shifted(got, start as int),
            todos@.len() == start + got.len(),
        decreases k,
    {
        let i = indices[k - 1];
        let ghost pre = indices@.take(k as int);
        assert(pre.drop_last() =~= indices@.take(k - 1));
        assert(pre.last() == i);
        if !listed_before(indices, k - 1, i) {
            let mut c = dones[i].duplicate();
            c.mark_undone();
            c.idx = todos.len();
            let ghost before = todos@;
            todos.push(c);
            assert(views(todos@) =~= views(before).push(c@));
            let ghost v = undone(ds[i as int]);
            assert(c@ == at_position(v, start + got.len()));
            assert(shifted(got.push(v), start as int) =~= shifted(got, start as int).push(
                at_position(v, start + got.len()),
            ));
            assert(got.push(v) + restored(ds, indices@.take(k - 1)) =~= got + restored(ds, pre));
            proof {
                got = got.push(v);
            }
        } else {
            assert(got + restored(ds, indices@.take(k - 1)) =~= got + restored(ds, pre));
        }
        k = k - 1;
    }
    assert(indices@.take(0) =~= Seq::<usize>::empty());
    assert(got + Seq::<TodoView>::empty() =~= got);
    *dones = keep_unlisted(dones, indices);
    Ok(())
}

/// `s` with the records at the listed positions marked done on day `today`.
pub open spec fn done_at(s: Seq<TodoView>, idxs: Seq<usize>, today: int) -> Seq<TodoView> {
    Seq::new(
        s.len(),
        |p: int|
            if idxs.contains(p as usize) {
                done_on(s[p], today)
            } else {
                s[p]
            },
    )
}

/// Marks the tasks at the listed positions done on `today`. Nothing changes
/// when a position is out of range.
pub fn do_task(indices: &[usize], todos: &mut Vec<Todo>, today: Day) -> (r: Result<(), TodoError>)
    ensures
        match first_out_of_range(indices@, old(todos)@.len()) {
            Some(i) => r == Err::<(), TodoError>(out_of_range(i, old(todos)@.len()))
                && final(todos)@ == old(todos)@,
            None => r is Ok && views(final(todos)@) == done_at(
                views(old(todos)@),
                indices@,
                today.num(),
            ),
        },
{
    check_indices(indices, todos.len())?;
    let ghost vs = views(todos@);
    let mut out: Vec<Todo> = Vec::new();
    let mut p: usize = 0;
    while p < todos.len()
        invariant
            vs == views(todos@),
            p <= todos@.len(),
            views(out@) == done_at(vs, indices@, today.num()).take(p as int),
        decreases todos@.len() - p,
    {
        let mut c = todos[p].duplicate();
        if listed(indices, p) {
            c.mark_done_on(today);
        }
        let ghost before = out@;
        out.push(c);
        assert(views(out@) =~= views(before).push(c@));
        p = p + 1;
        assert(views(out@) =~= done_at(vs, indices@, today.num()).take(p as int));
    }
    assert(done_at(vs, indices@, today.num()).take(p as int) =~= done_at(vs, indices@, today.num()));
    *todos = out;
    Ok(())
}

/// `s` with the due dates of the records at the listed positions set to `due`.
pub open spec fn due_at(s: Seq<TodoView>, idxs: Seq<usize>, due: Option<Seq<char>>) -> Seq<
    TodoView,
> {
    Seq::new(
        s.len(),
        |p: int|
            if idxs.contains(p as usize) {
                TodoView { due_date: due, ..s[p] }
            } else {
                s[p]
            },
    )
}

/// Removes the due dates of the tasks at the listed positions. Nothing changes
/// when a position is out of range.
pub fn unschedule_each(indices: &[usize], todos: &mut Vec<Todo>) -> (r: Result<(), TodoError>)
    ensures
        match first_out_of_range(indices@, old(todos)@.len()) {
            Some(i) => r == Err::<(), TodoError>(out_of_range(i, old(todos)@.len()))
                && final(todos)@ == old(todos)@,
            None => r is Ok && views(final(todos)@) == due_at(views(old(todos)@), indices@, None),
        },
{
    check_indices(indices, todos.len())?;
    let ghost vs = views(todos@);
    let mut out: Vec<Todo> = Vec::new();
    let mut p: usize = 0;
    while p < todos.len()
        invariant
            vs == views(todos@),
            p <= todos@.len(),
            views(out@) == due_at(vs, indices@, None).take(p as int),
        decreases todos@.len() - p,
    {
        let mut c = todos[p].duplicate();
        if listed(indices, p) {
            c.unschedule();
        }
        let ghost before = out@;
        out.push(c);
        assert(views(out@) =~= views(before).push(c@));
        p = p + 1;
        assert(views(out@) =~= due_at(vs, indices@, None).take(p as int));
    }
    assert(due_at(vs, indices@, None).take(p as int) =~= due_at(vs, indices@, None));
    *todos = out;
    Ok(())
}

/// Makes the tasks at the listed positions due on `today`. Nothing changes
/// when a position is out of range.
pub fn schedule_each_today(indices: &[usize], todos: &mut Vec<Todo>, today: Day) -> (r: Result<
    (),
    TodoError,
>)
    ensures
        match first_out_of_range(indices@, old(todos)@.len()) {
            Some(i) => r == Err::<(), TodoError>(out_of_range(i, old(todos)@.len()))
                && final(todos)@ == old(todos)@,
            None => r is Ok && views(final(todos)@) == due_at(
                views(old(todos)@),
                indices@,
                Some(iso_date(today.num())),
            ),
        },
{
    check_indices(indices, todos.len())?;
    let ghost vs = views(todos@);
    let ghost due = Some(iso_date(today.num()));
    let mut out: Vec<Todo> = Vec::new();
    let mut p: usize = 0;
    while p < todos.len()
        invariant
            vs == views(todos@),
            due == Some(iso_date(today.num())),
            p <= todos@.len(),
            views(out@) == due_at(vs, indices@, due).take(p as int),
        decreases todos@.len() - p,
    {
        let mut c = todos[p].duplicate();
        if listed(indices, p) {
            c.due_date = Some(today.format_iso());
        }
        let ghost before = out@;
        out.push(c);
        assert(views(out@) =~= views(before).push(c@));
        p = p + 1;
        assert(views(out@) =~= due_at(vs, indices@, due).take(p as int));
    }
    assert(due_at(vs, indices@, due).take(p as int) =~= due_at(vs, indices@, due));
    *todos = out;
    Ok(())
}

} // verus!
