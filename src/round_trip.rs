//! Writing a parsed line and reading it back gives the same record.

use crate::priority::TodoPriority;
use crate::text::{is_word, is_ws, join_nonempty, join_words, tokens};
use crate::todo::{
    classify, due_prefix, due_text, is_due_token, is_priority_token, lead, no_fields, parse_line,
    read_tokens, record_of, save_text, starts_with, Fields, TodoView,
};
use vstd::prelude::*;

verus! {

pub open spec fn all_words(ts: Seq<Seq<char>>) -> bool {
    forall|i: int| 0 <= i < ts.len() ==> is_word(#[trigger] ts[i])
}

pub open spec fn no_ws(t: Seq<char>) -> bool {
    forall|i: int| 0 <= i < t.len() ==> !is_ws(#[trigger] t[i])
}

/// A token that reading puts into the description.
pub open spec fn plain_word(t: Seq<char>) -> bool {
    is_word(t) && !is_priority_token(t) && !is_due_token(t) && !starts_with(t, '@') && !starts_with(
        t,
        '+',
    )
}

pub open spec fn marked_words(ts: Seq<Seq<char>>, c: char) -> bool {
    forall|i: int| 0 <= i < ts.len() ==> is_word(#[trigger] ts[i]) && starts_with(ts[i], c)
}

/// What reading tokens that are words always leaves in the fields.
pub open spec fn fields_ok(st: Fields) -> bool {
    &&& forall|i: int| 0 <= i < st.desc.len() ==> plain_word(#[trigger] st.desc[i])
    &&& marked_words(st.projects, '+')
    &&& marked_words(st.tags, '@')
    &&& st.due matches Some(d) ==> no_ws(d)
}

/// A record that reads back as itself from its stored line: a done task has no
/// priority, and an open task without priority does not start its description
/// with the word `x`, which would read as the completion marker.
pub open spec fn stores_faithfully(v: TodoView) -> bool {
    &&& v.done_date is Some ==> v.pri == TodoPriority::Unset
    &&& (v.done_date is None && v.pri == TodoPriority::Unset) ==> !(tokens(v.task).len() > 0
        && tokens(v.task)[0] == seq!['x'])
}

proof fn lemma_tokens_are_words(s: Seq<char>)
    ensures
        all_words(tokens(s)),
        s.len() > 0 && !is_ws(s.last()) ==> tokens(s).len() > 0,
    decreases s.len(),
{
    if s.len() > 0 {
        let p = s.drop_last();
        lemma_tokens_are_words(p);
        let prev = tokens(p);
        let c = s.last();
        if !is_ws(c) {
            if s.len() > 1 && !is_ws(s[s.len() - 2]) {
                assert(p.last() == s[s.len() - 2]);
                let w = prev.last().push(c);
                assert(is_word(prev[prev.len() - 1]));
                assert(is_word(w)) by {
                    assert forall|i: int| 0 <= i < w.len() implies !is_ws(#[trigger] w[i]) by {
                        if i < w.len() - 1 {
                            assert(w[i] == prev.last()[i]);
                        }
                    }
                }
                let r = prev.drop_last().push(w);
                assert forall|i: int| 0 <= i < r.len() implies is_word(#[trigger] r[i]) by {
                    if i < r.len() - 1 {
                        assert(r[i] == prev[i]);
                    }
                }
            } else {
                let r = prev.push(seq![c]);
                assert forall|i: int| 0 <= i < r.len() implies is_word(#[trigger] r[i]) by {
                    if i < r.len() - 1 {
                        assert(r[i] == prev[i]);
                    } else {
                        assert(r[i] == seq![c]);
                    }
                }
            }
        }
    }
}

proof fn lemma_tokens_append_word(x: Seq<char>, w: Seq<char>)
    requires
        is_word(w),
        x.len() == 0 || is_ws(x.last()),
    ensures
        tokens(x + w) == tokens(x).push(w),
    decreases w.len(),
{
    let s = x + w;
    let c = w.last();
    if w.len() == 1 {
        assert(s.drop_last() =~= x);
        assert(s.last() == c);
        if s.len() > 1 {
            assert(s[s.len() - 2] == x.last());
        }
        assert(seq![c] =~= w);
    } else {
        let w1 = w.drop_last();
        assert(is_word(w1)) by {
            assert forall|i: int| 0 <= i < w1.len() implies !is_ws(#[trigger] w1[i]) by {
                assert(w1[i] == w[i]);
            }
        }
        lemma_tokens_append_word(x, w1);
        assert(s.drop_last() =~= x + w1);
        assert(s[s.len() - 2] == w[w.len() - 2]);
        assert(!is_ws(w[w.len() - 2]));
        let prev = tokens(x + w1);
        assert(prev.drop_last() =~= tokens(x));
        assert(prev.last() == w1);
        assert(w1.push(c) =~= w);
        assert(tokens(s) =~= tokens(x).push(w));
    }
}

proof fn lemma_tokens_of_join(ws: Seq<Seq<char>>)
    requires
        all_words(ws),
    ensures
        tokens(join_words(ws)) == ws,
    decreases ws.len(),
{
    if ws.len() == 1 {
        assert(Seq::<char>::empty() + ws[0] =~= ws[0]);
        lemma_tokens_append_word(Seq::<char>::empty(), ws[0]);
        assert(tokens(Seq::<char>::empty()) =~= Seq::<Seq<char>>::empty());
        assert(Seq::<Seq<char>>::empty().push(ws[0]) =~= ws);
    } else if ws.len() > 1 {
        let init = ws.drop_last();
        let j = join_words(init);
        assert(all_words(init)) by {
            assert forall|i: int| 0 <= i < init.len() implies is_word(#[trigger] init[i]) by {
                assert(init[i] == ws[i]);
            }
        }
        lemma_tokens_of_join(init);
        let js = j + seq![' '];
        assert(js.drop_last() =~= j);
        assert(tokens(js) == tokens(j));
        assert(is_word(ws[ws.len() - 1]));
        lemma_tokens_append_word(js, ws.last());
        assert(init.push(ws.last()) =~= ws);
    } else {
        assert(ws =~= Seq::<Seq<char>>::empty());
    }
}

proof fn lemma_join_empty(ws: Seq<Seq<char>>)
    requires
        all_words(ws),
    ensures
        (join_words(ws).len() == 0) == (ws.len() == 0),
{
    if ws.len() > 0 {
        assert(is_word(ws[ws.len() - 1]));
    }
}

proof fn lemma_join_concat(a: Seq<Seq<char>>, b: Seq<Seq<char>>)
    requires
        all_words(a),
        all_words(b),
    ensures
        join_words(a + b) == (if a.len() == 0 {
            join_words(b)
        } else if b.len() == 0 {
            join_words(a)
        } else {
            join_words(a) + seq![' '] + join_words(b)
        }),
    decreases b.len(),
{
    if b.len() == 0 {
        assert(a + b =~= a);
    } else if a.len() == 0 {
        assert(a + b =~= b);
    } else {
        let b1 = b.drop_last();
        assert(all_words(b1)) by {
            assert forall|i: int| 0 <= i < b1.len() implies is_word(#[trigger] b1[i]) by {
                assert(b1[i] == b[i]);
            }
        }
        lemma_join_concat(a, b1);
        assert((a + b).drop_last() =~= a + b1);
        assert((a + b).last() == b.last());
        if b1.len() == 0 {
            assert(join_words(b) == b[0]);
        }
    }
}

proof fn lemma_all_words_concat(a: Seq<Seq<char>>, b: Seq<Seq<char>>)
    requires
        all_words(a),
        all_words(b),
    ensures
        all_words(a + b),
{
    assert forall|i: int| 0 <= i < (a + b).len() implies is_word(#[trigger] (a + b)[i]) by {
        if i < a.len() {
            assert((a + b)[i] == a[i]);
        } else {
            assert((a + b)[i] == b[i - a.len()]);
        }
    }
}

/// One more piece of a space-joined line, itself the join of words `w`.
proof fn lemma_join_nonempty_step(ps: Seq<Seq<char>>, acc: Seq<Seq<char>>, w: Seq<Seq<char>>)
    requires
        ps.len() > 0,
        all_words(acc),
        all_words(w),
        join_nonempty(ps.drop_last()) == join_words(acc),
        ps.last() == join_words(w),
    ensures
        join_nonempty(ps) == join_words(acc + w),
        all_words(acc + w),
{
    lemma_join_empty(acc);
    lemma_join_empty(w);
    lemma_join_concat(acc, w);
    lemma_all_words_concat(acc, w);
}

proof fn lemma_read_concat(st: Fields, a: Seq<Seq<char>>, b: Seq<Seq<char>>)
    ensures
        read_tokens(st, a + b) == read_tokens(read_tokens(st, a), b),
    decreases b.len(),
{
    if b.len() == 0 {
        assert(a + b =~= a);
    } else {
        lemma_read_concat(st, a, b.drop_last());
        assert((a + b).drop_last() =~= a + b.drop_last());
        assert((a + b).last() == b.last());
    }
}

proof fn lemma_read_fields_ok(st: Fields, ts: Seq<Seq<char>>)
    requires
        fields_ok(st),
        all_words(ts),
    ensures
        fields_ok(read_tokens(st, ts)),
    decreases ts.len(),
{
    if ts.len() > 0 {
        let init = ts.drop_last();
        assert(all_words(init)) by {
            assert forall|i: int| 0 <= i < init.len() implies is_word(#[trigger] init[i]) by {
                assert(init[i] == ts[i]);
            }
        }
        lemma_read_fields_ok(st, init);
        let p = read_tokens(st, init);
        let t = ts.last();
        assert(is_word(ts[ts.len() - 1]));
        let q = classify(p, t);
        if is_priority_token(t) {
        } else if is_due_token(t) {
            assert forall|i: int| 0 <= i < t.skip(4).len() implies !is_ws(#[trigger] t.skip(4)[i]) by {
                assert(t.skip(4)[i] == t[i + 4]);
            }
        } else if starts_with(t, '@') {
            assert forall|i: int| 0 <= i < q.tags.len() implies is_word(#[trigger] q.tags[i])
                && starts_with(q.tags[i], '@') by {
                if i < p.tags.len() {
                    assert(q.tags[i] == p.tags[i]);
                }
            }
        } else if starts_with(t, '+') {
            assert forall|i: int| 0 <= i < q.projects.len() implies is_word(#[trigger] q.projects[i])
                && starts_with(q.projects[i], '+') by {
                if i < p.projects.len() {
                    assert(q.projects[i] == p.projects[i]);
                }
            }
        } else {
            assert forall|i: int| 0 <= i < q.desc.len() implies plain_word(#[trigger] q.desc[i]) by {
                if i < p.desc.len() {
                    assert(q.desc[i] == p.desc[i]);
                }
            }
        }
    }
}

proof fn lemma_read_plain(st: Fields, ds: Seq<Seq<char>>)
    requires
        forall|i: int| 0 <= i < ds.len() ==> plain_word(#[trigger] ds[i]),
    ensures
        read_tokens(st, ds) == (Fields { desc: st.desc + ds, ..st }),
    decreases ds.len(),
{
    if ds.len() == 0 {
        assert(st.desc + ds =~= st.desc);
    } else {
        let init = ds.drop_last();
        assert forall|i: int| 0 <= i < init.len() implies plain_word(#[trigger] init[i]) by {
            assert(init[i] == ds[i]);
        }
        lemma_read_plain(st, init);
        assert(plain_word(ds[ds.len() - 1]));
        assert((st.desc + init).push(ds.last()) =~= st.desc + ds);
    }
}

proof fn lemma_read_marked(st: Fields, ts: Seq<Seq<char>>, c: char)
    requires
        c == '+' || c == '@',
        marked_words(ts, c),
    ensures
        c == '+' ==> read_tokens(st, ts) == (Fields { projects: st.projects + ts, ..st }),
        c == '@' ==> read_tokens(st, ts) == (Fields { tags: st.tags + ts, ..st }),
    decreases ts.len(),
{
    if ts.len() == 0 {
        assert(st.projects + ts =~= st.projects);
        assert(st.tags + ts =~= st.tags);
    } else {
        let init = ts.drop_last();
        assert forall|i: int| 0 <= i < init.len() implies is_word(#[trigger] init[i]) && starts_with(
            init[i],
            c,
        ) by {
            assert(init[i] == ts[i]);
        }
        lemma_read_marked(st, init, c);
        let t = ts.last();
        assert(is_word(ts[ts.len() - 1]) && starts_with(ts[ts.len() - 1], c));
        assert(!is_priority_token(t));
        assert(!is_due_token(t)) by {
            if t.len() >= 4 && t.take(4) == due_prefix() {
                assert(t.take(4)[0] == t[0]);
            }
        }
        assert((st.projects + init).push(t) =~= st.projects + ts);
        assert((st.tags + init).push(t) =~= st.tags + ts);
    }
}

proof fn lemma_marker(p: TodoPriority)
    requires
        p != TodoPriority::Unset,
    ensures
        is_priority_token(p.marker()),
        TodoPriority::of_char(p.marker()[1]) == p,
        is_word(p.marker()),
        p.marker() != seq!['x'],
{
    let m = p.marker();
    assert(m[1] == p.letter());
    assert(is_word(m)) by {
        assert forall|i: int| 0 <= i < m.len() implies !is_ws(#[trigger] m[i]) by {
            if i == 1 {
                assert('A' <= p.letter() <= 'Z');
            }
        }
    }
    assert(m.len() != 1);
}

/// The words that the stored line of `record_of(st, done)` consists of.
pub open spec fn stored_words(st: Fields, done: Option<Seq<char>>) -> Seq<Seq<char>> {
    let l = match done {
        Some(d) => seq![seq!['x'], d],
        None => if st.pri == TodoPriority::Unset {
            seq![]
        } else {
            seq![st.pri.marker()]
        },
    };
    let due = match st.due {
        Some(d) => seq![due_prefix() + d],
        None => seq![],
    };
    l + st.desc + due + st.projects + st.tags
}

proof fn lemma_stored_words(st: Fields, done: Option<Seq<char>>)
    requires
        fields_ok(st),
        done matches Some(d) ==> is_word(d),
    ensures
        tokens(save_text(record_of(st, done))) == stored_words(st, done),
{
    let v = record_of(st, done);
    let l: Seq<Seq<char>> = match done {
        Some(d) => seq![seq!['x'], d],
        None => if st.pri == TodoPriority::Unset {
            seq![]
        } else {
            seq![st.pri.marker()]
        },
    };
    let du: Seq<Seq<char>> = match st.due {
        Some(d) => seq![due_prefix() + d],
        None => seq![],
    };
    assert(all_words(l)) by {
        match done {
            Some(d) => {
                assert(is_word(seq!['x']));
            },
            None => {
                if st.pri != TodoPriority::Unset {
                    lemma_marker(st.pri);
                }
            },
        }
    }
    assert(join_words(l) == lead(v)) by {
        match done {
            Some(d) => {
                assert(l.len() == 2);
                assert(l.drop_last() =~= seq![seq!['x']]);
                assert(join_words(l.drop_last()) == seq!['x']);
                assert(l.last() == d);
                assert(seq!['x'] + seq![' '] + d =~= seq!['x', ' '] + d);
            },
            None => {
                if st.pri == TodoPriority::Unset {
                    assert(l.len() == 0);
                    assert(lead(v) == st.pri.marker());
                    assert(lead(v) =~= Seq::<char>::empty());
                } else {
                    assert(l.len() == 1);
                    assert(join_words(l) == st.pri.marker());
                }
            },
        }
    }
    assert(all_words(du)) by {
        match st.due {
            Some(d) => {
                let t = due_prefix() + d;
                assert forall|i: int| 0 <= i < t.len() implies !is_ws(#[trigger] t[i]) by {
                    if i >= 4 {
                        assert(t[i] == d[i - 4]);
                    }
                }
            },
            None => {},
        }
    }
    assert(join_words(du) == due_text(v));
    assert(all_words(st.desc)) by {
        assert forall|i: int| 0 <= i < st.desc.len() implies is_word(#[trigger] st.desc[i]) by {
            assert(plain_word(st.desc[i]));
        }
    }
    assert(all_words(st.projects)) by {
        assert forall|i: int| 0 <= i < st.projects.len() implies is_word(#[trigger] st.projects[i]) by {
            assert(is_word(st.projects[i]) && starts_with(st.projects[i], '+'));
        }
    }
    assert(all_words(st.tags)) by {
        assert forall|i: int| 0 <= i < st.tags.len() implies is_word(#[trigger] st.tags[i]) by {
            assert(is_word(st.tags[i]) && starts_with(st.tags[i], '@'));
        }
    }
    let ps = seq![lead(v), v.task, due_text(v), join_words(v.projects), join_words(v.tags)];
    let e = Seq::<Seq<char>>::empty();
    assert(e + l =~= l);
    assert(ps.take(0) =~= Seq::<Seq<char>>::empty());
    assert(ps.take(1).drop_last() =~= ps.take(0));
    lemma_join_nonempty_step(ps.take(1), e, l);
    assert(ps.take(2).drop_last() =~= ps.take(1));
    lemma_join_nonempty_step(ps.take(2), l, st.desc);
    assert(ps.take(3).drop_last() =~= ps.take(2));
    lemma_join_nonempty_step(ps.take(3), l + st.desc, du);
    assert(ps.take(4).drop_last() =~= ps.take(3));
    lemma_join_nonempty_step(ps.take(4), l + st.desc + du, st.projects);
    assert(ps.take(5).drop_last() =~= ps.take(4));
    lemma_join_nonempty_step(ps.take(5), l + st.desc + du + st.projects, st.tags);
    assert(ps.take(5) =~= ps);
    let all = l + st.desc + du + st.projects + st.tags;
    lemma_tokens_of_join(all);
}

/// Reading the stored words of a record's fields gives the same fields back.
proof fn lemma_read_stored(st: Fields, start: Fields, body: Seq<Seq<char>>)
    requires
        fields_ok(st),
        start == (Fields { desc: seq![], projects: seq![], tags: seq![], due: None, ..st }),
        body == st.desc + (match st.due {
            Some(d) => seq![due_prefix() + d],
            None => seq![],
        }) + st.projects + st.tags,
    ensures
        read_tokens(start, body) == st,
{
    let du: Seq<Seq<char>> = match st.due {
        Some(d) => seq![due_prefix() + d],
        None => seq![],
    };
    lemma_read_concat(start, st.desc + du + st.projects, st.tags);
    lemma_read_concat(start, st.desc + du, st.projects);
    lemma_read_concat(start, st.desc, du);
    lemma_read_plain(start, st.desc);
    let s1 = Fields { desc: st.desc, ..start };
    assert(start.desc + st.desc =~= st.desc);
    let s2 = read_tokens(s1, du);
    assert(s2 == Fields { due: st.due, ..s1 }) by {
        match st.due {
            Some(d) => {
                let t = due_prefix() + d;
                assert(du.drop_last() =~= Seq::<Seq<char>>::empty());
                assert(read_tokens(s1, du.drop_last()) == s1);
                assert(du.last() == t);
                assert(t.take(4) =~= due_prefix());
                assert(t.skip(4) =~= d);
                assert(!is_priority_token(t));
                assert(is_due_token(t));
                assert(classify(s1, t) == Fields { due: Some(d), ..s1 });
            },
            None => {},
        }
    }
    lemma_read_marked(s2, st.projects, '+');
    let s3 = Fields { projects: st.projects, ..s2 };
    assert(s2.projects + st.projects =~= st.projects);
    lemma_read_marked(s3, st.tags, '@');
    assert(s3.tags + st.tags =~= st.tags);
}

/// Reading the stored line of a record built from well-formed fields gives
/// the record back.
#[verifier::rlimit(30)]
proof fn lemma_reparse(st: Fields, done: Option<Seq<char>>)
    requires
        fields_ok(st),
        done matches Some(d) ==> is_word(d),
        stores_faithfully(record_of(st, done)),
    ensures
        parse_line(save_text(record_of(st, done))) == Ok::<TodoView, crate::error::TodoError>(
            record_of(st, done),
        ),
{
    let x = seq!['x'];
    lemma_stored_words(st, done);
    let tt = stored_words(st, done);
    let du: Seq<Seq<char>> = match st.due {
        Some(d) => seq![due_prefix() + d],
        None => seq![],
    };
    let body = st.desc + du + st.projects + st.tags;
    let start = Fields { desc: seq![], projects: seq![], tags: seq![], due: None, ..st };
    lemma_read_stored(st, start, body);
    match done {
        Some(d) => {
            assert(tt =~= seq![x, d] + body);
            assert(tt[0] == x);
            assert(tt.skip(2) =~= body);
            assert(start == no_fields());
        },
        None => {
            if st.pri == TodoPriority::Unset {
                lemma_reparse_plain(st, tt, du, body, start);
            } else {
                let m = st.pri.marker();
                lemma_marker(st.pri);
                assert(tt =~= seq![m] + body);
                assert(tt[0] == m);
                lemma_read_concat(no_fields(), seq![m], body);
                assert(seq![m].drop_last() =~= Seq::<Seq<char>>::empty());
                assert(read_tokens(no_fields(), seq![m].drop_last()) == no_fields());
                assert(seq![m].last() == m);
                assert(classify(no_fields(), m) == start);
                assert(read_tokens(no_fields(), seq![m]) == start);
                assert(seq![m] + body =~= tt);
            }
        },
    }
}

proof fn lemma_reparse_plain(
    st: Fields,
    tt: Seq<Seq<char>>,
    du: Seq<Seq<char>>,
    body: Seq<Seq<char>>,
    start: Fields,
)
    requires
        fields_ok(st),
        st.pri == TodoPriority::Unset,
        stores_faithfully(record_of(st, None)),
        tt == stored_words(st, None),
        du == (match st.due {
            Some(d) => seq![due_prefix() + d],
            None => seq![],
        }),
        body == st.desc + du + st.projects + st.tags,
        start == (Fields { desc: seq![], projects: seq![], tags: seq![], due: None, ..st }),
        read_tokens(start, body) == st,
    ensures
        tt == body,
        start == no_fields(),
        !(tt.len() > 0 && tt[0] == seq!['x']),
{
    assert(tt =~= body);
    lemma_tokens_of_join_desc(st);
    if tt.len() > 0 {
        if st.desc.len() > 0 {
            assert(tt[0] == st.desc[0]);
        } else if du.len() > 0 {
            assert(tt[0] == du[0]);
            assert(tt[0].len() >= 4);
        } else if st.projects.len() > 0 {
            assert(tt[0] == st.projects[0]);
            assert(starts_with(st.projects[0], '+'));
        } else {
            assert(tt[0] == st.tags[0]);
            assert(starts_with(st.tags[0], '@'));
        }
    }
}

/// Round trip: for a line that parses to a record that its stored form
/// describes faithfully, parsing the stored form gives that record again,
/// field for field.
pub proof fn lemma_round_trip(s: Seq<char>)
    requires
        parse_line(s) is Ok,
        stores_faithfully(parse_line(s)->Ok_0),
    ensures
        parse_line(save_text(parse_line(s)->Ok_0)) == parse_line(s),
{
    let ts = tokens(s);
    lemma_tokens_are_words(s);
    let x = seq!['x'];
    let has_x = ts.len() > 0 && ts[0] == x;
    let rest = if has_x { ts.skip(2) } else { ts };
    let done: Option<Seq<char>> = if has_x { Some(ts[1]) } else { None };
    assert(all_words(rest)) by {
        if has_x {
            assert forall|i: int| 0 <= i < rest.len() implies is_word(#[trigger] rest[i]) by {
                assert(rest[i] == ts[i + 2]);
            }
        }
    }
    assert(fields_ok(no_fields()));
    lemma_read_fields_ok(no_fields(), rest);
    let st = read_tokens(no_fields(), rest);
    if has_x {
        assert(is_word(ts[1]));
    }
    lemma_reparse(st, done);
}

proof fn lemma_tokens_of_join_desc(st: Fields)
    requires
        fields_ok(st),
    ensures
        tokens(join_words(st.desc)) == st.desc,
{
    assert(all_words(st.desc)) by {
        assert forall|i: int| 0 <= i < st.desc.len() implies is_word(#[trigger] st.desc[i]) by {
            assert(plain_word(st.desc[i]));
        }
    }
    lemma_tokens_of_join(st.desc);
}

} // verus!
