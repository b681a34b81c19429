//! Why removing cvars from a file just overwritten with them leaves none of
//! their lines behind, as long as no line of the cvars holds another.
//!
//! The file is a run of segments, each a line and its terminator (`\n` or
//! `\r\n`). A removed line never reaches across a `\n`, so each removal acts
//! on every segment alone: it empties the segments whose line it is, and
//! cuts the end off a segment whose line ends with all but the final `\r`
//! of the removed line and whose terminator is `\r\n`.
use vstd::prelude::*;
use crate::text::{lines_from, lines_of, replace_all, strip_cr};
use crate::writer::{after, op_for, remove_each, removed, written, WriteType};

verus! {

/// Whether `p` occurs in `s` at index `i`.
pub open spec fn starts_at(s: Seq<char>, i: int, p: Seq<char>) -> bool {
    0 <= i && i + p.len() <= s.len() && s.subrange(i, i + p.len()) == p
}

/// Whether `p` occurs anywhere in `s`.
pub open spec fn occurs(s: Seq<char>, p: Seq<char>) -> bool {
    exists|i: int| #[trigger] starts_at(s, i, p)
}

/// Whether `s` holds no `c`.
pub open spec fn free_of(s: Seq<char>, c: char) -> bool {
    forall|i: int| 0 <= i < s.len() ==> s[i] != c
}

/// Whether no non-empty line of `ls` occurs in another, different line.
pub open spec fn lines_unrelated(ls: Seq<Seq<char>>) -> bool {
    forall|i: int, j: int|
        0 <= i < ls.len() && 0 <= j < ls.len() && ls[i].len() > 0 && #[trigger] occurs(ls[j], ls[i])
            ==> ls[i] == ls[j]
}

pub open spec fn lf() -> Seq<char> {
    seq!['\n']
}

pub open spec fn crlf() -> Seq<char> {
    seq!['\r', '\n']
}

pub open spec fn cr() -> Seq<char> {
    seq!['\r']
}

/// The terminators of the lines of `cur + s`, line for line with
/// `lines_from(s, cur)`.
pub open spec fn terms_from(s: Seq<char>, cur: Seq<char>) -> Seq<Seq<char>>
    decreases s.len(),
{
    if s.len() == 0 {
        if cur.len() == 0 {
            seq![]
        } else {
            seq![Seq::<char>::empty()]
        }
    } else if s[0] == '\n' {
        seq![
            if cur.len() > 0 && cur.last() == '\r' {
                crlf()
            } else {
                lf()
            },
        ] + terms_from(s.drop_first(), seq![])
    } else {
        terms_from(s.drop_first(), cur.push(s[0]))
    }
}

/// The text made of the segments `ms[k] + ts[k]`, in order.
pub open spec fn segments(ms: Seq<Seq<char>>, ts: Seq<Seq<char>>) -> Seq<char>
    decreases ms.len(),
{
    if ms.len() == 0 || ts.len() == 0 {
        seq![]
    } else {
        ms[0] + ts[0] + segments(ms.drop_first(), ts.drop_first())
    }
}

proof fn lemma_lines_segments(s: Seq<char>, cur: Seq<char>)
    requires
        s.len() > 0,
        s.last() == '\n',
        free_of(cur, '\n'),
    ensures
        lines_from(s, cur).len() == terms_from(s, cur).len(),
        segments(lines_from(s, cur), terms_from(s, cur)) == cur + s,
        forall|k: int|
            0 <= k < lines_from(s, cur).len() ==> free_of(#[trigger] lines_from(s, cur)[k], '\n'),
        forall|k: int|
            0 <= k < terms_from(s, cur).len() ==> #[trigger] terms_from(s, cur)[k] == lf()
                || terms_from(s, cur)[k] == crlf(),
    decreases s.len(),
{
    let d = s.drop_first();
    if s[0] == '\n' {
        let c = strip_cr(cur);
        let t = if cur.len() > 0 && cur.last() == '\r' {
            crlf()
        } else {
            lf()
        };
        assert(c + t =~= cur + seq!['\n']);
        assert(free_of(c, '\n'));
        let e = Seq::<char>::empty();
        if d.len() == 0 {
            assert(s =~= seq!['\n']);
            assert(lines_from(d, e) =~= seq![]);
            assert(terms_from(d, e) =~= seq![]);
            assert(lines_from(s, cur) =~= seq![c]);
            assert(terms_from(s, cur) =~= seq![t]);
            assert(seq![c].drop_first() =~= seq![]);
            assert(seq![t].drop_first() =~= seq![]);
            assert(seq![c][0] == c);
            assert(seq![t][0] == t);
            assert(segments(seq![c].drop_first(), seq![t].drop_first()) == e);
            assert(segments(seq![c], seq![t]) =~= c + t + e);
        } else {
            assert(free_of(e, '\n'));
            lemma_lines_segments(d, e);
            let l = lines_from(d, e);
            let ts = terms_from(d, e);
            assert((seq![c] + l).drop_first() =~= l);
            assert((seq![t] + ts).drop_first() =~= ts);
            assert((seq![c] + l)[0] == c);
            assert((seq![t] + ts)[0] == t);
            assert(e + d =~= d);
            assert(segments(seq![c] + l, seq![t] + ts) =~= cur + s);
            assert forall|k: int| 0 <= k < (seq![c] + l).len() implies free_of(
                #[trigger] (seq![c] + l)[k],
                '\n',
            ) by {
                if k > 0 {
                    assert((seq![c] + l)[k] == l[k - 1]);
                }
            }
            assert forall|k: int| 0 <= k < (seq![t] + ts).len() implies #[trigger] (seq![t]
                + ts)[k] == lf() || (seq![t] + ts)[k] == crlf() by {
                if k > 0 {
                    assert((seq![t] + ts)[k] == ts[k - 1]);
                }
            }
        }
    } else {
        assert(d.len() > 0);
        lemma_lines_segments(d, cur.push(s[0]));
        assert(cur.push(s[0]) + d =~= cur + s);
    }
}

proof fn lemma_replace_skip(s: Seq<char>, p: Seq<char>, t: Seq<char>, k: int)
    requires
        p.len() > 0,
        0 <= k <= s.len(),
        forall|i: int| 0 <= i < k ==> !starts_at(s, i, p),
    ensures
        replace_all(s, p, t) == s.subrange(0, k) + replace_all(s.subrange(k, s.len() as int), p, t),
    decreases k,
{
    if k == 0 {
        assert(s.subrange(0, s.len() as int) =~= s);
        assert(s.subrange(0, 0) + s =~= s);
    } else if s.len() < p.len() {
        assert(s.subrange(0, k) + s.subrange(k, s.len() as int) =~= s);
    } else {
        assert(!starts_at(s, 0, p));
        let d = s.drop_first();
        assert forall|i: int| 0 <= i < k - 1 implies !starts_at(d, i, p) by {
            assert(!starts_at(s, i + 1, p));
            if i + p.len() <= d.len() {
                assert(d.subrange(i, i + p.len()) =~= s.subrange(i + 1, i + 1 + p.len()));
            }
        }
        lemma_replace_skip(d, p, t, k - 1);
        assert(d.subrange(k - 1, d.len() as int) =~= s.subrange(k, s.len() as int));
        let r = replace_all(d.subrange(k - 1, d.len() as int), p, t);
        assert(seq![s[0]] + (d.subrange(0, k - 1) + r) =~= s.subrange(0, k) + r);
    }
}

/// Removal splits at a newline: a pattern without `\n` never reaches across one.
proof fn lemma_replace_split(a: Seq<char>, b: Seq<char>, p: Seq<char>)
    requires
        p.len() > 0,
        free_of(p, '\n'),
        a.len() > 0,
        a.last() == '\n',
    ensures
        replace_all(a + b, p, seq![]) == replace_all(a, p, seq![]) + replace_all(b, p, seq![]),
    decreases a.len(),
{
    let s = a + b;
    let e = Seq::<char>::empty();
    if s.len() < p.len() {
        assert(s =~= a + b);
    } else if s.subrange(0, p.len() as int) == p {
        if p.len() >= a.len() {
            assert(s.subrange(0, p.len() as int)[a.len() - 1] == a[a.len() - 1]);
        }
        assert(a.subrange(0, p.len() as int) =~= s.subrange(0, p.len() as int));
        let a2 = a.subrange(p.len() as int, a.len() as int);
        assert(s.subrange(p.len() as int, s.len() as int) =~= a2 + b);
        lemma_replace_split(a2, b, p);
        assert(e + (replace_all(a2, p, e) + replace_all(b, p, e)) =~= (e + replace_all(a2, p, e))
            + replace_all(b, p, e));
    } else {
        let a2 = a.drop_first();
        assert(s.drop_first() =~= a2 + b);
        if a.len() == 1 {
            assert(a =~= seq!['\n']);
            assert(a2 + b =~= b);
            if a.len() >= p.len() {
                assert(p.len() == 1);
                assert(a.subrange(0, 1) =~= s.subrange(0, 1));
                assert(replace_all(a2, p, e) == a2);
            }
            assert(seq![s[0]] + replace_all(b, p, e) =~= a + replace_all(b, p, e));
        } else {
            lemma_replace_split(a2, b, p);
            if a.len() >= p.len() {
                assert(a.subrange(0, p.len() as int) =~= s.subrange(0, p.len() as int));
            } else {
                assert(replace_all(a2, p, e) == a2);
                assert(seq![a[0]] + a2 =~= a);
            }
            assert(seq![s[0]] + (replace_all(a2, p, e) + replace_all(b, p, e)) =~= (seq![a[0]]
                + replace_all(a2, p, e)) + replace_all(b, p, e));
        }
    }
}

/// Whether `q` ends with `\r` and the rest of it ends `m`, so that `q`
/// occurs in `m + "\r\n"` across the end of `m`.
pub open spec fn spans(m: Seq<char>, q: Seq<char>) -> bool {
    q.len() > 0 && q.last() == '\r' && q.len() - 1 <= m.len() && m.subrange(
        m.len() - (q.len() - 1),
        m.len() as int,
    ) == q.drop_last()
}

/// The line part of the segment `m + t` once `p` is removed from it.
pub open spec fn cut_line(m: Seq<char>, t: Seq<char>, p: Seq<char>) -> Seq<char> {
    if m == p {
        Seq::<char>::empty()
    } else if t == crlf() && spans(m, p) {
        m.subrange(0, m.len() - (p.len() - 1))
    } else {
        m
    }
}

/// The terminator part of the segment `m + t` once `p` is removed from it.
pub open spec fn cut_term(m: Seq<char>, t: Seq<char>, p: Seq<char>) -> Seq<char> {
    if m == p {
        if t == crlf() && p == cr() {
            lf()
        } else {
            t
        }
    } else if t == crlf() && spans(m, p) {
        lf()
    } else {
        t
    }
}

pub open spec fn cut_lines(ms: Seq<Seq<char>>, ts: Seq<Seq<char>>, p: Seq<char>) -> Seq<
    Seq<char>,
> {
    Seq::new(ms.len(), |k: int| cut_line(ms[k], ts[k], p))
}

pub open spec fn cut_terms(ms: Seq<Seq<char>>, ts: Seq<Seq<char>>, p: Seq<char>) -> Seq<
    Seq<char>,
> {
    Seq::new(ms.len(), |k: int| cut_term(ms[k], ts[k], p))
}

proof fn lemma_replace_lf(p: Seq<char>)
    requires
        p.len() > 0,
        free_of(p, '\n'),
    ensures
        replace_all(lf(), p, seq![]) == lf(),
{
    assert(!starts_at(lf(), 0, p)) by {
        if starts_at(lf(), 0, p) {
            assert(lf().subrange(0, p.len() as int)[0] == p[0]);
        }
    };
    lemma_replace_skip(lf(), p, seq![], 1);
    assert(lf().subrange(0, 1) =~= lf());
    assert(lf().subrange(1, 1) =~= Seq::<char>::empty());
    assert(lf() + Seq::<char>::empty() =~= lf());
}

proof fn lemma_segment(m: Seq<char>, t: Seq<char>, p: Seq<char>)
    requires
        p.len() > 0,
        free_of(p, '\n'),
        free_of(m, '\n'),
        t == lf() || t == crlf(),
        occurs(m, p) ==> m == p,
    ensures
        replace_all(m + t, p, seq![]) == cut_line(m, t, p) + cut_term(m, t, p),
{
    let s = m + t;
    let e = Seq::<char>::empty();
    lemma_replace_lf(p);
    if m == p {
        assert(s.subrange(0, p.len() as int) =~= p);
        assert(s.subrange(p.len() as int, s.len() as int) =~= t);
        assert(replace_all(s, p, e) == e + replace_all(t, p, e));
        if t == crlf() && p == cr() {
            assert(t.subrange(0, 1) =~= p);
            assert(t.subrange(1, 2) =~= lf());
        } else {
            assert forall|i: int| 0 <= i < t.len() implies !starts_at(t, i, p) by {
                if starts_at(t, i, p) {
                    assert(t.subrange(i, i + p.len())[0] == t[i]);
                    if t == crlf() && i == 0 {
                        if p.len() >= 2 {
                            assert(t.subrange(i, i + p.len())[1] == t[1]);
                        } else {
                            assert(p =~= cr());
                        }
                    }
                }
            }
            lemma_replace_skip(t, p, e, t.len() as int);
            assert(t.subrange(0, t.len() as int) =~= t);
            assert(t.subrange(t.len() as int, t.len() as int) =~= e);
            assert(t + e =~= t);
        }
        assert(e + cut_term(m, t, p) =~= cut_term(m, t, p));
    } else if t == crlf() && spans(m, p) {
        let i0 = m.len() - (p.len() - 1);
        assert forall|i: int| 0 <= i < i0 implies !starts_at(s, i, p) by {
            if starts_at(s, i, p) {
                assert(s.subrange(i, i + p.len()) =~= m.subrange(i, i + p.len()));
                assert(starts_at(m, i, p));
            }
        }
        lemma_replace_skip(s, p, e, i0);
        let r = s.subrange(i0, s.len() as int);
        assert(r =~= p + lf()) by {
            assert(m.subrange(i0, m.len() as int) =~= p.drop_last());
            assert(p =~= p.drop_last().push('\r'));
        };
        assert(r.subrange(0, p.len() as int) =~= p);
        assert(r.subrange(p.len() as int, r.len() as int) =~= lf());
        assert(replace_all(r, p, e) == e + lf());
        assert(s.subrange(0, i0) =~= m.subrange(0, i0));
        assert(s.subrange(0, i0) + (e + lf()) =~= cut_line(m, t, p) + cut_term(m, t, p));
    } else {
        assert forall|i: int| 0 <= i < s.len() implies !starts_at(s, i, p) by {
            if starts_at(s, i, p) {
                let w = s.subrange(i, i + p.len());
                if i + p.len() <= m.len() {
                    assert(w =~= m.subrange(i, i + p.len()));
                    assert(starts_at(m, i, p));
                } else if i + p.len() == s.len() {
                    assert(w[p.len() - 1] == s[s.len() - 1]);
                } else {
                    assert(t == crlf());
                    assert(i + p.len() == m.len() + 1);
                    assert(w[p.len() - 1] == s[m.len() as int]);
                    assert(p.last() == '\r');
                    assert(m.subrange(m.len() - (p.len() - 1), m.len() as int) =~= p.drop_last());
                }
            }
        }
        lemma_replace_skip(s, p, e, s.len() as int);
        assert(s.subrange(0, s.len() as int) =~= s);
        assert(s.subrange(s.len() as int, s.len() as int) =~= e);
        assert(s + e =~= s);
    }
}

proof fn lemma_segments_cut(ms: Seq<Seq<char>>, ts: Seq<Seq<char>>, p: Seq<char>)
    requires
        ms.len() == ts.len(),
        p.len() > 0,
        free_of(p, '\n'),
        forall|k: int| 0 <= k < ms.len() ==> free_of(#[trigger] ms[k], '\n'),
        forall|k: int| 0 <= k < ts.len() ==> #[trigger] ts[k] == lf() || ts[k] == crlf(),
        forall|k: int| 0 <= k < ms.len() && occurs(#[trigger] ms[k], p) ==> ms[k] == p,
    ensures
        replace_all(segments(ms, ts), p, seq![]) == segments(
            cut_lines(ms, ts, p),
            cut_terms(ms, ts, p),
        ),
    decreases ms.len(),
{
    let e = Seq::<char>::empty();
    if ms.len() == 0 {
        assert(cut_lines(ms, ts, p) =~= seq![]);
    } else {
        let a = ms[0] + ts[0];
        let b = segments(ms.drop_first(), ts.drop_first());
        assert(segments(ms, ts) == a + b);
        assert(a.last() == '\n') by {
            assert(a[a.len() - 1] == ts[0][ts[0].len() - 1]);
        };
        lemma_replace_split(a, b, p);
        lemma_segment(ms[0], ts[0], p);
        let ms1 = ms.drop_first();
        let ts1 = ts.drop_first();
        assert forall|k: int| 0 <= k < ms1.len() implies free_of(#[trigger] ms1[k], '\n') by {
            assert(ms1[k] == ms[k + 1]);
        }
        assert forall|k: int| 0 <= k < ts1.len() implies #[trigger] ts1[k] == lf() || ts1[k]
            == crlf() by {
            assert(ts1[k] == ts[k + 1]);
        }
        assert forall|k: int| 0 <= k < ms1.len() && occurs(#[trigger] ms1[k], p) implies ms1[k]
            == p by {
            assert(ms1[k] == ms[k + 1]);
        }
        lemma_segments_cut(ms1, ts1, p);
        let cl = cut_lines(ms, ts, p);
        let ct = cut_terms(ms, ts, p);
        assert(cl.drop_first() =~= cut_lines(ms1, ts1, p));
        assert(ct.drop_first() =~= cut_terms(ms1, ts1, p));
        assert(segments(cl, ct) == cl[0] + ct[0] + segments(cl.drop_first(), ct.drop_first()));
    }
}

/// What holds of the segments `ms[k] + ts[k]` of the file once the lines
/// `ps` of `ls` are removed: each line part is a prefix of its original
/// line; a `\r\n` terminator is still there only while no removed line was
/// `\r`, and only on a segment whose line is whole or empty; a whole line
/// was not removed yet; and no removed line reaches across the end of a
/// whole line into its `\r\n`.
pub open spec fn state_ok(
    ls: Seq<Seq<char>>,
    ps: Seq<Seq<char>>,
    ms: Seq<Seq<char>>,
    ts: Seq<Seq<char>>,
) -> bool {
    &&& ms.len() == ls.len()
    &&& ts.len() == ls.len()
    &&& forall|k: int|
        0 <= k < ls.len() ==> (#[trigger] ms[k]).len() <= ls[k].len() && ms[k] == ls[k].subrange(
            0,
            ms[k].len() as int,
        )
    &&& forall|k: int|
        0 <= k < ls.len() ==> #[trigger] ts[k] == lf() || (ts[k] == crlf() && !ps.contains(cr()) && (
        ms[k] == ls[k] || ms[k].len() == 0))
    &&& forall|k: int|
        0 <= k < ls.len() && #[trigger] ms[k] == ls[k] && ls[k].len() > 0 ==> !ps.contains(ls[k])
    &&& forall|k: int, i: int|
        0 <= k < ls.len() && 0 <= i < ps.len() && ts[k] == crlf() && ms[k] == ls[k] ==> !#[trigger] spans(ls[k], ps[i])
}

proof fn lemma_prefix_occurs(m: Seq<char>, l: Seq<char>, p: Seq<char>)
    requires
        m.len() <= l.len(),
        m == l.subrange(0, m.len() as int),
        occurs(m, p),
    ensures
        occurs(l, p),
        p.len() <= m.len(),
{
    let i = choose|i: int| #[trigger] starts_at(m, i, p);
    assert(l.subrange(i, i + p.len()) =~= m.subrange(i, i + p.len()));
    assert(starts_at(l, i, p));
}

proof fn lemma_spans_empty(q: Seq<char>)
    requires
        spans(Seq::<char>::empty(), q),
    ensures
        q == cr(),
{
    assert(q.len() == 1);
    assert(q =~= cr());
}

proof fn lemma_step(ls: Seq<Seq<char>>, j: int, ms: Seq<Seq<char>>, ts: Seq<Seq<char>>)
    requires
        0 <= j < ls.len(),
        ls[j].len() > 0,
        forall|k: int| 0 <= k < ls.len() ==> free_of(#[trigger] ls[k], '\n'),
        lines_unrelated(ls),
        state_ok(ls, ls.subrange(0, j), ms, ts),
    ensures
        replace_all(segments(ms, ts), ls[j], seq![]) == segments(
            cut_lines(ms, ts, ls[j]),
            cut_terms(ms, ts, ls[j]),
        ),
        state_ok(
            ls,
            ls.subrange(0, j + 1),
            cut_lines(ms, ts, ls[j]),
            cut_terms(ms, ts, ls[j]),
        ),
{
    let p = ls[j];
    let ps = ls.subrange(0, j);
    let ps1 = ls.subrange(0, j + 1);
    assert forall|m: Seq<char>| ps1.contains(m) <==> (ps.contains(m) || m == p) by {
        if ps1.contains(m) {
            let i = choose|i: int| 0 <= i < ps1.len() && ps1[i] == m;
            if i < j {
                assert(ps[i] == m);
            }
        }
        if ps.contains(m) {
            let i = choose|i: int| 0 <= i < ps.len() && ps[i] == m;
            assert(ps1[i] == m);
        }
        if m == p {
            assert(ps1[j] == m);
        }
    }
    assert forall|k: int| 0 <= k < ms.len() implies free_of(#[trigger] ms[k], '\n') by {
        assert forall|i: int| 0 <= i < ms[k].len() implies ms[k][i] != '\n' by {
            assert(ms[k][i] == ls[k][i]);
        }
    }
    assert forall|k: int| 0 <= k < ms.len() && occurs(#[trigger] ms[k], p) implies ms[k] == p by {
        lemma_prefix_occurs(ms[k], ls[k], p);
        assert(occurs(ls[k], ls[j]));
        assert(ms[k] =~= ls[k]);
    }
    lemma_segments_cut(ms, ts, p);
    let ms2 = cut_lines(ms, ts, p);
    let ts2 = cut_terms(ms, ts, p);
    assert(spans(Seq::<char>::empty(), cr()) && forall|m: Seq<char>| spans(m, cr())) by {
        assert forall|m: Seq<char>| spans(m, cr()) by {
            assert(m.subrange(m.len() as int, m.len() as int) =~= cr().drop_last());
        }
    };
    assert forall|k: int| 0 <= k < ls.len() implies (#[trigger] ms2[k]).len() <= ls[k].len()
        && ms2[k] == ls[k].subrange(0, ms2[k].len() as int) by {
        assert(ms2[k] == cut_line(ms[k], ts[k], p));
        if ms[k] == p {
            assert(ms2[k] =~= ls[k].subrange(0, 0));
        } else if ts[k] == crlf() && spans(ms[k], p) {
            assert(ms2[k] =~= ls[k].subrange(0, ms2[k].len() as int));
        }
    }
    assert forall|k: int| 0 <= k < ls.len() implies #[trigger] ts2[k] == lf() || (ts2[k] == crlf()
        && !ps1.contains(cr()) && (ms2[k] == ls[k] || ms2[k].len() == 0)) by {
        assert(ts2[k] == cut_term(ms[k], ts[k], p));
        assert(ms2[k] == cut_line(ms[k], ts[k], p));
        if ts2[k] == crlf() {
            assert(ts[k] == crlf());
            assert(p != cr());
        }
    }
    assert forall|k: int| 0 <= k < ls.len() && #[trigger] ms2[k] == ls[k] && ls[k].len() > 0 implies !ps1.contains(
        ls[k],
    ) by {
        assert(ms2[k] == cut_line(ms[k], ts[k], p));
        if ms[k] == p {
        } else if ts[k] == crlf() && spans(ms[k], p) {
            assert(ms[k].len() <= ls[k].len());
            assert(ms[k] =~= ls[k]);
        } else {
        }
    }
    assert forall|k: int, i: int|
        0 <= k < ls.len() && 0 <= i < ps1.len() && ts2[k] == crlf() && ms2[k] == ls[k] implies !#[trigger] spans(ls[k], ps1[i]) by {
        assert(ts2[k] == cut_term(ms[k], ts[k], p));
        assert(ms2[k] == cut_line(ms[k], ts[k], p));
        if ms[k] == p {
            if spans(ls[k], ps1[i]) {
                assert(ls[k] =~= Seq::<char>::empty());
                lemma_spans_empty(ps1[i]);
                assert(ps1.contains(cr()));
            }
        } else {
            if i < j {
                assert(ps1[i] == ps[i]);
            }
        }
    }
}

proof fn lemma_occurs_segments(ms: Seq<Seq<char>>, ts: Seq<Seq<char>>, l: Seq<char>)
    requires
        ms.len() == ts.len(),
        l.len() > 0,
        free_of(l, '\n'),
        forall|k: int| 0 <= k < ts.len() ==> #[trigger] ts[k] == lf() || ts[k] == crlf(),
        occurs(segments(ms, ts), l),
    ensures
        exists|k: int| 0 <= k < ms.len() && occurs(#[trigger] (ms[k] + ts[k]), l),
    decreases ms.len(),
{
    let s = segments(ms, ts);
    let i = choose|i: int| #[trigger] starts_at(s, i, l);
    if ms.len() == 0 {
        assert(s.len() == 0);
    } else {
        let a = ms[0] + ts[0];
        let b = segments(ms.drop_first(), ts.drop_first());
        assert(s == a + b);
        assert(a[a.len() - 1] == '\n') by {
            assert(a[a.len() - 1] == ts[0][ts[0].len() - 1]);
        };
        if i < a.len() {
            if i + l.len() > a.len() - 1 {
                assert(s.subrange(i, i + l.len())[a.len() - 1 - i] == s[a.len() - 1]);
            }
            assert(a.subrange(i, i + l.len()) =~= s.subrange(i, i + l.len()));
            assert(starts_at(a, i, l));
            assert(occurs(ms[0] + ts[0], l));
        } else {
            assert(b.subrange(i - a.len(), i - a.len() + l.len()) =~= s.subrange(i, i + l.len()));
            assert(starts_at(b, i - a.len(), l));
            let ms1 = ms.drop_first();
            let ts1 = ts.drop_first();
            assert forall|k: int| 0 <= k < ts1.len() implies #[trigger] ts1[k] == lf() || ts1[k]
                == crlf() by {
                assert(ts1[k] == ts[k + 1]);
            }
            lemma_occurs_segments(ms1, ts1, l);
            let k = choose|k: int| 0 <= k < ms1.len() && occurs(#[trigger] (ms1[k] + ts1[k]), l);
            assert(ms1[k] + ts1[k] == ms[k + 1] + ts[k + 1]);
        }
    }
}

proof fn lemma_clean(ls: Seq<Seq<char>>, ms: Seq<Seq<char>>, ts: Seq<Seq<char>>, q: int)
    requires
        forall|k: int| 0 <= k < ls.len() ==> free_of(#[trigger] ls[k], '\n'),
        lines_unrelated(ls),
        state_ok(ls, ls, ms, ts),
        0 <= q < ls.len(),
        ls[q].len() > 0,
    ensures
        !occurs(segments(ms, ts), ls[q]),
{
    let l = ls[q];
    if occurs(segments(ms, ts), l) {
        lemma_occurs_segments(ms, ts, l);
        let k = choose|k: int| 0 <= k < ms.len() && occurs(#[trigger] (ms[k] + ts[k]), l);
        let m = ms[k];
        let t = ts[k];
        let s = m + t;
        let i = choose|i: int| #[trigger] starts_at(s, i, l);
        let w = s.subrange(i, i + l.len());
        assert(ls.contains(ls[k]));
        assert(ls.contains(l));
        if i + l.len() <= m.len() {
            assert(w =~= m.subrange(i, i + l.len()));
            assert(starts_at(m, i, l));
            lemma_prefix_occurs(m, ls[k], l);
            assert(occurs(ls[k], ls[q]));
            assert(m =~= ls[k]);
        } else if i + l.len() == s.len() {
            assert(w[l.len() - 1] == s[s.len() - 1]);
        } else {
            assert(t == crlf());
            assert(w[l.len() - 1] == s[m.len() as int]);
            assert(m.subrange(m.len() - (l.len() - 1), m.len() as int) =~= l.drop_last());
            assert(spans(m, l));
            if m.len() == 0 {
                assert(m =~= Seq::<char>::empty());
                lemma_spans_empty(l);
            } else {
                assert(ls[q] == l);
                assert(!spans(ls[k], ls[q]));
            }
        }
    }
}

proof fn lemma_remove_rest(ls: Seq<Seq<char>>, j: int, ms: Seq<Seq<char>>, ts: Seq<Seq<char>>)
    requires
        0 <= j <= ls.len(),
        forall|k: int| 0 <= k < ls.len() ==> free_of(#[trigger] ls[k], '\n'),
        lines_unrelated(ls),
        state_ok(ls, ls.subrange(0, j), ms, ts),
    ensures
        forall|q: int|
            0 <= q < ls.len() && (#[trigger] ls[q]).len() > 0 ==> !occurs(
                remove_each(segments(ms, ts), ls.subrange(j, ls.len() as int)),
                ls[q],
            ),
    decreases ls.len() - j,
{
    let rest = ls.subrange(j, ls.len() as int);
    if j == ls.len() {
        assert(ls.subrange(0, j) =~= ls);
        assert(rest =~= seq![]);
        assert forall|q: int| 0 <= q < ls.len() && (#[trigger] ls[q]).len() > 0 implies !occurs(
            remove_each(segments(ms, ts), rest),
            ls[q],
        ) by {
            lemma_clean(ls, ms, ts, q);
        }
    } else {
        let p = ls[j];
        assert(rest[0] == p);
        assert(rest.drop_first() =~= ls.subrange(j + 1, ls.len() as int));
        if p.len() > 0 {
            lemma_step(ls, j, ms, ts);
            lemma_remove_rest(ls, j + 1, cut_lines(ms, ts, p), cut_terms(ms, ts, p));
        } else {
            let ps = ls.subrange(0, j);
            let ps1 = ls.subrange(0, j + 1);
            assert forall|m: Seq<char>| ps1.contains(m) <==> (ps.contains(m) || m == p) by {
                if ps1.contains(m) {
                    let i = choose|i: int| 0 <= i < ps1.len() && ps1[i] == m;
                    if i < j {
                        assert(ps[i] == m);
                    }
                }
                if ps.contains(m) {
                    let i = choose|i: int| 0 <= i < ps.len() && ps[i] == m;
                    assert(ps1[i] == m);
                }
                if m == p {
                    assert(ps1[j] == m);
                }
            }
            assert(cr() != p) by {
                assert(cr().len() == 1);
            };
            assert forall|k: int, i: int|
                0 <= k < ls.len() && 0 <= i < ps1.len() && ts[k] == crlf() && ms[k] == ls[k] implies !#[trigger] spans(ls[k], ps1[i]) by {
                if i < j {
                    assert(ps1[i] == ps[i]);
                }
            }
            assert(state_ok(ls, ps1, ms, ts));
            lemma_remove_rest(ls, j + 1, ms, ts);
        }
    }
}

/// Removing the cvars `x` from a file just overwritten with them leaves no
/// occurrence of any non-empty line of `x`, provided no non-empty line of
/// `x` occurs inside another, different line of it: removal deletes
/// substrings, so a line that holds a removed line would be cut too.
pub proof fn remove_undoes_overwrite(
    x: Seq<char>,
    before: Option<Seq<char>>,
    exists: bool,
    current: Option<Seq<char>>,
)
    requires
        lines_unrelated(lines_of(written(x))),
    ensures
        ({
            let once = after(before, op_for(WriteType::OVERWRITE, x, exists, current));
            let twice = after(once, op_for(WriteType::REMOVE, x, once is Some, once));
            &&& twice is Some
            &&& forall|k: int|
                0 <= k < lines_of(written(x)).len() && (#[trigger] lines_of(written(x))[k]).len() > 0
                    ==> !occurs(twice->0, lines_of(written(x))[k])
        }),
{
    let w = written(x);
    let e = Seq::<char>::empty();
    let ls = lines_of(w);
    let ts = terms_from(w, e);
    assert(free_of(e, '\n'));
    lemma_lines_segments(w, e);
    assert(e + w =~= w);
    assert forall|k: int| 0 <= k < ls.len() implies (#[trigger] ls[k]).len() <= ls[k].len()
        && ls[k] == ls[k].subrange(0, ls[k].len() as int) by {
        assert(ls[k] =~= ls[k].subrange(0, ls[k].len() as int));
    }
    assert(ls.subrange(0, 0) =~= seq![]);
    assert(state_ok(ls, ls.subrange(0, 0), ls, ts));
    assert(ls.subrange(0, ls.len() as int) =~= ls);
    lemma_remove_rest(ls, 0, ls, ts);
    assert(removed(w, x) == remove_each(segments(ls, ts), ls.subrange(0, ls.len() as int)));
}

} // verus!
