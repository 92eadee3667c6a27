//! Properties of the merge that hold for all scripts.
use vstd::prelude::*;
use crate::luafuncdef::function_keyword;
use crate::luafuncdef::definition_of;
use crate::luafunction::{
    FunctionView, end_marker, fragment_code, functions_of, functions_of_pieces, normalize,
};
use crate::merge::{
    DefView, DiffOutcome, MergeContext, assemble, collisions, common_defs, file_defs, left_suffix, merge_trace, right_suffix,
};
use crate::text::{
    join_lines, split_from, split_text,
    collapse_newlines, contains_text, find_from, lemma_collapse_last, lemma_find_from, newline, no_blank_run, occurs_at,
    replace_all, replace_from,
};

verus! {

proof fn lemma_collapse_prefix(s: Seq<char>, q: Seq<char>)
    ensures
        collapse_newlines(s).is_prefix_of(collapse_newlines(s + q)),
    decreases q.len(),
{
    if q.len() == 0 {
        assert(s + q =~= s);
    } else {
        lemma_collapse_prefix(s, q.drop_last());
        assert((s + q).drop_last() =~= s + q.drop_last());
    }
}

/// Collapsing keeps, at the end, a text that has no blank run.
proof fn lemma_collapse_keeps_suffix(p: Seq<char>, t: Seq<char>)
    requires
        t.len() > 0,
        no_blank_run(t),
    ensures
        t.is_suffix_of(collapse_newlines(p + t)),
    decreases t.len(),
{
    let t0 = t.drop_last();
    let c = t.last();
    assert((p + t).drop_last() =~= p + t0);
    assert((p + t).last() == c);
    if t0.len() == 0 {
        assert(p + t0 =~= p);
        if p.len() > 0 {
            lemma_collapse_last(p);
        }
    } else {
        assert(no_blank_run(t0));
        lemma_collapse_keeps_suffix(p, t0);
        assert(t0.last() == t[t.len() - 2]);
        assert((p + t).len() >= 2 && (p + t)[(p + t).len() - 2] == t0.last());
        let cs = collapse_newlines(p + t0);
        assert(collapse_newlines(p + t) == cs.push(c));
        assert(t =~= t0.push(c));
        assert(cs.subrange(cs.len() - t0.len(), cs.len() as int) =~= t0);
        assert(cs.push(c).subrange(cs.push(c).len() - t.len(), cs.push(c).len() as int) =~= t);
    }
}

/// A text without blank runs that stands in `a + t + b` stands in its collapse.
proof fn lemma_collapse_keeps_text(a: Seq<char>, t: Seq<char>, b: Seq<char>)
    requires
        t.len() > 0,
        no_blank_run(t),
    ensures
        contains_text(collapse_newlines(a + t + b), t),
{
    lemma_collapse_keeps_suffix(a, t);
    lemma_collapse_prefix(a + t, b);
    let c1 = collapse_newlines(a + t);
    let c2 = collapse_newlines(a + t + b);
    let k = c1.len() - t.len();
    assert(c2.subrange(k, k + t.len()) =~= c1.subrange(k, c1.len() as int));
    assert(occurs_at(c2, t, k));
    lemma_find_from(c2, t, 0);
}

proof fn lemma_no_common(ls: Seq<DefView>, rs: Seq<DefView>)
    requires
        forall|d: DefView| ls.contains(d) ==> !rs.contains(d),
    ensures
        common_defs(ls, rs).len() == 0,
    decreases ls.len(),
{
    if ls.len() > 0 {
        assert(ls.contains(ls.last()));
        assert forall|d: DefView| ls.drop_last().contains(d) implies !rs.contains(d) by {
            let j = choose|j: int| 0 <= j < ls.drop_last().len() && ls.drop_last()[j] == d;
            assert(ls[j] == d);
        }
        lemma_no_common(ls.drop_last(), rs);
    }
}

/// Two scripts that define no function in common merge without failure,
/// into the left text, a line break and the right text, with runs of line
/// breaks collapsed; so every piece of text of either script that holds no
/// blank line, such as the code of each of its functions, stands verbatim
/// in the merged script.
pub proof fn lemma_disjoint_merge_keeps_both(cx: MergeContext, outs: Seq<DiffOutcome>, t: Seq<char>)
    requires
        forall|d: DefView| file_defs(cx.0).contains(d) ==> !file_defs(cx.1).contains(d),
    ensures
        merge_trace(collisions(cx.0, cx.1), cx, outs) == Ok::<_, crate::error::BabaError>((cx.0.2, cx.1.2, Seq::<char>::empty())),
        assemble((cx.0.2, cx.1.2, Seq::empty())) == collapse_newlines(cx.0.2 + newline() + newline() + cx.1.2),
        t.len() > 0 && no_blank_run(t) && (contains_text(cx.0.2, t) || contains_text(cx.1.2, t)) ==> contains_text(
            assemble((cx.0.2, cx.1.2, Seq::empty())),
            t,
        ),
{
    let lf = cx.0;
    let rf = cx.1;
    lemma_no_common(file_defs(lf), file_defs(rf));
    let whole = lf.2 + newline() + newline() + rf.2;
    assert(lf.2 + newline() + Seq::<char>::empty() + newline() + rf.2 =~= whole);
    if t.len() > 0 && no_blank_run(t) {
        if contains_text(lf.2, t) {
            lemma_find_from(lf.2, t, 0);
            let k = find_from(lf.2, t, 0);
            let a = lf.2.take(k);
            let b = lf.2.skip(k + t.len()) + newline() + newline() + rf.2;
            assert(a + t + b =~= whole);
            lemma_collapse_keeps_text(a, t, b);
        } else if contains_text(rf.2, t) {
            lemma_find_from(rf.2, t, 0);
            let k = find_from(rf.2, t, 0);
            let a = lf.2 + newline() + newline() + rf.2.take(k);
            let b = rf.2.skip(k + t.len());
            assert(a + t + b =~= whole);
            lemma_collapse_keeps_text(a, t, b);
        }
    }
}

/// `a` and `b` agree where they overlap: the shorter is a prefix of the
/// longer.
pub open spec fn agree(a: Seq<char>, b: Seq<char>) -> bool {
    if a.len() <= b.len() {
        b.take(a.len() as int) == a
    } else {
        a.take(b.len() as int) == b
    }
}

/// No proper suffix of `p + suf` can start a new occurrence of `p`: renaming
/// `p` to `p + suf` cannot create a bare `p`.
pub open spec fn no_self_overlap(p: Seq<char>, suf: Seq<char>) -> bool {
    forall|j: int| 0 < j < (p + suf).len() ==> !agree(#[trigger] (p + suf).skip(j), p)
}

/// After replacing each `p` by `p + suf`, every `p` that stands in the text
/// starts a `p + suf`.
pub proof fn lemma_replace_marks(s: Seq<char>, p: Seq<char>, suf: Seq<char>, i: int)
    requires
        p.len() > 0,
        no_self_overlap(p, suf),
        0 <= i <= s.len(),
    ensures
        forall|m: int| occurs_at(replace_from(s, p, p + suf, i), p, m) ==> occurs_at(
            replace_from(s, p, p + suf, i),
            p + suf,
            m,
        ),
    decreases s.len() - i,
{
    let r = p + suf;
    let res = replace_from(s, p, r, i);
    lemma_find_from(s, p, i);
    let k = find_from(s, p, i);
    if k < 0 {
        assert(res == s.subrange(i, s.len() as int));
        assert forall|m: int| occurs_at(res, p, m) implies occurs_at(res, r, m) by {
            assert(s.subrange(i + m, i + m + p.len()) =~= res.subrange(m, m + p.len()));
            assert(occurs_at(s, p, i + m));
        }
    } else {
        let a = s.subrange(i, k);
        let b = replace_from(s, p, r, k + p.len());
        assert(res == a + r + b);
        lemma_replace_marks(s, p, suf, k + p.len());
        assert forall|m: int| occurs_at(res, p, m) implies occurs_at(res, r, m) by {
            if m < a.len() {
                assert(res.subrange(m, m + p.len()) =~= s.subrange(i + m, i + m + p.len()));
                assert(occurs_at(s, p, i + m));
            } else if m < a.len() + r.len() {
                let j = m - a.len();
                if j == 0 {
                    assert(res.subrange(m, m + r.len()) =~= r);
                } else if r.len() - j >= p.len() {
                    assert(res.subrange(m, m + p.len()) =~= r.skip(j).take(p.len() as int));
                    assert(p.take(p.len() as int) =~= p);
                    if r.skip(j).len() == p.len() {
                        assert(r.skip(j).take(p.len() as int) =~= r.skip(j));
                    }
                    assert(agree(r.skip(j), p));
                } else {
                    assert(res.subrange(m, (a.len() + r.len()) as int) =~= r.skip(j));
                    assert(res.subrange(m, (a.len() + r.len()) as int) =~= p.take(r.len() - j));
                    assert(agree(r.skip(j), p));
                }
            } else {
                let m2 = m - a.len() - r.len();
                assert(b.subrange(m2, m2 + p.len()) =~= res.subrange(m, m + p.len()));
                assert(occurs_at(b, p, m2));
                assert(res.subrange(m, m + r.len()) =~= b.subrange(m2, m2 + r.len()));
            }
        }
    }
}

/// Where `p` stands in `s`, `p + suf` stands in the text after renaming.
pub proof fn lemma_replace_introduces(s: Seq<char>, p: Seq<char>, suf: Seq<char>)
    requires
        p.len() > 0,
        contains_text(s, p),
    ensures
        contains_text(replace_all(s, p, p + suf), p + suf),
{
    let r = p + suf;
    lemma_find_from(s, p, 0);
    let k = find_from(s, p, 0);
    let res = replace_all(s, p, r);
    let a = s.subrange(0, k);
    assert(res == a + r + replace_from(s, p, r, k + p.len()));
    assert(res.subrange(a.len() as int, (a.len() + r.len()) as int) =~= r);
    assert(occurs_at(res, r, a.len() as int));
    lemma_find_from(res, r, 0);
}

/// When the only function that two scripts both define is one the game
/// does not define, the merge renames it to `<name>_left` in the left
/// script and `<name>_right` in the right one, and keeps nothing else from
/// the collision. In each renamed script the renamed name stands wherever
/// the name stood, and no bare occurrence of the name is left: each one
/// starts the renamed name. This holds for names that cannot overlap their
/// renamed form (see `no_self_overlap`).
pub proof fn lemma_helper_collision_renames(cx: MergeContext, outs: Seq<DiffOutcome>, d: DefView)
    requires
        collisions(cx.0, cx.1) == seq![d],
        !d.1,
        d.0.len() > 0,
        no_self_overlap(d.0, left_suffix()),
        no_self_overlap(d.0, right_suffix()),
    ensures
        merge_trace(collisions(cx.0, cx.1), cx, outs) == Ok::<_, crate::error::BabaError>((
            replace_all(cx.0.2, d.0, d.0 + left_suffix()),
            replace_all(cx.1.2, d.0, d.0 + right_suffix()),
            Seq::<char>::empty(),
        )),
        forall|m: int| occurs_at(replace_all(cx.0.2, d.0, d.0 + left_suffix()), d.0, m) ==> occurs_at(
            replace_all(cx.0.2, d.0, d.0 + left_suffix()),
            d.0 + left_suffix(),
            m,
        ),
        forall|m: int| occurs_at(replace_all(cx.1.2, d.0, d.0 + right_suffix()), d.0, m) ==> occurs_at(
            replace_all(cx.1.2, d.0, d.0 + right_suffix()),
            d.0 + right_suffix(),
            m,
        ),
        contains_text(cx.0.2, d.0) ==> contains_text(replace_all(cx.0.2, d.0, d.0 + left_suffix()), d.0 + left_suffix()),
        contains_text(cx.1.2, d.0) ==> contains_text(replace_all(cx.1.2, d.0, d.0 + right_suffix()), d.0 + right_suffix()),
{
    let lf = cx.0;
    let rf = cx.1;
    let cols = collisions(lf, rf);
    assert(cols.drop_last() =~= Seq::<DefView>::empty());
    assert(merge_trace(cols.drop_last(), cx, outs) == Ok::<_, crate::error::BabaError>((lf.2, rf.2, Seq::<char>::empty())));
    assert(cols.last() == d);
    lemma_replace_marks(lf.2, d.0, left_suffix(), 0);
    lemma_replace_marks(rf.2, d.0, right_suffix(), 0);
    if contains_text(lf.2, d.0) {
        lemma_replace_introduces(lf.2, d.0, left_suffix());
    }
    if contains_text(rf.2, d.0) {
        lemma_replace_introduces(rf.2, d.0, right_suffix());
    }
}

/// The first occurrence of `p` at or after `i` in `x + y`, for `i` in `y`,
/// is the first in `y`, moved by the length of `x`.
proof fn lemma_find_shift(x: Seq<char>, y: Seq<char>, p: Seq<char>, i: int)
    requires
        0 <= i,
    ensures
        find_from(x + y, p, x.len() + i) == (if find_from(y, p, i) < 0 { -1 } else { x.len() + find_from(y, p, i) }),
    decreases y.len() + 1 - i,
{
    if i + p.len() <= y.len() {
        assert((x + y).subrange(x.len() + i, x.len() + i + p.len()) =~= y.subrange(i, i + p.len()));
        if !occurs_at(y, p, i) {
            lemma_find_shift(x, y, p, i + 1);
            assert(x.len() + i + 1 == x.len() + (i + 1));
        }
    }
}

/// Splitting `x + y` from a point in `y` splits `y` alone.
proof fn lemma_split_shift(x: Seq<char>, y: Seq<char>, p: Seq<char>, i: int)
    requires
        0 <= i <= y.len(),
        p.len() > 0,
    ensures
        split_from(x + y, p, x.len() + i) == split_from(y, p, i),
    decreases y.len() - i,
{
    lemma_find_shift(x, y, p, i);
    lemma_find_from(y, p, i);
    let k = find_from(y, p, i);
    if k < 0 {
        assert((x + y).subrange(x.len() + i, (x + y).len() as int) =~= y.subrange(i, y.len() as int));
    } else {
        assert((x + y).subrange(x.len() + i, x.len() + k) =~= y.subrange(i, k));
        lemma_split_shift(x, y, p, k + p.len());
        assert(x.len() + k + p.len() == x.len() + (k + p.len()));
    }
}

proof fn lemma_join_front(cs: Seq<Seq<char>>)
    requires
        cs.len() >= 2,
    ensures
        join_lines(cs) == cs[0] + newline() + join_lines(cs.drop_first()),
    decreases cs.len(),
{
    if cs.len() == 2 {
        assert(cs.drop_last().len() == 1);
        assert(cs.drop_first().len() == 1);
        assert(join_lines(cs.drop_last()) == cs[0]);
        assert(join_lines(cs.drop_first()) == cs[1]);
        assert(cs.last() == cs[1]);
    } else {
        lemma_join_front(cs.drop_last());
        assert(cs.drop_last().drop_first() =~= cs.drop_first().drop_last());
        assert(cs.drop_first().last() == cs.last());
        assert(cs.drop_last()[0] == cs[0]);
        assert(join_lines(cs.drop_first()) == join_lines(cs.drop_first().drop_last()) + newline() + cs.last());
        assert(join_lines(cs) =~= cs[0] + newline() + join_lines(cs.drop_first()));
    }
}

proof fn lemma_pieces_concat(a: Seq<Seq<char>>, b: Seq<Seq<char>>, natives: Seq<Seq<char>>)
    ensures
        functions_of_pieces(a + b, natives) == functions_of_pieces(a, natives) + functions_of_pieces(b, natives),
    decreases b.len(),
{
    if b.len() == 0 {
        assert(a + b =~= a);
        assert(functions_of_pieces(a, natives) + functions_of_pieces(b, natives) =~= functions_of_pieces(a, natives));
    } else {
        lemma_pieces_concat(a, b.drop_last(), natives);
        assert((a + b).drop_last() =~= a + b.drop_last());
        assert((a + b).last() == b.last());
        let fa = functions_of_pieces(a, natives);
        let fb = functions_of_pieces(b.drop_last(), natives);
        match definition_of(fragment_code(b.last()), natives) {
            Some(d) => {
                let f = (d, fragment_code(b.last()));
                assert(fa + fb.push(f) =~= (fa + fb).push(f));
            },
            None => {},
        }
    }
}

/// A code in canonical form: the `function` keyword, a body that holds
/// neither that keyword nor a line starting with `end`, and a closing line
/// `end`.
pub open spec fn is_canonical_code(c: Seq<char>) -> bool {
    c.len() >= 12 && c.take(8) == function_keyword() && c.skip(c.len() - 4) == end_marker()
        && !contains_text(body_of(c), function_keyword()) && !contains_text(body_of(c), end_marker())
}

/// The body of a code in canonical form.
pub open spec fn body_of(c: Seq<char>) -> Seq<char> {
    c.subrange(8, c.len() - 4)
}

/// The pieces that cutting the serialized codes at each keyword gives after
/// the first (empty) one: each body with its `end`, and the line break that
/// follows all but the last.
pub open spec fn serialized_pieces(cs: Seq<Seq<char>>) -> Seq<Seq<char>> {
    Seq::new(cs.len(), |i: int| if i < cs.len() - 1 { body_of(cs[i]) + end_marker() + newline() } else { body_of(cs[i]) + end_marker() })
}

proof fn lemma_no_keyword_inside(c: Seq<char>, t: Seq<char>, m: int)
    requires
        is_canonical_code(c),
        8 <= m <= c.len(),
        m == c.len() ==> t.len() > 0 && t[0] == '\n',
    ensures
        !occurs_at(c + t, function_keyword(), m),
{
    let j = c + t;
    let b = body_of(c);
    assert(c =~= function_keyword() + b + end_marker());
    if occurs_at(j, function_keyword(), m) {
        assert(j.subrange(m, m + 8) == function_keyword());
        if m + 8 <= 8 + b.len() {
            assert(b.subrange(m - 8, m) =~= j.subrange(m, m + 8));
            assert(occurs_at(b, function_keyword(), m - 8));
            lemma_find_from(b, function_keyword(), 0);
        } else if m <= 8 + b.len() {
            let k = 8 + b.len() - m;
            assert(j[(8 + b.len()) as int] == '\n');
            assert(j.subrange(m, m + 8)[k] == j[(8 + b.len()) as int]);
            assert(function_keyword()[k] != '\n');
        } else {
            assert(j[m] == j.subrange(m, m + 8)[0]);
            if m < c.len() {
                assert(j[m] == end_marker()[m - 8 - b.len()]);
            } else {
                assert(j[m] == t[0]);
            }
            assert(j[m] != 'f');
        }
    }
}

proof fn lemma_end_found(b: Seq<char>, t: Seq<char>)
    requires
        !contains_text(b, end_marker()),
    ensures
        fragment_code(b + end_marker() + t) == function_keyword() + b + end_marker(),
{
    let s = b + end_marker() + t;
    let e = end_marker();
    lemma_find_from(b, e, 0);
    assert(s.subrange(b.len() as int, (b.len() + 4) as int) =~= e);
    assert forall|m: int| 0 <= m < b.len() implies !occurs_at(s, e, m) by {
        if occurs_at(s, e, m) {
            if m + 4 <= b.len() {
                assert(b.subrange(m, m + 4) =~= s.subrange(m, m + 4));
                assert(occurs_at(b, e, m));
            } else {
                let k = b.len() - m;
                assert(s[b.len() as int] == '\n');
                assert(s.subrange(m, m + 4)[k] == s[b.len() as int]);
            }
        }
    }
    lemma_find_from(s, e, 0);
    let r = find_from(s, e, 0);
    assert(r == b.len()) by {
        if r == -1 {
            assert(occurs_at(s, e, b.len() as int));
        } else if r < b.len() {
        } else if r > b.len() {
            assert(!occurs_at(s, e, b.len() as int));
        }
    }
    assert(s.take(r) =~= b);
}

/// Cutting serialized canonical codes at each keyword gives an empty piece,
/// then one piece per code (see `serialized_pieces`).
proof fn lemma_split_serialized(cs: Seq<Seq<char>>)
    requires
        cs.len() >= 1,
        forall|i: int| 0 <= i < cs.len() ==> is_canonical_code(#[trigger] cs[i]),
    ensures
        split_text(join_lines(cs), function_keyword()) == seq![Seq::<char>::empty()] + serialized_pieces(cs),
    decreases cs.len(),
{
    let kw = function_keyword();
    let c = cs[0];
    assert(is_canonical_code(c));
    let j = join_lines(cs);
    let t = if cs.len() == 1 { Seq::<char>::empty() } else { newline() + join_lines(cs.drop_first()) };
    if cs.len() >= 2 {
        lemma_join_front(cs);
        assert(j =~= c + t);
    } else {
        assert(j =~= c + t);
    }
    assert(j.subrange(0, 8) =~= kw);
    assert(occurs_at(j, kw, 0));
    assert(find_from(j, kw, 0) == 0);
    assert(split_from(j, kw, 0) == seq![j.subrange(0, 0)] + split_from(j, kw, 8));
    assert(j.subrange(0, 0) =~= Seq::<char>::empty());
    assert forall|m: int| 8 <= m < c.len() + (if cs.len() == 1 { 0int } else { 1int }) implies !occurs_at(j, kw, m) by {
        if t.len() > 0 {
            assert(t[0] == '\n');
        }
        lemma_no_keyword_inside(c, t, m);
    }
    if cs.len() == 1 {
        lemma_find_from(j, kw, 8);
        assert(find_from(j, kw, 8) == -1);
        assert(j.subrange(8, j.len() as int) =~= body_of(c) + end_marker());
        assert(serialized_pieces(cs) =~= seq![body_of(c) + end_marker()]);
    } else {
        let rest = cs.drop_first();
        let x = c + newline();
        let jr = join_lines(rest);
        assert(j =~= x + jr);
        assert(forall|i: int| 0 <= i < rest.len() ==> rest[i] == cs[i + 1]);
        lemma_split_serialized(rest);
        assert(is_canonical_code(rest[0]));
        if rest.len() >= 2 {
            lemma_join_front(rest);
        }
        assert(jr.subrange(0, 8) =~= rest[0].subrange(0, 8));
        assert(rest[0].take(8) =~= rest[0].subrange(0, 8));
        assert(occurs_at(jr, kw, 0));
        assert((x + jr).subrange(x.len() as int, (x.len() + 8) as int) =~= jr.subrange(0, 8));
        assert(occurs_at(j, kw, x.len() as int));
        lemma_find_from(j, kw, 8);
        let k = find_from(j, kw, 8);
        assert(k == x.len()) by {
            if k == -1 {
            } else if k < x.len() {
                assert(!occurs_at(j, kw, k));
            } else if k > x.len() {
            }
        }
        assert(split_from(j, kw, 8) == seq![j.subrange(8, k)] + split_from(j, kw, k + 8));
        assert(j.subrange(8, k) =~= body_of(c) + end_marker() + newline());
        lemma_split_shift(x, jr, kw, 8);
        assert(find_from(jr, kw, 0) == 0);
        assert(split_from(jr, kw, 0) == seq![jr.subrange(0, 0)] + split_from(jr, kw, 8));
        assert(split_from(jr, kw, 8) == serialized_pieces(rest)) by {
            assert(seq![jr.subrange(0, 0)] + split_from(jr, kw, 8) == seq![Seq::<char>::empty()] + serialized_pieces(rest));
            assert(jr.subrange(0, 0) =~= Seq::<char>::empty());
            assert(split_from(jr, kw, 8) =~= (seq![Seq::<char>::empty()] + split_from(jr, kw, 8)).drop_first());
            assert(serialized_pieces(rest) =~= (seq![Seq::<char>::empty()] + serialized_pieces(rest)).drop_first());
        }
        assert(serialized_pieces(cs) =~= seq![body_of(c) + end_marker() + newline()] + serialized_pieces(rest));
        assert(split_text(j, kw) =~= seq![Seq::<char>::empty()] + serialized_pieces(cs));
    }
}

/// The piece before the first keyword of a serialized text is empty, and
/// gives no function.
proof fn lemma_empty_piece(natives: Seq<Seq<char>>)
    ensures
        functions_of_pieces(seq![Seq::<char>::empty()], natives) == Seq::<FunctionView>::empty(),
{
    let e = Seq::<char>::empty();
    assert(find_from(e, end_marker(), 0) == -1);
    let x = fragment_code(e);
    assert(x =~= seq!['f', 'u', 'n', 'c', 't', 'i', 'o', 'n', '\n', 'e', 'n', 'd']);
    assert(!crate::text::is_ws(x[8]));
    assert(definition_of(x, natives) is None);
    assert(seq![e].drop_last() =~= Seq::<Seq<char>>::empty());
    assert(seq![e].last() == e);
    assert(functions_of_pieces(Seq::<Seq<char>>::empty(), natives) == Seq::<FunctionView>::empty());
}

proof fn lemma_read_prefix(fs: Seq<FunctionView>, natives: Seq<Seq<char>>, k: int)
    requires
        0 <= k <= fs.len(),
        forall|i: int| 0 <= i < fs.len() ==> is_canonical_code(#[trigger] fs[i].1),
        forall|i: int| 0 <= i < fs.len() ==> definition_of(#[trigger] fs[i].1, natives) == Some(fs[i].0),
    ensures
        functions_of_pieces(serialized_pieces(fs.map_values(|f: FunctionView| f.1)).take(k), natives) == fs.take(k),
    decreases k,
{
    let cs = fs.map_values(|f: FunctionView| f.1);
    let sp = serialized_pieces(cs);
    let kw = function_keyword();
    if k == 0 {
        assert(sp.take(0) =~= Seq::<Seq<char>>::empty());
        assert(fs.take(0) =~= Seq::<FunctionView>::empty());
    } else {
        let j = k - 1;
        lemma_read_prefix(fs, natives, j);
        let c = fs[j].1;
        assert(cs[j] == c);
        assert(is_canonical_code(c));
        assert(c =~= kw + body_of(c) + end_marker());
        if j < fs.len() - 1 {
            assert(sp[j] == body_of(c) + end_marker() + newline());
            lemma_end_found(body_of(c), newline());
        } else {
            assert(sp[j] == body_of(c) + end_marker());
            lemma_end_found(body_of(c), Seq::<char>::empty());
            assert(body_of(c) + end_marker() + Seq::<char>::empty() =~= body_of(c) + end_marker());
        }
        assert(fragment_code(sp[j]) == c);
        assert(sp.take(k).drop_last() =~= sp.take(j));
        assert(sp.take(k).last() == sp[j]);
        assert(fs.take(k) =~= fs.take(j).push(fs[j]));
    }
}

/// Functions whose codes are in canonical form (see `is_canonical_code`)
/// and declare their own definitions, once serialized one after the other
/// with line breaks between them, are extracted again as the same
/// functions, in the same order.
pub proof fn lemma_serialized_functions_read_back(fs: Seq<FunctionView>, natives: Seq<Seq<char>>)
    requires
        forall|i: int| 0 <= i < fs.len() ==> is_canonical_code(#[trigger] fs[i].1),
        forall|i: int| 0 <= i < fs.len() ==> definition_of(#[trigger] fs[i].1, natives) == Some(fs[i].0),
    ensures
        functions_of(join_lines(fs.map_values(|f: FunctionView| f.1)), natives) == fs,
{
    let cs = fs.map_values(|f: FunctionView| f.1);
    let kw = function_keyword();
    assert forall|i: int| 0 <= i < cs.len() implies is_canonical_code(#[trigger] cs[i]) by {
        assert(cs[i] == fs[i].1);
    }
    lemma_serialized_normal(cs);
    lemma_empty_piece(natives);
    if fs.len() == 0 {
        assert(join_lines(cs) =~= Seq::<char>::empty());
        assert(find_from(Seq::<char>::empty(), kw, 0) == -1);
        assert(Seq::<char>::empty().subrange(0, 0) =~= Seq::<char>::empty());
        assert(split_text(join_lines(cs), kw) =~= seq![Seq::<char>::empty()]);
        assert(fs =~= Seq::<FunctionView>::empty());
    } else {
        assert forall|i: int| 0 <= i < cs.len() implies is_canonical_code(#[trigger] cs[i]) by {
            assert(cs[i] == fs[i].1);
        }
        lemma_split_serialized(cs);
        let sp = serialized_pieces(cs);
        lemma_pieces_concat(seq![Seq::<char>::empty()], sp, natives);
        let k = fs.len() as int;
        lemma_read_prefix(fs, natives, k);
        assert(sp.take(k) =~= sp);
        assert(fs.take(k) =~= fs);
        assert(seq![Seq::<char>::empty()] + sp == split_text(join_lines(cs), kw));
    }
}

proof fn lemma_extracted_declare_themselves(ps: Seq<Seq<char>>, natives: Seq<Seq<char>>)
    ensures
        forall|i: int| 0 <= i < functions_of_pieces(ps, natives).len() ==> definition_of(
            #[trigger] functions_of_pieces(ps, natives)[i].1,
            natives,
        ) == Some(functions_of_pieces(ps, natives)[i].0),
    decreases ps.len(),
{
    if ps.len() > 0 {
        lemma_extracted_declare_themselves(ps.drop_last(), natives);
    }
}

/// No piece of a split holds the pattern.
proof fn lemma_pieces_free(s: Seq<char>, p: Seq<char>, i: int)
    requires
        0 <= i <= s.len(),
        p.len() > 0,
    ensures
        forall|j: int| 0 <= j < split_from(s, p, i).len() ==> !contains_text(#[trigger] split_from(s, p, i)[j], p),
    decreases s.len() - i,
{
    lemma_find_from(s, p, i);
    let k = find_from(s, p, i);
    if k < 0 {
        let piece = s.subrange(i, s.len() as int);
        lemma_find_from(piece, p, 0);
        if contains_text(piece, p) {
            let m = find_from(piece, p, 0);
            assert(s.subrange(i + m, i + m + p.len()) =~= piece.subrange(m, m + p.len()));
            assert(occurs_at(s, p, i + m));
        }
        assert(split_from(s, p, i) == seq![piece]);
    } else {
        let piece = s.subrange(i, k);
        lemma_find_from(piece, p, 0);
        if contains_text(piece, p) {
            let m = find_from(piece, p, 0);
            assert(s.subrange(i + m, i + m + p.len()) =~= piece.subrange(m, m + p.len()));
            assert(occurs_at(s, p, i + m));
        }
        lemma_pieces_free(s, p, k + p.len());
        let rest = split_from(s, p, k + p.len());
        assert(split_from(s, p, i) == seq![piece] + rest);
        assert forall|j: int| 0 <= j < split_from(s, p, i).len() implies !contains_text(#[trigger] split_from(s, p, i)[j], p) by {
            if j > 0 {
                assert(split_from(s, p, i)[j] == rest[j - 1]);
            }
        }
    }
}

/// The code rebuilt from a piece that holds no keyword is in canonical form.
proof fn lemma_fragment_canonical(piece: Seq<char>)
    requires
        !contains_text(piece, function_keyword()),
    ensures
        is_canonical_code(fragment_code(piece)),
{
    let e = end_marker();
    let kw = function_keyword();
    lemma_find_from(piece, e, 0);
    let k = find_from(piece, e, 0);
    let body = if k < 0 { piece } else { piece.take(k) };
    let c = fragment_code(piece);
    assert(c == kw + body + e);
    assert(c.take(8) =~= kw);
    assert(c.skip(c.len() - 4) =~= e);
    assert(body_of(c) =~= body);
    lemma_find_from(body, e, 0);
    if contains_text(body, e) {
        let m = find_from(body, e, 0);
        assert(piece.subrange(m, m + 4) =~= body.subrange(m, m + 4));
        assert(occurs_at(piece, e, m));
    }
    lemma_find_from(body, kw, 0);
    if contains_text(body, kw) {
        let m = find_from(body, kw, 0);
        assert(piece.subrange(m, m + 8) =~= body.subrange(m, m + 8));
        assert(occurs_at(piece, kw, m));
        lemma_find_from(piece, kw, 0);
    }
}

proof fn lemma_extracted_canonical(ps: Seq<Seq<char>>, natives: Seq<Seq<char>>)
    requires
        forall|j: int| 0 <= j < ps.len() ==> !contains_text(#[trigger] ps[j], function_keyword()),
    ensures
        forall|i: int| 0 <= i < functions_of_pieces(ps, natives).len() ==> is_canonical_code(
            #[trigger] functions_of_pieces(ps, natives)[i].1,
        ),
    decreases ps.len(),
{
    if ps.len() > 0 {
        assert(forall|j: int| 0 <= j < ps.drop_last().len() ==> ps.drop_last()[j] == ps[j]);
        lemma_extracted_canonical(ps.drop_last(), natives);
        assert(ps.last() == ps[ps.len() - 1]);
        lemma_fragment_canonical(ps.last());
        let prev = functions_of_pieces(ps.drop_last(), natives);
        let all = functions_of_pieces(ps, natives);
        assert forall|i: int| 0 <= i < all.len() implies is_canonical_code(#[trigger] all[i].1) by {
            match definition_of(fragment_code(ps.last()), natives) {
                Some(d) => {
                    assert(all == prev.push((d, fragment_code(ps.last()))));
                    if i < prev.len() {
                        assert(all[i] == prev[i]);
                    }
                },
                None => {
                    assert(all == prev);
                },
            }
        }
    }
}

/// Joining the lines of a split at line breaks gives the text back.
proof fn lemma_join_split(x: Seq<char>, i: int)
    requires
        0 <= i <= x.len(),
    ensures
        join_lines(split_from(x, newline(), i)) == x.subrange(i, x.len() as int),
    decreases x.len() - i,
{
    lemma_find_from(x, newline(), i);
    let k = find_from(x, newline(), i);
    if k >= 0 {
        lemma_join_split(x, k + 1);
        let rest = split_from(x, newline(), k + 1);
        let all = split_from(x, newline(), i);
        assert(all == seq![x.subrange(i, k)] + rest);
        assert(rest.len() >= 1);
        lemma_join_front(all);
        assert(all.drop_first() =~= rest);
        assert(x.subrange(k, k + 1) == newline());
        assert(x.subrange(i, x.len() as int) =~= x.subrange(i, k) + newline() + x.subrange(k + 1, x.len() as int));
    }
}

/// The last piece of a split at line breaks is empty only where the text
/// ends with a line break (or the split starts at its end).
proof fn lemma_last_piece(x: Seq<char>, i: int)
    requires
        0 <= i <= x.len(),
    ensures
        split_from(x, newline(), i).len() >= 1,
        split_from(x, newline(), i).last().len() == 0 ==> i == x.len() || x.last() == '\n',
    decreases x.len() - i,
{
    lemma_find_from(x, newline(), i);
    let k = find_from(x, newline(), i);
    if k >= 0 {
        lemma_last_piece(x, k + 1);
        assert(x.subrange(k, k + 1)[0] == x[k]);
        let rest = split_from(x, newline(), k + 1);
        assert((seq![x.subrange(i, k)] + rest).last() == rest.last());
    }
}

/// `w` stands in `x` at a line start.
pub open spec fn at_line_start(x: Seq<char>, w: Seq<char>) -> bool {
    exists|a: int| 0 <= a && a + w.len() <= x.len() && (a == 0 || x[a - 1] == '\n') && #[trigger] x.subrange(a, a + w.len()) == w
}

/// `w` stands in `x` at or after index `lo`.
pub open spec fn stands_from(x: Seq<char>, w: Seq<char>, lo: int) -> bool {
    exists|a: int| lo <= a && a + w.len() <= x.len() && #[trigger] x.subrange(a, a + w.len()) == w
}

/// Each piece of a split at line breaks stands in the text at a line start
/// and holds no line break.
proof fn lemma_line_pieces(x: Seq<char>, i: int)
    requires
        0 <= i <= x.len(),
        i == 0 || x[i - 1] == '\n',
    ensures
        forall|j: int| 0 <= j < split_from(x, newline(), i).len() ==> at_line_start(x, #[trigger] split_from(x, newline(), i)[j]),
    decreases x.len() - i,
{
    lemma_find_from(x, newline(), i);
    let k = find_from(x, newline(), i);
    let all = split_from(x, newline(), i);
    if k < 0 {
        assert(all == seq![x.subrange(i, x.len() as int)]);
        assert(x.subrange(i, i + all[0].len()) =~= all[0]);
    } else {
        assert(x.subrange(k, k + 1)[0] == x[k]);
        lemma_line_pieces(x, k + 1);
        let rest = split_from(x, newline(), k + 1);
        assert(all == seq![x.subrange(i, k)] + rest);
        assert forall|j: int| 0 <= j < all.len() implies at_line_start(x, #[trigger] all[j]) by {
            if j == 0 {
                assert(x.subrange(i, i + all[0].len()) =~= all[0]);
            } else {
                assert(all[j] == rest[j - 1]);
            }
        }
    }
}

/// In a text of canonical codes joined by line breaks, the keyword stands
/// only at line starts.
proof fn lemma_keyword_at_line_starts(cs: Seq<Seq<char>>)
    requires
        cs.len() >= 1,
        forall|i: int| 0 <= i < cs.len() ==> is_canonical_code(#[trigger] cs[i]),
    ensures
        forall|q: int| occurs_at(join_lines(cs), function_keyword(), q) ==> q == 0 || join_lines(cs)[q - 1] == '\n',
    decreases cs.len(),
{
    let kw = function_keyword();
    let c = cs[0];
    assert(is_canonical_code(c));
    let j = join_lines(cs);
    let t = if cs.len() == 1 { Seq::<char>::empty() } else { newline() + join_lines(cs.drop_first()) };
    if cs.len() >= 2 {
        lemma_join_front(cs);
    }
    assert(j =~= c + t);
    assert(c.take(8) =~= j.subrange(0, 8));
    assert forall|q: int| occurs_at(j, kw, q) implies q == 0 || j[q - 1] == '\n' by {
        assert(j[q] == j.subrange(q, q + 8)[0]);
        if 1 <= q < 8 {
            assert(j[q] == kw[q]);
        } else if 8 <= q < c.len() + (if cs.len() == 1 { 0int } else { 1int }) {
            if t.len() > 0 {
                assert(t[0] == '\n');
            }
            lemma_no_keyword_inside(c, t, q);
        } else if q >= c.len() + 1 && cs.len() >= 2 {
            let rest = cs.drop_first();
            assert(forall|i: int| 0 <= i < rest.len() ==> rest[i] == cs[i + 1]);
            lemma_keyword_at_line_starts(rest);
            let jr = join_lines(rest);
            let q2 = q - c.len() - 1;
            assert(j =~= (c + newline()) + jr);
            assert(jr.subrange(q2, q2 + 8) =~= j.subrange(q, q + 8));
            assert(occurs_at(jr, kw, q2));
            if q2 > 0 {
                assert(j[q - 1] == jr[q2 - 1]);
            } else {
                assert(j[q - 1] == '\n');
            }
        }
    }
}

/// The words of a split at blanks each stand in the text, the `j`-th at
/// or after index `i + j`.
proof fn lemma_word_pos(x: Seq<char>, i: int)
    requires
        0 <= i <= x.len(),
    ensures
        forall|j: int| 0 <= j < split_from(x, seq![' '], i).len() ==> stands_from(x, #[trigger] split_from(x, seq![' '], i)[j], i + j),
    decreases x.len() - i,
{
    let sp = seq![' '];
    lemma_find_from(x, sp, i);
    let k = find_from(x, sp, i);
    let all = split_from(x, sp, i);
    if k < 0 {
        assert(all == seq![x.subrange(i, x.len() as int)]);
        assert(x.subrange(i, i + all[0].len()) =~= all[0]);
    } else {
        lemma_word_pos(x, k + 1);
        let rest = split_from(x, sp, k + 1);
        assert(all == seq![x.subrange(i, k)] + rest);
        assert forall|j: int| 0 <= j < all.len() implies stands_from(x, #[trigger] all[j], i + j) by {
            if j == 0 {
                assert(x.subrange(i, i + all[0].len()) =~= all[0]);
            } else {
                assert(all[j] == rest[j - 1]);
            }
        }
    }
}

/// An assignment declaration holds the keyword after its start.
proof fn lemma_declaration_has_inner_keyword(line: Seq<char>)
    requires
        crate::luafunction::is_assignment_declaration(line),
    ensures
        exists|m: int| 1 <= m && occurs_at(line, function_keyword(), m),
{
    let t = split_text(line, seq![' ']);
    let i = crate::luafunction::name_index(t);
    lemma_word_pos(line, 0);
    let w = t[i + 2];
    assert(stands_from(line, w, 0 + (i + 2)));
    let a = choose|a: int| 0 + (i + 2) <= a && a + w.len() <= line.len() && #[trigger] line.subrange(a, a + w.len()) == w;
    assert(line.subrange(a, a + 8) =~= w.take(8));
    assert(occurs_at(line, function_keyword(), a));
}

/// Normalization leaves lines that are no assignment declaration as they
/// stand.
proof fn lemma_normalized_unchanged(ls: Seq<Seq<char>>)
    requires
        forall|j: int| 0 <= j < ls.len() ==> !crate::luafunction::is_assignment_declaration(#[trigger] ls[j]),
    ensures
        crate::luafunction::normalized_lines(ls) == ls,
    decreases ls.len(),
{
    if ls.len() > 0 {
        assert(forall|j: int| 0 <= j < ls.drop_last().len() ==> ls.drop_last()[j] == ls[j]);
        lemma_normalized_unchanged(ls.drop_last());
        assert(ls.last() == ls[ls.len() - 1]);
        assert(ls.drop_last().push(ls.last()) =~= ls);
    }
}

/// Where the keyword stands only at line starts, no line is an
/// assignment declaration.
proof fn lemma_lines_not_declarations(j: Seq<char>)
    requires
        forall|q: int| occurs_at(j, function_keyword(), q) ==> q == 0 || j[q - 1] == '\n',
    ensures
        forall|k: int| 0 <= k < split_from(j, newline(), 0).len() ==> !crate::luafunction::is_assignment_declaration(
            #[trigger] split_from(j, newline(), 0)[k],
        ),
{
    let nl = newline();
    let ps = split_from(j, nl, 0);
    lemma_line_pieces(j, 0);
    lemma_pieces_free(j, nl, 0);
    assert forall|k: int| 0 <= k < ps.len() implies !crate::luafunction::is_assignment_declaration(#[trigger] ps[k]) by {
        if crate::luafunction::is_assignment_declaration(ps[k]) {
            lemma_declaration_has_inner_keyword(ps[k]);
            let m = choose|m: int| 1 <= m && occurs_at(ps[k], function_keyword(), m);
            assert(at_line_start(j, ps[k]));
            let a = choose|a: int| 0 <= a && a + ps[k].len() <= j.len() && (a == 0 || j[a - 1] == '\n')
                && #[trigger] j.subrange(a, a + ps[k].len()) == ps[k];
            assert(j.subrange(a + m, a + m + 8) =~= ps[k].subrange(m, m + 8));
            assert(occurs_at(j, function_keyword(), a + m));
            assert(j[a + m - 1] == ps[k][m - 1]);
            assert(ps[k].subrange(m - 1, m) =~= seq![ps[k][m - 1]]);
            if ps[k][m - 1] == '\n' {
                assert(occurs_at(ps[k], nl, m - 1));
                lemma_find_from(ps[k], nl, 0);
            }
        }
    }
}

/// Canonical codes joined by line breaks end with the last code's `d`.
proof fn lemma_serialized_ends(cs: Seq<Seq<char>>)
    requires
        cs.len() >= 1,
        forall|i: int| 0 <= i < cs.len() ==> is_canonical_code(#[trigger] cs[i]),
    ensures
        join_lines(cs).len() > 0,
        join_lines(cs).last() == 'd',
{
    let c = cs.last();
    assert(is_canonical_code(cs[cs.len() - 1]));
    assert(c.skip(c.len() - 4) == end_marker());
    assert(c.last() == c.skip(c.len() - 4)[3]);
    if cs.len() >= 2 {
        lemma_join_last(cs);
    }
}

/// Normalization leaves canonical codes joined by line breaks as they
/// stand.
proof fn lemma_serialized_normal(cs: Seq<Seq<char>>)
    requires
        forall|i: int| 0 <= i < cs.len() ==> is_canonical_code(#[trigger] cs[i]),
    ensures
        normalize(join_lines(cs)) == join_lines(cs),
{
    let j = join_lines(cs);
    let nl = newline();
    if cs.len() == 0 {
        assert(j =~= Seq::<char>::empty());
        assert(find_from(j, nl, 0) == -1);
        assert(split_from(j, nl, 0) == seq![j.subrange(0, 0)]);
        assert(j.subrange(0, 0) =~= Seq::<char>::empty());
        assert(seq![Seq::<char>::empty()].drop_last() =~= Seq::<Seq<char>>::empty());
        assert(crate::text::lines_of(j) =~= Seq::<Seq<char>>::empty());
    } else {
        let ps = split_from(j, nl, 0);
        lemma_join_split(j, 0);
        assert(j.subrange(0, j.len() as int) =~= j);
        lemma_last_piece(j, 0);
        lemma_serialized_ends(cs);
        assert(ps.last().len() != 0);
        assert(crate::text::lines_of(j) == ps);
        lemma_keyword_at_line_starts(cs);
        lemma_lines_not_declarations(j);
        lemma_normalized_unchanged(ps);
    }
}

proof fn lemma_join_last(cs: Seq<Seq<char>>)
    requires
        cs.len() >= 2,
    ensures
        join_lines(cs) == join_lines(cs.drop_last()) + newline() + cs.last(),
{
}


/// Extracting the functions of a script, writing their codes one after the
/// other with line breaks between them, and extracting again gives the same
/// functions, in the same order (so the same definitions), for scripts
/// for every script (every extracted code is in canonical form, see
/// `is_canonical_code`).
pub proof fn lemma_extraction_round_trip(s: Seq<char>, natives: Seq<Seq<char>>)
    ensures
        forall|i: int| 0 <= i < functions_of(s, natives).len() ==> is_canonical_code(#[trigger] functions_of(s, natives)[i].1),
        functions_of(join_lines(functions_of(s, natives).map_values(|f: FunctionView| f.1)), natives) == functions_of(s, natives),
        functions_of(join_lines(functions_of(s, natives).map_values(|f: FunctionView| f.1)), natives).map_values(|f: FunctionView| f.0).to_set()
            == functions_of(s, natives).map_values(|f: FunctionView| f.0).to_set(),
{
    let fs = functions_of(s, natives);
    lemma_extracted_declare_themselves(split_text(normalize(s), function_keyword()), natives);
    lemma_pieces_free(normalize(s), function_keyword(), 0);
    lemma_extracted_canonical(split_text(normalize(s), function_keyword()), natives);
    lemma_serialized_functions_read_back(fs, natives);
}

} // verus!
