//! Character-level text operations on which script parsing is built.
//!
//! Every operation works on `Vec<char>` and is specified over `Seq<char>`.
use vstd::prelude::*;

verus! {

/// `p` stands in `s` starting at index `i`.
pub open spec fn occurs_at(s: Seq<char>, p: Seq<char>, i: int) -> bool {
    0 <= i && i + p.len() <= s.len() && s.subrange(i, i + p.len()) == p
}

/// The first index at or after `i` where `p` stands in `s`, or -1 if none.
pub open spec fn find_from(s: Seq<char>, p: Seq<char>, i: int) -> int
    decreases s.len() + 1 - i,
{
    if i < 0 || i + p.len() > s.len() {
        -1
    } else if occurs_at(s, p, i) {
        i
    } else {
        find_from(s, p, i + 1)
    }
}

/// `p` stands somewhere in `s`.
pub open spec fn contains_text(s: Seq<char>, p: Seq<char>) -> bool {
    find_from(s, p, 0) >= 0
}

/// The pieces of `s` from index `i` on, cut at each occurrence of `p`
/// (the occurrences themselves are dropped).
pub open spec fn split_from(s: Seq<char>, p: Seq<char>, i: int) -> Seq<Seq<char>>
    decreases s.len() + 1 - i,
{
    let k = find_from(s, p, i);
    if p.len() == 0 || k < i || k + p.len() > s.len() {
        seq![s.subrange(i, s.len() as int)]
    } else {
        seq![s.subrange(i, k)] + split_from(s, p, k + p.len())
    }
}

/// The pieces of `s` cut at each occurrence of `p`.
pub open spec fn split_text(s: Seq<char>, p: Seq<char>) -> Seq<Seq<char>> {
    split_from(s, p, 0)
}

/// `s` from index `i` on, with each occurrence of `p` replaced by `r`,
/// scanning left to right without overlaps.
pub open spec fn replace_from(s: Seq<char>, p: Seq<char>, r: Seq<char>, i: int) -> Seq<char>
    decreases s.len() + 1 - i,
{
    let k = find_from(s, p, i);
    if p.len() == 0 || k < i || k + p.len() > s.len() {
        s.subrange(i, s.len() as int)
    } else {
        s.subrange(i, k) + r + replace_from(s, p, r, k + p.len())
    }
}

/// `s` with each occurrence of `p` replaced by `r`.
pub open spec fn replace_all(s: Seq<char>, p: Seq<char>, r: Seq<char>) -> Seq<char> {
    replace_from(s, p, r, 0)
}

pub proof fn lemma_find_from(s: Seq<char>, p: Seq<char>, i: int)
    requires
        0 <= i,
    ensures
        find_from(s, p, i) == -1 || (i <= find_from(s, p, i) && occurs_at(s, p, find_from(s, p, i))),
        find_from(s, p, i) == -1 ==> forall|j: int| i <= j ==> !occurs_at(s, p, j),
        forall|j: int| i <= j < find_from(s, p, i) ==> !occurs_at(s, p, j),
    decreases s.len() + 1 - i,
{
    if i + p.len() > s.len() {
    } else if occurs_at(s, p, i) {
    } else {
        lemma_find_from(s, p, i + 1);
        assert forall|j: int| i <= j && find_from(s, p, i) == -1 implies !occurs_at(s, p, j) by {
            if j > i {
            }
        }
        assert forall|j: int| i <= j < find_from(s, p, i) implies !occurs_at(s, p, j) by {
            if j > i {
            }
        }
    }
}

/// Whether `p` stands in `s` at index `i`.
pub fn matches_at(s: &Vec<char>, p: &Vec<char>, i: usize) -> (r: bool)
    ensures
        r == occurs_at(s@, p@, i as int),
{
    if i > s.len() || p.len() > s.len() - i {
        return false;
    }
    let mut j: usize = 0;
    while j < p.len()
        invariant
            i + p.len() <= s.len(),
            j <= p.len(),
            forall|k: int| 0 <= k < j ==> s@[i + k] == p@[k],
        decreases p.len() - j,
    {
        if s[i + j] != p[j] {
            assert(s@.subrange(i as int, i + p.len())[j as int] != p@[j as int]);
            return false;
        }
        j += 1;
    }
    assert(s@.subrange(i as int, i + p.len()) =~= p@);
    true
}

/// The first index at or after `from` where `p` stands in `s`.
pub fn find_text(s: &Vec<char>, p: &Vec<char>, from: usize) -> (r: Option<usize>)
    ensures
        match r {
            Some(k) => k as int == find_from(s@, p@, from as int) && from <= k && k + p.len() <= s.len(),
            None => find_from(s@, p@, from as int) == -1,
        },
{
    proof {
        lemma_find_from(s@, p@, from as int);
    }
    if p.len() > s.len() || from > s.len() - p.len() {
        return None;
    }
    let mut i = from;
    while i <= s.len() - p.len()
        invariant
            from <= i <= s.len() - p.len() + 1,
            p.len() <= s.len(),
            find_from(s@, p@, from as int) == find_from(s@, p@, i as int),
        decreases s.len() + 1 - i,
    {
        if matches_at(s, p, i) {
            return Some(i);
        }
        if i == s.len() - p.len() {
            assert(find_from(s@, p@, i + 1) == -1);
            return None;
        }
        i += 1;
    }
    None
}


/// The views of a sequence of character vectors.
pub open spec fn views(v: Seq<Vec<char>>) -> Seq<Seq<char>> {
    v.map_values(|x: Vec<char>| x@)
}

pub proof fn lemma_split_unfold(s: Seq<char>, p: Seq<char>, i: int)
    requires
        0 <= i,
        p.len() > 0,
        find_from(s, p, i) >= 0,
    ensures
        i <= find_from(s, p, i),
        find_from(s, p, i) + p.len() <= s.len(),
        split_from(s, p, i) == seq![s.subrange(i, find_from(s, p, i))] + split_from(
            s,
            p,
            find_from(s, p, i) + p.len(),
        ),
        replace_from(s, p, Seq::empty(), i) == s.subrange(i, find_from(s, p, i)) + replace_from(
            s,
            p,
            Seq::empty(),
            find_from(s, p, i) + p.len(),
        ),
{
    lemma_find_from(s, p, i);
}

/// Characters `a..b` of `s`.
pub fn slice_of(s: &Vec<char>, a: usize, b: usize) -> (r: Vec<char>)
    requires
        a <= b <= s.len(),
    ensures
        r@ == s@.subrange(a as int, b as int),
{
    let mut r: Vec<char> = Vec::new();
    let mut i = a;
    while i < b
        invariant
            a <= i <= b <= s.len(),
            r@ == s@.subrange(a as int, i as int),
        decreases b - i,
    {
        r.push(s[i]);
        i += 1;
        assert(r@ =~= s@.subrange(a as int, i as int));
    }
    r
}

/// Appends characters `a..b` of `s` to `out`.
pub fn append_range(out: &mut Vec<char>, s: &Vec<char>, a: usize, b: usize)
    requires
        a <= b <= s.len(),
    ensures
        final(out)@ == old(out)@ + s@.subrange(a as int, b as int),
{
    let mut i = a;
    while i < b
        invariant
            a <= i <= b <= s.len(),
            out@ == old(out)@ + s@.subrange(a as int, i as int),
        decreases b - i,
    {
        out.push(s[i]);
        i += 1;
        assert(out@ =~= old(out)@ + s@.subrange(a as int, i as int));
    }
}

/// Appends all of `t` to `out`.
pub fn append_all(out: &mut Vec<char>, t: &Vec<char>)
    ensures
        final(out)@ == old(out)@ + t@,
{
    append_range(out, t, 0, t.len());
    assert(t@.subrange(0, t@.len() as int) =~= t@);
}

/// The pieces of `s` cut at each occurrence of `p`.
pub fn split_all(s: &Vec<char>, p: &Vec<char>) -> (r: Vec<Vec<char>>)
    requires
        p.len() > 0,
    ensures
        views(r@) == split_text(s@, p@),
{
    let mut out: Vec<Vec<char>> = Vec::new();
    let mut i: usize = 0;
    loop
        invariant
            i <= s.len(),
            p.len() > 0,
            split_text(s@, p@) == views(out@) + split_from(s@, p@, i as int),
        decreases s.len() - i,
    {
        match find_text(s, p, i) {
            None => {
                let piece = slice_of(s, i, s.len());
                proof {
                    assert(split_from(s@, p@, i as int) == seq![s@.subrange(i as int, s.len() as int)]);
                }
                let ghost before = out@;
                out.push(piece);
                assert(views(out@) =~= views(before).push(piece@));
                return out;
            },
            Some(k) => {
                proof {
                    lemma_split_unfold(s@, p@, i as int);
                }
                let piece = slice_of(s, i, k);
                let ghost before = out@;
                out.push(piece);
                assert(views(out@) =~= views(before).push(piece@));
                i = k + p.len();
            },
        }
    }
}

/// `s` with each occurrence of `p` removed.
pub fn remove_all(s: &Vec<char>, p: &Vec<char>) -> (r: Vec<char>)
    requires
        p.len() > 0,
    ensures
        r@ == replace_all(s@, p@, Seq::empty()),
{
    replace_text(s, p, &Vec::new())
}

/// `s` with each occurrence of `p` replaced by `rep`.
pub fn replace_text(s: &Vec<char>, p: &Vec<char>, rep: &Vec<char>) -> (r: Vec<char>)
    requires
        p.len() > 0,
    ensures
        r@ == replace_all(s@, p@, rep@),
{
    let mut out: Vec<char> = Vec::new();
    let mut i: usize = 0;
    loop
        invariant
            i <= s.len(),
            p.len() > 0,
            replace_all(s@, p@, rep@) == out@ + replace_from(s@, p@, rep@, i as int),
        decreases s.len() - i,
    {
        match find_text(s, p, i) {
            None => {
                append_range(&mut out, s, i, s.len());
                return out;
            },
            Some(k) => {
                proof {
                    lemma_find_from(s@, p@, i as int);
                }
                let ghost before = out@;
                append_range(&mut out, s, i, k);
                append_all(&mut out, rep);
                assert(replace_from(s@, p@, rep@, i as int) == s@.subrange(i as int, k as int) + rep@
                    + replace_from(s@, p@, rep@, k + p.len()));
                assert(out@ + replace_from(s@, p@, rep@, k + p.len()) =~= before + replace_from(
                    s@,
                    p@,
                    rep@,
                    i as int,
                ));
                i = k + p.len();
            },
        }
    }
}

/// A line break.
pub open spec fn newline() -> Seq<char> {
    seq!['\n']
}

/// The lines of `s`: its pieces between line breaks, where a final line
/// break ends the last line rather than starting an empty one.
pub open spec fn lines_of(s: Seq<char>) -> Seq<Seq<char>> {
    let ps = split_text(s, newline());
    if ps.len() > 0 && ps.last().len() == 0 {
        ps.drop_last()
    } else {
        ps
    }
}

/// `ls` joined with a line break between consecutive items.
pub open spec fn join_lines(ls: Seq<Seq<char>>) -> Seq<char>
    decreases ls.len(),
{
    if ls.len() == 0 {
        Seq::empty()
    } else if ls.len() == 1 {
        ls[0]
    } else {
        join_lines(ls.drop_last()) + newline() + ls.last()
    }
}

/// Blank space within a line.
pub open spec fn is_ws(c: char) -> bool {
    c == ' ' || c == '\t' || c == '\r'
}

/// `s` without its blank characters.
pub open spec fn strip_ws(s: Seq<char>) -> Seq<char>
    decreases s.len(),
{
    if s.len() == 0 {
        s
    } else if is_ws(s.last()) {
        strip_ws(s.drop_last())
    } else {
        strip_ws(s.drop_last()).push(s.last())
    }
}

/// `s` without its leading blank characters.
pub open spec fn trim_start(s: Seq<char>) -> Seq<char>
    decreases s.len(),
{
    if s.len() > 0 && is_ws(s[0]) {
        trim_start(s.skip(1))
    } else {
        s
    }
}

/// `s` with each run of consecutive line breaks reduced to one.
pub open spec fn collapse_newlines(s: Seq<char>) -> Seq<char>
    decreases s.len(),
{
    if s.len() == 0 {
        s
    } else if s.len() >= 2 && s.last() == '\n' && s[s.len() - 2] == '\n' {
        collapse_newlines(s.drop_last())
    } else {
        collapse_newlines(s.drop_last()).push(s.last())
    }
}

/// `t` holds no two consecutive line breaks.
pub open spec fn no_blank_run(t: Seq<char>) -> bool {
    forall|i: int| 0 <= i < t.len() - 1 ==> !(#[trigger] t[i] == '\n' && t[i + 1] == '\n')
}

pub proof fn lemma_collapse_last(s: Seq<char>)
    requires
        s.len() > 0,
    ensures
        collapse_newlines(s).len() > 0,
        collapse_newlines(s).last() == s.last(),
    decreases s.len(),
{
    if s.len() >= 2 && s.last() == '\n' && s[s.len() - 2] == '\n' {
        lemma_collapse_last(s.drop_last());
    }
}

/// Collapsing leaves no two consecutive line breaks.
pub proof fn lemma_collapse_no_blank_run(s: Seq<char>)
    ensures
        no_blank_run(collapse_newlines(s)),
    decreases s.len(),
{
    if s.len() > 0 {
        lemma_collapse_no_blank_run(s.drop_last());
        if s.drop_last().len() > 0 {
            lemma_collapse_last(s.drop_last());
        }
        let c = collapse_newlines(s.drop_last());
        if !(s.len() >= 2 && s.last() == '\n' && s[s.len() - 2] == '\n') {
            assert forall|i: int| 0 <= i < c.push(s.last()).len() - 1 implies !(#[trigger] c.push(s.last())[i] == '\n'
                && c.push(s.last())[i + 1] == '\n') by {
                if i < c.len() - 1 {
                    assert(c.push(s.last())[i] == c[i]);
                    assert(c.push(s.last())[i + 1] == c[i + 1]);
                } else {
                    assert(c.len() > 0 ==> c.last() == s.drop_last().last());
                    assert(s.drop_last().last() == s[s.len() - 2]);
                }
            }
        }
    }
}

/// The lines of `s`.
pub fn lines(s: &Vec<char>) -> (r: Vec<Vec<char>>)
    ensures
        views(r@) == lines_of(s@),
{
    let nl = vec!['\n'];
    assert(nl@ =~= newline());
    let mut ps = split_all(s, &nl);
    if ps.len() > 0 && ps[ps.len() - 1].len() == 0 {
        let ghost before = ps@;
        ps.pop();
        assert(views(ps@) =~= views(before).drop_last());
    }
    ps
}

/// Joins `ls` with a line break between consecutive items.
pub fn join_with_newlines(ls: &Vec<Vec<char>>) -> (r: Vec<char>)
    ensures
        r@ == join_lines(views(ls@)),
{
    let mut out: Vec<char> = Vec::new();
    let mut i: usize = 0;
    while i < ls.len()
        invariant
            i <= ls.len(),
            out@ == join_lines(views(ls@).take(i as int)),
        decreases ls.len() - i,
    {
        if i > 0 {
            out.push('\n');
        }
        append_all(&mut out, &ls[i]);
        assert(views(ls@).take(i + 1).drop_last() =~= views(ls@).take(i as int));
        i += 1;
        assert(out@ =~= join_lines(views(ls@).take(i as int)));
    }
    assert(views(ls@).take(ls.len() as int) =~= views(ls@));
    out
}

/// `s` without its blank characters.
pub fn without_ws(s: &Vec<char>) -> (r: Vec<char>)
    ensures
        r@ == strip_ws(s@),
{
    let mut out: Vec<char> = Vec::new();
    let mut i: usize = 0;
    while i < s.len()
        invariant
            i <= s.len(),
            out@ == strip_ws(s@.take(i as int)),
        decreases s.len() - i,
    {
        assert(s@.take(i + 1).drop_last() =~= s@.take(i as int));
        let c = s[i];
        if !(c == ' ' || c == '\t' || c == '\r') {
            out.push(c);
        }
        i += 1;
    }
    assert(s@.take(s.len() as int) =~= s@);
    out
}

/// `s` without its leading blank characters.
pub fn trimmed_start(s: &Vec<char>) -> (r: Vec<char>)
    ensures
        r@ == trim_start(s@),
{
    let mut i: usize = 0;
    assert(s@.skip(0) =~= s@);
    while i < s.len() && (s[i] == ' ' || s[i] == '\t' || s[i] == '\r')
        invariant
            i <= s.len(),
            trim_start(s@) == trim_start(s@.skip(i as int)),
        decreases s.len() - i,
    {
        assert(s@.skip(i as int).skip(1) =~= s@.skip(i + 1));
        i += 1;
    }
    assert(s@.skip(i as int) =~= s@.subrange(i as int, s.len() as int));
    slice_of(s, i, s.len())
}

/// `s` with each run of consecutive line breaks reduced to one.
pub fn collapsed_newlines(s: &Vec<char>) -> (r: Vec<char>)
    ensures
        r@ == collapse_newlines(s@),
{
    let mut out: Vec<char> = Vec::new();
    let mut i: usize = 0;
    while i < s.len()
        invariant
            i <= s.len(),
            out@ == collapse_newlines(s@.take(i as int)),
        decreases s.len() - i,
    {
        assert(s@.take(i + 1).drop_last() =~= s@.take(i as int));
        if !(i >= 1 && s[i] == '\n' && s[i - 1] == '\n') {
            out.push(s[i]);
        }
        i += 1;
    }
    assert(s@.take(s.len() as int) =~= s@);
    out
}

/// Whether `a` and `b` hold the same characters.
pub fn equal_chars(a: &Vec<char>, b: &Vec<char>) -> (r: bool)
    ensures
        r == (a@ == b@),
{
    if a.len() != b.len() {
        return false;
    }
    let r = matches_at(a, b, 0);
    assert(a@.subrange(0, b@.len() as int) =~= a@);
    r
}

/// `base` and `part` joined by a path separator, unless `base` is empty or
/// already ends with one.
pub open spec fn joined_path(base: Seq<char>, part: Seq<char>) -> Seq<char> {
    if base.len() == 0 || base.last() == '\\' || base.last() == '/' {
        base + part
    } else {
        base + seq!['\\'] + part
    }
}

/// Joins two parts of a path (see `joined_path`).
pub fn join_path(base: &String, part: &String) -> (r: String)
    ensures
        r@ == joined_path(base@, part@),
{
    let mut out = chars_of(base.as_str());
    let n = out.len();
    if !(n == 0 || out[n - 1] == '\\' || out[n - 1] == '/') {
        out.push('\\');
    }
    append_all(&mut out, &chars_of(part.as_str()));
    let r = string_of(&out);
    assert(r@ =~= joined_path(base@, part@));
    r
}

/// `s` without the characters `a` and `b`.
pub open spec fn remove_chars(s: Seq<char>, a: char, b: char) -> Seq<char>
    decreases s.len(),
{
    if s.len() == 0 {
        s
    } else if s.last() == a || s.last() == b {
        remove_chars(s.drop_last(), a, b)
    } else {
        remove_chars(s.drop_last(), a, b).push(s.last())
    }
}

/// `s` without the characters `a` and `b`.
pub fn removed_chars(s: &Vec<char>, a: char, b: char) -> (r: Vec<char>)
    ensures
        r@ == remove_chars(s@, a, b),
{
    let mut out: Vec<char> = Vec::new();
    let mut i: usize = 0;
    while i < s.len()
        invariant
            i <= s.len(),
            out@ == remove_chars(s@.take(i as int), a, b),
        decreases s.len() - i,
    {
        assert(s@.take(i + 1).drop_last() =~= s@.take(i as int));
        if s[i] != a && s[i] != b {
            out.push(s[i]);
        }
        i += 1;
    }
    assert(s@.take(s.len() as int) =~= s@);
    out
}

/// Appends the characters of `t` to `out`.
pub fn push_text(out: &mut Vec<char>, t: &str)
    ensures
        final(out)@ == old(out)@ + t@,
{
    append_all(out, &chars_of(t));
}

/// The characters of a string slice.
#[verifier::external_body]
pub(crate) fn chars_of(s: &str) -> (r: Vec<char>)
    ensures
        r@ == s@,
{
    s.chars().collect()
}

/// A string made of the given characters.
#[verifier::external_body]
pub(crate) fn string_of(v: &Vec<char>) -> (r: String)
    ensures
        r@ == v@,
{
    v.iter().collect()
}

} // verus!
