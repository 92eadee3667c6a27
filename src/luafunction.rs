//! Lua functions with their code, and how they are cut out of a script.
use vstd::prelude::*;
use crate::error::ModdingError;
use crate::luafuncdef::{
    LuaFuncDef, definition_of, function_keyword, function_keyword_chars, name_views,
};
use crate::text::{
    append_all, chars_of, equal_chars, find_from, find_text, join_lines, matches_at,
    join_with_newlines, lines, lines_of, slice_of, split_all, split_text, string_of, views,
};

verus! {

/// The view of a function: its definition and its code.
pub type FunctionView = ((Seq<char>, bool), Seq<char>);

/// The text that ends a function: a line that starts with `end`.
pub open spec fn end_marker() -> Seq<char> {
    seq!['\n', 'e', 'n', 'd']
}

pub open spec fn local_keyword() -> Seq<char> {
    seq!['l', 'o', 'c', 'a', 'l']
}

pub open spec fn concat_pieces(ts: Seq<Seq<char>>) -> Seq<char>
    decreases ts.len(),
{
    if ts.len() == 0 {
        Seq::empty()
    } else {
        concat_pieces(ts.drop_last()) + ts.last()
    }
}

/// The index of the name word of a possible assignment declaration: the
/// second word after `local`, the first otherwise.
pub open spec fn name_index(t: Seq<Seq<char>>) -> int {
    if t.len() > 0 && t[0] == local_keyword() { 1 } else { 0 }
}

/// The words of `t` from index `k` on, run together.
pub open spec fn words_from(t: Seq<Seq<char>>, k: int) -> Seq<char> {
    concat_pieces(t.subrange(k, t.len() as int))
}

/// A line that declares a function by assignment:
/// `name = function(args)` or `local name = function(args)` (words
/// separated by single blanks), with a `(` after the keyword.
pub open spec fn is_assignment_declaration(line: Seq<char>) -> bool {
    let t = split_text(line, seq![' ']);
    let i = name_index(t);
    t.len() > i + 2 && t[i].len() > 0 && t[i + 1] == seq!['='] && t[i + 2].len() >= 8
        && t[i + 2].take(8) == function_keyword() && find_from(words_from(t, i + 2), seq!['('], 0) >= 0
}

/// The canonical form `function name(args)` of an assignment declaration:
/// the arguments are what follows the first `(` after the `=`, with
/// blanks removed.
pub open spec fn rewrite_assignment(line: Seq<char>) -> Seq<char> {
    let t = split_text(line, seq![' ']);
    let i = name_index(t);
    let rest = words_from(t, i + 2);
    function_keyword() + seq![' '] + t[i] + rest.skip(find_from(rest, seq!['('], 0))
}

/// A line in canonical form: an assignment declaration rewritten, any
/// other line as it stands.
pub open spec fn normalized_line(line: Seq<char>) -> Seq<char> {
    if is_assignment_declaration(line) {
        rewrite_assignment(line)
    } else {
        line
    }
}

pub open spec fn normalized_lines(ls: Seq<Seq<char>>) -> Seq<Seq<char>>
    decreases ls.len(),
{
    if ls.len() == 0 {
        Seq::empty()
    } else {
        normalized_lines(ls.drop_last()).push(normalized_line(ls.last()))
    }
}

/// `code` with each assignment declaration in canonical form.
pub open spec fn normalize(code: Seq<char>) -> Seq<char> {
    join_lines(normalized_lines(lines_of(code)))
}

/// The function that `code` holds, once normalized, or `None` when it
/// declares no name.
pub open spec fn parse_function(code: Seq<char>, natives: Seq<Seq<char>>) -> Option<FunctionView> {
    let n = normalize(code);
    match definition_of(n, natives) {
        Some(d) => Some((d, n)),
        None => None,
    }
}

/// The code rebuilt from one piece of a script cut at each `function`:
/// the keyword, the piece up to its first line that starts with `end`,
/// and that `end`.
pub open spec fn fragment_code(piece: Seq<char>) -> Seq<char> {
    let k = find_from(piece, end_marker(), 0);
    let body = if k < 0 { piece } else { piece.take(k) };
    function_keyword() + body + end_marker()
}

/// The functions that the pieces give: each piece whose code declares a
/// name gives that definition and the code.
pub open spec fn functions_of_pieces(ps: Seq<Seq<char>>, natives: Seq<Seq<char>>) -> Seq<FunctionView>
    decreases ps.len(),
{
    if ps.len() == 0 {
        Seq::empty()
    } else {
        match definition_of(fragment_code(ps.last()), natives) {
            Some(d) => functions_of_pieces(ps.drop_last(), natives).push((d, fragment_code(ps.last()))),
            None => functions_of_pieces(ps.drop_last(), natives),
        }
    }
}

/// The functions of a script, in order: its assignment declarations are
/// put in canonical form, the result is cut at each `function`, and each
/// piece that declares a name gives one function.
pub open spec fn functions_of(s: Seq<char>, natives: Seq<Seq<char>>) -> Seq<FunctionView> {
    functions_of_pieces(split_text(normalize(s), function_keyword()), natives)
}

/// The first function of `fs`, at or after `i`, with definition `d`.
pub open spec fn first_with_def(fs: Seq<FunctionView>, d: (Seq<char>, bool), i: int) -> Option<FunctionView>
    decreases fs.len() - i,
{
    if i < 0 || i >= fs.len() {
        None
    } else if fs[i].0 == d {
        Some(fs[i])
    } else {
        first_with_def(fs, d, i + 1)
    }
}

/// A Lua function: its definition and its code.
#[derive(Debug, Clone, PartialEq, Eq, Hash)]
pub struct LuaFunction {
    pub definition: LuaFuncDef,
    pub code: String,
}

impl View for LuaFunction {
    type V = FunctionView;

    open spec fn view(&self) -> FunctionView {
        (self.definition@, self.code@)
    }
}

/// The views of a sequence of functions.
pub open spec fn function_views(v: Seq<LuaFunction>) -> Seq<FunctionView> {
    v.map_values(|f: LuaFunction| f@)
}

/// A line in canonical form (see `normalized_line`).
pub fn normalize_line(line: &Vec<char>) -> (r: Vec<char>)
    ensures
        r@ == normalized_line(line@),
{
    let sp = vec![' '];
    assert(sp@ =~= seq![' ']);
    let t = split_all(line, &sp);
    let ghost tv = views(t@);
    assert(tv.len() > 0);
    let local = vec!['l', 'o', 'c', 'a', 'l'];
    assert(local@ =~= local_keyword());
    let i: usize = if equal_chars(&t[0], &local) { 1 } else { 0 };
    assert(i == name_index(tv));
    let eq = vec!['='];
    assert(eq@ =~= seq!['=']);
    if t.len() <= i + 2 || t[i].len() == 0 || !equal_chars(&t[i + 1], &eq) || t[i + 2].len() < 8 {
        return slice_copy(line);
    }
    assert(tv[i + 1] == t@[i + 1]@);
    let kw = function_keyword_chars();
    if !matches_at(&t[i + 2], &kw, 0) {
        assert(t@[i + 2]@.subrange(0, 8) =~= t@[i + 2]@.take(8));
        return slice_copy(line);
    }
    assert(t@[i + 2]@.subrange(0, 8) =~= t@[i + 2]@.take(8));
    let start = i + 2;
    let mut rest: Vec<char> = Vec::new();
    let mut j = start;
    while j < t.len()
        invariant
            start <= j <= t.len(),
            tv == views(t@),
            rest@ == concat_pieces(tv.subrange(start as int, j as int)),
        decreases t.len() - j,
    {
        append_all(&mut rest, &t[j]);
        assert(tv.subrange(start as int, j + 1).drop_last() =~= tv.subrange(start as int, j as int));
        j += 1;
    }
    assert(rest@ == words_from(tv, start as int));
    let paren = vec!['('];
    assert(paren@ =~= seq!['(']);
    match find_text(&rest, &paren, 0) {
        None => slice_copy(line),
        Some(k) => {
            let mut out = function_keyword_chars();
            out.push(' ');
            append_all(&mut out, &t[i]);
            let tail = slice_of(&rest, k, rest.len());
            append_all(&mut out, &tail);
            assert(rest@.skip(k as int) =~= rest@.subrange(k as int, rest.len() as int));
            assert(out@ =~= rewrite_assignment(line@));
            out
        },
    }
}

fn slice_copy(s: &Vec<char>) -> (r: Vec<char>)
    ensures
        r@ == s@,
{
    let r = slice_of(s, 0, s.len());
    assert(s@.subrange(0, s.len() as int) =~= s@);
    r
}

/// `code` with each assignment declaration in canonical form.
pub fn normalize_code(code: &Vec<char>) -> (r: Vec<char>)
    ensures
        r@ == normalize(code@),
{
    let ls = lines(code);
    let mut kept: Vec<Vec<char>> = Vec::new();
    let mut i: usize = 0;
    while i < ls.len()
        invariant
            i <= ls.len(),
            views(ls@) == lines_of(code@),
            views(kept@) == normalized_lines(views(ls@).take(i as int)),
        decreases ls.len() - i,
    {
        assert(views(ls@).take(i + 1).drop_last() =~= views(ls@).take(i as int));
        assert(views(ls@).take(i + 1).last() == ls@[i as int]@);
        let l = normalize_line(&ls[i]);
        let ghost before = kept@;
        kept.push(l);
        assert(views(kept@) =~= views(before).push(l@));
        i += 1;
    }
    assert(views(ls@).take(ls.len() as int) =~= views(ls@));
    join_with_newlines(&kept)
}

impl LuaFunction {
    /// The function that `code` holds: its code normalized, and the
    /// definition that the normalized code declares.
    /// `None` when the normalized code declares no name.
    pub fn parse_chars(code: &Vec<char>, natives: &Vec<String>) -> (r: Option<LuaFunction>)
        ensures
            match r {
                Some(f) => parse_function(code@, name_views(natives@)) == Some(f@),
                None => parse_function(code@, name_views(natives@)) is None,
            },
    {
        let n = normalize_code(code);
        match LuaFuncDef::from_chars(&n, natives) {
            Some(d) => Some(LuaFunction { definition: d, code: string_of(&n) }),
            None => None,
        }
    }

    /// Reads the function that a piece of code holds.
    ///
    /// Fails with `NotALuaFunction` when the code, once normalized, does
    /// not start with the `function` keyword, a blank and a name.
    pub fn from_code(code: &str, natives: &Vec<String>) -> (r: Result<LuaFunction, ModdingError>)
        ensures
            match r {
                Ok(f) => parse_function(code@, name_views(natives@)) == Some(f@),
                Err(e) => parse_function(code@, name_views(natives@)) is None && (match e {
                    ModdingError::NotALuaFunction(t) => t@ == code@,
                    _ => false,
                }),
            },
    {
        let chars = chars_of(code);
        match LuaFunction::parse_chars(&chars, natives) {
            Some(f) => Ok(f),
            None => Err(ModdingError::NotALuaFunction(string_of(&chars))),
        }
    }

    /// The function in `code` with the given definition: the first of
    /// `code_to_funcs(code)` whose definition is `definition`.
    pub fn from_definition_and_code(definition: &LuaFuncDef, code: &str, natives: &Vec<String>) -> (r: Option<LuaFunction>)
        ensures
            match r {
                Some(f) => first_with_def(functions_of(code@, name_views(natives@)), definition@, 0) == Some(f@),
                None => first_with_def(functions_of(code@, name_views(natives@)), definition@, 0) is None,
            },
    {
        let chars = chars_of(code);
        find_function(&chars, definition, natives)
    }

    /// The function's code.
    pub fn code(&self) -> (r: &str)
        ensures
            r@ == self.code@,
    {
        self.code.as_str()
    }

    /// The function's definition.
    pub fn definition(&self) -> (r: LuaFuncDef)
        ensures
            r@ == self.definition@,
    {
        LuaFuncDef { name: self.definition.name.clone(), is_baba_native: self.definition.is_baba_native }
    }
}

/// The first function in the script `s` with definition `d`.
pub fn find_function(s: &Vec<char>, d: &LuaFuncDef, natives: &Vec<String>) -> (r: Option<LuaFunction>)
    ensures
        match r {
            Some(f) => first_with_def(functions_of(s@, name_views(natives@)), d@, 0) == Some(f@),
            None => first_with_def(functions_of(s@, name_views(natives@)), d@, 0) is None,
        },
{
    let fs = functions_in(s, natives);
    let ghost fv = function_views(fs@);
    let mut i: usize = 0;
    while i < fs.len()
        invariant
            i <= fs.len(),
            fv == function_views(fs@),
            fv == functions_of(s@, name_views(natives@)),
            first_with_def(fv, d@, 0) == first_with_def(fv, d@, i as int),
        decreases fs.len() - i,
    {
        if fs[i].definition.is_baba_native == d.is_baba_native && fs[i].definition.name.eq(&d.name) {
            assert(fv[i as int] == fs@[i as int]@);
            let f = &fs[i];
            return Some(LuaFunction { definition: f.definition(), code: f.code.clone() });
        }
        assert(fv[i as int].0 != d@);
        i += 1;
    }
    None
}

/// The functions of the script `s`, in order.
pub fn functions_in(s: &Vec<char>, natives: &Vec<String>) -> (r: Vec<LuaFunction>)
    ensures
        function_views(r@) == functions_of(s@, name_views(natives@)),
{
    let kw = function_keyword_chars();
    let normalized = normalize_code(s);
    let pieces = split_all(&normalized, &kw);
    let end = vec!['\n', 'e', 'n', 'd'];
    assert(end@ =~= end_marker());
    let mut out: Vec<LuaFunction> = Vec::new();
    let mut i: usize = 0;
    while i < pieces.len()
        invariant
            i <= pieces.len(),
            end@ == end_marker(),
            views(pieces@) == split_text(normalize(s@), function_keyword()),
            function_views(out@) == functions_of_pieces(views(pieces@).take(i as int), name_views(natives@)),
        decreases pieces.len() - i,
    {
        assert(views(pieces@).take(i + 1).drop_last() =~= views(pieces@).take(i as int));
        assert(views(pieces@).take(i + 1).last() == pieces@[i as int]@);
        let piece = &pieces[i];
        let mut code = function_keyword_chars();
        match find_text(piece, &end, 0) {
            Some(k) => {
                let body = slice_of(piece, 0, k);
                assert(piece@.take(k as int) =~= piece@.subrange(0, k as int));
                append_all(&mut code, &body);
            },
            None => {
                append_all(&mut code, piece);
            },
        }
        append_all(&mut code, &end);
        assert(code@ == fragment_code(piece@));
        match LuaFuncDef::from_chars(&code, natives) {
            Some(d) => {
                let ghost before = out@;
                let f = LuaFunction { definition: d, code: string_of(&code) };
                out.push(f);
                assert(function_views(out@) =~= function_views(before).push(f@));
            },
            None => {},
        }
        i += 1;
    }
    assert(views(pieces@).take(pieces.len() as int) =~= views(pieces@));
    out
}

/// The functions of a script, in order: its assignment declarations are
/// put in canonical form, the result is cut at each `function`, and each
/// piece, up to its first line that starts with `end`, gives one function
/// where it declares a name. A function's code is that span as it stands.
pub fn code_to_funcs(file: &str, natives: &Vec<String>) -> (r: Vec<LuaFunction>)
    ensures
        function_views(r@) == functions_of(file@, name_views(natives@)),
{
    let chars = chars_of(file);
    functions_in(&chars, natives)
}

/// The two texts joined by a line break.
pub fn concat_strings(left: String, right: String) -> (r: String)
    ensures
        r@ == left@ + seq!['\n'] + right@,
{
    let mut out = chars_of(left.as_str());
    out.push('\n');
    append_all(&mut out, &chars_of(right.as_str()));
    let r = string_of(&out);
    assert(r@ =~= left@ + seq!['\n'] + right@);
    r
}

/// The names of the game's own functions, from a listing that gives one
/// per line.
pub fn baba_function_names(listing: &str) -> (r: Vec<String>)
    ensures
        crate::config::string_views(r@) == split_text(listing@, seq!['\n']),
{
    let nl = vec!['\n'];
    assert(nl@ =~= seq!['\n']);
    let pieces = split_all(&chars_of(listing), &nl);
    let mut out: Vec<String> = Vec::new();
    let mut i: usize = 0;
    while i < pieces.len()
        invariant
            i <= pieces.len(),
            nl@ == seq!['\n'],
            views(pieces@) == split_text(listing@, seq!['\n']),
            crate::config::string_views(out@) == views(pieces@).take(i as int),
        decreases pieces.len() - i,
    {
        let ghost before = out@;
        out.push(string_of(&pieces[i]));
        assert(crate::config::string_views(out@) =~= crate::config::string_views(before).push(pieces@[i as int]@));
        assert(views(pieces@).take(i + 1) =~= views(pieces@).take(i as int).push(pieces@[i as int]@));
        i += 1;
    }
    assert(views(pieces@).take(i as int) =~= views(pieces@));
    out
}

} // verus!
