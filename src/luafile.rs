//! Whole Lua scripts: their functions, and the aliases under which they
//! keep the game's own functions.
use vstd::prelude::*;
use crate::luafuncdef::{LuaFuncDef, def_views, function_keyword, function_keyword_chars, is_native_name, name_views};
use crate::luafunction::{FunctionView, LuaFunction, function_views, functions_in, functions_of, local_keyword};
use crate::text::{
    chars_of, find_from, find_text, is_ws, lines, lines_of, matches_at, slice_of, string_of, strip_ws,
    trim_start, trimmed_start, views, without_ws,
};

verus! {

/// The view of a list of renames: pairs of (game function, alias).
pub type RenamesView = Seq<(Seq<char>, Seq<char>)>;

/// The view of a script: its functions, its renames and its whole code.
pub type FileView = (Seq<FunctionView>, RenamesView, Seq<char>);

/// The rename that a line declares: `[local ]alias = original`, where
/// `original` is one of the game's functions and the line holds no
/// `function` keyword. Gives `(original, alias)`.
pub open spec fn rename_of_line(line: Seq<char>, natives: Seq<Seq<char>>) -> Option<(Seq<char>, Seq<char>)> {
    let e = find_from(line, seq!['='], 0);
    if find_from(line, function_keyword(), 0) >= 0 || e < 0 {
        None
    } else {
        let rhs = strip_ws(line.skip(e + 1));
        let lhs = trim_start(line.take(e));
        let alias = strip_ws(
            if lhs.len() > 5 && lhs.take(5) == local_keyword() && is_ws(lhs[5]) { lhs.skip(5) } else { lhs },
        );
        if !natives.contains(rhs) || alias.len() == 0 {
            None
        } else {
            Some((rhs, alias))
        }
    }
}

/// The index of the first entry at or after `i` whose original is `o`, or -1.
pub open spec fn key_pos(r: RenamesView, o: Seq<char>, i: int) -> int
    decreases r.len() - i,
{
    if i < 0 || i >= r.len() {
        -1
    } else if r[i].0 == o {
        i
    } else {
        key_pos(r, o, i + 1)
    }
}

/// `r` with the alias of `o` set to `a`: its entry is replaced in place,
/// or a new entry is added at the end.
pub open spec fn assoc_set(r: RenamesView, o: Seq<char>, a: Seq<char>) -> RenamesView {
    let j = key_pos(r, o, 0);
    if j < 0 {
        r.push((o, a))
    } else {
        r.update(j, (o, a))
    }
}

/// The renames declared by the lines `ls`; a later line overrides an
/// earlier one for the same original.
pub open spec fn renames_of_lines(ls: Seq<Seq<char>>, natives: Seq<Seq<char>>) -> RenamesView
    decreases ls.len(),
{
    if ls.len() == 0 {
        Seq::empty()
    } else {
        match rename_of_line(ls.last(), natives) {
            Some(p) => assoc_set(renames_of_lines(ls.drop_last(), natives), p.0, p.1),
            None => renames_of_lines(ls.drop_last(), natives),
        }
    }
}

/// The script that the source `s` gives.
pub open spec fn file_of(s: Seq<char>, natives: Seq<Seq<char>>) -> FileView {
    (functions_of(s, natives), renames_of_lines(lines_of(s), natives), s)
}

/// Whether a function of this name takes part in an injection: it is
/// renamed, or it is the alias of a rename.
pub open spec fn uses_injection(r: RenamesView, name: Seq<char>) -> bool {
    key_pos(r, name, 0) >= 0 || exists|j: int| 0 <= j < r.len() && r[j].1 == name
}

/// The alias under which the script keeps `name`, if any.
pub open spec fn alias_of(r: RenamesView, name: Seq<char>) -> Option<Seq<char>> {
    let j = key_pos(r, name, 0);
    if j < 0 {
        None
    } else {
        Some(r[j].1)
    }
}

pub proof fn lemma_key_pos(r: RenamesView, o: Seq<char>, i: int)
    requires
        0 <= i,
    ensures
        key_pos(r, o, i) == -1 || (i <= key_pos(r, o, i) < r.len() && r[key_pos(r, o, i)].0 == o),
        key_pos(r, o, i) == -1 ==> forall|j: int| i <= j < r.len() ==> r[j].0 != o,
    decreases r.len() - i,
{
    if i < r.len() && r[i].0 != o {
        lemma_key_pos(r, o, i + 1);
        assert forall|j: int| i <= j < r.len() && key_pos(r, o, i) == -1 implies r[j].0 != o by {
            if j > i {
            }
        }
    }
}

/// `s` with each item kept at its first appearance only.
pub open spec fn dedup<A>(s: Seq<A>) -> Seq<A>
    decreases s.len(),
{
    if s.len() == 0 {
        s
    } else if dedup(s.drop_last()).contains(s.last()) {
        dedup(s.drop_last())
    } else {
        dedup(s.drop_last()).push(s.last())
    }
}

/// The views of a list of renames.
pub open spec fn renames_view(v: Seq<(String, String)>) -> RenamesView {
    v.map_values(|p: (String, String)| (p.0@, p.1@))
}

/// A whole Lua script.
#[derive(Debug, Clone)]
pub struct LuaFile {
    /// Its functions, in order of appearance.
    pub functions: Vec<LuaFunction>,
    /// Pairs of (game function, alias under which the script keeps it).
    pub renamed_functions: Vec<(String, String)>,
    /// The whole source, unaltered.
    pub code: String,
}

impl View for LuaFile {
    type V = FileView;

    open spec fn view(&self) -> FileView {
        (function_views(self.functions@), renames_view(self.renamed_functions@), self.code@)
    }
}

/// The rename that a line declares, if any.
pub fn rename_in_line(line: &Vec<char>, natives: &Vec<String>) -> (r: Option<(String, String)>)
    ensures
        match r {
            Some(p) => rename_of_line(line@, name_views(natives@)) == Some((p.0@, p.1@)),
            None => rename_of_line(line@, name_views(natives@)) is None,
        },
{
    let kw = function_keyword_chars();
    let eq = vec!['='];
    assert(eq@ =~= seq!['=']);
    if find_text(line, &kw, 0).is_some() {
        return None;
    }
    let e = match find_text(line, &eq, 0) {
        Some(e) => e,
        None => {
            return None;
        },
    };
    let after = slice_of(line, e + 1, line.len());
    assert(after@ =~= line@.skip(e + 1));
    let rhs = string_of(&without_ws(&after));
    if !is_native_name(natives, &rhs) {
        return None;
    }
    let before = slice_of(line, 0, e);
    assert(before@ =~= line@.take(e as int));
    let lhs = trimmed_start(&before);
    let local = vec!['l', 'o', 'c', 'a', 'l'];
    assert(local@ =~= local_keyword());
    let alias_chars = if lhs.len() > 5 && matches_at(&lhs, &local, 0) && (lhs[5] == ' ' || lhs[5] == '\t' || lhs[5] == '\r') {
        assert(lhs@.subrange(0, 5) =~= lhs@.take(5));
        let tail = slice_of(&lhs, 5, lhs.len());
        assert(tail@ =~= lhs@.skip(5));
        without_ws(&tail)
    } else {
        proof {
            if lhs.len() > 5 && lhs@.take(5) == local_keyword() {
                assert(lhs@.subrange(0, 5) =~= lhs@.take(5));
            }
        }
        without_ws(&lhs)
    };
    if alias_chars.len() == 0 {
        return None;
    }
    Some((rhs, string_of(&alias_chars)))
}

/// The index of the entry whose original is `o`, if any.
pub fn find_rename(r: &Vec<(String, String)>, o: &String) -> (k: Option<usize>)
    ensures
        match k {
            Some(j) => key_pos(renames_view(r@), o@, 0) == j && j < r.len(),
            None => key_pos(renames_view(r@), o@, 0) == -1,
        },
{
    proof {
        lemma_key_pos(renames_view(r@), o@, 0);
    }
    let ghost rv = renames_view(r@);
    let mut i: usize = 0;
    while i < r.len()
        invariant
            i <= r.len(),
            rv == renames_view(r@),
            key_pos(rv, o@, 0) == key_pos(rv, o@, i as int),
        decreases r.len() - i,
    {
        assert(rv[i as int] == (r@[i as int].0@, r@[i as int].1@));
        if r[i].0.eq(o) {
            return Some(i);
        }
        i += 1;
    }
    None
}

/// The renames declared by the lines of `s`.
pub fn renames_in(s: &Vec<char>, natives: &Vec<String>) -> (r: Vec<(String, String)>)
    ensures
        renames_view(r@) == renames_of_lines(lines_of(s@), name_views(natives@)),
{
    let ls = lines(s);
    let mut out: Vec<(String, String)> = Vec::new();
    let mut i: usize = 0;
    while i < ls.len()
        invariant
            i <= ls.len(),
            views(ls@) == lines_of(s@),
            renames_view(out@) == renames_of_lines(views(ls@).take(i as int), name_views(natives@)),
        decreases ls.len() - i,
    {
        assert(views(ls@).take(i + 1).drop_last() =~= views(ls@).take(i as int));
        assert(views(ls@).take(i + 1).last() == ls@[i as int]@);
        match rename_in_line(&ls[i], natives) {
            Some(p) => {
                let ghost before = out@;
                let (o, a) = p;
                match find_rename(&out, &o) {
                    Some(j) => {
                        out.set(j, (o, a));
                        assert(renames_view(out@) =~= renames_view(before).update(j as int, (o@, a@)));
                    },
                    None => {
                        out.push((o, a));
                        assert(renames_view(out@) =~= renames_view(before).push((o@, a@)));
                    },
                }
            },
            None => {},
        }
        i += 1;
    }
    assert(views(ls@).take(ls.len() as int) =~= views(ls@));
    out
}

/// Whether a function of this name takes part in an injection.
pub fn renames_use(r: &Vec<(String, String)>, name: &String) -> (b: bool)
    ensures
        b == uses_injection(renames_view(r@), name@),
{
    if find_rename(r, name).is_some() {
        return true;
    }
    let ghost rv = renames_view(r@);
    let mut i: usize = 0;
    while i < r.len()
        invariant
            i <= r.len(),
            rv == renames_view(r@),
            key_pos(rv, name@, 0) < 0,
            forall|j: int| 0 <= j < i ==> rv[j].1 != name@,
        decreases r.len() - i,
    {
        assert(rv[i as int] == (r@[i as int].0@, r@[i as int].1@));
        if r[i].1.eq(name) {
            return true;
        }
        i += 1;
    }
    false
}

impl LuaFile {
    /// Reads a script: its functions (see `code_to_funcs`), its renames,
    /// and its source. Never fails: pieces that declare no function are
    /// dropped.
    pub fn parse(source: &str, natives: &Vec<String>) -> (r: LuaFile)
        ensures
            r@ == file_of(source@, name_views(natives@)),
    {
        let chars = chars_of(source);
        LuaFile::from_chars(&chars, natives)
    }

    /// Reads a script from its characters.
    pub fn from_chars(chars: &Vec<char>, natives: &Vec<String>) -> (r: LuaFile)
        ensures
            r@ == file_of(chars@, name_views(natives@)),
    {
        let functions = functions_in(chars, natives);
        let renamed_functions = renames_in(chars, natives);
        LuaFile { functions, renamed_functions, code: string_of(chars) }
    }

    /// The whole source, unaltered.
    pub fn code(&self) -> (r: String)
        ensures
            r@ == self.code@,
    {
        self.code.clone()
    }

    /// The script's functions, in order of appearance.
    pub fn functions(&self) -> (r: Vec<LuaFunction>)
        ensures
            function_views(r@) == function_views(self.functions@),
    {
        let mut out: Vec<LuaFunction> = Vec::new();
        let mut i: usize = 0;
        while i < self.functions.len()
            invariant
                i <= self.functions.len(),
                function_views(out@) == function_views(self.functions@).take(i as int),
            decreases self.functions.len() - i,
        {
            let f = &self.functions[i];
            let ghost before = out@;
            let g = LuaFunction { definition: f.definition(), code: f.code.clone() };
            assert(g@ == f@);
            out.push(g);
            assert(function_views(out@) =~= function_views(before).push(f@));
            assert(function_views(self.functions@).take(i + 1) =~= function_views(self.functions@).take(i as int).push(f@));
            i += 1;
        }
        assert(function_views(self.functions@).take(i as int) =~= function_views(self.functions@));
        out
    }

    /// The definitions of the script's functions, each once, in order of
    /// first appearance.
    pub fn definitions(&self) -> (r: Vec<LuaFuncDef>)
        ensures
            def_views(r@) == dedup(self@.0.map_values(|f: FunctionView| f.0)),
    {
        let ghost fv = self@.0.map_values(|f: FunctionView| f.0);
        let mut out: Vec<LuaFuncDef> = Vec::new();
        let mut i: usize = 0;
        while i < self.functions.len()
            invariant
                i <= self.functions.len(),
                fv == self@.0.map_values(|f: FunctionView| f.0),
                def_views(out@) == dedup(fv.take(i as int)),
            decreases self.functions.len() - i,
        {
            let d = self.functions[i].definition();
            assert(fv.take(i + 1).drop_last() =~= fv.take(i as int));
            assert(fv.take(i + 1).last() == d@);
            if !crate::luafuncdef::contains_def(&out, &d) {
                let ghost before = out@;
                out.push(d);
                assert(def_views(out@) =~= def_views(before).push(d@));
            }
            i += 1;
        }
        assert(fv.take(i as int) =~= fv);
        out
    }

    /// The renames of the script: pairs of (game function, alias).
    pub fn renamed_functions(&self) -> (r: Vec<(String, String)>)
        ensures
            renames_view(r@) == renames_view(self.renamed_functions@),
    {
        let mut out: Vec<(String, String)> = Vec::new();
        let mut i: usize = 0;
        while i < self.renamed_functions.len()
            invariant
                i <= self.renamed_functions.len(),
                renames_view(out@) == renames_view(self.renamed_functions@).take(i as int),
            decreases self.renamed_functions.len() - i,
        {
            let p = &self.renamed_functions[i];
            let ghost before = out@;
            let q = (p.0.clone(), p.1.clone());
            out.push(q);
            assert(renames_view(out@) =~= renames_view(before).push((p.0@, p.1@)));
            assert(renames_view(self.renamed_functions@).take(i + 1) =~= renames_view(self.renamed_functions@).take(i as int).push((p.0@, p.1@)));
            i += 1;
        }
        assert(renames_view(self.renamed_functions@).take(i as int) =~= renames_view(self.renamed_functions@));
        out
    }

    /// Whether the function takes part in an injection: its name is renamed
    /// in this script, or is the alias of a rename.
    pub fn function_uses_injection(&self, func: &LuaFuncDef) -> (r: bool)
        ensures
            r == uses_injection(self@.1, func.name@),
    {
        renames_use(&self.renamed_functions, &func.name)
    }

    /// Whether a function of this name takes part in an injection.
    pub fn function_uses_injection_str(&self, func_name: &str) -> (r: bool)
        ensures
            r == uses_injection(self@.1, func_name@),
    {
        let name = string_of(&chars_of(func_name));
        renames_use(&self.renamed_functions, &name)
    }

    /// The alias under which the script keeps the function, if any.
    pub fn injection_data(&self, func: &LuaFuncDef) -> (r: Option<String>)
        ensures
            match r {
                Some(a) => alias_of(self@.1, func.name@) == Some(a@),
                None => alias_of(self@.1, func.name@) is None,
            },
    {
        match find_rename(&self.renamed_functions, &func.name) {
            Some(j) => {
                assert(renames_view(self.renamed_functions@)[j as int].1 == self.renamed_functions@[j as int].1@);
                Some(self.renamed_functions[j].1.clone())
            },
            None => None,
        }
    }
}

} // verus!
