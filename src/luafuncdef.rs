//! Function definitions: a function's name, and whether the game defines it.
use vstd::prelude::*;
use crate::error::ModdingError;
use crate::text::{chars_of, is_ws, lines, lines_of, string_of, views};

verus! {

/// The keyword that opens a function definition.
pub open spec fn function_keyword() -> Seq<char> {
    seq!['f', 'u', 'n', 'c', 't', 'i', 'o', 'n']
}

/// The keyword that opens a function definition.
pub fn function_keyword_chars() -> (r: Vec<char>)
    ensures
        r@ == function_keyword(),
{
    let r = vec!['f', 'u', 'n', 'c', 't', 'i', 'o', 'n'];
    assert(r@ =~= function_keyword());
    r
}

/// A character that ends a function's name.
pub open spec fn ends_name(c: char) -> bool {
    c == '(' || c == '\n' || is_ws(c)
}

/// The index of the first character at or after `i` that ends a name.
pub open spec fn name_end(s: Seq<char>, i: int) -> int
    decreases s.len() - i,
{
    if i < 0 || i >= s.len() || ends_name(s[i]) {
        i
    } else {
        name_end(s, i + 1)
    }
}

pub proof fn lemma_name_end(s: Seq<char>, i: int)
    requires
        0 <= i <= s.len(),
    ensures
        i <= name_end(s, i) <= s.len(),
    decreases s.len() - i,
{
    if i < s.len() && !ends_name(s[i]) {
        lemma_name_end(s, i + 1);
    }
}

/// The name that `code` declares: the word that follows the `function`
/// keyword and a blank, up to a `(`, a blank or the end of the line.
/// `code` declares no name when it does not start so, or the word is empty.
pub open spec fn declared_name(code: Seq<char>) -> Option<Seq<char>> {
    if code.len() > 9 && code.take(8) == function_keyword() && is_ws(code[8]) && name_end(code, 9) > 9 {
        Some(code.subrange(9, name_end(code, 9)))
    } else {
        None
    }
}

/// The names of the game's own functions.
pub open spec fn name_views(natives: Seq<String>) -> Seq<Seq<char>> {
    natives.map_values(|s: String| s@)
}

/// The definition that `code` declares, given the game's own function names.
pub open spec fn definition_of(code: Seq<char>, natives: Seq<Seq<char>>) -> Option<(Seq<char>, bool)> {
    match declared_name(code) {
        Some(n) => Some((n, natives.contains(n))),
        None => None,
    }
}

/// A Lua function's definition: its name, and whether the game itself
/// defines a function of that name.
#[derive(Debug, Clone, PartialEq, Eq, Hash)]
pub struct LuaFuncDef {
    pub name: String,
    pub is_baba_native: bool,
}

impl View for LuaFuncDef {
    type V = (Seq<char>, bool);

    open spec fn view(&self) -> (Seq<char>, bool) {
        (self.name@, self.is_baba_native)
    }
}

/// The views of a sequence of definitions.
pub open spec fn def_views(v: Seq<LuaFuncDef>) -> Seq<(Seq<char>, bool)> {
    v.map_values(|d: LuaFuncDef| d@)
}

/// The definitions declared by the lines of `ls`, in order.
pub open spec fn defs_of_lines(ls: Seq<Seq<char>>, natives: Seq<Seq<char>>) -> Seq<(Seq<char>, bool)>
    decreases ls.len(),
{
    if ls.len() == 0 {
        Seq::empty()
    } else {
        match definition_of(ls.last(), natives) {
            Some(d) => defs_of_lines(ls.drop_last(), natives).push(d),
            None => defs_of_lines(ls.drop_last(), natives),
        }
    }
}

pub proof fn lemma_push_to_set<A>(s: Seq<A>, x: A)
    ensures
        s.push(x).to_set() == s.to_set().insert(x),
{
    assert(s.push(x) =~= s + seq![x]);
    Seq::lemma_to_set_insert_commutes(s, x);
}

/// Whether `name` is among `natives`.
pub fn is_native_name(natives: &Vec<String>, name: &String) -> (r: bool)
    ensures
        r == name_views(natives@).contains(name@),
{
    let mut i: usize = 0;
    while i < natives.len()
        invariant
            i <= natives.len(),
            forall|j: int| 0 <= j < i ==> natives@[j]@ != name@,
        decreases natives.len() - i,
    {
        if natives[i].eq(name) {
            assert(name_views(natives@)[i as int] == name@);
            return true;
        }
        i += 1;
    }
    assert(!name_views(natives@).contains(name@)) by {
        if name_views(natives@).contains(name@) {
            let j = choose|j: int| 0 <= j < name_views(natives@).len() && name_views(natives@)[j] == name@;
            assert(natives@[j]@ == name@);
        }
    }
    false
}

/// Whether `d` is among `v`.
pub fn contains_def(v: &Vec<LuaFuncDef>, d: &LuaFuncDef) -> (r: bool)
    ensures
        r == def_views(v@).contains(d@),
{
    let mut i: usize = 0;
    while i < v.len()
        invariant
            i <= v.len(),
            forall|j: int| 0 <= j < i ==> v@[j]@ != d@,
        decreases v.len() - i,
    {
        if v[i].is_baba_native == d.is_baba_native && v[i].name.eq(&d.name) {
            assert(def_views(v@)[i as int] == d@);
            return true;
        }
        i += 1;
    }
    assert(!def_views(v@).contains(d@)) by {
        if def_views(v@).contains(d@) {
            let j = choose|j: int| 0 <= j < def_views(v@).len() && def_views(v@)[j] == d@;
            assert(v@[j]@ == d@);
        }
    }
    false
}

impl LuaFuncDef {
    /// Whether the game itself defines a function of this name.
    pub fn is_baba_native(&self) -> (r: bool)
        ensures
            r == self.is_baba_native,
    {
        self.is_baba_native
    }

    /// The function's name.
    pub fn name(&self) -> (r: String)
        ensures
            r@ == self.name@,
    {
        self.name.clone()
    }

    /// Reads the definition that `code` declares.
    pub fn from_chars(code: &Vec<char>, natives: &Vec<String>) -> (r: Option<LuaFuncDef>)
        ensures
            match r {
                Some(d) => definition_of(code@, name_views(natives@)) == Some(d@),
                None => definition_of(code@, name_views(natives@)) is None,
            },
    {
        let kw = function_keyword_chars();
        if code.len() <= 9 || !crate::text::matches_at(code, &kw, 0) || !(code[8] == ' ' || code[8] == '\t' || code[8] == '\r') {
            proof {
                if code.len() > 9 && code@.take(8) == function_keyword() {
                    assert(code@.subrange(0, 8) =~= code@.take(8));
                }
            }
            return None;
        }
        assert(code@.subrange(0, 8) =~= code@.take(8));
        let mut i: usize = 9;
        while i < code.len() && !(code[i] == '(' || code[i] == '\n' || code[i] == ' ' || code[i] == '\t' || code[i] == '\r')
            invariant
                9 <= i <= code.len(),
                name_end(code@, 9) == name_end(code@, i as int),
            decreases code.len() - i,
        {
            i += 1;
        }
        if i == 9 {
            return None;
        }
        let name_chars = crate::text::slice_of(code, 9, i);
        let name = string_of(&name_chars);
        let is_baba_native = is_native_name(natives, &name);
        Some(LuaFuncDef { name, is_baba_native })
    }

    /// Reads the definition that a line declares.
    ///
    /// Fails with `NotALuaFunction` when the line does not start with the
    /// `function` keyword, a blank and a non-empty name.
    pub fn from_line(line: &str, natives: &Vec<String>) -> (r: Result<LuaFuncDef, ModdingError>)
        ensures
            match r {
                Ok(d) => definition_of(line@, name_views(natives@)) == Some(d@),
                Err(e) => definition_of(line@, name_views(natives@)) is None && (match e {
                    ModdingError::NotALuaFunction(t) => t@ == line@,
                    _ => false,
                }),
            },
    {
        let code = chars_of(line);
        match LuaFuncDef::from_chars(&code, natives) {
            Some(d) => Ok(d),
            None => Err(ModdingError::NotALuaFunction(string_of(&code))),
        }
    }
}

/// The definitions declared by the lines of a text: each line that starts
/// with the `function` keyword, a blank and a name.
/// Each definition appears once, in the order of first appearance.
pub fn functions_from_string(text: &str, natives: &Vec<String>) -> (r: Vec<LuaFuncDef>)
    ensures
        def_views(r@).no_duplicates(),
        def_views(r@).to_set() == defs_of_lines(lines_of(text@), name_views(natives@)).to_set(),
{
    let chars = chars_of(text);
    let ls = lines(&chars);
    let ghost nv = name_views(natives@);
    let mut out: Vec<LuaFuncDef> = Vec::new();
    let mut i: usize = 0;
    while i < ls.len()
        invariant
            i <= ls.len(),
            nv == name_views(natives@),
            views(ls@) == lines_of(chars@),
            chars@ == text@,
            def_views(out@).no_duplicates(),
            def_views(out@).to_set() == defs_of_lines(views(ls@).take(i as int), nv).to_set(),
        decreases ls.len() - i,
    {
        assert(views(ls@).take(i + 1).drop_last() =~= views(ls@).take(i as int));
        assert(views(ls@).take(i + 1).last() == ls@[i as int]@);
        match LuaFuncDef::from_chars(&ls[i], natives) {
            Some(d) => {
                assert(defs_of_lines(views(ls@).take(i + 1), nv) == defs_of_lines(views(ls@).take(i as int), nv).push(d@));
                proof {
                    lemma_push_to_set(defs_of_lines(views(ls@).take(i as int), nv), d@);
                }
                if !contains_def(&out, &d) {
                    let ghost before = out@;
                    out.push(d);
                    assert(def_views(out@) =~= def_views(before).push(d@));
                    proof {
                        lemma_push_to_set(def_views(before), d@);
                    }
                    assert(def_views(out@).to_set() == defs_of_lines(views(ls@).take(i + 1), nv).to_set());
                } else {
                    assert(def_views(out@).to_set().insert(d@) =~= def_views(out@).to_set());
                    assert(def_views(out@).to_set() == defs_of_lines(views(ls@).take(i + 1), nv).to_set());
                }
            },
            None => {
                assert(defs_of_lines(views(ls@).take(i + 1), nv) == defs_of_lines(views(ls@).take(i as int), nv));
            },
        }
        i += 1;
    }
    assert(views(ls@).take(ls.len() as int) =~= views(ls@));
    out
}

} // verus!
