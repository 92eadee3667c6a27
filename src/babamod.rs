//! A mod: where it lives, its manifest, and what it defines.
use vstd::prelude::*;
use crate::config::{Config, string_views};
use crate::luafuncdef::{LuaFuncDef, contains_def, def_views, defs_of_lines, functions_from_string, lemma_push_to_set, name_views};
use crate::luafunction::{FunctionView, LuaFunction, function_views, functions_in, functions_of};
use crate::text::{
    chars_of, contains_text, find_text, join_path, joined_path, lines_of, push_text, remove_chars, removed_chars, replace_all,
    replace_text, string_of,
};

verus! {

/// What was read of a mod's files: the source of each of its scripts, and
/// the names of the files in its sprite folder.
#[derive(Debug, Clone, Default)]
pub struct ModFiles {
    pub scripts: Vec<String>,
    pub sprite_files: Vec<String>,
}

/// The definitions that the scripts declare, over all of them.
pub open spec fn defined_defs(scripts: Seq<Seq<char>>, natives: Seq<Seq<char>>) -> Set<(Seq<char>, bool)>
    decreases scripts.len(),
{
    if scripts.len() == 0 {
        Set::empty()
    } else {
        defined_defs(scripts.drop_last(), natives) + defs_of_lines(lines_of(scripts.last()), natives).to_set()
    }
}

/// The functions, with their code, of all the scripts.
pub open spec fn defined_function_set(scripts: Seq<Seq<char>>, natives: Seq<Seq<char>>) -> Set<FunctionView>
    decreases scripts.len(),
{
    if scripts.len() == 0 {
        Set::empty()
    } else {
        defined_function_set(scripts.drop_last(), natives) + functions_of(scripts.last(), natives).to_set()
    }
}

/// The sprites of the manifest that some file of the sprite folder holds
/// in its name.
pub open spec fn present_sprites(sprites: Seq<Seq<char>>, files: Seq<Seq<char>>) -> Set<Seq<char>> {
    Set::new(|s: Seq<char>| sprites.contains(s) && exists|j: int| 0 <= j < files.len() && contains_text(files[j], s))
}

/// A mod of the game.
#[derive(Debug, Clone)]
pub struct BabaMod {
    /// Where the mod lives: its folder, or its single script.
    pub path: String,
    /// The mod's manifest, if it has one.
    pub config: Option<Config>,
    /// The name of the mod's file or folder.
    pub name: String,
}

/// The sprites that a manifest lists.
pub open spec fn listed_sprites(config: Option<Config>) -> Seq<Seq<char>> {
    match config {
        Some(c) => string_views(c.sprites@),
        None => Seq::empty(),
    }
}

/// The placeholder for the mod id in the init file's template.
pub open spec fn name_placeholder() -> Seq<char> {
    seq!['_', '_', 'n', 'a', 'm', 'e', '_', '_']
}

/// The text of a mod's init file: the template with each `__name__`
/// replaced by the mod id.
pub fn init_file_text(template: &str, mod_id: &str) -> (r: String)
    ensures
        r@ == replace_all(template@, name_placeholder(), mod_id@),
{
    let placeholder = vec!['_', '_', 'n', 'a', 'm', 'e', '_', '_'];
    assert(placeholder@ =~= name_placeholder());
    string_of(&replace_text(&chars_of(template), &placeholder, &chars_of(mod_id)))
}

/// The relative path from a mod to the sprite folder of its levelpack.
pub open spec fn sprites_relative() -> Seq<char> {
    seq!['.', '.', '\\', '.', '.', '\\', 'S', 'p', 'r', 'i', 't', 'e', 's']
}

/// The entries of the sprite folder whose name holds one of `sprites`,
/// each as a path in `folder`.
pub open spec fn matching_sprite_paths(folder: Seq<char>, entries: Seq<Seq<char>>, sprites: Seq<Seq<char>>) -> Seq<Seq<char>>
    decreases entries.len(),
{
    if entries.len() == 0 {
        Seq::empty()
    } else if exists|j: int| 0 <= j < sprites.len() && contains_text(entries.last(), sprites[j]) {
        matching_sprite_paths(folder, entries.drop_last(), sprites).push(joined_path(folder, entries.last()))
    } else {
        matching_sprite_paths(folder, entries.drop_last(), sprites)
    }
}

/// The files of a mod: its own path, the files its manifest lists, and the
/// sprites (as paths in `folder`) whose name holds a sprite of the manifest.
pub open spec fn relevant_files(
    path: Seq<char>,
    config: Option<Config>,
    folder: Seq<char>,
    entries: Seq<Seq<char>>,
) -> Seq<Seq<char>> {
    match config {
        None => seq![path],
        Some(c) => seq![path] + string_views(c.files@) + matching_sprite_paths(folder, entries, string_views(c.sprites@)),
    }
}

impl BabaMod {
    /// The sprite folder of the mod's levelpack: `..\..\Sprites` from the
    /// mod's path.
    pub fn sprites_folder(&self) -> (r: String)
        ensures
            r@ == joined_path(self.path@, sprites_relative()),
    {
        let rel = vec!['.', '.', '\\', '.', '.', '\\', 'S', 'p', 'r', 'i', 't', 'e', 's'];
        let rel_s = string_of(&rel);
        assert(rel_s@ =~= sprites_relative());
        join_path(&self.path, &rel_s)
    }

    /// The files that belong to the mod, given the names of the entries of
    /// its sprite folder: its own path; with a manifest, also the files
    /// that it lists and the sprite entries whose name holds one of its
    /// sprites.
    pub fn all_relevant_files(&self, sprite_entries: &Vec<String>) -> (r: Vec<String>)
        ensures
            string_views(r@) == relevant_files(
                self.path@,
                self.config,
                joined_path(self.path@, sprites_relative()),
                string_views(sprite_entries@),
            ),
    {
        let mut out: Vec<String> = Vec::new();
        out.push(self.path.clone());
        assert(string_views(out@) =~= seq![self.path@]);
        let config = match &self.config {
            None => {
                return out;
            },
            Some(c) => c,
        };
        let files = config.files();
        let mut i: usize = 0;
        while i < files.len()
            invariant
                i <= files.len(),
                string_views(files@) == string_views(config.files@),
                string_views(out@) == seq![self.path@] + string_views(files@).take(i as int),
            decreases files.len() - i,
        {
            let ghost before = out@;
            out.push(files[i].clone());
            assert(string_views(out@) =~= string_views(before).push(files@[i as int]@));
            assert(string_views(files@).take(i + 1) =~= string_views(files@).take(i as int).push(files@[i as int]@));
            i += 1;
        }
        assert(string_views(files@).take(i as int) =~= string_views(files@));
        let folder = self.sprites_folder();
        let sprites = config.sprites();
        let ghost head = string_views(out@);
        let ghost ev = string_views(sprite_entries@);
        let ghost sv = string_views(config.sprites@);
        let mut j: usize = 0;
        while j < sprite_entries.len()
            invariant
                j <= sprite_entries.len(),
                ev == string_views(sprite_entries@),
                sv == string_views(config.sprites@),
                string_views(sprites@) == sv,
                string_views(out@) == head + matching_sprite_paths(folder@, ev.take(j as int), sv),
            decreases sprite_entries.len() - j,
        {
            assert(ev.take(j + 1).drop_last() =~= ev.take(j as int));
            assert(ev.take(j + 1).last() == sprite_entries@[j as int]@);
            if holds_some(&sprite_entries[j], &sprites) {
                let ghost before = out@;
                out.push(join_path(&folder, &sprite_entries[j]));
                assert(string_views(out@) =~= string_views(before).push(joined_path(folder@, sprite_entries@[j as int]@)));
            }
            j += 1;
        }
        assert(ev.take(j as int) =~= ev);
        out
    }


    /// A mod at `path`, whose file or folder is called `name`, with its
    /// manifest if it has one.
    pub fn new(path: String, name: String, config: Option<Config>) -> (r: BabaMod)
        ensures
            r.path == path,
            r.name == name,
            r.config == config,
    {
        BabaMod { path, config, name }
    }

    /// Whether the mod has a manifest.
    pub fn has_config(&self) -> (r: bool)
        ensures
            r == self.config is Some,
    {
        self.config.is_some()
    }

    /// The mod's id: the manifest's, or else the mod's name.
    pub fn mod_id(&self) -> (r: String)
        ensures
            r@ == match self.config {
                Some(c) => c.modid@,
                None => self.name@,
            },
    {
        match &self.config {
            Some(c) => c.modid(),
            None => self.name.clone(),
        }
    }

    /// The mod's authors: the manifest's, or else none.
    pub fn authors(&self) -> (r: Vec<String>)
        ensures
            string_views(r@) == match self.config {
                Some(c) => string_views(c.authors@),
                None => Seq::empty(),
            },
    {
        match &self.config {
            Some(c) => c.authors(),
            None => {
                let v: Vec<String> = Vec::new();
                assert(string_views(v@) =~= Seq::empty());
                v
            },
        }
    }

    /// The mod's name.
    pub fn name(&self) -> (r: String)
        ensures
            r@ == self.name@,
    {
        self.name.clone()
    }

    /// The mod's description: the manifest's, or else
    /// `No description given...`.
    pub fn description(&self) -> (r: String)
        ensures
            r@ == match self.config {
                Some(c) => c.description@,
                None => "No description given..."@,
            },
    {
        match &self.config {
            Some(c) => c.description(),
            None => string_of(&chars_of("No description given...")),
        }
    }

    /// The definitions that the mod's scripts declare, each once.
    pub fn defined_function_definitions(files: &ModFiles, natives: &Vec<String>) -> (r: Vec<LuaFuncDef>)
        ensures
            def_views(r@).no_duplicates(),
            def_views(r@).to_set() == defined_defs(string_views(files.scripts@), name_views(natives@)),
    {
        let ghost sv = string_views(files.scripts@);
        let ghost nv = name_views(natives@);
        let mut out: Vec<LuaFuncDef> = Vec::new();
        let mut i: usize = 0;
        assert(def_views(out@).to_set() =~= Set::empty());
        while i < files.scripts.len()
            invariant
                i <= files.scripts.len(),
                sv == string_views(files.scripts@),
                nv == name_views(natives@),
                def_views(out@).no_duplicates(),
                def_views(out@).to_set() == defined_defs(sv.take(i as int), nv),
            decreases files.scripts.len() - i,
        {
            assert(sv.take(i + 1).drop_last() =~= sv.take(i as int));
            assert(sv.take(i + 1).last() == files.scripts@[i as int]@);
            let fs = functions_from_string(files.scripts[i].as_str(), natives);
            let ghost start = def_views(out@).to_set();
            let mut j: usize = 0;
            while j < fs.len()
                invariant
                    j <= fs.len(),
                    def_views(out@).no_duplicates(),
                    def_views(out@).to_set() == start + def_views(fs@).take(j as int).to_set(),
                decreases fs.len() - j,
            {
                let d = &fs[j];
                assert(def_views(fs@).take(j + 1) =~= def_views(fs@).take(j as int).push(d@));
                proof {
                    lemma_push_to_set(def_views(fs@).take(j as int), d@);
                }
                if !contains_def(&out, d) {
                    let ghost before = out@;
                    out.push(LuaFuncDef { name: d.name.clone(), is_baba_native: d.is_baba_native });
                    assert(def_views(out@) =~= def_views(before).push(d@));
                    proof {
                        lemma_push_to_set(def_views(before), d@);
                    }
                    assert(def_views(out@).to_set() =~= start + def_views(fs@).take(j + 1).to_set());
                } else {
                    assert(def_views(out@).to_set() =~= start + def_views(fs@).take(j + 1).to_set());
                }
                j += 1;
            }
            assert(def_views(fs@).take(j as int) =~= def_views(fs@));
            i += 1;
        }
        assert(sv.take(i as int) =~= sv);
        out
    }

    /// The functions, with their code, that the mod's scripts define, each
    /// once.
    pub fn defined_functions(files: &ModFiles, natives: &Vec<String>) -> (r: Vec<LuaFunction>)
        ensures
            function_views(r@).no_duplicates(),
            function_views(r@).to_set() == defined_function_set(string_views(files.scripts@), name_views(natives@)),
    {
        let ghost sv = string_views(files.scripts@);
        let ghost nv = name_views(natives@);
        let mut out: Vec<LuaFunction> = Vec::new();
        let mut i: usize = 0;
        assert(function_views(out@).to_set() =~= Set::empty());
        while i < files.scripts.len()
            invariant
                i <= files.scripts.len(),
                sv == string_views(files.scripts@),
                nv == name_views(natives@),
                function_views(out@).no_duplicates(),
                function_views(out@).to_set() == defined_function_set(sv.take(i as int), nv),
            decreases files.scripts.len() - i,
        {
            assert(sv.take(i + 1).drop_last() =~= sv.take(i as int));
            assert(sv.take(i + 1).last() == files.scripts@[i as int]@);
            let fs = functions_in(&chars_of(files.scripts[i].as_str()), natives);
            let ghost start = function_views(out@).to_set();
            let mut j: usize = 0;
            while j < fs.len()
                invariant
                    j <= fs.len(),
                    function_views(out@).no_duplicates(),
                    function_views(out@).to_set() == start + function_views(fs@).take(j as int).to_set(),
                decreases fs.len() - j,
            {
                let f = &fs[j];
                assert(function_views(fs@).take(j + 1) =~= function_views(fs@).take(j as int).push(f@));
                proof {
                    lemma_push_to_set(function_views(fs@).take(j as int), f@);
                }
                if !contains_function(&out, f) {
                    let ghost before = out@;
                    let g = LuaFunction { definition: f.definition(), code: f.code.clone() };
                    out.push(g);
                    assert(function_views(out@) =~= function_views(before).push(f@));
                    proof {
                        lemma_push_to_set(function_views(before), f@);
                    }
                    assert(function_views(out@).to_set() =~= start + function_views(fs@).take(j + 1).to_set());
                } else {
                    assert(function_views(out@).to_set() =~= start + function_views(fs@).take(j + 1).to_set());
                }
                j += 1;
            }
            assert(function_views(fs@).take(j as int) =~= function_views(fs@));
            i += 1;
        }
        assert(sv.take(i as int) =~= sv);
        out
    }

    /// The sprites of the manifest that some file of the sprite folder
    /// holds in its name (none without a manifest).
    pub fn defined_sprites(&self, sprite_files: &Vec<String>) -> (r: Vec<String>)
        ensures
            string_views(r@).no_duplicates(),
            string_views(r@).to_set() == present_sprites(listed_sprites(self.config), string_views(sprite_files@)),
    {
        let sprites = match &self.config {
            Some(c) => c.sprites(),
            None => Vec::new(),
        };
        let ghost sp = string_views(sprites@);
        let ghost fv = string_views(sprite_files@);
        assert(sp == listed_sprites(self.config));
        let mut out: Vec<String> = Vec::new();
        let mut i: usize = 0;
        while i < sprites.len()
            invariant
                i <= sprites.len(),
                sp == string_views(sprites@),
                fv == string_views(sprite_files@),
                string_views(out@).no_duplicates(),
                string_views(out@).to_set() == present_sprites(sp.take(i as int), fv),
            decreases sprites.len() - i,
        {
            let s = &sprites[i];
            let held = held_in_some(s, sprite_files);
            let ghost prev = present_sprites(sp.take(i as int), fv);
            assert(sp.take(i + 1) =~= sp.take(i as int).push(s@));
            if held && !contains_string(&out, s) {
                let ghost before = out@;
                out.push(s.clone());
                assert(string_views(out@) =~= string_views(before).push(s@));
                proof {
                    lemma_push_to_set(string_views(before), s@);
                }
                assert(sp.take(i + 1)[i as int] == s@);
                let ghost w = choose|j: int| 0 <= j < sprite_files.len() && contains_text(sprite_files@[j]@, s@);
                assert(fv[w] == sprite_files@[w]@);
                assert forall|x: Seq<char>| present_sprites(sp.take(i + 1), fv).contains(x) == (prev.contains(x) || x == s@) by {
                    if sp.take(i + 1).contains(x) && x != s@ {
                        let k = choose|k: int| 0 <= k < i + 1 && #[trigger] sp.take(i + 1)[k] == x;
                        assert(k < i);
                        assert(sp.take(i as int)[k] == x);
                    }
                    if sp.take(i as int).contains(x) {
                        let k = choose|k: int| 0 <= k < i && #[trigger] sp.take(i as int)[k] == x;
                        assert(sp.take(i + 1)[k] == x);
                    }
                }
                assert(string_views(out@).to_set() =~= present_sprites(sp.take(i + 1), fv));
            } else {
                assert forall|x: Seq<char>| present_sprites(sp.take(i + 1), fv).contains(x) == prev.contains(x) by {
                    if sp.take(i + 1).contains(x) && x != s@ {
                        let k = choose|k: int| 0 <= k < i + 1 && #[trigger] sp.take(i + 1)[k] == x;
                        assert(k < i);
                        assert(sp.take(i as int)[k] == x);
                    }
                    if sp.take(i as int).contains(x) {
                        let k = choose|k: int| 0 <= k < i && #[trigger] sp.take(i as int)[k] == x;
                        assert(sp.take(i + 1)[k] == x);
                    }
                }
                assert(string_views(out@).to_set() =~= present_sprites(sp.take(i + 1), fv));
            }
            i += 1;
        }
        assert(sp.take(i as int) =~= sp);
        out
    }

    /// Whether two mods can be used together: the functions their scripts
    /// define are disjoint, and so are the sprites they define.
    pub fn is_compatible_with(&self, other: &BabaMod, mine: &ModFiles, theirs: &ModFiles, natives: &Vec<String>) -> (r: bool)
        ensures
            r == (defined_defs(string_views(mine.scripts@), name_views(natives@)).disjoint(
                defined_defs(string_views(theirs.scripts@), name_views(natives@)),
            ) && present_sprites(listed_sprites(self.config), string_views(mine.sprite_files@)).disjoint(
                present_sprites(listed_sprites(other.config), string_views(theirs.sprite_files@)),
            )),
    {
        let a = BabaMod::defined_function_definitions(mine, natives);
        let b = BabaMod::defined_function_definitions(theirs, natives);
        let sa = self.defined_sprites(&mine.sprite_files);
        let sb = other.defined_sprites(&theirs.sprite_files);
        let defs_apart = defs_disjoint(&a, &b);
        let sprites_apart = strings_disjoint(&sa, &sb);
        defs_apart && sprites_apart
    }
}

/// Whether `f` is among `v`.
fn contains_function(v: &Vec<LuaFunction>, f: &LuaFunction) -> (r: bool)
    ensures
        r == function_views(v@).contains(f@),
{
    let mut i: usize = 0;
    while i < v.len()
        invariant
            i <= v.len(),
            forall|j: int| 0 <= j < i ==> v@[j]@ != f@,
        decreases v.len() - i,
    {
        let g = &v[i];
        if g.definition.is_baba_native == f.definition.is_baba_native && g.definition.name.eq(&f.definition.name)
            && g.code.eq(&f.code) {
            assert(function_views(v@)[i as int] == f@);
            return true;
        }
        i += 1;
    }
    assert(!function_views(v@).contains(f@)) by {
        if function_views(v@).contains(f@) {
            let j = choose|j: int| 0 <= j < function_views(v@).len() && function_views(v@)[j] == f@;
            assert(v@[j]@ == f@);
        }
    }
    false
}

/// Whether `entry` holds one of `sprites`.
fn holds_some(entry: &String, sprites: &Vec<String>) -> (r: bool)
    ensures
        r == exists|j: int| 0 <= j < sprites.len() && contains_text(entry@, string_views(sprites@)[j]),
{
    let e = chars_of(entry.as_str());
    let mut j: usize = 0;
    while j < sprites.len()
        invariant
            j <= sprites.len(),
            e@ == entry@,
            forall|k: int| 0 <= k < j ==> !contains_text(entry@, string_views(sprites@)[k]),
        decreases sprites.len() - j,
    {
        assert(string_views(sprites@)[j as int] == sprites@[j as int]@);
        if find_text(&e, &chars_of(sprites[j].as_str()), 0).is_some() {
            return true;
        }
        j += 1;
    }
    false
}

/// Whether some file name holds `s`.
fn held_in_some(s: &String, files: &Vec<String>) -> (r: bool)
    ensures
        r == exists|j: int| 0 <= j < files.len() && contains_text(files@[j]@, s@),
{
    let pat = chars_of(s.as_str());
    let mut j: usize = 0;
    while j < files.len()
        invariant
            j <= files.len(),
            pat@ == s@,
            forall|k: int| 0 <= k < j ==> !contains_text(files@[k]@, s@),
        decreases files.len() - j,
    {
        let f = chars_of(files[j].as_str());
        if find_text(&f, &pat, 0).is_some() {
            return true;
        }
        j += 1;
    }
    false
}

/// Whether `s` is among `v`.
fn contains_string(v: &Vec<String>, s: &String) -> (r: bool)
    ensures
        r == string_views(v@).contains(s@),
{
    let mut i: usize = 0;
    while i < v.len()
        invariant
            i <= v.len(),
            forall|j: int| 0 <= j < i ==> v@[j]@ != s@,
        decreases v.len() - i,
    {
        if v[i].eq(s) {
            assert(string_views(v@)[i as int] == s@);
            return true;
        }
        i += 1;
    }
    assert(!string_views(v@).contains(s@)) by {
        if string_views(v@).contains(s@) {
            let j = choose|j: int| 0 <= j < string_views(v@).len() && string_views(v@)[j] == s@;
            assert(v@[j]@ == s@);
        }
    }
    false
}

/// Whether no definition is in both lists.
fn defs_disjoint(a: &Vec<LuaFuncDef>, b: &Vec<LuaFuncDef>) -> (r: bool)
    ensures
        r == def_views(a@).to_set().disjoint(def_views(b@).to_set()),
{
    let mut i: usize = 0;
    while i < a.len()
        invariant
            i <= a.len(),
            forall|j: int| 0 <= j < i ==> !def_views(b@).contains(def_views(a@)[j]),
        decreases a.len() - i,
    {
        if contains_def(b, &a[i]) {
            assert(def_views(a@)[i as int] == a@[i as int]@);
            assert(def_views(a@).to_set().contains(a@[i as int]@));
            return false;
        }
        i += 1;
    }
    assert(def_views(a@).to_set().disjoint(def_views(b@).to_set())) by {
        assert forall|x| def_views(a@).to_set().contains(x) implies !def_views(b@).to_set().contains(x) by {
            let j = choose|j: int| 0 <= j < def_views(a@).len() && def_views(a@)[j] == x;
        }
    }
    true
}

/// Whether no string is in both lists.
fn strings_disjoint(a: &Vec<String>, b: &Vec<String>) -> (r: bool)
    ensures
        r == string_views(a@).to_set().disjoint(string_views(b@).to_set()),
{
    let mut i: usize = 0;
    while i < a.len()
        invariant
            i <= a.len(),
            forall|j: int| 0 <= j < i ==> !string_views(b@).contains(string_views(a@)[j]),
        decreases a.len() - i,
    {
        if contains_string(b, &a[i]) {
            assert(string_views(a@)[i as int] == a@[i as int]@);
            assert(string_views(a@).to_set().contains(a@[i as int]@));
            return false;
        }
        i += 1;
    }
    assert(string_views(a@).to_set().disjoint(string_views(b@).to_set())) by {
        assert forall|x| string_views(a@).to_set().contains(x) implies !string_views(b@).to_set().contains(x) by {
            let j = choose|j: int| 0 <= j < string_views(a@).len() && string_views(a@)[j] == x;
        }
    }
    true
}

/// What `{:?}` writes for a list of texts.
pub uninterp spec fn debug_list_of(v: Seq<Seq<char>>) -> Seq<char>;

/// Relies on `<Vec<String> as Debug>::fmt`: the bracketed, comma-separated
/// list of the quoted texts, which depends on the texts alone.
#[verifier::external_body]
fn debug_strings(v: &Vec<String>) -> (r: String)
    ensures
        r@ == debug_list_of(string_views(v@)),
{
    format!("{:?}", v)
}

/// A mod's id: the manifest's, or else the mod's name.
pub open spec fn mod_id_of(m: BabaMod) -> Seq<char> {
    match m.config {
        Some(c) => c.modid@,
        None => m.name@,
    }
}

/// A mod's authors: the manifest's, or else none.
pub open spec fn authors_of(m: BabaMod) -> Seq<Seq<char>> {
    match m.config {
        Some(c) => string_views(c.authors@),
        None => Seq::empty(),
    }
}

/// A mod's description: the manifest's, or else `No description given...`.
pub open spec fn description_of(m: BabaMod) -> Seq<char> {
    match m.config {
        Some(c) => c.description@,
        None => "No description given..."@,
    }
}

/// The id of a mod that merges two others: both ids run together, without
/// line breaks.
pub open spec fn merged_id(left: BabaMod, right: BabaMod) -> Seq<char> {
    remove_chars(mod_id_of(left) + seq!['\n'] + mod_id_of(right), '\n', '\n')
}

/// The authors of a mod as one line: the listed authors without brackets.
pub open spec fn authors_line(m: BabaMod) -> Seq<char> {
    remove_chars(debug_list_of(authors_of(m)), '[', ']')
}

/// The description of a mod that merges two others.
pub open spec fn merged_description(left: BabaMod, right: BabaMod) -> Seq<char> {
    "A merger between "@ + left.name@ + " and "@ + right.name@ + ", automatically generated by BMM.\n"@ + left.name@ + ":"@
        + description_of(left) + "\n"@ + right.name@ + ":"@ + description_of(right)
}

/// The manifest of a mod that merges `left` and `right`: the merged id,
/// each side's authors, a description of the merger, the tags
/// `Auto-generated` and `Merged`, placeholder links, files and sprites, and
/// the init file `.\<id>_init.lua`.
pub fn config_from_two_mods(left: &BabaMod, right: &BabaMod) -> (r: Config)
    ensures
        r.modid@ == merged_id(*left, *right),
        string_views(r.authors@) == seq![
            "Authors of "@ + left.name@ + ": "@ + authors_line(*left),
            "Authors of "@ + right.name@ + ": "@ + authors_line(*right),
        ],
        r.description@ == merged_description(*left, *right),
        r.icon_url matches Some(u) && u@ == ""@,
        r.banner_url matches Some(u) && u@ == ""@,
        !r.global,
        string_views(r.tags@) == seq!["Auto-generated"@, "Merged"@],
        string_views(r.links@) == seq!["[Intentionally left without links]"@],
        string_views(r.files@) == seq!["[Intentionally left without files]"@],
        r.init matches Some(i) && i@ == ".\\"@ + merged_id(*left, *right) + "_init.lua"@,
        string_views(r.sprites@) == seq!["[Intentionally left without names]"@],
{
    let mut id_chars = chars_of(left.mod_id().as_str());
    id_chars.push('\n');
    push_text(&mut id_chars, right.mod_id().as_str());
    assert(id_chars@ =~= mod_id_of(*left) + seq!['\n'] + mod_id_of(*right));
    let id = removed_chars(&id_chars, '\n', '\n');
    let left_auth = removed_chars(&chars_of(debug_strings(&left.authors()).as_str()), '[', ']');
    let right_auth = removed_chars(&chars_of(debug_strings(&right.authors()).as_str()), '[', ']');

    let mut la = chars_of("Authors of ");
    push_text(&mut la, left.name.as_str());
    push_text(&mut la, ": ");
    crate::text::append_all(&mut la, &left_auth);
    let mut ra = chars_of("Authors of ");
    push_text(&mut ra, right.name.as_str());
    push_text(&mut ra, ": ");
    crate::text::append_all(&mut ra, &right_auth);
    let authors = vec![string_of(&la), string_of(&ra)];
    assert(string_views(authors@) =~= seq![
        "Authors of "@ + left.name@ + ": "@ + authors_line(*left),
        "Authors of "@ + right.name@ + ": "@ + authors_line(*right),
    ]);

    let mut d = chars_of("A merger between ");
    push_text(&mut d, left.name.as_str());
    push_text(&mut d, " and ");
    push_text(&mut d, right.name.as_str());
    push_text(&mut d, ", automatically generated by BMM.\n");
    push_text(&mut d, left.name.as_str());
    push_text(&mut d, ":");
    push_text(&mut d, left.description().as_str());
    push_text(&mut d, "\n");
    push_text(&mut d, right.name.as_str());
    push_text(&mut d, ":");
    push_text(&mut d, right.description().as_str());
    assert(d@ =~= merged_description(*left, *right));

    let mut init = chars_of(".\\");
    crate::text::append_all(&mut init, &id);
    push_text(&mut init, "_init.lua");
    assert(init@ =~= ".\\"@ + merged_id(*left, *right) + "_init.lua"@);

    let tags = vec![string_of(&chars_of("Auto-generated")), string_of(&chars_of("Merged"))];
    let links = vec![string_of(&chars_of("[Intentionally left without links]"))];
    let files = vec![string_of(&chars_of("[Intentionally left without files]"))];
    let sprites = vec![string_of(&chars_of("[Intentionally left without names]"))];
    assert(string_views(tags@) =~= seq!["Auto-generated"@, "Merged"@]);
    assert(string_views(links@) =~= seq!["[Intentionally left without links]"@]);
    assert(string_views(files@) =~= seq!["[Intentionally left without files]"@]);
    assert(string_views(sprites@) =~= seq!["[Intentionally left without names]"@]);
    Config {
        modid: string_of(&id),
        authors,
        description: string_of(&d),
        icon_url: Some(string_of(&chars_of(""))),
        banner_url: Some(string_of(&chars_of(""))),
        global: false,
        tags,
        links,
        files,
        init: Some(string_of(&init)),
        sprites,
    }
}

} // verus!
