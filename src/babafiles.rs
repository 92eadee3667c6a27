//! The layout of the game's installation.
use vstd::prelude::*;
use crate::error::LevelpackError;
use crate::text::{chars_of, equal_chars, join_path, joined_path, string_of};

verus! {

/// The last component of a path: what follows its last separator.
pub open spec fn last_component(p: Seq<char>) -> Seq<char>
    decreases p.len(),
{
    if p.len() == 0 {
        p
    } else if p.last() == '\\' || p.last() == '/' {
        if p.drop_last().len() == 0 || p.drop_last().last() == '\\' || p.drop_last().last() == '/' {
            Seq::empty()
        } else {
            last_component(p.drop_last())
        }
    } else if p.drop_last().len() > 0 && (p.drop_last().last() == '\\' || p.drop_last().last() == '/') {
        seq![p.last()]
    } else {
        last_component(p.drop_last()).push(p.last())
    }
}

/// The names of the game's own packs: its three campaigns, its debug
/// pack, and its one-off levels.
pub open spec fn reserved_names() -> Seq<Seq<char>> {
    seq![
        seq!['b', 'a', 'b', 'a'],
        seq!['d', 'e', 'b', 'u', 'g'],
        seq!['m', 'u', 's', 'e', 'u', 'm'],
        seq!['n', 'e', 'w', '_', 'a', 'd', 'v'],
        seq!['l', 'e', 'v', 'e', 'l', 's'],
    ]
}

/// The packs that a listing of the levelpack folder keeps: all of them, or
/// those whose name is not reserved.
pub open spec fn kept_packs(entries: Seq<Seq<char>>, respect_reserved_names: bool) -> Seq<Seq<char>>
    decreases entries.len(),
{
    if entries.len() == 0 {
        entries
    } else if respect_reserved_names && reserved_names().contains(entries.last()) {
        kept_packs(entries.drop_last(), respect_reserved_names)
    } else {
        kept_packs(entries.drop_last(), respect_reserved_names).push(entries.last())
    }
}

/// The game's installation.
#[derive(Debug, Clone)]
pub struct BabaFiles {
    /// The game's root folder, which holds its executable.
    pub path: String,
}

impl BabaFiles {
    /// The installation rooted at `path`.
    pub fn from_raw(path: String) -> (r: BabaFiles)
        ensures
            r.path == path,
    {
        BabaFiles { path }
    }

    /// The folder of global mods: `Lua` under the root.
    pub fn global_mods_dir(&self) -> (r: String)
        ensures
            r@ == joined_path(self.path@, seq!['L', 'u', 'a']),
    {
        let lua = string_of(&vec!['L', 'u', 'a']);
        assert(lua@ =~= seq!['L', 'u', 'a']);
        join_path(&self.path, &lua)
    }

    /// The folder of levelpacks, `Data\Worlds` under the root, when it
    /// exists; `LevelpackFolderNotFound` with its path otherwise.
    pub fn levelpacks_dir(&self, folder_exists: bool) -> (r: Result<String, LevelpackError>)
        ensures
            match r {
                Ok(p) => folder_exists && p@ == joined_path(joined_path(self.path@, seq!['D', 'a', 't', 'a']), seq!['W', 'o', 'r', 'l', 'd', 's']),
                Err(LevelpackError::LevelpackFolderNotFound { bad_path }) => !folder_exists
                    && bad_path@ == joined_path(joined_path(self.path@, seq!['D', 'a', 't', 'a']), seq!['W', 'o', 'r', 'l', 'd', 's']),
                Err(_) => false,
            },
    {
        let data = string_of(&vec!['D', 'a', 't', 'a']);
        let worlds = string_of(&vec!['W', 'o', 'r', 'l', 'd', 's']);
        assert(data@ =~= seq!['D', 'a', 't', 'a']);
        assert(worlds@ =~= seq!['W', 'o', 'r', 'l', 'd', 's']);
        let path = join_path(&join_path(&self.path, &data), &worlds);
        if folder_exists {
            Ok(path)
        } else {
            Err(LevelpackError::LevelpackFolderNotFound { bad_path: path })
        }
    }

    /// The packs to read from a listing of the levelpack folder (the names
    /// of its entries): `NoLevelpacksFound` when it is empty; otherwise the
    /// entries, without the reserved names when `respect_reserved_names`.
    pub fn levelpacks(&self, entries: &Vec<String>, respect_reserved_names: bool) -> (r: Result<Vec<String>, LevelpackError>)
        ensures
            entries.len() == 0 ==> r matches Err(LevelpackError::NoLevelpacksFound),
            entries.len() > 0 ==> (r matches Ok(v) && crate::config::string_views(v@) == kept_packs(
                crate::config::string_views(entries@),
                respect_reserved_names,
            )),
    {
        if entries.len() == 0 {
            return Err(LevelpackError::NoLevelpacksFound);
        }
        let ghost ev = crate::config::string_views(entries@);
        let mut out: Vec<String> = Vec::new();
        let mut i: usize = 0;
        while i < entries.len()
            invariant
                i <= entries.len(),
                ev == crate::config::string_views(entries@),
                crate::config::string_views(out@) == kept_packs(ev.take(i as int), respect_reserved_names),
            decreases entries.len() - i,
        {
            assert(ev.take(i + 1).drop_last() =~= ev.take(i as int));
            assert(ev.take(i + 1).last() == entries@[i as int]@);
            if !(respect_reserved_names && is_reserved(&entries[i])) {
                let ghost before = out@;
                out.push(entries[i].clone());
                assert(crate::config::string_views(out@) =~= crate::config::string_views(before).push(entries@[i as int]@));
            }
            i += 1;
        }
        assert(ev.take(i as int) =~= ev);
        Ok(out)
    }
}

/// Whether a pack's name is reserved by the game.
pub fn is_reserved(name: &String) -> (r: bool)
    ensures
        r == reserved_names().contains(name@),
{
    let n = chars_of(name.as_str());
    let names = vec![
        vec!['b', 'a', 'b', 'a'],
        vec!['d', 'e', 'b', 'u', 'g'],
        vec!['m', 'u', 's', 'e', 'u', 'm'],
        vec!['n', 'e', 'w', '_', 'a', 'd', 'v'],
        vec!['l', 'e', 'v', 'e', 'l', 's'],
    ];
    assert(crate::text::views(names@) =~= reserved_names());
    let mut i: usize = 0;
    while i < names.len()
        invariant
            i <= names.len(),
            n@ == name@,
            crate::text::views(names@) == reserved_names(),
            forall|j: int| 0 <= j < i ==> reserved_names()[j] != name@,
        decreases names.len() - i,
    {
        assert(crate::text::views(names@)[i as int] == names@[i as int]@);
        if equal_chars(&n, &names[i]) {
            return true;
        }
        i += 1;
    }
    false
}

} // verus!
