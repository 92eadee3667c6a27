//! A mod's manifest: its identity, authorship, and the files and sprites
//! that belong to it.
use vstd::prelude::*;
use crate::text::{append_all, chars_of, string_of};

verus! {

/// The views of a list of strings.
pub open spec fn string_views(v: Seq<String>) -> Seq<Seq<char>> {
    v.map_values(|s: String| s@)
}

/// A copy of a list of strings.
pub fn clone_strings(v: &Vec<String>) -> (r: Vec<String>)
    ensures
        string_views(r@) == string_views(v@),
{
    let mut out: Vec<String> = Vec::new();
    let mut i: usize = 0;
    while i < v.len()
        invariant
            i <= v.len(),
            string_views(out@) == string_views(v@).take(i as int),
        decreases v.len() - i,
    {
        let ghost before = out@;
        out.push(v[i].clone());
        assert(string_views(out@) =~= string_views(before).push(v@[i as int]@));
        assert(string_views(v@).take(i + 1) =~= string_views(v@).take(i as int).push(v@[i as int]@));
        i += 1;
    }
    assert(string_views(v@).take(i as int) =~= string_views(v@));
    out
}

/// The text `.\<mod id>_init.lua`.
pub open spec fn default_init(modid: Seq<char>) -> Seq<char> {
    seq!['.', '\\'] + modid + seq!['_', 'i', 'n', 'i', 't', '.', 'l', 'u', 'a']
}

/// A mod's manifest.
#[derive(Debug, Clone, Default)]
pub struct Config {
    /// The mod's id, used to tell mods apart.
    pub modid: String,
    /// The mod's authors.
    pub authors: Vec<String>,
    /// A description of the mod.
    pub description: String,
    /// A link to an icon.
    pub icon_url: Option<String>,
    /// A link to a banner.
    pub banner_url: Option<String>,
    /// Whether the mod is global.
    pub global: bool,
    /// Tags that describe the mod.
    pub tags: Vec<String>,
    /// Links related to the mod.
    pub links: Vec<String>,
    /// The files that belong to the mod (relative paths).
    pub files: Vec<String>,
    /// The mod's init file, outside its folder.
    pub init: Option<String>,
    /// The sprites that the mod uses.
    pub sprites: Vec<String>,
}

impl Config {
    /// The files that belong to the mod.
    pub fn files(&self) -> (r: Vec<String>)
        ensures
            string_views(r@) == string_views(self.files@),
    {
        clone_strings(&self.files)
    }

    /// The mod's init file, if the manifest names one.
    pub fn init(&self) -> (r: Option<String>)
        ensures
            match r {
                Some(s) => self.init matches Some(t) && s@ == t@,
                None => self.init is None,
            },
    {
        match &self.init {
            Some(t) => Some(t.clone()),
            None => None,
        }
    }

    /// A path suitable for the mod's init file: the one the manifest names,
    /// or `.\<mod id>_init.lua`.
    pub fn suitable_init(&self) -> (r: String)
        ensures
            r@ == match self.init {
                Some(t) => t@,
                None => default_init(self.modid@),
            },
    {
        match &self.init {
            Some(t) => t.clone(),
            None => {
                let mut out = vec!['.', '\\'];
                append_all(&mut out, &chars_of(self.modid.as_str()));
                append_all(&mut out, &vec!['_', 'i', 'n', 'i', 't', '.', 'l', 'u', 'a']);
                assert(out@ =~= default_init(self.modid@));
                string_of(&out)
            },
        }
    }

    /// The mod's id.
    pub fn modid(&self) -> (r: String)
        ensures
            r@ == self.modid@,
    {
        self.modid.clone()
    }

    /// The mod's authors.
    pub fn authors(&self) -> (r: Vec<String>)
        ensures
            string_views(r@) == string_views(self.authors@),
    {
        clone_strings(&self.authors)
    }

    /// The mod's description.
    pub fn description(&self) -> (r: String)
        ensures
            r@ == self.description@,
    {
        self.description.clone()
    }

    /// The sprites that the mod uses.
    pub fn sprites(&self) -> (r: Vec<String>)
        ensures
            string_views(r@) == string_views(self.sprites@),
    {
        clone_strings(&self.sprites)
    }
}

} // verus!
