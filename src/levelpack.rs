//! Levelpacks: the metadata in `world_data.txt`, and the files of a pack.
use vstd::prelude::*;
use crate::error::LevelpackError;
use crate::text::{
    chars_of, equal_chars, find_from, find_text, join_path, joined_path, lines, lines_of,
    slice_of, string_of, views,
};

verus! {

/// The name of the file that holds a pack's metadata.
pub const WORLD_DATA_FILE_NAME: &'static str = "world_data.txt";

/// The outcome of reading `field=value` from a line: the value, or
/// `Err(true)` when the line holds no `=`, `Err(false)` when it names
/// another field.
pub open spec fn field_value(field: Seq<char>, line: Seq<char>) -> Result<Seq<char>, bool> {
    let e = find_from(line, seq!['='], 0);
    if e < 0 {
        Err(true)
    } else if line.take(e) != field {
        Err(false)
    } else {
        Ok(line.skip(e + 1))
    }
}

/// Reads the value of `field` from a line of the form `field=value`.
///
/// Fails with `FieldParsingError(true)` when the line holds no `=`, and
/// with `FieldParsingError(false)` when the part before the first `=` is
/// not `field`.
pub fn fetch_field(field: &str, data: &str) -> (r: Result<String, LevelpackError>)
    ensures
        match field_value(field@, data@) {
            Ok(v) => r matches Ok(s) && s@ == v,
            Err(b) => r matches Err(LevelpackError::FieldParsingError(c)) && c == b,
        },
{
    let line = chars_of(data);
    let eq = vec!['='];
    assert(eq@ =~= seq!['=']);
    let e = match find_text(&line, &eq, 0) {
        Some(e) => e,
        None => {
            return Err(LevelpackError::FieldParsingError(true));
        },
    };
    let lhs = slice_of(&line, 0, e);
    assert(lhs@ =~= line@.take(e as int));
    if !equal_chars(&lhs, &chars_of(field)) {
        return Err(LevelpackError::FieldParsingError(false));
    }
    let rhs = slice_of(&line, e + 1, line.len());
    assert(rhs@ =~= line@.skip(e + 1));
    Ok(string_of(&rhs))
}

pub open spec fn is_digit(c: char) -> bool {
    '0' <= c && c <= '9'
}

/// The number that a string of decimal digits writes.
pub open spec fn digits_value(s: Seq<char>) -> int
    decreases s.len(),
{
    if s.len() == 0 {
        0
    } else {
        10 * digits_value(s.drop_last()) + (s.last() as int - '0' as int)
    }
}

/// The unsigned integer that `s` writes: decimal digits, at least one,
/// after an optional `+`, with a value that fits in `usize`.
pub open spec fn usize_of(s: Seq<char>) -> Option<int> {
    let t = unsigned_part(s);
    if t.len() > 0 && all_digits(t) && digits_value(t) <= usize::MAX {
        Some(digits_value(t))
    } else {
        None
    }
}

/// `s` without a leading `+`.
pub open spec fn unsigned_part(s: Seq<char>) -> Seq<char> {
    if s.len() > 0 && s[0] == '+' {
        s.skip(1)
    } else {
        s
    }
}

pub open spec fn all_digits(t: Seq<char>) -> bool {
    forall|i: int| 0 <= i < t.len() ==> is_digit(t[i])
}

pub proof fn lemma_digits_grow(t: Seq<char>, i: int)
    requires
        0 <= i <= t.len(),
        forall|k: int| 0 <= k < t.len() ==> is_digit(t[k]),
    ensures
        digits_value(t.take(i)) <= digits_value(t),
        0 <= digits_value(t.take(i)),
    decreases t.len() - i,
{
    if i < t.len() {
        lemma_digits_grow(t, i + 1);
        assert(t.take(i + 1).drop_last() =~= t.take(i));
    } else {
        assert(t.take(i) =~= t);
        lemma_digits_nonneg(t);
    }
}

pub proof fn lemma_digits_nonneg(t: Seq<char>)
    requires
        forall|k: int| 0 <= k < t.len() ==> is_digit(t[k]),
    ensures
        0 <= digits_value(t),
    decreases t.len(),
{
    if t.len() > 0 {
        lemma_digits_nonneg(t.drop_last());
    }
}

/// Reads an unsigned integer written in decimal, after an optional `+`.
pub fn parse_usize(s: &Vec<char>) -> (r: Option<usize>)
    ensures
        match r {
            Some(v) => usize_of(s@) == Some(v as int),
            None => usize_of(s@) is None,
        },
{
    let start: usize = if s.len() > 0 && s[0] == '+' { 1 } else { 0 };
    let ghost t = unsigned_part(s@);
    assert(t =~= s@.skip(start as int));
    if start >= s.len() {
        assert(t.len() == 0);
        return None;
    }
    let mut i: usize = start;
    while i < s.len()
        invariant
            start <= i <= s.len(),
            t == s@.skip(start as int),
            t == unsigned_part(s@),
            forall|k: int| start <= k < i ==> is_digit(s@[k]),
        decreases s.len() - i,
    {
        if !('0' <= s[i] && s[i] <= '9') {
            assert(!is_digit(t[i - start]));
            assert(!all_digits(t));
            assert(usize_of(s@) is None);
            return None;
        }
        i += 1;
    }
    assert(forall|k: int| 0 <= k < t.len() ==> is_digit(t[k]));
    let mut v: usize = 0;
    let mut j: usize = start;
    while j < s.len()
        invariant
            start <= j <= s.len(),
            t == s@.skip(start as int),
            t == unsigned_part(s@),
            forall|k: int| 0 <= k < t.len() ==> is_digit(t[k]),
            v as int == digits_value(t.take(j - start)),
        decreases s.len() - j,
    {
        assert(t[j - start] == s@[j as int]);
        assert(is_digit(s@[j as int]));
        let d = (s[j] as u32 - '0' as u32) as usize;
        assert(t.take(j + 1 - start).drop_last() =~= t.take(j - start));
        assert(t.take(j + 1 - start).last() == s@[j as int]);
        proof {
            lemma_digits_grow(t, j + 1 - start);
        }
        if v > (usize::MAX - d) / 10 {
            assert(digits_value(t.take(j + 1 - start)) > usize::MAX) by (nonlinear_arith)
                requires
                    v > (usize::MAX - d) / 10,
                    digits_value(t.take(j + 1 - start)) == 10 * v + d,
                    d <= 9,
            ;
            assert(digits_value(t) > usize::MAX);
            assert(usize_of(s@) is None);
            return None;
        }
        v = v * 10 + d;
        j += 1;
    }
    assert(t.take(t.len() as int) =~= t);
    Some(v)
}

/// Reads the unsigned integer value of `field` from a line of the form
/// `field=value`.
///
/// Fails as `fetch_field` does when the line is malformed or names another
/// field, and with `StringParsingError("Malformed world_data.txt")` when the
/// value is not an unsigned integer that fits in `usize`.
pub fn fetch_usize_field(field: &str, data: &str) -> (r: Result<usize, LevelpackError>)
    ensures
        match field_value(field@, data@) {
            Ok(v) => match usize_of(v) {
                Some(n) => r matches Ok(k) && k as int == n,
                None => r matches Err(LevelpackError::StringParsingError(t)) && t@ == "Malformed world_data.txt"@,
            },
            Err(b) => r matches Err(LevelpackError::FieldParsingError(c)) && c == b,
        },
{
    match fetch_field(field, data) {
        Ok(v) => match parse_usize(&chars_of(v.as_str())) {
            Some(n) => Ok(n),
            None => Err(LevelpackError::StringParsingError(string_of(&chars_of("Malformed world_data.txt")))),
        },
        Err(e) => Err(e),
    }
}

/// The value of the last line of `ls` that gives `field` an unsigned
/// integer.
pub open spec fn last_usize(ls: Seq<Seq<char>>, field: Seq<char>) -> Option<int>
    decreases ls.len(),
{
    if ls.len() == 0 {
        None
    } else {
        match field_value(field, ls.last()) {
            Ok(v) => match usize_of(v) {
                Some(n) => Some(n),
                None => last_usize(ls.drop_last(), field),
            },
            Err(_) => last_usize(ls.drop_last(), field),
        }
    }
}

/// The value of the last line of `ls` that gives `field` a value.
pub open spec fn last_text(ls: Seq<Seq<char>>, field: Seq<char>) -> Option<Seq<char>>
    decreases ls.len(),
{
    if ls.len() == 0 {
        None
    } else {
        match field_value(field, ls.last()) {
            Ok(v) => Some(v),
            Err(_) => last_text(ls.drop_last(), field),
        }
    }
}

/// A file or folder inside a levelpack.
#[derive(Debug, Clone, Copy, PartialEq, Eq, Structural)]
pub enum LevelpackFile {
    /// `world_data.txt`
    WorldDataTxt,
    /// `icon.png`
    IconPng,
    /// The folder of large images.
    Images,
    /// The folder of mods.
    Lua,
    /// The folder of music.
    Music,
    /// The folder of palettes.
    Palettes,
    /// The folder of sprites.
    Sprites,
    /// The folder of themes.
    Themes,
}

/// The name of a levelpack file in the pack's folder.
pub open spec fn pack_file_name(f: LevelpackFile) -> Seq<char> {
    match f {
        LevelpackFile::WorldDataTxt => seq!['w', 'o', 'r', 'l', 'd', '_', 'd', 'a', 't', 'a', '.', 't', 'x', 't'],
        LevelpackFile::Images => seq!['I', 'm', 'a', 'g', 'e', 's'],
        LevelpackFile::Lua => seq!['L', 'u', 'a'],
        LevelpackFile::Music => seq!['M', 'u', 's', 'i', 'c'],
        LevelpackFile::Palettes => seq!['P', 'a', 'l', 'e', 't', 't', 'e', 's'],
        LevelpackFile::Sprites => seq!['S', 'p', 'r', 'i', 't', 'e', 's'],
        LevelpackFile::Themes => seq!['T', 'h', 'e', 'm', 'e', 's'],
        LevelpackFile::IconPng => seq!['i', 'c', 'o', 'n', '.', 'p', 'n', 'g'],
    }
}

/// The file that a lower-case name designates, if any.
pub open spec fn file_of_lowercase(s: Seq<char>) -> Option<LevelpackFile> {
    if s == seq!['w', 'o', 'r', 'l', 'd', 'd', 'a', 't', 'a'] || s == seq!['w', 'o', 'r', 'l', 'd', '_', 'd', 'a', 't', 'a', '.', 't', 'x', 't'] {
        Some(LevelpackFile::WorldDataTxt)
    } else if s == seq!['i', 'm', 'a', 'g', 'e', 's'] {
        Some(LevelpackFile::Images)
    } else if s == seq!['l', 'u', 'a'] || s == seq!['m', 'o', 'd', 's'] {
        Some(LevelpackFile::Lua)
    } else if s == seq!['p', 'a', 'l', 'e', 't', 't', 'e', 's'] {
        Some(LevelpackFile::Palettes)
    } else if s == seq!['s', 'p', 'r', 'i', 't', 'e', 's'] {
        Some(LevelpackFile::Sprites)
    } else if s == seq!['t', 'h', 'e', 'm', 'e', 's'] {
        Some(LevelpackFile::Themes)
    } else if s == seq!['i', 'c', 'o', 'n'] || s == seq!['i', 'c', 'o', 'n', '.', 'p', 'n', 'g'] {
        Some(LevelpackFile::IconPng)
    } else {
        None
    }
}

/// What `str::to_lowercase` gives for a text.
pub uninterp spec fn lower_of(s: Seq<char>) -> Seq<char>;

/// Relies on `str::to_lowercase`: the lower-case form of the text, which
/// depends on its characters alone.
#[verifier::external_body]
fn lowercase(s: &str) -> (r: Vec<char>)
    ensures
        r@ == lower_of(s@),
{
    s.to_lowercase().chars().collect()
}

fn text_is(s: &Vec<char>, t: &str) -> (r: bool)
    ensures
        r == (s@ == t@),
{
    equal_chars(s, &chars_of(t))
}

impl LevelpackFile {
    /// The file that a name already in lower case designates:
    /// `worlddata` or `world_data.txt`, `images`, `lua` or `mods`,
    /// `palettes`, `sprites`, `themes`, `icon` or `icon.png`.
    pub fn from_lowercase(s: &Vec<char>) -> (r: Option<LevelpackFile>)
        ensures
            r == file_of_lowercase(s@),
    {
        proof {
            reveal_strlit("worlddata");
            assert("worlddata"@ =~= seq!['w', 'o', 'r', 'l', 'd', 'd', 'a', 't', 'a']);
            reveal_strlit("world_data.txt");
            assert("world_data.txt"@ =~= seq!['w', 'o', 'r', 'l', 'd', '_', 'd', 'a', 't', 'a', '.', 't', 'x', 't']);
            reveal_strlit("images");
            assert("images"@ =~= seq!['i', 'm', 'a', 'g', 'e', 's']);
            reveal_strlit("lua");
            assert("lua"@ =~= seq!['l', 'u', 'a']);
            reveal_strlit("mods");
            assert("mods"@ =~= seq!['m', 'o', 'd', 's']);
            reveal_strlit("palettes");
            assert("palettes"@ =~= seq!['p', 'a', 'l', 'e', 't', 't', 'e', 's']);
            reveal_strlit("sprites");
            assert("sprites"@ =~= seq!['s', 'p', 'r', 'i', 't', 'e', 's']);
            reveal_strlit("themes");
            assert("themes"@ =~= seq!['t', 'h', 'e', 'm', 'e', 's']);
            reveal_strlit("icon");
            assert("icon"@ =~= seq!['i', 'c', 'o', 'n']);
            reveal_strlit("icon.png");
            assert("icon.png"@ =~= seq!['i', 'c', 'o', 'n', '.', 'p', 'n', 'g']);
        }
        if text_is(s, "worlddata") || text_is(s, "world_data.txt") {
            Some(LevelpackFile::WorldDataTxt)
        } else if text_is(s, "images") {
            Some(LevelpackFile::Images)
        } else if text_is(s, "lua") || text_is(s, "mods") {
            Some(LevelpackFile::Lua)
        } else if text_is(s, "palettes") {
            Some(LevelpackFile::Palettes)
        } else if text_is(s, "sprites") {
            Some(LevelpackFile::Sprites)
        } else if text_is(s, "themes") {
            Some(LevelpackFile::Themes)
        } else if text_is(s, "icon") || text_is(s, "icon.png") {
            Some(LevelpackFile::IconPng)
        } else {
            None
        }
    }

    /// The file that a name designates, in any case (see `from_lowercase`).
    /// Fails with `StringParsingError` holding the name otherwise.
    pub fn from_name(s: &str) -> (r: Result<LevelpackFile, LevelpackError>)
        ensures
            match file_of_lowercase(lower_of(s@)) {
                Some(f) => r == Ok::<LevelpackFile, LevelpackError>(f),
                None => r matches Err(LevelpackError::StringParsingError(t)) && t@ == s@,
            },
    {
        let lower = lowercase(s);
        match LevelpackFile::from_lowercase(&lower) {
            Some(f) => Ok(f),
            None => Err(LevelpackError::StringParsingError(string_of(&chars_of(s)))),
        }
    }

    /// The file's name in the pack's folder.
    pub fn file_name(&self) -> (r: String)
        ensures
            r@ == pack_file_name(*self),
    {
        proof {
            reveal_strlit("world_data.txt");
            assert("world_data.txt"@ =~= seq!['w', 'o', 'r', 'l', 'd', '_', 'd', 'a', 't', 'a', '.', 't', 'x', 't']);
            reveal_strlit("Images");
            assert("Images"@ =~= seq!['I', 'm', 'a', 'g', 'e', 's']);
            reveal_strlit("Lua");
            assert("Lua"@ =~= seq!['L', 'u', 'a']);
            reveal_strlit("Music");
            assert("Music"@ =~= seq!['M', 'u', 's', 'i', 'c']);
            reveal_strlit("Palettes");
            assert("Palettes"@ =~= seq!['P', 'a', 'l', 'e', 't', 't', 'e', 's']);
            reveal_strlit("Sprites");
            assert("Sprites"@ =~= seq!['S', 'p', 'r', 'i', 't', 'e', 's']);
            reveal_strlit("Themes");
            assert("Themes"@ =~= seq!['T', 'h', 'e', 'm', 'e', 's']);
            reveal_strlit("icon.png");
            assert("icon.png"@ =~= seq!['i', 'c', 'o', 'n', '.', 'p', 'n', 'g']);
        }
        let s = match self {
            LevelpackFile::WorldDataTxt => "world_data.txt",
            LevelpackFile::Images => "Images",
            LevelpackFile::Lua => "Lua",
            LevelpackFile::Music => "Music",
            LevelpackFile::Palettes => "Palettes",
            LevelpackFile::Sprites => "Sprites",
            LevelpackFile::Themes => "Themes",
            LevelpackFile::IconPng => "icon.png",
        };
        let r = string_of(&chars_of(s));
        assert(r@ =~= pack_file_name(*self));
        r
    }
}

/// A levelpack of the game.
#[derive(Debug, Clone, Default)]
pub struct Levelpack {
    /// Where the pack lives.
    pub path: String,
    /// The pack's name.
    pub name: String,
    /// The pack's author.
    pub author: String,
    /// The spores needed for completion.
    pub prize_max: usize,
    /// The map clears needed for completion.
    pub clear_max: usize,
    /// The bonuses needed for completion.
    pub bonus_max: usize,
    /// Whether the pack enables mods.
    pub mods_enabled: bool,
}

pub open spec fn or_zero(v: Option<int>) -> int {
    match v {
        Some(n) => n,
        None => 0,
    }
}

pub open spec fn or_empty(v: Option<Seq<char>>) -> Seq<char> {
    match v {
        Some(t) => t,
        None => Seq::empty(),
    }
}

impl Levelpack {
    /// The pack at `path` whose `world_data.txt` holds `world_data`: each
    /// field takes the value of the last line that gives it one (`name`,
    /// `author`, and the unsigned integers `prize_max`, `clear_max`,
    /// `bonus_max`); mods are enabled when the last `mods` line gives a
    /// non-zero integer.
    pub fn from_world_data(path: String, world_data: &str) -> (r: Levelpack)
        ensures
            r.path == path,
            r.name@ == or_empty(last_text(lines_of(world_data@), seq!['n', 'a', 'm', 'e'])),
            r.author@ == or_empty(last_text(lines_of(world_data@), seq!['a', 'u', 't', 'h', 'o', 'r'])),
            r.prize_max == or_zero(last_usize(lines_of(world_data@), seq!['p', 'r', 'i', 'z', 'e', '_', 'm', 'a', 'x'])),
            r.clear_max == or_zero(last_usize(lines_of(world_data@), seq!['c', 'l', 'e', 'a', 'r', '_', 'm', 'a', 'x'])),
            r.bonus_max == or_zero(last_usize(lines_of(world_data@), seq!['b', 'o', 'n', 'u', 's', '_', 'm', 'a', 'x'])),
            r.mods_enabled == (or_zero(last_usize(lines_of(world_data@), seq!['m', 'o', 'd', 's'])) != 0),
    {
        proof {
            reveal_strlit("name");
            assert("name"@ =~= seq!['n', 'a', 'm', 'e']);
            reveal_strlit("author");
            assert("author"@ =~= seq!['a', 'u', 't', 'h', 'o', 'r']);
            reveal_strlit("prize_max");
            assert("prize_max"@ =~= seq!['p', 'r', 'i', 'z', 'e', '_', 'm', 'a', 'x']);
            reveal_strlit("clear_max");
            assert("clear_max"@ =~= seq!['c', 'l', 'e', 'a', 'r', '_', 'm', 'a', 'x']);
            reveal_strlit("bonus_max");
            assert("bonus_max"@ =~= seq!['b', 'o', 'n', 'u', 's', '_', 'm', 'a', 'x']);
            reveal_strlit("mods");
            assert("mods"@ =~= seq!['m', 'o', 'd', 's']);
        }
        let ls = lines(&chars_of(world_data));
        let ghost lv = views(ls@);
        let name = last_text_of(&ls, "name");
        let author = last_text_of(&ls, "author");
        let prize_max = last_usize_of(&ls, "prize_max");
        let clear_max = last_usize_of(&ls, "clear_max");
        let bonus_max = last_usize_of(&ls, "bonus_max");
        let mods = last_usize_of(&ls, "mods");
        Levelpack { path, name, author, prize_max, clear_max, bonus_max, mods_enabled: mods != 0 }
    }

    /// Whether the pack enables mods.
    pub fn mods_enabled(&self) -> (r: bool)
        ensures
            r == self.mods_enabled,
    {
        self.mods_enabled
    }

    /// The path of a file of the pack.
    pub fn pack_file(&self, file: LevelpackFile) -> (r: String)
        ensures
            r@ == joined_path(self.path@, pack_file_name(file)),
    {
        let name = file.file_name();
        join_path(&self.path, &name)
    }
}

/// The value of the last line of `ls` that gives `field` a value, or empty.
fn last_text_of(ls: &Vec<Vec<char>>, field: &str) -> (r: String)
    ensures
        r@ == or_empty(last_text(views(ls@), field@)),
{
    let mut i = ls.len();
    assert(views(ls@).take(i as int) =~= views(ls@));
    while i > 0
        invariant
            i <= ls.len(),
            last_text(views(ls@), field@) == last_text(views(ls@).take(i as int), field@),
        decreases i,
    {
        let line = &ls[i - 1];
        assert(views(ls@).take(i as int).drop_last() =~= views(ls@).take(i - 1));
        assert(views(ls@).take(i as int).last() == line@);
        match fetch_field(field, string_of(line).as_str()) {
            Ok(v) => {
                return v;
            },
            Err(_) => {},
        }
        i -= 1;
    }
    String::new()
}

/// The value of the last line of `ls` that gives `field` an unsigned
/// integer, or zero.
fn last_usize_of(ls: &Vec<Vec<char>>, field: &str) -> (r: usize)
    ensures
        r == or_zero(last_usize(views(ls@), field@)),
{
    let mut i = ls.len();
    assert(views(ls@).take(i as int) =~= views(ls@));
    while i > 0
        invariant
            i <= ls.len(),
            last_usize(views(ls@), field@) == last_usize(views(ls@).take(i as int), field@),
        decreases i,
    {
        let line = &ls[i - 1];
        assert(views(ls@).take(i as int).drop_last() =~= views(ls@).take(i - 1));
        assert(views(ls@).take(i as int).last() == line@);
        match fetch_usize_field(field, string_of(line).as_str()) {
            Ok(n) => {
                return n;
            },
            Err(_) => {},
        }
        i -= 1;
    }
    0
}

} // verus!
