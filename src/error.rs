//! The errors that the library reports.
use vstd::prelude::*;
use crate::text::{append_all, chars_of, string_of};

verus! {

#[verifier::external_type_specification]
#[verifier::external_body]
pub struct ExDmpError(diff_match_patch_rs::Error);

/// An error that arises when reading, checking or merging mods.
#[derive(Debug)]
pub enum ModdingError {
    /// The given path does not name a mod's config file.
    NotAConfigFile(String),
    /// The given text was expected to declare a Lua function, but does not.
    NotALuaFunction(String),
    /// A merge needed the alias under which an injecting script keeps the
    /// original function, and the script never declared one.
    RenameError,
    /// A function merged as an override has no original among the game's
    /// own functions.
    NotABabaFunction,
    /// A candidate override removes code from the game's original function.
    CodeRemoval,
    /// At least one patch could not be applied while merging two functions.
    IncompletePatching,
}

/// An error that arises while reading the game's levelpacks.
#[derive(Debug)]
pub enum LevelpackError {
    /// The requested levelpack does not exist.
    LevelpackDoesNotExist(String),
    /// A `world_data.txt` line was not of the form `field=value` (`true`),
    /// or named another field (`false`).
    FieldParsingError(bool),
    /// A value could not be read from the given text.
    StringParsingError(String),
    /// The levelpack has no icon at the given path.
    IconNotFound(String),
    /// The game's folder has no levelpack folder.
    LevelpackFolderNotFound { bad_path: String },
    /// The levelpack folder holds no levelpacks.
    NoLevelpacksFound,
}

/// Any error that the library reports.
#[derive(Debug)]
pub enum BabaError {
    /// An error while reading levelpacks.
    Levelpack(LevelpackError),
    /// An error while reading, checking or merging mods.
    Modding(ModdingError),
    /// The diff engine failed.
    Dmp(diff_match_patch_rs::Error),
}

/// What `{:?}` writes for a text: the text quoted, with its special
/// characters escaped.
pub uninterp spec fn debug_of(s: Seq<char>) -> Seq<char>;

/// Relies on `<str as Debug>::fmt`: the quoted, escaped form of the text,
/// which depends on its characters alone.
#[verifier::external_body]
fn debug_text(s: &str) -> (r: String)
    ensures
        r@ == debug_of(s@),
{
    format!("{:?}", s)
}

/// `a`, then `b`, then `c`, as one string.
fn three(a: &str, b: &str, c: &str) -> (r: String)
    ensures
        r@ == a@ + b@ + c@,
{
    let mut out = chars_of(a);
    append_all(&mut out, &chars_of(b));
    append_all(&mut out, &chars_of(c));
    let r = string_of(&out);
    assert(r@ =~= a@ + b@ + c@);
    r
}

/// The message that describes a modding error.
pub open spec fn message_of(e: ModdingError) -> Seq<char> {
    match e {
        ModdingError::NotAConfigFile(p) => "The file at "@ + debug_of(p@) + " is not a valid configuration file."@,
        ModdingError::NotALuaFunction(t) => "The following was expected to be a lua function, but it wasn't:\n"@ + t@,
        ModdingError::RenameError => "There was an error when attempting to preform a rename while merging"@,
        ModdingError::NotABabaFunction => "The given function was not a baba function, despite being declared one."@,
        ModdingError::CodeRemoval => "Mods cannot be valid candidates for merging if they remove code from the original."@,
        ModdingError::IncompletePatching => "The two mods could not be properly merged, as at least one patch could not be applied correctly."@,
    }
}

impl ModdingError {
    /// A message that describes the error.
    pub fn message(&self) -> (r: String)
        ensures
            r@ == message_of(*self),
    {
        proof {
            reveal_strlit("");
            assert(""@ =~= Seq::<char>::empty());
        }
        match self {
            ModdingError::NotAConfigFile(p) => three(
                "The file at ",
                debug_text(p.as_str()).as_str(),
                " is not a valid configuration file.",
            ),
            ModdingError::NotALuaFunction(t) => three(
                "The following was expected to be a lua function, but it wasn't:\n",
                t.as_str(),
                "",
            ),
            ModdingError::RenameError => string_of(&chars_of("There was an error when attempting to preform a rename while merging")),
            ModdingError::NotABabaFunction => string_of(&chars_of("The given function was not a baba function, despite being declared one.")),
            ModdingError::CodeRemoval => string_of(&chars_of("Mods cannot be valid candidates for merging if they remove code from the original.")),
            ModdingError::IncompletePatching => string_of(&chars_of("The two mods could not be properly merged, as at least one patch could not be applied correctly.")),
        }
    }
}

/// The message that describes a levelpack error.
pub open spec fn levelpack_message_of(e: LevelpackError) -> Seq<char> {
    match e {
        LevelpackError::LevelpackDoesNotExist(p) => "The levelpack at "@ + debug_of(p@) + " does not exist"@,
        LevelpackError::FieldParsingError(true) => "Malformed world_data.txt"@,
        LevelpackError::FieldParsingError(false) => "Incorrect field"@,
        LevelpackError::StringParsingError(t) => "Could not parse the following as data: "@ + t@,
        LevelpackError::IconNotFound(p) => debug_of(p@) + " Is not a valid path for an icon"@,
        LevelpackError::LevelpackFolderNotFound { bad_path } => "The path "@ + debug_of(bad_path@)
            + " should have a levelpack folder, but it does not."@,
        LevelpackError::NoLevelpacksFound => Seq::empty(),
    }
}

impl LevelpackError {
    /// A message that describes the error.
    pub fn message(&self) -> (r: String)
        ensures
            r@ == levelpack_message_of(*self),
    {
        proof {
            reveal_strlit("");
            assert(""@ =~= Seq::<char>::empty());
        }
        match self {
            LevelpackError::LevelpackDoesNotExist(p) => three("The levelpack at ", debug_text(p.as_str()).as_str(), " does not exist"),
            LevelpackError::FieldParsingError(flag) => if *flag {
                string_of(&chars_of("Malformed world_data.txt"))
            } else {
                string_of(&chars_of("Incorrect field"))
            },
            LevelpackError::StringParsingError(t) => three("Could not parse the following as data: ", t.as_str(), ""),
            LevelpackError::IconNotFound(p) => three("", debug_text(p.as_str()).as_str(), " Is not a valid path for an icon"),
            LevelpackError::LevelpackFolderNotFound { bad_path } => three(
                "The path ",
                debug_text(bad_path.as_str()).as_str(),
                " should have a levelpack folder, but it does not.",
            ),
            LevelpackError::NoLevelpacksFound => String::new(),
        }
    }
}

} // verus!
