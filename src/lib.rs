//! Mod compatibility checks and script merging for a tile-based puzzle game
//! whose behaviour is driven by overridable Lua scripts.

pub mod application;
pub mod babafiles;
pub mod babamod;
pub mod config;
pub mod error;
pub mod laws;
pub mod levelpack;
pub mod luafuncdef;
pub mod luafile;
pub mod luafunction;
pub mod merge;
pub mod text;
