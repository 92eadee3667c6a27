use baba_mod_manager::babamod::{config_from_two_mods, init_file_text, BabaMod, ModFiles};
use baba_mod_manager::config::Config;
use baba_mod_manager::luafuncdef::{functions_from_string, LuaFuncDef};
use baba_mod_manager::luafunction::{baba_function_names, concat_strings};
use baba_mod_manager::luafunction::LuaFunction;

fn names(list: &[&str]) -> Vec<String> {
    list.iter().map(|s| s.to_string()).collect()
}

fn config(modid: &str, files: &[&str], sprites: &[&str]) -> Config {
    Config {
        modid: modid.to_string(),
        authors: names(&["Author A", "Author B"]),
        description: "A mod".to_string(),
        files: names(files),
        sprites: names(sprites),
        ..Default::default()
    }
}

#[test]
fn disjoint_mods_are_compatible() {
    let natives = names(&["init"]);
    let a = BabaMod::new("Lua\\a".to_string(), "a".to_string(), Some(config("a", &["x\\common.lua"], &["keke"])));
    let b = BabaMod::new("Lua\\b".to_string(), "b".to_string(), Some(config("b", &["y\\common.lua"], &["fofo"])));
    let files_a = ModFiles { scripts: names(&["function one()\nend"]), sprite_files: names(&["keke_0_1.png", "fofo_0_1.png"]) };
    let files_b = ModFiles { scripts: names(&["function two()\nend"]), sprite_files: names(&["keke_0_1.png", "fofo_0_1.png"]) };
    assert!(a.is_compatible_with(&b, &files_a, &files_b, &natives));
}

#[test]
fn shared_functions_or_sprites_are_incompatible() {
    let natives = names(&["init"]);
    let a = BabaMod::new("Lua\\a".to_string(), "a".to_string(), Some(config("a", &[], &["keke"])));
    let b = BabaMod::new("Lua\\b".to_string(), "b".to_string(), Some(config("b", &[], &["keke"])));
    let sprites = names(&["keke_0_1.png"]);
    let fa = ModFiles { scripts: names(&["function one()\nend"]), sprite_files: sprites.clone() };
    let fb = ModFiles { scripts: names(&["function two()\nend"]), sprite_files: sprites.clone() };
    assert!(!a.is_compatible_with(&b, &fa, &fb, &natives));
    let c = BabaMod::new("Lua\\c".to_string(), "c".to_string(), None);
    let fc = ModFiles { scripts: names(&["function one()\nend"]), sprite_files: sprites };
    assert!(!c.is_compatible_with(&c, &fa, &fc, &natives));
}

#[test]
fn sprites_need_a_matching_file() {
    let m = BabaMod::new("Lua\\a".to_string(), "a".to_string(), Some(config("a", &[], &["keke", "baba", "keke"])));
    let found = m.defined_sprites(&names(&["text_keke_0_1.png", "other.png"]));
    assert_eq!(found, names(&["keke"]));
    let bare = BabaMod::new("Lua\\a.lua".to_string(), "a.lua".to_string(), None);
    assert!(bare.defined_sprites(&names(&["keke.png"])).is_empty());
}

#[test]
fn function_definitions_are_united_over_scripts() {
    let natives = names(&["init"]);
    let files = ModFiles {
        scripts: names(&["function init()\nend\nfunction a()\nend", "function a()\nend\n  function b()\nend"]),
        sprite_files: Vec::new(),
    };
    let defs = BabaMod::defined_function_definitions(&files, &natives);
    assert_eq!(defs.len(), 2);
    assert!(defs.contains(&LuaFuncDef { name: "init".to_string(), is_baba_native: true }));
    assert!(defs.contains(&LuaFuncDef { name: "a".to_string(), is_baba_native: false }));
}

#[test]
fn functions_from_string_reads_definition_lines() {
    let natives = names(&["init"]);
    let defs = functions_from_string("function init(a)\nx = 1\nfunction init(b)\nfunctionx()\n", &natives);
    assert_eq!(defs, vec![LuaFuncDef { name: "init".to_string(), is_baba_native: true }]);
    assert!(LuaFuncDef::from_line("local x = 2", &natives).is_err());
}

#[test]
fn manifest_accessors() {
    let c = config("dummytest", &["a.lua"], &["keke"]);
    assert_eq!(c.suitable_init(), ".\\dummytest_init.lua");
    let with_init = Config { init: Some("custom.lua".to_string()), ..c.clone() };
    assert_eq!(with_init.suitable_init(), "custom.lua");
    assert_eq!(c.authors(), names(&["Author A", "Author B"]));
    assert_eq!(c.files(), names(&["a.lua"]));
    assert_eq!(c.sprites(), names(&["keke"]));
    assert_eq!(c.modid(), "dummytest");
}

#[test]
fn mod_identity_falls_back_without_manifest() {
    let m = BabaMod::new("Lua\\solo.lua".to_string(), "solo.lua".to_string(), None);
    assert_eq!(m.mod_id(), "solo.lua");
    assert!(m.authors().is_empty());
    assert_eq!(m.description(), "No description given...");
    assert!(!m.has_config());
    let c = BabaMod::new("Lua\\x".to_string(), "x".to_string(), Some(config("xid", &[], &[])));
    assert_eq!(c.mod_id(), "xid");
    assert_eq!(c.description(), "A mod");
}

#[test]
fn helper_texts() {
    assert_eq!(concat_strings("a".to_string(), "b".to_string()), "a\nb");
    assert_eq!(baba_function_names("init\nupdate"), names(&["init", "update"]));
}

#[test]
fn relevant_files_of_a_mod() {
    let m = BabaMod::new("Lua\\m".to_string(), "m".to_string(), Some(config("m", &["a.lua", "b.txt"], &["keke"])));
    assert_eq!(m.sprites_folder(), "Lua\\m\\..\\..\\Sprites");
    let entries = names(&["keke_0_1.png", "baba.png", "text_keke.png"]);
    assert_eq!(
        m.all_relevant_files(&entries),
        names(&[
            "Lua\\m",
            "a.lua",
            "b.txt",
            "Lua\\m\\..\\..\\Sprites\\keke_0_1.png",
            "Lua\\m\\..\\..\\Sprites\\text_keke.png",
        ])
    );
    let solo = BabaMod::new("Lua\\solo.lua".to_string(), "solo.lua".to_string(), None);
    assert_eq!(solo.all_relevant_files(&entries), names(&["Lua\\solo.lua"]));
}

#[test]
fn defined_functions_keep_each_body_once() {
    let natives = names(&["init"]);
    let files = ModFiles {
        scripts: names(&["function init()\nfoo()\nend\nfunction a()\nend", "function a()\nend\nfunction a()\nbar()\nend"]),
        sprite_files: Vec::new(),
    };
    let fs: Vec<LuaFunction> = BabaMod::defined_functions(&files, &natives);
    assert_eq!(fs.len(), 3);
    assert!(fs.iter().any(|f| f.code() == "function a()\nbar()\nend"));
    assert!(fs.iter().any(|f| f.code() == "function init()\nfoo()\nend" && f.definition().is_baba_native()));
}

#[test]
fn init_file_names_the_mod() {
    assert_eq!(init_file_text("-- __name__\nlocal __name__ = {}", "keke"), "-- keke\nlocal keke = {}");
    assert_eq!(init_file_text("nothing", "keke"), "nothing");
}

#[test]
fn merged_manifest_describes_both_mods() {
    let a = BabaMod::new("Lua\\a".to_string(), "a".to_string(), Some(config("aid", &[], &[])));
    let b = BabaMod::new("Lua\\b.lua".to_string(), "b.lua".to_string(), None);
    let c = config_from_two_mods(&a, &b);
    assert_eq!(c.modid, "aidb.lua");
    assert_eq!(
        c.authors,
        names(&["Authors of a: \"Author A\", \"Author B\"", "Authors of b.lua: "])
    );
    assert_eq!(
        c.description,
        "A merger between a and b.lua, automatically generated by BMM.\na:A mod\nb.lua:No description given..."
    );
    assert_eq!(c.tags, names(&["Auto-generated", "Merged"]));
    assert_eq!(c.init, Some(".\\aidb.lua_init.lua".to_string()));
    assert_eq!(c.icon_url, Some(String::new()));
    assert!(!c.global);
    assert_eq!(c.sprites, names(&["[Intentionally left without names]"]));
}
