use baba_mod_manager::error::{BabaError, ModdingError};
use baba_mod_manager::luafile::LuaFile;
use baba_mod_manager::luafunction::{code_to_funcs, LuaFunction};
use baba_mod_manager::merge::{
    check_no_removal, collisions_of, finish_patching, merge_files, merge_injected_functions,
    merge_override_functions, strip_deletions, Edit, EditOp,
};

fn names(list: &[&str]) -> Vec<String> {
    list.iter().map(|s| s.to_string()).collect()
}

fn edit(op: EditOp, text: &str) -> Edit {
    Edit { op, text: text.chars().collect() }
}

#[test]
fn single_function_is_extracted_verbatim() {
    let natives = names(&["init"]);
    let funcs = code_to_funcs("function init(a)\nfoo()\nend", &natives);
    assert_eq!(funcs.len(), 1);
    assert_eq!(funcs[0].definition().name(), "init");
    assert!(funcs[0].definition().is_baba_native());
    assert_eq!(funcs[0].code(), "function init(a)\nfoo()\nend");
}

#[test]
fn functions_are_cut_at_unindented_end() {
    let natives = names(&[]);
    let source = "-- header\nfunction a(x)\n  if x then\n  end\nend\nfunction b()\nend\n";
    let funcs = code_to_funcs(source, &natives);
    assert_eq!(funcs.len(), 2);
    assert_eq!(funcs[0].code(), "function a(x)\n  if x then\n  end\nend");
    assert_eq!(funcs[1].code(), "function b()\nend");
    assert!(!funcs[0].definition().is_baba_native());
}

#[test]
fn assignment_declarations_are_normalized() {
    let natives = names(&[]);
    let f = LuaFunction::from_code("local go = function(a, b)\nreturn a\nend", &natives).unwrap();
    assert_eq!(f.code(), "function go(a,b)\nreturn a\nend");
    assert_eq!(f.definition().name(), "go");
    let f = LuaFunction::from_code("function go(a)\nlocal h = function(x, y)\nend", &natives).unwrap();
    assert_eq!(f.code(), "function go(a)\nfunction h(x,y)\nend");
    assert_eq!(f.definition().name(), "go");
}

#[test]
fn extraction_round_trips_definitions() {
    let natives = names(&["init", "update"]);
    let source = "local x = 1\nfunction init(a)\nfoo()\nend\nfunction helper()\nbar()\nend\nfunction update()\nend\n";
    let file = LuaFile::parse(source, &natives);
    let rebuilt: Vec<String> = file.functions().iter().map(|f| f.code().to_string()).collect();
    let again = LuaFile::parse(&rebuilt.join("\n"), &natives);
    assert_eq!(file.definitions(), again.definitions());
    assert_eq!(file.definitions().len(), 3);
}

#[test]
fn renames_are_recorded_for_game_functions() {
    let natives = names(&["update", "init"]);
    let file = LuaFile::parse("local oldupdate = update\noldinit = init\nx = y\nlocal f = function() end\n", &natives);
    assert_eq!(
        file.renamed_functions(),
        vec![("update".to_string(), "oldupdate".to_string()), ("init".to_string(), "oldinit".to_string())]
    );
    assert!(file.function_uses_injection_str("update"));
    assert!(file.function_uses_injection_str("oldinit"));
    assert!(!file.function_uses_injection_str("y"));
}

#[test]
fn disjoint_scripts_are_concatenated() {
    let natives = names(&[]);
    let left = LuaFile::parse("function a()\nx()\nend", &natives);
    let right = LuaFile::parse("function b()\ny()\nend", &natives);
    assert!(collisions_of(&left, &right).is_empty());
    let merged = merge_files(&left, &right, &Vec::new(), &natives).unwrap();
    assert_eq!(merged.code(), "function a()\nx()\nend\nfunction b()\ny()\nend");
    assert!(merged.code().contains("function a()\nx()\nend"));
    assert!(merged.code().contains("function b()\ny()\nend"));
}

#[test]
fn colliding_helpers_are_renamed() {
    let natives = names(&[]);
    let left = LuaFile::parse("function helper(x)\nreturn x\nend\nfunction go()\nhelper(1)\nend", &natives);
    let right = LuaFile::parse("function helper(y)\nreturn y\nend\nfunction run()\nhelper(2)\nend", &natives);
    let merged = merge_files(&left, &right, &Vec::new(), &natives).unwrap();
    let code = merged.code();
    assert!(code.contains("function helper_left(x)"));
    assert!(code.contains("function helper_right(y)"));
    assert!(code.contains("helper_left(1)"));
    assert!(code.contains("helper_right(2)"));
    assert!(!code.contains("helper("));
}

#[test]
fn mixed_injection_and_override_are_stacked() {
    let natives = names(&["update"]);
    let left = LuaFile::parse("local oldupdate = update\nfunction update(a)\noldupdate(a)\nend", &natives);
    let right = LuaFile::parse("function update(a)\nbar()\nend", &natives);
    let merged = merge_files(&left, &right, &Vec::new(), &natives).unwrap();
    assert!(merged.code().contains(
        "function update(a)\nbar()\nend\nlocal oldupdate = update\nfunction update(a)\noldupdate(a)\nend"
    ));
}

#[test]
fn mixed_merge_without_alias_fails() {
    let natives = names(&["update"]);
    let left = LuaFile::parse("upd = update\nfunction update(a)\nend", &natives);
    let right = LuaFile::parse("function update(a)\nbar()\nend", &natives);
    // the left script keeps `update` under `upd`, so it injects
    assert!(merge_files(&left, &right, &Vec::new(), &natives).is_ok());
    let left = LuaFile::parse("function upd()\nend\nupdate = upd\nfunction update(a)\nend", &names(&["update", "upd"]));
    let right = LuaFile::parse("function update(a)\nbar()\nend", &names(&["update", "upd"]));
    let r = merge_files(&left, &right, &Vec::new(), &names(&["update", "upd"]));
    assert!(matches!(r, Err(BabaError::Modding(ModdingError::RenameError))));
}

#[test]
fn override_that_removes_code_is_refused() {
    let natives = names(&["init"]);
    let original = LuaFunction::from_code("function init()\nfoo()\nbar()\nend", &natives).unwrap();
    let left = LuaFunction::from_code("function init()\nfoo()\nend", &natives).unwrap();
    let right = LuaFunction::from_code("function init()\nfoo()\nbar()\nbaz()\nend", &natives).unwrap();
    let r = merge_override_functions(&left, &right, &vec![original], &natives);
    assert!(matches!(r, Err(BabaError::Modding(ModdingError::CodeRemoval))));
}

#[test]
fn override_without_original_is_refused() {
    let natives = names(&["init"]);
    let left = LuaFunction::from_code("function init()\nfoo()\nend", &natives).unwrap();
    let r = merge_override_functions(&left, &left, &Vec::new(), &natives);
    assert!(matches!(r, Err(BabaError::Modding(ModdingError::NotABabaFunction))));
}

#[test]
fn override_that_only_adds_code_merges() {
    let natives = names(&["init"]);
    let original = LuaFunction::from_code("function init()\nfoo()\nend", &natives).unwrap();
    let left = LuaFunction::from_code("function init()\nfoo()\nend", &natives).unwrap();
    let right = LuaFunction::from_code("function init()\nfoo()\nbaz()\nend", &natives).unwrap();
    let merged = merge_override_functions(&left, &right, &vec![original], &natives).unwrap();
    assert_eq!(merged.code(), "function init()\nfoo()\nbaz()\nend");
    assert_eq!(merged.definition().name(), "init");
}

#[test]
fn identical_injections_merge_to_themselves() {
    let natives = names(&["update"]);
    let f = LuaFunction::from_code("function update(a)\noldupdate(a)\nend", &natives).unwrap();
    let merged = merge_injected_functions(&f, &f, &natives).unwrap();
    assert_eq!(merged.code(), f.code());
}

#[test]
fn override_collision_in_files_goes_through_the_diff_engine() {
    let natives = names(&["init"]);
    let original = LuaFunction::from_code("function init()\nfoo()\nend", &natives).unwrap();
    let left = LuaFile::parse("function init()\nfoo()\nend", &natives);
    let right = LuaFile::parse("function init()\nfoo()\nbaz()\nend", &natives);
    let merged = merge_files(&left, &right, &vec![original], &natives).unwrap();
    assert_eq!(merged.code(), "\nfunction init()\nfoo()\nbaz()\nend\n");
}

#[test]
fn removal_check_reports_deletions_only() {
    let keep = vec![edit(EditOp::Equal, "a"), edit(EditOp::Insert, "b")];
    let cut = vec![edit(EditOp::Equal, "a"), edit(EditOp::Delete, "c")];
    assert!(check_no_removal(&keep, &keep).is_ok());
    assert!(matches!(check_no_removal(&keep, &cut), Err(ModdingError::CodeRemoval)));
    assert!(matches!(check_no_removal(&cut, &keep), Err(ModdingError::CodeRemoval)));
}

#[test]
fn deletions_are_stripped() {
    let es = vec![edit(EditOp::Equal, "a"), edit(EditOp::Delete, "c"), edit(EditOp::Insert, "b")];
    let kept = strip_deletions(&es);
    assert_eq!(kept.len(), 2);
    assert_eq!(kept[0].op, EditOp::Equal);
    assert_eq!(kept[1].op, EditOp::Insert);
    assert_eq!(kept[1].text, vec!['b']);
}

#[test]
fn patching_outcome_is_checked() {
    let natives = names(&[]);
    let r = finish_patching("function f()\nend", &vec![true, false], &natives);
    assert!(matches!(r, Err(BabaError::Modding(ModdingError::IncompletePatching))));
    let r = finish_patching("function f()\nend", &vec![true], &natives).unwrap();
    assert_eq!(r.definition().name(), "f");
    let r = finish_patching("nothing here", &vec![], &natives);
    assert!(matches!(r, Err(BabaError::Modding(ModdingError::NotALuaFunction(_)))));
}

#[test]
fn errors_describe_themselves() {
    assert_eq!(
        ModdingError::CodeRemoval.message(),
        "Mods cannot be valid candidates for merging if they remove code from the original."
    );
    assert_eq!(
        ModdingError::NotALuaFunction("x".to_string()).message(),
        "The following was expected to be a lua function, but it wasn't:\nx"
    );
    assert_eq!(
        ModdingError::RenameError.message(),
        "There was an error when attempting to preform a rename while merging"
    );
    assert_eq!(
        ModdingError::NotAConfigFile("a\\b".to_string()).message(),
        "The file at \"a\\\\b\" is not a valid configuration file."
    );
}

#[test]
fn function_is_found_by_definition() {
    let natives = names(&["init"]);
    let source = "function a()\nx()\nend\nfunction init(q)\ny()\nend\nfunction init(r)\nz()\nend";
    let def = LuaFunction::from_code("function init(q)\nend", &natives).unwrap().definition();
    let f = LuaFunction::from_definition_and_code(&def, source, &natives).unwrap();
    assert_eq!(f.code(), "function init(q)\ny()\nend");
    let other = LuaFunction::from_code("function init(q)\nend", &names(&[])).unwrap().definition();
    assert!(LuaFunction::from_definition_and_code(&other, source, &natives).is_none());
}

#[test]
fn injection_alias_is_looked_up_by_name() {
    let natives = names(&["init"]);
    let file = LuaFile::parse("local a = init\nlocal b = init\nfunction init()\nend", &natives);
    let def = file.functions()[0].definition();
    assert_eq!(file.injection_data(&def), Some("b".to_string()));
    assert!(file.function_uses_injection(&def));
    assert_eq!(file.renamed_functions().len(), 1);
}

#[test]
fn assignment_declarations_are_extracted() {
    let natives = names(&["init"]);
    for source in ["function helper(a)\nfoo()\nend", "local helper = function(a)\nfoo()\nend", "helper = function(a)\nfoo()\nend"] {
        let funcs = code_to_funcs(source, &natives);
        assert_eq!(funcs.len(), 1, "{source}");
        assert_eq!(funcs[0].definition().name(), "helper");
        assert_eq!(funcs[0].code(), "function helper(a)\nfoo()\nend");
    }
}

#[test]
fn other_lines_with_equals_are_kept() {
    let natives = names(&[]);
    let funcs = code_to_funcs("function a(x) y = f(1)\nend", &natives);
    assert_eq!(funcs.len(), 1);
    assert_eq!(funcs[0].definition().name(), "a");
    assert_eq!(funcs[0].code(), "function a(x) y = f(1)\nend");
    let funcs = code_to_funcs("function f(x) return x == 1 end\nend", &natives);
    assert_eq!(funcs.len(), 1);
    assert_eq!(funcs[0].definition().name(), "f");
}

#[test]
fn identical_overrides_merge_to_themselves() {
    let natives = names(&["init"]);
    let original = LuaFunction::from_code("function init()\nfoo()\nend", &natives).unwrap();
    let left = LuaFile::parse("function init()\nfoo()\nend", &natives);
    let right = LuaFile::parse("function init()\nfoo()\nend", &natives);
    let merged = merge_files(&left, &right, &vec![original], &natives).unwrap();
    assert_eq!(merged.code(), "\nfunction init()\nfoo()\nend\n");
}

#[test]
fn override_collision_without_original_fails_the_merge() {
    let natives = names(&["init"]);
    let left = LuaFile::parse("function init()\nfoo()\nend", &natives);
    let right = LuaFile::parse("function init()\nbar()\nend", &natives);
    let r = merge_files(&left, &right, &Vec::new(), &natives);
    assert!(matches!(r, Err(BabaError::Modding(ModdingError::NotABabaFunction))));
}
