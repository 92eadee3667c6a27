use baba_mod_manager::application::pixel_index;
use baba_mod_manager::babafiles::BabaFiles;
use baba_mod_manager::error::LevelpackError;
use baba_mod_manager::levelpack::{fetch_field, fetch_usize_field, Levelpack, LevelpackFile};

/// Tests whether or not `fetch_field` returns an `Ok` variant
#[test]
fn fetch_field_1() {
    let x: Result<String, _> = fetch_field("name", "name=abc");
    assert!(x.is_ok());
}

/// Tests whether or not `fetch_field` returns the proper value
#[test]
fn fetch_field_2() {
    let x: Result<String, _> = fetch_field("name", "name=abc");
    let x = x.unwrap();
    assert_eq!(x, "abc");
}

#[test]
fn fetch_field_without_equals_is_malformed() {
    let x = fetch_field("name", "name abc");
    assert!(matches!(x, Err(LevelpackError::FieldParsingError(true))));
}

#[test]
fn fetch_field_of_other_field_is_incorrect() {
    let x = fetch_field("name", "author=abc");
    assert!(matches!(x, Err(LevelpackError::FieldParsingError(false))));
}

#[test]
fn fetch_field_keeps_later_equals_signs() {
    assert_eq!(fetch_field("name", "name=a=b").unwrap(), "a=b");
    assert_eq!(fetch_field("name", "name=").unwrap(), "");
}

#[test]
fn world_data_fields_are_read() {
    let data = "[general]\nname=My Pack\nauthor=Someone\nprize_max=12\nclear_max=+3\nbonus_max=x\nmods=1\nname=Renamed\n";
    let pack = Levelpack::from_world_data("C:\\Worlds\\pack".to_string(), data);
    assert_eq!(pack.name, "Renamed");
    assert_eq!(pack.author, "Someone");
    assert_eq!(pack.prize_max, 12);
    assert_eq!(pack.clear_max, 3);
    assert_eq!(pack.bonus_max, 0);
    assert!(pack.mods_enabled());
}

#[test]
fn mods_are_disabled_by_zero_or_absence() {
    let pack = Levelpack::from_world_data("p".to_string(), "mods=0\n");
    assert!(!pack.mods_enabled());
    let pack = Levelpack::from_world_data("p".to_string(), "name=x");
    assert!(!pack.mods_enabled());
    assert_eq!(pack.name, "x");
}

#[test]
fn oversized_counts_are_ignored() {
    let pack = Levelpack::from_world_data("p".to_string(), "prize_max=7\nprize_max=99999999999999999999999\n");
    assert_eq!(pack.prize_max, 7);
}

#[test]
fn pack_files_are_joined_to_the_pack_path() {
    let pack = Levelpack::from_world_data("C:\\Worlds\\pack".to_string(), "");
    assert_eq!(pack.pack_file(LevelpackFile::Lua), "C:\\Worlds\\pack\\Lua");
    assert_eq!(pack.pack_file(LevelpackFile::WorldDataTxt), "C:\\Worlds\\pack\\world_data.txt");
    let pack = Levelpack::from_world_data("C:\\Worlds\\".to_string(), "");
    assert_eq!(pack.pack_file(LevelpackFile::IconPng), "C:\\Worlds\\icon.png");
}

#[test]
fn levelpack_file_names_are_read_in_any_case() {
    assert_eq!(LevelpackFile::from_name("LUA").unwrap(), LevelpackFile::Lua);
    assert_eq!(LevelpackFile::from_name("Mods").unwrap(), LevelpackFile::Lua);
    assert_eq!(LevelpackFile::from_name("World_Data.TXT").unwrap(), LevelpackFile::WorldDataTxt);
    assert_eq!(LevelpackFile::from_name("icon").unwrap(), LevelpackFile::IconPng);
    match LevelpackFile::from_name("music") {
        Err(LevelpackError::StringParsingError(s)) => assert_eq!(s, "music"),
        other => panic!("unexpected {:?}", other),
    }
}

#[test]
fn pixel_index_is_row_major_over_seven_columns() {
    assert_eq!(pixel_index(0, 0), 0);
    assert_eq!(pixel_index(3, 2), 17);
    assert_eq!(pixel_index(6, 4), 34);
}

#[test]
fn installation_folders() {
    let files = BabaFiles::from_raw("C:\\Games\\Baba Is You".to_string());
    assert_eq!(files.global_mods_dir(), "C:\\Games\\Baba Is You\\Lua");
    assert_eq!(files.levelpacks_dir(true).unwrap(), "C:\\Games\\Baba Is You\\Data\\Worlds");
    match files.levelpacks_dir(false) {
        Err(LevelpackError::LevelpackFolderNotFound { bad_path }) => {
            assert_eq!(bad_path, "C:\\Games\\Baba Is You\\Data\\Worlds")
        }
        other => panic!("unexpected {:?}", other),
    }
}

#[test]
fn reserved_packs_are_skipped_on_request() {
    let files = BabaFiles::from_raw("root".to_string());
    let entries: Vec<String> = ["baba", "mypack", "levels", "museum", "other", "debug", "new_adv"]
        .iter()
        .map(|s| s.to_string())
        .collect();
    assert_eq!(files.levelpacks(&entries, true).unwrap(), vec!["mypack".to_string(), "other".to_string()]);
    assert_eq!(files.levelpacks(&entries, false).unwrap(), entries);
    assert!(matches!(files.levelpacks(&Vec::new(), false), Err(LevelpackError::NoLevelpacksFound)));
}

#[test]
fn numeric_fields_are_parsed() {
    assert_eq!(fetch_usize_field("prize_max", "prize_max=12").unwrap(), 12);
    assert_eq!(fetch_usize_field("prize_max", "prize_max=+7").unwrap(), 7);
    match fetch_usize_field("prize_max", "prize_max=1x") {
        Err(LevelpackError::StringParsingError(s)) => assert_eq!(s, "Malformed world_data.txt"),
        other => panic!("unexpected {:?}", other),
    }
    assert!(matches!(fetch_usize_field("prize_max", "clear_max=1"), Err(LevelpackError::FieldParsingError(false))));
}

#[test]
fn levelpack_errors_describe_themselves() {
    assert_eq!(LevelpackError::FieldParsingError(true).message(), "Malformed world_data.txt");
    assert_eq!(LevelpackError::FieldParsingError(false).message(), "Incorrect field");
    assert_eq!(
        LevelpackError::LevelpackFolderNotFound { bad_path: "p".to_string() }.message(),
        "The path \"p\" should have a levelpack folder, but it does not."
    );
    assert_eq!(LevelpackError::NoLevelpacksFound.message(), "");
}
