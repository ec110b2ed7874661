use steam_workshop_utility::appinfo::{logo_path_from_appinfo, parse_u32, scan_appinfo, AppinfoScan};
use steam_workshop_utility::vdf::{
    extract_library_paths, game_from_manifest, library_folders, library_paths_from,
    parse_app_manifest, VdfPair, VdfValue,
};

const LIBRARY_FOLDERS: &str = "\"libraryfolders\"\n{\n\t\"1\"\n\t{\n\t\t\"path\"\t\t\"/mnt/games/SteamLibrary\"\n\t}\n\t\"0\"\n\t{\n\t\t\"path\"\t\t\"/home/u/.local/share/Steam\"\n\t\t\"label\"\t\t\"\"\n\t\t\"apps\"\n\t\t{\n\t\t\t\"228980\"\t\t\"123\"\n\t\t}\n\t}\n\t\"2\"\n\t{\n\t\t\"label\"\t\t\"no path\"\n\t}\n}\n";

const MANIFEST: &str = "\"AppState\"\n{\n\t\"appid\"\t\t\"440\"\n\t\"name\"\t\t\"Team Fortress 2\"\n\t\"installdir\"\t\t\"Team Fortress 2\"\n\t\"buildid\"\t\t\"8835751\"\n}\n";

fn s(v: &str) -> VdfValue {
    VdfValue::Str(v.to_string())
}

fn pair(k: &str, v: VdfValue) -> VdfPair {
    VdfPair { key: k.to_string(), values: vec![v] }
}

#[test]
fn library_paths_in_key_order() {
    assert_eq!(
        extract_library_paths(LIBRARY_FOLDERS),
        vec!["/home/u/.local/share/Steam/steamapps", "/mnt/games/SteamLibrary/steamapps"]
    );
}

#[test]
fn unparsable_library_file_lists_nothing() {
    assert!(extract_library_paths("\"libraryfolders\"\n{\n").is_empty());
    assert!(extract_library_paths("\"libraryfolders\" \"flat\"").is_empty());
}

#[test]
fn library_paths_from_a_document() {
    let doc = Some(VdfValue::Obj(vec![
        pair("0", VdfValue::Obj(vec![pair("path", s("/a"))])),
        pair("1", s("not an object")),
        pair("2", VdfValue::Obj(vec![pair("path", VdfValue::Obj(vec![]))])),
        pair("3", VdfValue::Obj(vec![pair("path", s("/b/"))])),
    ]));
    assert_eq!(library_paths_from(&doc), vec!["/a/steamapps", "/b/steamapps"]);
    assert!(library_paths_from(&None).is_empty());
}

#[test]
fn library_folders_put_the_default_first_and_drop_repeats() {
    let listed = vec!["/s/steamapps".to_string(), "/m/steamapps".to_string(), "/m/steamapps".to_string()];
    assert_eq!(
        library_folders("/s/steamapps".to_string(), listed),
        vec!["/s/steamapps", "/m/steamapps"]
    );
}

#[test]
fn app_manifest_gives_the_game() {
    let g = parse_app_manifest(MANIFEST, "/lib/steamapps").unwrap();
    assert_eq!(g.appid, "440");
    assert_eq!(g.name.as_deref(), Some("Team Fortress 2"));
    assert_eq!(g.path, "/lib/steamapps/common/Team Fortress 2");
    assert_eq!(g.build_id.as_deref(), Some("8835751"));
}

#[test]
fn app_manifest_needs_appid_and_installdir() {
    let no_dir = "\"AppState\"\n{\n\t\"appid\"\t\t\"440\"\n}\n";
    assert!(parse_app_manifest(no_dir, "/lib").is_none());
    assert!(parse_app_manifest("not vdf {", "/lib").is_none());
    let minimal = Some(VdfValue::Obj(vec![pair("appid", s("7")), pair("installdir", s("Seven"))]));
    let g = game_from_manifest(&minimal, "/l").unwrap();
    assert_eq!(g.appid, "7");
    assert_eq!(g.name, None);
    assert_eq!(g.path, "/l/common/Seven");
    assert_eq!(g.build_id, None);
}

fn appinfo_with_logo() -> Vec<u8> {
    let mut data = vec![0u8, 1, 2];
    data.extend_from_slice(&440u32.to_le_bytes());
    data.extend_from_slice(b"\x00\x01library_logo\x00\x02english\x00abc123/logo.png\x00rest");
    data
}

#[test]
fn appinfo_logo_is_found() {
    let data = appinfo_with_logo();
    assert_eq!(logo_path_from_appinfo(&data, "440"), Some("abc123/logo.png".to_string()));
    match scan_appinfo(&data, 440) {
        AppinfoScan::Found { start, end } => assert_eq!(&data[start..end], b"abc123/logo.png"),
        other => panic!("unexpected {other:?}"),
    }
}

#[test]
fn appinfo_without_the_app_or_a_logo() {
    let data = appinfo_with_logo();
    assert_eq!(logo_path_from_appinfo(&data, "441"), None);
    assert_eq!(logo_path_from_appinfo(&data, "not a number"), None);
    let mut no_logo = vec![0u8];
    no_logo.extend_from_slice(&440u32.to_le_bytes());
    no_logo.extend_from_slice(b"library_logo\x00nothing here");
    assert_eq!(scan_appinfo(&no_logo, 440), AppinfoScan::NotFound);
}

#[test]
fn appinfo_key_at_the_window_end() {
    let mut data = vec![0u8];
    data.extend_from_slice(&440u32.to_le_bytes());
    data.extend_from_slice(b"library_logo");
    assert_eq!(scan_appinfo(&data, 440), AppinfoScan::TruncatedKey);
}

#[test]
fn parse_u32_like_str_parse() {
    assert_eq!(parse_u32("440"), Some(440));
    assert_eq!(parse_u32("+7"), Some(7));
    assert_eq!(parse_u32("4294967295"), Some(u32::MAX));
    assert_eq!(parse_u32("4294967296"), None);
    assert_eq!(parse_u32(""), None);
    assert_eq!(parse_u32("+"), None);
    assert_eq!(parse_u32("-1"), None);
    assert_eq!(parse_u32("12a"), None);
    assert_eq!(parse_u32("007"), Some(7));
}
