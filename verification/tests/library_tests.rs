use steam_workshop_utility::general::later_timestamp;
use steam_workshop_utility::library::{
    acf_lookup_result, acf_path_candidate, batch_ids, byte_range, choose_install_dir,
    dedup_games, dedup_strings, default_library, enrich_items, find_acf_path, find_bytes,
    install_candidates_linux, install_candidates_windows, is_app_manifest_file,
    is_version_tag, item_status, library_folders_file, lookup_metadata, supported_versions,
    workshop_items_from_dirs, workshop_root, ItemDir, LibraryError, MetadataEntry,
};
use steam_workshop_utility::paths::{join_path, parent_of};
use steam_workshop_utility::types::{GameEntry, ItemStatus, WorkshopItem, WorkshopMetadata};

fn game(appid: &str, path: &str) -> GameEntry {
    GameEntry {
        appid: appid.to_string(),
        name: Some(format!("Game {appid}")),
        path: path.to_string(),
        build_id: None,
    }
}

fn item(id: &str, local: Option<u64>) -> WorkshopItem {
    WorkshopItem {
        item_id: id.to_string(),
        name: None,
        path: format!("/lib/steamapps/workshop/content/440/{id}"),
        local_timestamp: local,
        remote_timestamp: None,
        disk_size: 10,
        status: ItemStatus::Unknown,
        incompatible: false,
        supported_versions: Vec::new(),
        preview_url: None,
        selected: false,
    }
}

fn meta(title: &str, time: u64, tags: &[&str]) -> WorkshopMetadata {
    WorkshopMetadata {
        title: Some(title.to_string()),
        time_updated: Some(time),
        incompatible: false,
        tags: tags.iter().map(|t| t.to_string()).collect(),
        preview_url: Some(format!("https://img/{title}")),
    }
}

#[test]
fn find_bytes_finds_the_first_occurrence() {
    assert_eq!(find_bytes(b"abcabc", b"bc"), Some(1));
    assert_eq!(find_bytes(b"abcabc", b"abc"), Some(0));
    assert_eq!(find_bytes(b"abc", b"x"), None);
    assert_eq!(find_bytes(b"ab", b"abc"), None);
    assert_eq!(find_bytes(b"xxlibrary_logo\0", b"library_logo"), Some(2));
}

#[test]
fn acf_path_candidate_is_under_the_workshop_folder() {
    let g = game("440", "/lib/steamapps/common/Team Fortress 2");
    assert_eq!(
        acf_path_candidate(&g),
        Ok("/lib/steamapps/workshop/appworkshop_440.acf".to_string())
    );
    assert_eq!(
        workshop_root(&g),
        Ok("/lib/steamapps/workshop/content/440".to_string())
    );
}

#[test]
fn find_acf_path_needs_a_steamapps_folder() {
    assert_eq!(find_acf_path(&game("440", "/")), Err(LibraryError::NotUnderSteamapps));
    assert_eq!(find_acf_path(&game("440", "Game")), Err(LibraryError::NotUnderSteamapps));
}

#[test]
fn find_acf_path_reports_a_missing_file() {
    let g = game("440", "/nonexistent-library-for-tests/steamapps/common/Game");
    assert_eq!(find_acf_path(&g), Err(LibraryError::AcfNotFound));
}

#[test]
fn acf_lookup_result_follows_existence() {
    let p = "/lib/steamapps/workshop/appworkshop_1.acf".to_string();
    assert_eq!(acf_lookup_result(Ok(p.clone()), true), Ok(p.clone()));
    assert_eq!(acf_lookup_result(Ok(p), false), Err(LibraryError::AcfNotFound));
    assert_eq!(
        acf_lookup_result(Err(LibraryError::NotUnderSteamapps), true),
        Err(LibraryError::NotUnderSteamapps)
    );
}

#[test]
fn library_error_messages() {
    assert_eq!(
        LibraryError::NotUnderSteamapps.message("440"),
        "Game path is not under steamapps/common"
    );
    assert_eq!(LibraryError::AcfNotFound.message("440"), "Could not find appworkshop_440.acf");
    assert_eq!(
        LibraryError::SteamNotFound.message("440"),
        "Could not find Steam installation. Is Steam installed?"
    );
}

#[test]
fn app_manifest_file_names() {
    assert!(is_app_manifest_file("appmanifest_440.acf"));
    assert!(!is_app_manifest_file("appmanifest_440.txt"));
    assert!(!is_app_manifest_file("libraryfolders.acf"));
    assert!(!is_app_manifest_file("appmanifest_"));
}

#[test]
fn dedup_games_keeps_the_first_of_each_appid() {
    let games = vec![game("1", "/a"), game("2", "/b"), game("1", "/c")];
    let out = dedup_games(games);
    assert_eq!(out.len(), 2);
    assert_eq!(out[0].appid, "1");
    assert_eq!(out[0].path, "/a");
    assert_eq!(out[1].appid, "2");
}

#[test]
fn dedup_strings_keeps_first_occurrences() {
    let v: Vec<String> = ["b", "a", "b", "c", "a"].iter().map(|s| s.to_string()).collect();
    assert_eq!(dedup_strings(&v), vec!["b", "a", "c"]);
}

#[test]
fn item_status_compares_timestamps() {
    assert_eq!(item_status(Some(5), Some(3)), ItemStatus::UpToDate);
    assert_eq!(item_status(Some(5), Some(5)), ItemStatus::UpToDate);
    assert_eq!(item_status(Some(3), Some(5)), ItemStatus::OutOfDate);
    assert_eq!(item_status(None, Some(5)), ItemStatus::Unknown);
    assert_eq!(item_status(Some(5), None), ItemStatus::Unknown);
}

#[test]
fn version_tags() {
    assert!(is_version_tag(&"1.49".to_string()));
    assert!(is_version_tag(&"2.6.1".to_string()));
    assert!(!is_version_tag(&"2024".to_string()));
    assert!(!is_version_tag(&"v1.2".to_string()));
    assert!(!is_version_tag(&"".to_string()));
    assert!(is_version_tag(&"1.2345678901".to_string()));
    assert!(!is_version_tag(&"1.23456789012".to_string()));
    let tags: Vec<String> = ["1.4", "Mod", "2.0", "Scenario"].iter().map(|s| s.to_string()).collect();
    assert_eq!(supported_versions(&tags), vec!["1.4", "2.0"]);
}

#[test]
fn later_metadata_entries_win() {
    let entries = vec![
        MetadataEntry { id: "1".to_string(), metadata: meta("old", 1, &[]) },
        MetadataEntry { id: "2".to_string(), metadata: meta("two", 2, &[]) },
        MetadataEntry { id: "1".to_string(), metadata: meta("new", 3, &[]) },
    ];
    assert_eq!(lookup_metadata(&entries, &"1".to_string()).unwrap().title.as_deref(), Some("new"));
    assert_eq!(lookup_metadata(&entries, &"2".to_string()).unwrap().time_updated, Some(2));
    assert!(lookup_metadata(&entries, &"3".to_string()).is_none());
}

#[test]
fn enrich_items_applies_metadata_and_status() {
    let mut named = item("2", Some(300));
    named.name = Some("Kept".to_string());
    let items = vec![item("1", Some(100)), named, item("3", Some(5))];
    let entries = vec![
        MetadataEntry { id: "1".to_string(), metadata: meta("First", 200, &["1.5", "Mod"]) },
        MetadataEntry { id: "2".to_string(), metadata: meta("Ignored", 200, &[]) },
    ];
    let out = enrich_items(items, &entries);
    assert_eq!(out.len(), 3);
    assert_eq!(out[0].name.as_deref(), Some("First"));
    assert_eq!(out[0].remote_timestamp, Some(200));
    assert_eq!(out[0].status, ItemStatus::OutOfDate);
    assert_eq!(out[0].supported_versions, vec!["1.5"]);
    assert_eq!(out[0].preview_url.as_deref(), Some("https://img/First"));
    assert_eq!(out[1].name.as_deref(), Some("Kept"));
    assert_eq!(out[1].status, ItemStatus::UpToDate);
    assert_eq!(out[2].name, None);
    assert_eq!(out[2].status, ItemStatus::Unknown);
    assert_eq!(out[2].item_id, "3");
}

#[test]
fn batch_ids_splits_into_hundreds() {
    let ids: Vec<String> = (0..250).map(|i| i.to_string()).collect();
    let batches = batch_ids(&ids);
    assert_eq!(batches.len(), 3);
    assert_eq!(batches[0].len(), 100);
    assert_eq!(batches[1].len(), 100);
    assert_eq!(batches[2].len(), 50);
    assert_eq!(batches[1][0], "100");
    assert_eq!(batches[2][49], "249");
    assert!(batch_ids(&Vec::new()).is_empty());
    let hundred: Vec<String> = (0..100).map(|i| i.to_string()).collect();
    assert_eq!(batch_ids(&hundred).len(), 1);
}

#[test]
fn workshop_items_are_sorted_by_path() {
    let dirs = vec![
        ItemDir { name: "300".to_string(), disk_size: 3, local_timestamp: Some(30) },
        ItemDir { name: "100".to_string(), disk_size: 1, local_timestamp: None },
        ItemDir { name: "200".to_string(), disk_size: 2, local_timestamp: Some(20) },
    ];
    let items = workshop_items_from_dirs("/lib/steamapps/workshop/content/440", dirs);
    let ids: Vec<&str> = items.iter().map(|i| i.item_id.as_str()).collect();
    assert_eq!(ids, vec!["100", "200", "300"]);
    assert_eq!(items[0].path, "/lib/steamapps/workshop/content/440/100");
    assert_eq!(items[0].disk_size, 1);
    assert_eq!(items[0].local_timestamp, None);
    assert_eq!(items[2].local_timestamp, Some(30));
    assert_eq!(items[1].status, ItemStatus::Unknown);
    assert!(!items[1].selected);
}

#[test]
fn steam_install_candidates() {
    assert_eq!(
        install_candidates_linux("/home/u"),
        vec!["/home/u/.steam/steam", "/home/u/.local/share/Steam"]
    );
    assert_eq!(
        install_candidates_windows(),
        vec![r"C:\Program Files (x86)\Steam", r"C:\Program Files\Steam"]
    );
    let cands = install_candidates_linux("/home/u");
    assert_eq!(choose_install_dir(&cands, &vec![false, true]), Ok("/home/u/.local/share/Steam".to_string()));
    assert_eq!(choose_install_dir(&cands, &vec![true, true]), Ok("/home/u/.steam/steam".to_string()));
    assert_eq!(choose_install_dir(&cands, &vec![false, false]), Err(LibraryError::SteamNotFound));
    assert_eq!(library_folders_file("/s"), "/s/steamapps/libraryfolders.vdf");
    assert_eq!(default_library("/s"), "/s/steamapps");
}

#[test]
fn later_timestamp_prefers_the_newer() {
    assert_eq!(later_timestamp(None, Some(3)), Some(3));
    assert_eq!(later_timestamp(Some(4), None), Some(4));
    assert_eq!(later_timestamp(Some(4), Some(9)), Some(9));
    assert_eq!(later_timestamp(Some(9), Some(4)), Some(9));
    assert_eq!(later_timestamp(None, None), None);
}

#[test]
fn path_parent_and_join() {
    assert_eq!(parent_of("/a/b"), Some("/a".to_string()));
    assert_eq!(parent_of("/a/b/"), Some("/a".to_string()));
    assert_eq!(parent_of("/a"), Some("/".to_string()));
    assert_eq!(parent_of("/"), None);
    assert_eq!(parent_of("a"), Some("".to_string()));
    assert_eq!(parent_of(""), None);
    assert_eq!(join_path("/a", "b"), "/a/b");
    assert_eq!(join_path("/a/", "b"), "/a/b");
    assert_eq!(join_path("/a", "/b"), "/b");
    assert_eq!(join_path("", "b"), "b");
    assert_eq!(byte_range(b"hello", 1, 4), b"ell".to_vec());
}

#[test]
fn no_steam_where_nothing_exists() {
    let cands = install_candidates_linux("/nonexistent-home-for-tests");
    assert_eq!(
        steam_workshop_utility::library::find_steam_install_dir(&cands),
        Err(LibraryError::SteamNotFound)
    );
    assert_eq!(
        steam_workshop_utility::library::find_steam_install_dir(&Vec::new()),
        Err(LibraryError::SteamNotFound)
    );
}
