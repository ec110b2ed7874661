use steam_workshop_utility::model::{
    AppModel, AppState, ContextPage, Effect, MenuAction, Message, SortOrder,
};
use steam_workshop_utility::types::{GameEntry, ItemStatus, WorkshopItem};

fn game(appid: &str, name: Option<&str>) -> GameEntry {
    GameEntry {
        appid: appid.to_string(),
        name: name.map(|s| s.to_string()),
        path: format!("/lib/steamapps/common/{appid}"),
        build_id: None,
    }
}

fn item(id: &str, status: ItemStatus, preview: Option<&str>) -> WorkshopItem {
    WorkshopItem {
        item_id: id.to_string(),
        name: Some(format!("Item {id}")),
        path: format!("/lib/steamapps/workshop/content/1/{id}"),
        local_timestamp: Some(100),
        remote_timestamp: Some(200),
        disk_size: 1024,
        status,
        incompatible: false,
        supported_versions: Vec::new(),
        preview_url: preview.map(|s| s.to_string()),
        selected: false,
    }
}

fn scan_data() -> Vec<(GameEntry, Vec<WorkshopItem>)> {
    vec![
        (
            game("1", Some("First")),
            vec![
                item("11", ItemStatus::OutOfDate, Some("https://p/11")),
                item("12", ItemStatus::UpToDate, None),
            ],
        ),
        (game("2", Some("Empty")), Vec::new()),
        (game("3", None), vec![item("31", ItemStatus::Unknown, None)]),
    ]
}

fn items_of<'a>(m: &'a AppModel, appid: &str) -> &'a Vec<WorkshopItem> {
    match &m.state {
        AppState::Loaded { items, .. } => &items.iter().find(|s| s.appid == appid).unwrap().items,
        _ => panic!("not loaded"),
    }
}

fn loaded() -> AppModel {
    let mut m = AppModel::new();
    m.update(Message::ScanComplete(scan_data()));
    m
}

#[test]
fn a_new_model_is_scanning() {
    let m = AppModel::new();
    assert!(matches!(m.state, AppState::Loading));
    assert!(m.selected_game.is_none());
    assert!(m.polling.is_none());
    assert_eq!(m.sort_order, SortOrder::NameAsc);
    assert_eq!(m.update_title(), "Steam Workshop Utility");
}

#[test]
fn scan_complete_loads_games_with_items() {
    let mut m = AppModel::new();
    let effects = m.update(Message::ScanComplete(scan_data()));
    match &m.state {
        AppState::Loaded { game_order, games, .. } => {
            assert_eq!(game_order, &vec!["1".to_string(), "3".to_string()]);
            assert_eq!(games.len(), 2);
        }
        _ => panic!("not loaded"),
    }
    assert_eq!(m.selected_game.as_deref(), Some("1"));
    let its = items_of(&m, "1");
    assert!(its[0].selected);
    assert!(!its[1].selected);
    assert!(!items_of(&m, "3")[0].selected);
    assert_eq!(effects.len(), 4);
    assert!(matches!(&effects[0], Effect::SetTitle(t) if t == "Steam Workshop Utility — First"));
    match &effects[1] {
        Effect::LoadThumbnails(v) => assert_eq!(v, &vec![("11".to_string(), "https://p/11".to_string())]),
        other => panic!("unexpected {other:?}"),
    }
    assert!(matches!(&effects[2], Effect::LoadBanner(a) if a == "1"));
    assert!(matches!(&effects[3], Effect::LoadBanner(a) if a == "3"));
}

#[test]
fn scan_failed_shows_the_error() {
    let mut m = AppModel::new();
    assert!(m.update(Message::ScanFailed("boom".to_string())).is_empty());
    assert!(matches!(&m.state, AppState::Error(e) if e == "boom"));
}

#[test]
fn selecting_a_game() {
    let mut m = loaded();
    m.confirming_redownload = true;
    m.redownload_complete = true;
    let effects = m.update(Message::SelectGame("3".to_string()));
    assert_eq!(m.selected_game.as_deref(), Some("3"));
    assert!(!m.confirming_redownload);
    assert!(!m.redownload_complete);
    assert_eq!(effects.len(), 2);
    assert!(matches!(&effects[0], Effect::SetTitle(t) if t == "Steam Workshop Utility"));
    assert!(matches!(&effects[1], Effect::LoadBanner(a) if a == "3"));
}

#[test]
fn loaded_images_are_not_fetched_again() {
    let mut m = loaded();
    m.update(Message::ThumbnailsLoaded(vec!["11".to_string()]));
    m.update(Message::GameBannerLoaded("1".to_string()));
    m.update(Message::GameBannerLoaded(String::new()));
    assert_eq!(m.banners, vec!["1".to_string()]);
    assert!(m.thumbnail_effects().is_empty());
    let effects = m.update(Message::SelectGame("1".to_string()));
    assert_eq!(effects.len(), 1);
}

#[test]
fn toggling_an_item_twice_restores_it() {
    let mut m = loaded();
    let msg = || Message::ToggleItem { appid: "1".to_string(), item_id: "12".to_string() };
    assert!(m.update(msg()).is_empty());
    assert!(items_of(&m, "1")[1].selected);
    m.update(msg());
    assert!(!items_of(&m, "1")[1].selected);
    assert!(items_of(&m, "1")[0].selected);
    m.update(Message::ToggleItem { appid: "9".to_string(), item_id: "12".to_string() });
    assert!(!items_of(&m, "1")[1].selected);
}

#[test]
fn toggle_all_items() {
    let mut m = loaded();
    m.update(Message::ToggleAllItems("1".to_string()));
    assert!(items_of(&m, "1").iter().all(|i| i.selected));
    m.update(Message::ToggleAllItems("1".to_string()));
    assert!(items_of(&m, "1").iter().all(|i| !i.selected));
}

#[test]
fn select_out_of_date_twice_is_once() {
    let mut m = loaded();
    m.update(Message::ToggleAllItems("1".to_string()));
    m.update(Message::ToggleAllItems("1".to_string()));
    m.update(Message::SelectOutOfDate);
    let once: Vec<bool> = items_of(&m, "1").iter().map(|i| i.selected).collect();
    m.update(Message::SelectOutOfDate);
    let twice: Vec<bool> = items_of(&m, "1").iter().map(|i| i.selected).collect();
    assert_eq!(once, vec![true, false]);
    assert_eq!(once, twice);
}

#[test]
fn force_redownload_plans_the_selected_items() {
    let mut m = loaded();
    m.confirming_redownload = true;
    let effects = m.update(Message::ForceRedownload);
    assert!(m.redownload_in_progress);
    assert!(!m.confirming_redownload);
    assert_eq!(effects.len(), 1);
    match &effects[0] {
        Effect::Redownload(plan) => {
            assert_eq!(plan.game.appid, "1");
            assert_eq!(plan.item_ids, vec!["11"]);
            assert_eq!(plan.paths, vec!["/lib/steamapps/workshop/content/1/11"]);
            assert_eq!(plan.download_uris, vec!["steam://workshop_download_item/1/11"]);
            assert_eq!(plan.validate_uri, "steam://validate/1");
        }
        other => panic!("unexpected {other:?}"),
    }
}

#[test]
fn force_redownload_with_nothing_selected() {
    let mut m = loaded();
    m.update(Message::SelectGame("3".to_string()));
    let effects = m.update(Message::ForceRedownload);
    assert!(effects.is_empty());
    assert!(m.redownload_in_progress);
}

#[test]
fn a_finished_redownload_is_watched() {
    let mut m = loaded();
    m.update(Message::ToggleItem { appid: "1".to_string(), item_id: "12".to_string() });
    m.update(Message::ForceRedownload);
    let effects = m.update(Message::RedownloadComplete(Ok(())));
    assert!(!m.redownload_in_progress);
    let poll = m.polling.as_ref().unwrap();
    assert_eq!(poll.appid, "1");
    assert_eq!(poll.elapsed_secs, 0);
    assert_eq!(poll.pending_item_ids, vec!["11".to_string(), "12".to_string()]);
    assert_eq!(poll.initial_item_count, 2);
    assert!(items_of(&m, "1").iter().all(|i| !i.selected));
    assert_eq!(effects.len(), 1);
    assert!(matches!(&effects[0], Effect::Refresh(a) if a == "1"));
}

#[test]
fn a_failed_redownload_is_not_watched() {
    let mut m = loaded();
    m.update(Message::ForceRedownload);
    assert!(m.update(Message::RedownloadComplete(Err("no".to_string()))).is_empty());
    assert!(!m.redownload_in_progress);
    assert!(m.polling.is_none());
}

#[test]
fn refreshes_resolve_pending_items() {
    let mut m = loaded();
    m.update(Message::ToggleItem { appid: "1".to_string(), item_id: "12".to_string() });
    m.update(Message::ForceRedownload);
    m.update(Message::RedownloadComplete(Ok(())));
    let half = vec![(
        game("1", Some("First")),
        vec![item("11", ItemStatus::UpToDate, None), item("12", ItemStatus::OutOfDate, None)],
    )];
    m.update(Message::RefreshComplete { appid: "1".to_string(), data: half });
    assert_eq!(m.polling.as_ref().unwrap().pending_item_ids, vec!["12".to_string()]);
    assert!(items_of(&m, "1")[1].selected);
    assert!(!m.redownload_complete);
    let done = vec![(
        game("1", Some("First")),
        vec![item("11", ItemStatus::UpToDate, None), item("12", ItemStatus::UpToDate, None)],
    )];
    m.update(Message::RefreshComplete { appid: "1".to_string(), data: done });
    assert!(m.polling.is_none());
    assert!(m.redownload_complete);
    m.update(Message::DismissComplete);
    assert!(!m.redownload_complete);
}

#[test]
fn ticks_refresh_until_the_time_limit() {
    let mut m = loaded();
    m.update(Message::ForceRedownload);
    m.update(Message::RedownloadComplete(Ok(())));
    let effects = m.update(Message::Tick);
    assert_eq!(m.polling.as_ref().unwrap().elapsed_secs, 1);
    assert!(matches!(&effects[0], Effect::Refresh(a) if a == "1"));
    m.polling.as_mut().unwrap().elapsed_secs = 298;
    m.update(Message::Tick);
    assert_eq!(m.polling.as_ref().unwrap().elapsed_secs, 299);
    assert!(m.update(Message::Tick).is_empty());
    assert!(m.polling.is_none());
    assert!(m.update(Message::Tick).is_empty());
}

#[test]
fn stop_polling_and_simple_flags() {
    let mut m = loaded();
    m.update(Message::ForceRedownload);
    m.update(Message::RedownloadComplete(Ok(())));
    m.update(Message::StopPolling);
    assert!(m.polling.is_none());
    m.update(Message::ConfirmRedownload);
    assert!(m.confirming_redownload);
    m.update(Message::CancelRedownload);
    assert!(!m.confirming_redownload);
    m.update(Message::SearchChanged("abc".to_string()));
    assert_eq!(m.search_query, "abc");
    m.update(Message::SortChanged(SortOrder::SizeDesc));
    assert_eq!(m.sort_order, SortOrder::SizeDesc);
    m.update(Message::ToggleCompactMode);
    assert!(m.compact_mode);
    m.update(Message::ToggleContextPage(ContextPage::About));
    assert!(m.show_context);
    m.update(Message::ToggleContextPage(ContextPage::About));
    assert!(!m.show_context);
}

#[test]
fn opening_urls_and_folders() {
    let mut m = AppModel::new();
    let e = m.update(Message::LaunchUrl("https://x".to_string()));
    assert!(matches!(&e[0], Effect::OpenUrl(u) if u == "https://x"));
    let e = m.update(Message::OpenFolder("/tmp/x".to_string()));
    assert!(matches!(&e[0], Effect::OpenPath(p) if p == "/tmp/x"));
    let e = m.update(Message::OpenSteam { appid: "1".to_string(), item_id: "123".to_string() });
    assert!(matches!(&e[0], Effect::OpenUrl(u) if u == "steam://url/CommunityFilePage/123"));
    let e = m.update(Message::RefreshGame("5".to_string()));
    assert!(matches!(&e[0], Effect::Refresh(a) if a == "5"));
}

#[test]
fn the_menu_opens_the_about_page() {
    assert!(matches!(MenuAction::About.message(), Message::ToggleContextPage(ContextPage::About)));
}

#[test]
fn a_repeated_appid_keeps_one_entry() {
    let mut m = AppModel::new();
    let data = vec![
        (game("1", Some("Old")), vec![item("11", ItemStatus::UpToDate, None)]),
        (game("1", Some("New")), vec![item("12", ItemStatus::OutOfDate, None)]),
    ];
    let effects = m.update(Message::ScanComplete(data));
    match &m.state {
        AppState::Loaded { items, games, game_order } => {
            assert_eq!(items.len(), 1);
            assert_eq!(games.len(), 1);
            assert_eq!(games[0].game.name.as_deref(), Some("New"));
            assert_eq!(items[0].items[0].item_id, "12");
            assert_eq!(game_order, &vec!["1".to_string(), "1".to_string()]);
        }
        _ => panic!("not loaded"),
    }
    assert!(matches!(&effects[0], Effect::SetTitle(t) if t == "Steam Workshop Utility — New"));
    assert_eq!(effects.len(), 3);
}

#[test]
fn watching_stops_after_the_time_limit() {
    let mut m = loaded();
    m.update(Message::ForceRedownload);
    m.update(Message::RedownloadComplete(Ok(())));
    assert!(m.polling.is_some());
    for _ in 0..299 {
        m.update(Message::Tick);
        assert!(m.polling.is_some());
    }
    assert!(m.update(Message::Tick).is_empty());
    assert!(m.polling.is_none());
}

#[test]
fn selection_messages_keep_everything_else() {
    let mut m = loaded();
    let before: Vec<(String, String, u64, ItemStatus)> =
        items_of(&m, "1").iter().map(|i| (i.item_id.clone(), i.path.clone(), i.disk_size, i.status)).collect();
    m.update(Message::ToggleAllItems("1".to_string()));
    m.update(Message::ToggleItem { appid: "1".to_string(), item_id: "11".to_string() });
    m.update(Message::SelectOutOfDate);
    let after: Vec<(String, String, u64, ItemStatus)> =
        items_of(&m, "1").iter().map(|i| (i.item_id.clone(), i.path.clone(), i.disk_size, i.status)).collect();
    assert_eq!(before, after);
    assert_eq!(m.selected_game.as_deref(), Some("1"));
    assert!(!m.redownload_in_progress);
}
