use steam_workshop_utility::listing::{
    all_checked, bar_actions, card_counts, count_label, item_row, scan_done_label, scan_step_label,
    selection_label, sort_choice_message, sort_order_at, sort_order_index, status_action, status_text,
    visible_items, BottomBar,
    CardCounts, RowStyle, ScanStep, StatusLine,
};
use steam_workshop_utility::model::{AppModel, Message, PollingState, SortOrder};
use steam_workshop_utility::types::{GameEntry, ItemStatus, WorkshopItem};

fn item(id: &str, name: Option<&str>, size: u64, status: ItemStatus) -> WorkshopItem {
    WorkshopItem {
        item_id: id.to_string(),
        name: name.map(|s| s.to_string()),
        path: format!("/w/{id}"),
        local_timestamp: None,
        remote_timestamp: None,
        disk_size: size,
        status,
        incompatible: false,
        supported_versions: Vec::new(),
        preview_url: None,
        selected: false,
    }
}

fn sample() -> Vec<WorkshopItem> {
    vec![
        item("101", Some("Beta"), 30, ItemStatus::UpToDate),
        item("102", Some("alpha"), 10, ItemStatus::OutOfDate),
        item("103", None, 20, ItemStatus::Unknown),
        item("123", Some("Gamma"), 10, ItemStatus::OutOfDate),
    ]
}

#[test]
fn names_sort_by_code_point() {
    let items = sample();
    assert_eq!(visible_items(&items, "", SortOrder::NameAsc), vec![2, 0, 3, 1]);
    assert_eq!(visible_items(&items, "", SortOrder::NameDesc), vec![1, 3, 0, 2]);
}

#[test]
fn sizes_sort_stably() {
    let items = sample();
    assert_eq!(visible_items(&items, "", SortOrder::SizeAsc), vec![1, 3, 2, 0]);
    assert_eq!(visible_items(&items, "", SortOrder::SizeDesc), vec![0, 2, 1, 3]);
    assert_eq!(visible_items(&items, "", SortOrder::StatusFirst), vec![1, 3, 0, 2]);
}

#[test]
fn search_matches_names_ignoring_case_and_ids() {
    let items = sample();
    assert_eq!(visible_items(&items, "ALP", SortOrder::NameAsc), vec![1]);
    assert_eq!(visible_items(&items, "12", SortOrder::NameAsc), vec![3]);
    assert_eq!(visible_items(&items, "10", SortOrder::SizeAsc), vec![1, 2, 0]);
    assert!(visible_items(&items, "zzz", SortOrder::NameAsc).is_empty());
    assert!(visible_items(&Vec::new(), "", SortOrder::NameAsc).is_empty());
}

#[test]
fn card_counts_by_status() {
    assert_eq!(card_counts(&sample()), CardCounts { total: 4, up_to_date: 1, out_of_date: 2 });
    assert_eq!(card_counts(&Vec::new()), CardCounts { total: 0, up_to_date: 0, out_of_date: 0 });
}

#[test]
fn header_labels() {
    assert_eq!(count_label(4, 4), "4 item(s)");
    assert_eq!(count_label(1, 4), "1 item(s) (filtered from 4)");
    let mut items = sample();
    assert!(!all_checked(&items));
    for i in items.iter_mut() {
        i.selected = true;
    }
    assert!(all_checked(&items));
    assert!(!all_checked(&Vec::new()));
}

fn model_with(items: Vec<WorkshopItem>) -> AppModel {
    let mut m = AppModel::new();
    let game = GameEntry { appid: "1".to_string(), name: None, path: "/l/common/g".to_string(), build_id: None };
    let other = GameEntry { appid: "2".to_string(), name: Some("Two".to_string()), path: "/l/common/h".to_string(), build_id: None };
    m.update(Message::ScanComplete(vec![(game, items), (other, vec![item("9", None, 1, ItemStatus::UpToDate)])]));
    m
}

#[test]
fn the_bottom_bar() {
    let m = AppModel::new();
    assert_eq!(m.bottom_bar(), None);
    let mut m = model_with(sample());
    let bar = m.bottom_bar().unwrap();
    assert_eq!(
        bar,
        BottomBar {
            confirming: false,
            selected_count: 2,
            has_outdated: true,
            refresh_enabled: true,
            select_outdated_enabled: true,
            redownload_enabled: true,
            confirm_enabled: true,
        }
    );
    assert_eq!(selection_label(&bar), "2 item(s) selected");
    m.update(Message::ConfirmRedownload);
    m.polling = Some(PollingState { appid: "1".to_string(), elapsed_secs: 3, pending_item_ids: vec![], initial_item_count: 0 });
    let busy = m.bottom_bar().unwrap();
    assert!(busy.confirming);
    assert!(!busy.refresh_enabled && !busy.select_outdated_enabled && !busy.redownload_enabled && !busy.confirm_enabled);
    assert_eq!(
        selection_label(&busy),
        "Delete and redownload 2 item(s) from Steam? This cannot be undone."
    );
    m.update(Message::ToggleAllItems("1".to_string()));
    m.update(Message::ToggleAllItems("1".to_string()));
    m.update(Message::CancelRedownload);
    m.polling = None;
    let none = m.bottom_bar().unwrap();
    assert_eq!(none.selected_count, 0);
    assert!(!none.redownload_enabled);
    assert_eq!(selection_label(&none), "No items selected");
}

#[test]
fn the_status_line() {
    let mut m = AppModel::new();
    assert_eq!(m.status_line(), StatusLine::Hidden);
    assert_eq!(status_text(StatusLine::Hidden), None);
    m.polling = Some(PollingState {
        appid: "1".to_string(),
        elapsed_secs: 0,
        pending_item_ids: vec!["a".to_string(), "b".to_string()],
        initial_item_count: 3,
    });
    let line = m.status_line();
    assert_eq!(line, StatusLine::Watching { pending: 2, resolved: 1, initial: 3, elapsed: 0 });
    assert_eq!(status_text(line).unwrap(), "Waiting for Steam to start downloading 2 item(s)...");
    assert_eq!(
        status_text(StatusLine::Watching { pending: 2, resolved: 1, initial: 3, elapsed: 12 }).unwrap(),
        "Downloading — 1 of 3 item(s) resolved (12s elapsed)"
    );
    assert_eq!(
        status_text(StatusLine::Watching { pending: 0, resolved: 3, initial: 3, elapsed: 5 }).unwrap(),
        "All items downloaded — verifying..."
    );
    m.polling.as_mut().unwrap().initial_item_count = 1;
    assert_eq!(m.status_line(), StatusLine::Watching { pending: 2, resolved: 0, initial: 1, elapsed: 0 });
    m.redownload_in_progress = true;
    assert_eq!(m.status_line(), StatusLine::InProgress);
    m.redownload_complete = true;
    assert_eq!(m.status_line(), StatusLine::Complete);
    assert_eq!(status_text(StatusLine::Complete).unwrap(), "✓ All items redownloaded successfully.");
}

#[test]
fn the_game_cards() {
    let mut m = model_with(sample());
    m.update(Message::GameBannerLoaded("2".to_string()));
    let cards = m.game_cards();
    assert_eq!(cards.len(), 2);
    assert_eq!(cards[0].appid, "1");
    assert_eq!(cards[0].name, "Unknown Game");
    assert_eq!(cards[0].counts, CardCounts { total: 4, up_to_date: 1, out_of_date: 2 });
    assert!(cards[0].selected);
    assert!(!cards[0].has_banner);
    assert_eq!(cards[1].name, "Two");
    assert!(!cards[1].selected);
    assert!(cards[1].has_banner);
    assert!(AppModel::new().game_cards().is_empty());
}

#[test]
fn item_rows() {
    let mut it = item("101", Some("Beta"), 1048576, ItemStatus::OutOfDate);
    let row = item_row("7", &it);
    assert_eq!(row.title, "Beta");
    assert_eq!(row.status_text, "•  Out of Date");
    assert_eq!(row.style, RowStyle::OutOfDate);
    assert_eq!(row.details, "ID: 101  •  Size: 1.0 MB  •  Local: Unknown  •  Remote: Unknown");
    it.selected = true;
    it.name = None;
    it.remote_timestamp = Some(0);
    let row = item_row("7", &it);
    assert_eq!(row.title, "101");
    assert_eq!(row.style, RowStyle::Selected);
    assert_eq!(row.details, "ID: 101  •  Size: 1.0 MB  •  Local: Unknown  •  Remote: 1970-01-01 00:00");
    let plain = item_row("7", &item("5", None, 0, ItemStatus::UpToDate));
    assert_eq!(plain.style, RowStyle::Plain);
    assert_eq!(plain.status_text, "•  Up to Date");
}

#[test]
fn the_sort_menu() {
    let orders = [SortOrder::NameAsc, SortOrder::NameDesc, SortOrder::SizeAsc, SortOrder::SizeDesc, SortOrder::StatusFirst];
    for (i, o) in orders.iter().enumerate() {
        assert_eq!(sort_order_index(*o), i);
        assert_eq!(sort_order_at(i), *o);
    }
    assert_eq!(sort_order_at(17), SortOrder::NameAsc);
}

#[test]
fn scan_progress_texts() {
    assert_eq!(
        scan_step_label(ScanStep::Entries, "Half-Life", 0, 3),
        "Loading workshop entries for Half-Life (1/3)..."
    );
    assert_eq!(
        scan_step_label(ScanStep::Metadata, "Portal", 2, 3),
        "Fetching workshop metadata for Portal (3/3)..."
    );
    assert_eq!(scan_done_label(&Ok(4)), "Loaded 4 games");
    assert_eq!(scan_done_label(&Err("no Steam".to_string())), "Scan failed: no Steam");
}

#[test]
fn card_and_header_texts() {
    assert_eq!(steam_workshop_utility::listing::item_total_text(12), "12 items");
    assert_eq!(steam_workshop_utility::listing::outdated_badge(0), None);
    assert_eq!(steam_workshop_utility::listing::outdated_badge(3), Some("3 outdated".to_string()));
    assert_eq!(steam_workshop_utility::listing::compact_toggle_label(true), "Expanded");
    assert_eq!(steam_workshop_utility::listing::compact_toggle_label(false), "Compact");
}

#[test]
fn the_shown_items() {
    let m = model_with(sample());
    assert_eq!(m.shown_items().unwrap().len(), 4);
    assert!(AppModel::new().shown_items().is_none());
    let mut other = model_with(sample());
    other.update(Message::SelectGame("2".to_string()));
    assert_eq!(other.shown_items().unwrap()[0].item_id, "9");
    other.update(Message::SelectGame("nope".to_string()));
    assert!(other.shown_items().is_none());
}

#[test]
fn row_buttons_send_their_messages() {
    let it = item("101", Some("Beta"), 1, ItemStatus::OutOfDate);
    let row = item_row("7", &it);
    assert!(matches!(&row.on_press, Message::ToggleItem { appid, item_id } if appid == "7" && item_id == "101"));
    assert!(matches!(&row.on_folder, Message::OpenFolder(p) if p == "/w/101"));
    assert!(matches!(&row.on_steam, Message::OpenSteam { appid, item_id } if appid == "7" && item_id == "101"));
}

#[test]
fn card_and_header_messages() {
    let m = model_with(sample());
    let cards = m.game_cards();
    assert!(matches!(&cards[0].on_press, Message::SelectGame(a) if a == "1"));
    assert!(matches!(&cards[1].on_press, Message::SelectGame(a) if a == "2"));
    assert!(matches!(m.header_toggle_action(), Message::ToggleAllItems(a) if a == "1"));
    assert!(matches!(AppModel::new().header_toggle_action(), Message::ToggleAllItems(a) if a.is_empty()));
    assert!(matches!(sort_choice_message(3), Message::SortChanged(SortOrder::SizeDesc)));
    assert!(matches!(sort_choice_message(9), Message::SortChanged(SortOrder::NameAsc)));
}

#[test]
fn status_line_buttons() {
    assert!(matches!(status_action(StatusLine::Complete), Some(Message::DismissComplete)));
    assert!(matches!(
        status_action(StatusLine::Watching { pending: 1, resolved: 0, initial: 1, elapsed: 2 }),
        Some(Message::StopPolling)
    ));
    assert!(status_action(StatusLine::InProgress).is_none());
    assert!(status_action(StatusLine::Hidden).is_none());
}

#[test]
fn bottom_bar_buttons() {
    let mut m = model_with(sample());
    let acts = m.bottom_bar_actions().unwrap();
    assert!(matches!(&acts.refresh, Some(Message::RefreshGame(a)) if a == "1"));
    assert!(matches!(acts.select_outdated, Some(Message::SelectOutOfDate)));
    assert!(matches!(acts.redownload, Some(Message::ConfirmRedownload)));
    assert!(acts.cancel.is_none() && acts.confirm.is_none());
    m.update(Message::ConfirmRedownload);
    let confirming = m.bottom_bar_actions().unwrap();
    assert!(matches!(confirming.cancel, Some(Message::CancelRedownload)));
    assert!(matches!(confirming.confirm, Some(Message::ForceRedownload)));
    assert!(confirming.refresh.is_none() && confirming.select_outdated.is_none() && confirming.redownload.is_none());
    m.polling = Some(PollingState { appid: "1".to_string(), elapsed_secs: 0, pending_item_ids: vec![], initial_item_count: 0 });
    let busy = m.bottom_bar_actions().unwrap();
    assert!(matches!(busy.cancel, Some(Message::CancelRedownload)));
    assert!(busy.confirm.is_none());
    assert!(AppModel::new().bottom_bar_actions().is_none());
    let idle = BottomBar {
        confirming: false,
        selected_count: 0,
        has_outdated: false,
        refresh_enabled: false,
        select_outdated_enabled: false,
        redownload_enabled: false,
        confirm_enabled: false,
    };
    let none = bar_actions(&idle, "1");
    assert!(none.refresh.is_none() && none.select_outdated.is_none() && none.redownload.is_none());
    assert!(none.cancel.is_none() && none.confirm.is_none());
}

#[test]
fn an_empty_search_lists_every_item() {
    let items = sample();
    for o in [SortOrder::NameAsc, SortOrder::NameDesc, SortOrder::SizeAsc, SortOrder::SizeDesc, SortOrder::StatusFirst] {
        let mut shown = visible_items(&items, "", o);
        shown.sort();
        assert_eq!(shown, vec![0, 1, 2, 3]);
    }
}
