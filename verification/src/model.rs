//! The application's state and how each message changes it: selecting games and items,
//! forcing re-downloads, and watching Steam until the items are up to date again.
use vstd::prelude::*;

use crate::library::{dedup_strings, first_occurrences};
use crate::text::{push_str, string_from_chars};
use crate::types::{GameEntry, ItemStatus, WorkshopItem};

verus! {

/// How the item list is ordered.
#[derive(Debug, Clone, Copy, PartialEq, Eq, Structural)]
pub enum SortOrder {
    NameAsc,
    NameDesc,
    SizeAsc,
    SizeDesc,
    StatusFirst,
}

/// The pages of the context drawer.
#[derive(Debug, Clone, Copy, PartialEq, Eq, Structural)]
pub enum ContextPage {
    About,
}

/// Seconds between two refreshes while watching a re-download.
pub const POLL_INTERVAL_SECS: u32 = 1;

/// Seconds after which watching a re-download stops.
pub const POLL_TIMEOUT_SECS: u32 = 300;

/// A re-download being watched.
#[derive(Debug)]
pub struct PollingState {
    pub appid: String,
    pub elapsed_secs: u32,
    /// Ids of the items not yet seen up to date (no id twice).
    pub pending_item_ids: Vec<String>,
    pub initial_item_count: usize,
}

/// A game, keyed by its appid.
#[derive(Debug)]
pub struct GameSlot {
    pub appid: String,
    pub game: GameEntry,
}

/// The workshop items of a game, keyed by its appid.
#[derive(Debug)]
pub struct ItemsSlot {
    pub appid: String,
    pub items: Vec<WorkshopItem>,
}

/// Where the library scan stands.
#[derive(Debug)]
pub enum AppState {
    Loading,
    Loaded { items: Vec<ItemsSlot>, games: Vec<GameSlot>, game_order: Vec<String> },
    Error(String),
}

/// The state of the application window, without the toolkit's own parts.
#[derive(Debug)]
pub struct AppModel {
    pub context_page: ContextPage,
    pub show_context: bool,
    pub state: AppState,
    pub selected_game: Option<String>,
    pub polling: Option<PollingState>,
    pub confirming_redownload: bool,
    pub redownload_in_progress: bool,
    pub redownload_complete: bool,
    pub search_query: String,
    pub sort_order: SortOrder,
    /// Item ids whose preview image is loaded.
    pub thumbnails: Vec<String>,
    /// Appids whose banner image is loaded.
    pub banners: Vec<String>,
    pub compact_mode: bool,
}

/// What the application is asked to do.
#[derive(Debug)]
pub enum Message {
    LaunchUrl(String),
    ToggleContextPage(ContextPage),
    ScanComplete(Vec<(GameEntry, Vec<WorkshopItem>)>),
    ScanFailed(String),
    SelectGame(String),
    ToggleItem { appid: String, item_id: String },
    ToggleAllItems(String),
    ForceRedownload,
    RedownloadComplete(Result<(), String>),
    OpenFolder(String),
    OpenSteam { appid: String, item_id: String },
    RefreshGame(String),
    RefreshComplete { appid: String, data: Vec<(GameEntry, Vec<WorkshopItem>)> },
    Tick,
    StopPolling,
    ConfirmRedownload,
    CancelRedownload,
    DismissComplete,
    SearchChanged(String),
    SortChanged(SortOrder),
    ThumbnailsLoaded(Vec<String>),
    GameBannerLoaded(String),
    ToggleCompactMode,
    SelectOutOfDate,
}

/// Deleting and re-queueing the chosen items of a game.
#[derive(Debug)]
pub struct RedownloadPlan {
    /// The game (its `appworkshop_<appid>.acf` is looked up when the plan runs).
    pub game: GameEntry,
    pub item_ids: Vec<String>,
    /// The item folders to delete.
    pub paths: Vec<String>,
    /// `steam://workshop_download_item/<appid>/<id>` for each item, in order.
    pub download_uris: Vec<String>,
    /// `steam://validate/<appid>`, opened last.
    pub validate_uri: String,
}

/// Work that an update hands to the caller.
#[derive(Debug)]
pub enum Effect {
    /// Set the header title.
    SetTitle(String),
    /// Fetch these `(item_id, url)` previews, then send `ThumbnailsLoaded`.
    LoadThumbnails(Vec<(String, String)>),
    /// Fetch the banner of this appid, then send `GameBannerLoaded`.
    LoadBanner(String),
    /// Run the plan, then send `RedownloadComplete`.
    Redownload(RedownloadPlan),
    /// Scan this game again, then send `RefreshComplete` (or `ScanFailed`).
    Refresh(String),
    /// Open a URL or URI.
    OpenUrl(String),
    /// Open a folder.
    OpenPath(String),
}

// ---------------------------------------------------------------------------------------
// Views

/// A key-value list viewed with the key's characters.
pub type Assoc<V> = Seq<(Seq<char>, V)>;

/// The loaded library, viewed.
pub struct LoadedView {
    pub items: Assoc<Seq<WorkshopItem>>,
    pub games: Assoc<GameEntry>,
    pub order: Seq<Seq<char>>,
}

/// The scan state, viewed.
pub enum StateView {
    Loading,
    Loaded(LoadedView),
    Error(Seq<char>),
}

/// A watched re-download, viewed.
pub struct PollView {
    pub appid: Seq<char>,
    pub elapsed: u32,
    pub pending: Seq<Seq<char>>,
    pub initial: usize,
}

/// The whole model, viewed.
pub struct ModelView {
    pub context_page: ContextPage,
    pub show_context: bool,
    pub state: StateView,
    pub selected: Option<Seq<char>>,
    pub polling: Option<PollView>,
    pub confirming: bool,
    pub in_progress: bool,
    pub complete: bool,
    pub search: Seq<char>,
    pub sort: SortOrder,
    pub thumbnails: Seq<Seq<char>>,
    pub banners: Seq<Seq<char>>,
    pub compact: bool,
}

/// A re-download plan, viewed.
pub struct PlanView {
    pub game: GameEntry,
    pub item_ids: Seq<Seq<char>>,
    pub paths: Seq<Seq<char>>,
    pub download_uris: Seq<Seq<char>>,
    pub validate_uri: Seq<char>,
}

/// An effect, viewed.
pub enum EffectView {
    SetTitle(Seq<char>),
    LoadThumbnails(Seq<(Seq<char>, Seq<char>)>),
    LoadBanner(Seq<char>),
    Redownload(PlanView),
    Refresh(Seq<char>),
    OpenUrl(Seq<char>),
    OpenPath(Seq<char>),
}

/// A message, viewed.
pub enum MessageView {
    LaunchUrl(Seq<char>),
    ToggleContextPage(ContextPage),
    ScanComplete(Seq<(GameEntry, Seq<WorkshopItem>)>),
    ScanFailed(Seq<char>),
    SelectGame(Seq<char>),
    ToggleItem(Seq<char>, Seq<char>),
    ToggleAllItems(Seq<char>),
    ForceRedownload,
    RedownloadComplete(bool),
    OpenFolder(Seq<char>),
    OpenSteam(Seq<char>, Seq<char>),
    RefreshGame(Seq<char>),
    RefreshComplete(Seq<char>, Seq<(GameEntry, Seq<WorkshopItem>)>),
    Tick,
    StopPolling,
    ConfirmRedownload,
    CancelRedownload,
    DismissComplete,
    SearchChanged(Seq<char>),
    SortChanged(SortOrder),
    ThumbnailsLoaded(Seq<Seq<char>>),
    GameBannerLoaded(Seq<char>),
    ToggleCompactMode,
    SelectOutOfDate,
}

pub open spec fn strings_view(v: Seq<String>) -> Seq<Seq<char>> {
    v.map_values(|s: String| s@)
}

pub open spec fn opt_view(o: Option<String>) -> Option<Seq<char>> {
    match o {
        Some(s) => Some(s@),
        None => None,
    }
}

pub open spec fn games_view(g: Seq<GameSlot>) -> Assoc<GameEntry> {
    g.map_values(|s: GameSlot| (s.appid@, s.game))
}

pub open spec fn items_view(i: Seq<ItemsSlot>) -> Assoc<Seq<WorkshopItem>> {
    i.map_values(|s: ItemsSlot| (s.appid@, s.items@))
}

pub open spec fn results_view(r: Seq<(GameEntry, Vec<WorkshopItem>)>) -> Seq<(GameEntry, Seq<WorkshopItem>)> {
    r.map_values(|p: (GameEntry, Vec<WorkshopItem>)| (p.0, p.1@))
}

impl AppState {
    pub open spec fn view(&self) -> StateView {
        match self {
            AppState::Loading => StateView::Loading,
            AppState::Loaded { items, games, game_order } => StateView::Loaded(
                LoadedView { items: items_view(items@), games: games_view(games@), order: strings_view(game_order@) },
            ),
            AppState::Error(e) => StateView::Error(e@),
        }
    }
}

impl PollingState {
    pub open spec fn view(&self) -> PollView {
        PollView {
            appid: self.appid@,
            elapsed: self.elapsed_secs,
            pending: strings_view(self.pending_item_ids@),
            initial: self.initial_item_count,
        }
    }
}

impl AppModel {
    pub open spec fn view(&self) -> ModelView {
        ModelView {
            context_page: self.context_page,
            show_context: self.show_context,
            state: self.state.view(),
            selected: opt_view(self.selected_game),
            polling: match self.polling {
                Some(p) => Some(p.view()),
                None => None,
            },
            confirming: self.confirming_redownload,
            in_progress: self.redownload_in_progress,
            complete: self.redownload_complete,
            search: self.search_query@,
            sort: self.sort_order,
            thumbnails: strings_view(self.thumbnails@),
            banners: strings_view(self.banners@),
            compact: self.compact_mode,
        }
    }
}

impl RedownloadPlan {
    pub open spec fn view(&self) -> PlanView {
        PlanView {
            game: self.game,
            item_ids: strings_view(self.item_ids@),
            paths: strings_view(self.paths@),
            download_uris: strings_view(self.download_uris@),
            validate_uri: self.validate_uri@,
        }
    }
}

impl Effect {
    pub open spec fn view(&self) -> EffectView {
        match self {
            Effect::SetTitle(t) => EffectView::SetTitle(t@),
            Effect::LoadThumbnails(v) => EffectView::LoadThumbnails(
                v@.map_values(|p: (String, String)| (p.0@, p.1@)),
            ),
            Effect::LoadBanner(a) => EffectView::LoadBanner(a@),
            Effect::Redownload(p) => EffectView::Redownload(p.view()),
            Effect::Refresh(a) => EffectView::Refresh(a@),
            Effect::OpenUrl(u) => EffectView::OpenUrl(u@),
            Effect::OpenPath(p) => EffectView::OpenPath(p@),
        }
    }
}

pub open spec fn effects_view(e: Seq<Effect>) -> Seq<EffectView> {
    e.map_values(|x: Effect| x.view())
}

impl Message {
    pub open spec fn view(&self) -> MessageView {
        match self {
            Message::LaunchUrl(u) => MessageView::LaunchUrl(u@),
            Message::ToggleContextPage(p) => MessageView::ToggleContextPage(*p),
            Message::ScanComplete(r) => MessageView::ScanComplete(results_view(r@)),
            Message::ScanFailed(e) => MessageView::ScanFailed(e@),
            Message::SelectGame(a) => MessageView::SelectGame(a@),
            Message::ToggleItem { appid, item_id } => MessageView::ToggleItem(appid@, item_id@),
            Message::ToggleAllItems(a) => MessageView::ToggleAllItems(a@),
            Message::ForceRedownload => MessageView::ForceRedownload,
            Message::RedownloadComplete(r) => MessageView::RedownloadComplete(r is Ok),
            Message::OpenFolder(p) => MessageView::OpenFolder(p@),
            Message::OpenSteam { appid, item_id } => MessageView::OpenSteam(appid@, item_id@),
            Message::RefreshGame(a) => MessageView::RefreshGame(a@),
            Message::RefreshComplete { appid, data } => MessageView::RefreshComplete(appid@, results_view(data@)),
            Message::Tick => MessageView::Tick,
            Message::StopPolling => MessageView::StopPolling,
            Message::ConfirmRedownload => MessageView::ConfirmRedownload,
            Message::CancelRedownload => MessageView::CancelRedownload,
            Message::DismissComplete => MessageView::DismissComplete,
            Message::SearchChanged(q) => MessageView::SearchChanged(q@),
            Message::SortChanged(o) => MessageView::SortChanged(*o),
            Message::ThumbnailsLoaded(k) => MessageView::ThumbnailsLoaded(strings_view(k@)),
            Message::GameBannerLoaded(a) => MessageView::GameBannerLoaded(a@),
            Message::ToggleCompactMode => MessageView::ToggleCompactMode,
            Message::SelectOutOfDate => MessageView::SelectOutOfDate,
        }
    }
}

// ---------------------------------------------------------------------------------------
// Key-value lists (the `HashMap`s of the state)

/// Index of the entry for key `k`.
pub open spec fn assoc_find<V>(s: Assoc<V>, k: Seq<char>) -> Option<int>
    decreases s.len(),
{
    if s.len() == 0 {
        None
    } else if s.last().0 == k {
        Some(s.len() - 1)
    } else {
        assoc_find(s.drop_last(), k)
    }
}

/// The value for key `k` (`HashMap::get`).
pub open spec fn assoc_get<V>(s: Assoc<V>, k: Seq<char>) -> Option<V> {
    match assoc_find(s, k) {
        Some(i) => Some(s[i].1),
        None => None,
    }
}

/// `s` with `k` set to `v` (`HashMap::insert`).
pub open spec fn assoc_put<V>(s: Assoc<V>, k: Seq<char>, v: V) -> Assoc<V> {
    match assoc_find(s, k) {
        Some(i) => s.update(i, (k, v)),
        None => s.push((k, v)),
    }
}

/// No key occurs twice.
pub open spec fn keys_distinct<V>(s: Assoc<V>) -> bool {
    forall|i: int, j: int| 0 <= i < j < s.len() ==> s[i].0 != s[j].0
}

pub proof fn lemma_assoc_find<V>(s: Assoc<V>, k: Seq<char>)
    ensures
        assoc_find(s, k) matches Some(i) ==> 0 <= i < s.len() && s[i].0 == k,
        assoc_find(s, k) is None ==> forall|j: int| 0 <= j < s.len() ==> s[j].0 != k,
    decreases s.len(),
{
    if s.len() > 0 && s.last().0 != k {
        lemma_assoc_find(s.drop_last(), k);
        assert forall|j: int| 0 <= j < s.len() - 1 implies s[j] == s.drop_last()[j] by {}
    }
}

pub proof fn lemma_assoc_put_distinct<V>(s: Assoc<V>, k: Seq<char>, v: V)
    requires
        keys_distinct(s),
    ensures
        keys_distinct(assoc_put(s, k, v)),
{
    lemma_assoc_find(s, k);
}

// ---------------------------------------------------------------------------------------
// What an update computes

/// Items with every out-of-date item selected.
pub open spec fn select_out_of_date(items: Seq<WorkshopItem>) -> Seq<WorkshopItem> {
    items.map_values(
        |it: WorkshopItem|
            if it.status == ItemStatus::OutOfDate {
                WorkshopItem { selected: true, ..it }
            } else {
                it
            },
    )
}

/// Items with the selection of each set to `sel`.
pub open spec fn with_selection(items: Seq<WorkshopItem>, sel: bool) -> Seq<WorkshopItem> {
    items.map_values(|it: WorkshopItem| WorkshopItem { selected: sel, ..it })
}

/// The library after a scan: games with no workshop items are left out; out-of-date
/// items start selected; the order is the scan's.
pub open spec fn scan_view(results: Seq<(GameEntry, Seq<WorkshopItem>)>) -> LoadedView
    decreases results.len(),
{
    if results.len() == 0 {
        LoadedView { items: Seq::empty(), games: Seq::empty(), order: Seq::empty() }
    } else {
        let prev = scan_view(results.drop_last());
        let (g, its) = results.last();
        if its.len() == 0 {
            prev
        } else {
            LoadedView {
                items: assoc_put(prev.items, g.appid@, select_out_of_date(its)),
                games: assoc_put(prev.games, g.appid@, g),
                order: prev.order.push(g.appid@),
            }
        }
    }
}

/// The header title: the app name, and the selected game's name if it has one.
pub open spec fn title_of(m: ModelView) -> Seq<char> {
    let base = "Steam Workshop Utility"@;
    match (m.selected, m.state) {
        (Some(a), StateView::Loaded(l)) => match assoc_get(l.games, a) {
            Some(g) => match g.name {
                Some(n) => base + " — "@ + n@,
                None => base,
            },
            None => base,
        },
        _ => base,
    }
}

/// The previews to fetch: items with a preview URL and no loaded image, in order.
pub open spec fn previews_to_fetch(items: Seq<WorkshopItem>, cache: Seq<Seq<char>>) -> Seq<(Seq<char>, Seq<char>)>
    decreases items.len(),
{
    if items.len() == 0 {
        Seq::empty()
    } else {
        let prev = previews_to_fetch(items.drop_last(), cache);
        let it = items.last();
        match it.preview_url {
            Some(u) => if cache.contains(it.item_id@) {
                prev
            } else {
                prev.push((it.item_id@, u@))
            },
            None => prev,
        }
    }
}

/// The preview loading for the selected game (nothing when nothing is missing).
pub open spec fn thumbnail_effects(m: ModelView) -> Seq<EffectView> {
    match (m.state, m.selected) {
        (StateView::Loaded(l), Some(a)) => match assoc_get(l.items, a) {
            Some(its) => {
                let f = previews_to_fetch(its, m.thumbnails);
                if f.len() > 0 {
                    seq![EffectView::LoadThumbnails(f)]
                } else {
                    Seq::empty()
                }
            },
            None => Seq::empty(),
        },
        _ => Seq::empty(),
    }
}

/// The banner loading for `appid` (nothing when its banner is loaded).
pub open spec fn banner_effect(m: ModelView, appid: Seq<char>) -> Seq<EffectView> {
    if m.banners.contains(appid) {
        Seq::empty()
    } else {
        seq![EffectView::LoadBanner(appid)]
    }
}

/// Banner loading for each appid in turn.
pub open spec fn banner_effects(m: ModelView, appids: Seq<Seq<char>>) -> Seq<EffectView>
    decreases appids.len(),
{
    if appids.len() == 0 {
        Seq::empty()
    } else {
        banner_effects(m, appids.drop_last()) + banner_effect(m, appids.last())
    }
}

/// The selected items of a list, in order.
pub open spec fn selected_items(items: Seq<WorkshopItem>) -> Seq<WorkshopItem> {
    items.filter(|it: WorkshopItem| it.selected)
}

/// The re-download plan for the selected items of game `g`.
pub open spec fn plan_for(g: GameEntry, sel: Seq<WorkshopItem>) -> PlanView {
    let ids = sel.map_values(|it: WorkshopItem| it.item_id@);
    PlanView {
        game: g,
        item_ids: ids,
        paths: sel.map_values(|it: WorkshopItem| it.path@),
        download_uris: ids.map_values(
            |id: Seq<char>| "steam://workshop_download_item/"@ + g.appid@ + "/"@ + id,
        ),
        validate_uri: "steam://validate/"@ + g.appid@,
    }
}

/// Index of the first item with id `id`.
pub open spec fn item_index(items: Seq<WorkshopItem>, id: Seq<char>) -> Option<int>
    decreases items.len(),
{
    if items.len() == 0 {
        None
    } else {
        match item_index(items.drop_last(), id) {
            Some(i) => Some(i),
            None => if items.last().item_id@ == id {
                Some(items.len() - 1)
            } else {
                None
            },
        }
    }
}

/// Whether a pending id stays pending after a refresh: its item is missing or not up
/// to date.
pub open spec fn still_pending(items: Seq<WorkshopItem>, id: Seq<char>) -> bool {
    match item_index(items, id) {
        Some(i) => items[i].status != ItemStatus::UpToDate,
        None => true,
    }
}

/// `ModelView` with a new state.
pub open spec fn with_state(m: ModelView, st: StateView) -> ModelView {
    ModelView { state: st, ..m }
}

/// Replaces the item list of game `a`, if the library is loaded and has it.
pub open spec fn map_game_items(m: ModelView, a: Seq<char>, f: spec_fn(Seq<WorkshopItem>) -> Seq<WorkshopItem>) -> ModelView {
    match m.state {
        StateView::Loaded(l) => match assoc_find(l.items, a) {
            Some(k) => with_state(m, StateView::Loaded(LoadedView { items: l.items.update(k, (l.items[k].0, f(l.items[k].1))), ..l })),
            None => m,
        },
        _ => m,
    }
}

/// The item list with the first item of id `id` toggled.
pub open spec fn toggle_item(items: Seq<WorkshopItem>, id: Seq<char>) -> Seq<WorkshopItem> {
    match item_index(items, id) {
        Some(j) => items.update(j, WorkshopItem { selected: !items[j].selected, ..items[j] }),
        None => items,
    }
}

/// Every item selected, or all deselected when all were selected.
pub open spec fn toggle_all(items: Seq<WorkshopItem>) -> Seq<WorkshopItem> {
    with_selection(items, !(forall|i: int| 0 <= i < items.len() ==> #[trigger] items[i].selected))
}

/// Every game's items with the selection cleared.
pub open spec fn clear_all_selections(items: Assoc<Seq<WorkshopItem>>) -> Assoc<Seq<WorkshopItem>> {
    items.map_values(|p: (Seq<char>, Seq<WorkshopItem>)| (p.0, with_selection(p.1, false)))
}

/// The model and effects after `RedownloadComplete` (with success or not).
pub open spec fn redownload_complete_step(m: ModelView, ok: bool) -> (ModelView, Seq<EffectView>) {
    let m1 = ModelView { in_progress: false, ..m };
    if !ok {
        (m1, Seq::empty())
    } else {
        match m1.selected {
            None => (m1, Seq::empty()),
            Some(a) => {
                let pending = match m1.state {
                    StateView::Loaded(l) => match assoc_get(l.items, a) {
                        Some(its) => first_occurrences(selected_items(its).map_values(|it: WorkshopItem| it.item_id@)),
                        None => Seq::empty(),
                    },
                    _ => Seq::empty(),
                };
                let m2 = match m1.state {
                    StateView::Loaded(l) => with_state(m1, StateView::Loaded(LoadedView { items: clear_all_selections(l.items), ..l })),
                    _ => m1,
                };
                (
                    ModelView { polling: Some(PollView { appid: a, elapsed: 0, pending, initial: pending.len() as usize }), ..m2 },
                    seq![EffectView::Refresh(a)],
                )
            },
        }
    }
}

/// The model and effects after `RefreshComplete` for `a`.
pub open spec fn refresh_complete_step(m: ModelView, a: Seq<char>, data: Seq<(GameEntry, Seq<WorkshopItem>)>) -> (ModelView, Seq<EffectView>) {
    match m.state {
        StateView::Loaded(l) => if data.len() > 0 {
            let g = data[0].0;
            let its = select_out_of_date(data[0].1);
            let m1 = match m.polling {
                Some(p) => if p.appid == a {
                    let pend = p.pending.filter(|id: Seq<char>| still_pending(its, id));
                    if pend.len() == 0 {
                        ModelView { polling: None, complete: true, ..m }
                    } else {
                        ModelView { polling: Some(PollView { pending: pend, ..p }), ..m }
                    }
                } else {
                    m
                },
                None => m,
            };
            let m2 = with_state(m1, StateView::Loaded(LoadedView { games: assoc_put(l.games, a, g), items: assoc_put(l.items, a, its), ..l }));
            (m2, thumbnail_effects(m2))
        } else {
            (m, thumbnail_effects(m))
        },
        _ => (m, thumbnail_effects(m)),
    }
}

/// The model and effects after `ForceRedownload`.
pub open spec fn force_redownload_step(m: ModelView) -> (ModelView, Seq<EffectView>) {
    let m1 = ModelView { confirming: false, in_progress: true, complete: false, ..m };
    let none = (m1, Seq::<EffectView>::empty());
    match (m.state, m.selected) {
        (StateView::Loaded(l), Some(a)) => match (assoc_get(l.games, a), assoc_get(l.items, a)) {
            (Some(g), Some(its)) => {
                let sel = selected_items(its);
                if sel.len() == 0 {
                    none
                } else {
                    (m1, seq![EffectView::Redownload(plan_for(g, sel))])
                }
            },
            _ => none,
        },
        _ => none,
    }
}

/// The model and effects after a message.
pub open spec fn update_step(m: ModelView, msg: MessageView) -> (ModelView, Seq<EffectView>) {
    match msg {
        MessageView::ScanComplete(results) => {
            let l = scan_view(results);
            let m1 = ModelView {
                state: StateView::Loaded(l),
                selected: if l.order.len() > 0 { Some(l.order[0]) } else { None },
                ..m
            };
            (m1, seq![EffectView::SetTitle(title_of(m1))] + thumbnail_effects(m1) + banner_effects(m1, l.order))
        },
        MessageView::ScanFailed(e) => (with_state(m, StateView::Error(e)), Seq::empty()),
        MessageView::SelectGame(a) => {
            let m1 = ModelView { selected: Some(a), confirming: false, complete: false, ..m };
            (m1, seq![EffectView::SetTitle(title_of(m1))] + thumbnail_effects(m1) + banner_effect(m1, a))
        },
        MessageView::ToggleContextPage(p) => if m.context_page == p {
            (ModelView { show_context: !m.show_context, ..m }, Seq::empty())
        } else {
            (ModelView { context_page: p, show_context: true, ..m }, Seq::empty())
        },
        MessageView::LaunchUrl(u) => (m, seq![EffectView::OpenUrl(u)]),
        MessageView::ToggleItem(a, id) => (map_game_items(m, a, |its: Seq<WorkshopItem>| toggle_item(its, id)), Seq::empty()),
        MessageView::ToggleAllItems(a) => (map_game_items(m, a, |its: Seq<WorkshopItem>| toggle_all(its)), Seq::empty()),
        MessageView::ForceRedownload => force_redownload_step(m),
        MessageView::RedownloadComplete(ok) => redownload_complete_step(m, ok),
        MessageView::OpenFolder(p) => (m, seq![EffectView::OpenPath(p)]),
        MessageView::OpenSteam(_a, id) => (m, seq![EffectView::OpenUrl("steam://url/CommunityFilePage/"@ + id)]),
        MessageView::RefreshGame(a) => (m, seq![EffectView::Refresh(a)]),
        MessageView::RefreshComplete(a, data) => refresh_complete_step(m, a, data),
        MessageView::Tick => match m.polling {
            None => (m, Seq::empty()),
            Some(p) => if p.elapsed + POLL_INTERVAL_SECS >= POLL_TIMEOUT_SECS {
                (ModelView { polling: None, ..m }, Seq::empty())
            } else {
                (ModelView { polling: Some(PollView { elapsed: (p.elapsed + POLL_INTERVAL_SECS) as u32, ..p }), ..m }, seq![EffectView::Refresh(p.appid)])
            },
        },
        MessageView::StopPolling => (ModelView { polling: None, ..m }, Seq::empty()),
        MessageView::ConfirmRedownload => (ModelView { confirming: true, ..m }, Seq::empty()),
        MessageView::CancelRedownload => (ModelView { confirming: false, ..m }, Seq::empty()),
        MessageView::DismissComplete => (ModelView { complete: false, ..m }, Seq::empty()),
        MessageView::SearchChanged(q) => (ModelView { search: q, ..m }, Seq::empty()),
        MessageView::SortChanged(o) => (ModelView { sort: o, ..m }, Seq::empty()),
        MessageView::ThumbnailsLoaded(keys) => (ModelView { thumbnails: m.thumbnails + keys, ..m }, Seq::empty()),
        MessageView::GameBannerLoaded(a) => if a.len() > 0 {
            (ModelView { banners: m.banners.push(a), ..m }, Seq::empty())
        } else {
            (m, Seq::empty())
        },
        MessageView::ToggleCompactMode => (ModelView { compact: !m.compact, ..m }, Seq::empty()),
        MessageView::SelectOutOfDate => match m.selected {
            Some(a) => (map_game_items(m, a, |its: Seq<WorkshopItem>| select_out_of_date(its)), Seq::empty()),
            None => (m, Seq::empty()),
        },
    }
}

/// The model's invariant: each appid keys one entry, and a watched re-download has not
/// timed out and waits for no id twice.
pub open spec fn model_wf(m: ModelView) -> bool {
    &&& match m.state {
        StateView::Loaded(l) => keys_distinct(l.items) && keys_distinct(l.games),
        _ => true,
    }
    &&& match m.polling {
        Some(p) => p.elapsed < POLL_TIMEOUT_SECS && p.pending.no_duplicates(),
        None => true,
    }
}

} // verus!

verus! {

// ---------------------------------------------------------------------------------------
// Executable parts

pub(crate) fn find_game(games: &Vec<GameSlot>, a: &String) -> (res: Option<usize>)
    ensures
        match res {
            Some(i) => assoc_find(games_view(games@), a@) == Some(i as int) && i < games@.len()
                && games_view(games@)[i as int] == (games@[i as int].appid@, games@[i as int].game),
            None => assoc_find(games_view(games@), a@) is None,
        },
{
    proof {
        lemma_assoc_find(games_view(games@), a@);
    }
    let ghost gv = games_view(games@);
    let mut i = games.len();
    assert(gv.take(i as int) =~= gv);
    while i > 0
        invariant
            i <= games.len(),
            gv == games_view(games@),
            assoc_find(gv, a@) == assoc_find(gv.take(i as int), a@),
        decreases i,
    {
        assert(gv.take(i as int).drop_last() =~= gv.take(i - 1));
        assert(gv.take(i as int).last() == gv[i - 1]);
        if games[i - 1].appid == *a {
            return Some(i - 1);
        }
        i = i - 1;
    }
    None
}

pub(crate) fn find_items(items: &Vec<ItemsSlot>, a: &String) -> (res: Option<usize>)
    ensures
        match res {
            Some(i) => assoc_find(items_view(items@), a@) == Some(i as int) && i < items@.len()
                && items_view(items@)[i as int] == (items@[i as int].appid@, items@[i as int].items@),
            None => assoc_find(items_view(items@), a@) is None,
        },
{
    proof {
        lemma_assoc_find(items_view(items@), a@);
    }
    let ghost iv = items_view(items@);
    let mut i = items.len();
    assert(iv.take(i as int) =~= iv);
    while i > 0
        invariant
            i <= items.len(),
            iv == items_view(items@),
            assoc_find(iv, a@) == assoc_find(iv.take(i as int), a@),
        decreases i,
    {
        assert(iv.take(i as int).drop_last() =~= iv.take(i - 1));
        assert(iv.take(i as int).last() == iv[i - 1]);
        if items[i - 1].appid == *a {
            return Some(i - 1);
        }
        i = i - 1;
    }
    None
}

fn put_game(games: &mut Vec<GameSlot>, a: String, g: GameEntry)
    ensures
        games_view(final(games)@) == assoc_put(games_view(old(games)@), a@, g),
{
    proof {
        lemma_assoc_find(games_view(games@), a@);
    }
    match find_game(games, &a) {
        Some(i) => {
            games.set(i, GameSlot { appid: a, game: g });
            assert(games_view(games@) =~= assoc_put(games_view(old(games)@), a@, g));
        },
        None => {
            games.push(GameSlot { appid: a, game: g });
            assert(games_view(games@) =~= assoc_put(games_view(old(games)@), a@, g));
        },
    }
}

fn put_items(items: &mut Vec<ItemsSlot>, a: String, its: Vec<WorkshopItem>)
    ensures
        items_view(final(items)@) == assoc_put(items_view(old(items)@), a@, its@),
{
    proof {
        lemma_assoc_find(items_view(items@), a@);
    }
    let ghost iv = its@;
    match find_items(items, &a) {
        Some(i) => {
            items.set(i, ItemsSlot { appid: a, items: its });
            assert(items_view(items@) =~= assoc_put(items_view(old(items)@), a@, iv));
        },
        None => {
            items.push(ItemsSlot { appid: a, items: its });
            assert(items_view(items@) =~= assoc_put(items_view(old(items)@), a@, iv));
        },
    }
}

fn mark_out_of_date(items: &mut Vec<WorkshopItem>)
    ensures
        final(items)@ == select_out_of_date(old(items)@),
{
    let ghost orig = items@;
    let mut j: usize = 0;
    while j < items.len()
        invariant
            j <= items@.len(),
            items@.len() == orig.len(),
            forall|k: int| 0 <= k < j ==> items@[k] == select_out_of_date(orig)[k],
            forall|k: int| j <= k < items@.len() ==> items@[k] == orig[k],
        decreases items@.len() - j,
    {
        if items[j].status == ItemStatus::OutOfDate {
            items[j].selected = true;
        }
        j = j + 1;
    }
    assert(items@ =~= select_out_of_date(orig));
}

fn set_all_selected(items: &mut Vec<WorkshopItem>, sel: bool)
    ensures
        final(items)@ == with_selection(old(items)@, sel),
{
    let ghost orig = items@;
    let mut j: usize = 0;
    while j < items.len()
        invariant
            j <= items@.len(),
            items@.len() == orig.len(),
            forall|k: int| 0 <= k < j ==> items@[k] == with_selection(orig, sel)[k],
            forall|k: int| j <= k < items@.len() ==> items@[k] == orig[k],
        decreases items@.len() - j,
    {
        items[j].selected = sel;
        j = j + 1;
    }
    assert(items@ =~= with_selection(orig, sel));
}

fn find_item(items: &Vec<WorkshopItem>, id: &String) -> (res: Option<usize>)
    ensures
        match res {
            Some(j) => item_index(items@, id@) == Some(j as int),
            None => item_index(items@, id@) is None,
        },
{
    let mut j: usize = 0;
    while j < items.len()
        invariant
            j <= items@.len(),
            item_index(items@.take(j as int), id@) is None,
        decreases items@.len() - j,
    {
        assert(items@.take(j + 1).drop_last() =~= items@.take(j as int));
        if items[j].item_id == *id {
            proof {
                lemma_item_index_prefix(items@, id@, j as int);
            }
            return Some(j);
        }
        j = j + 1;
    }
    assert(items@.take(items@.len() as int) =~= items@);
    None
}

proof fn lemma_item_index_prefix(items: Seq<WorkshopItem>, id: Seq<char>, j: int)
    requires
        0 <= j < items.len(),
        item_index(items.take(j), id) is None,
        items[j].item_id@ == id,
    ensures
        item_index(items, id) == Some(j),
    decreases items.len(),
{
    if items.len() == j + 1 {
        assert(items.drop_last() =~= items.take(j));
    } else {
        assert(items.drop_last().take(j) =~= items.take(j));
        lemma_item_index_prefix(items.drop_last(), id, j);
    }
}

/// Whether every item is selected.
fn all_selected(items: &Vec<WorkshopItem>) -> (res: bool)
    ensures
        res == (forall|i: int| 0 <= i < items@.len() ==> #[trigger] items@[i].selected),
{
    let mut j: usize = 0;
    while j < items.len()
        invariant
            j <= items@.len(),
            forall|i: int| 0 <= i < j ==> #[trigger] items@[i].selected,
        decreases items@.len() - j,
    {
        if !items[j].selected {
            return false;
        }
        j = j + 1;
    }
    true
}

fn copy_strings_into(v: &Vec<String>) -> (res: Vec<String>)
    ensures
        strings_view(res@) == strings_view(v@),
{
    let r = crate::types::copy_strings(v);
    r
}

impl AppModel {
    /// A model in its first state: scanning, nothing selected.
    pub fn new() -> (res: AppModel)
        ensures
            res@.state == StateView::Loading,
            res@.selected is None,
            res@.polling is None,
            !res@.confirming && !res@.in_progress && !res@.complete,
            res@.search.len() == 0,
            res@.sort == SortOrder::NameAsc,
            res@.thumbnails.len() == 0 && res@.banners.len() == 0,
            !res@.compact && !res@.show_context,
            model_wf(res@),
    {
        AppModel {
            context_page: ContextPage::About,
            show_context: false,
            state: AppState::Loading,
            selected_game: None,
            polling: None,
            confirming_redownload: false,
            redownload_in_progress: false,
            redownload_complete: false,
            search_query: String::new(),
            sort_order: SortOrder::NameAsc,
            thumbnails: Vec::new(),
            banners: Vec::new(),
            compact_mode: false,
        }
    }

    /// The title that the header and the window show: the application's name, and the
    /// selected game's name when it has one.
    pub fn update_title(&self) -> (res: String)
        ensures
            res@ == title_of(self@),
    {
        let mut v: Vec<char> = Vec::new();
        push_str(&mut v, "Steam Workshop Utility");
        if let Some(a) = &self.selected_game {
            if let AppState::Loaded { games, .. } = &self.state {
                if let Some(i) = find_game(games, a) {
                    if let Some(n) = &games[i].game.name {
                        push_str(&mut v, " — ");
                        push_str(&mut v, n.as_str());
                    }
                }
            }
        }
        string_from_chars(&v)
    }

    fn thumbnail_cached(&self, id: &String) -> (res: bool)
        ensures
            res == self@.thumbnails.contains(id@),
    {
        let mut i: usize = 0;
        while i < self.thumbnails.len()
            invariant
                i <= self.thumbnails@.len(),
                forall|k: int| 0 <= k < i ==> self.thumbnails@[k]@ != id@,
            decreases self.thumbnails@.len() - i,
        {
            if self.thumbnails[i] == *id {
                assert(strings_view(self.thumbnails@)[i as int] == id@);
                return true;
            }
            i = i + 1;
        }
        assert forall|k: int| 0 <= k < strings_view(self.thumbnails@).len() implies strings_view(self.thumbnails@)[k] != id@ by {
            assert(strings_view(self.thumbnails@)[k] == self.thumbnails@[k]@);
        }
        false
    }

    pub(crate) fn banner_cached(&self, a: &String) -> (res: bool)
        ensures
            res == self@.banners.contains(a@),
    {
        let mut i: usize = 0;
        while i < self.banners.len()
            invariant
                i <= self.banners@.len(),
                forall|k: int| 0 <= k < i ==> self.banners@[k]@ != a@,
            decreases self.banners@.len() - i,
        {
            if self.banners[i] == *a {
                assert(strings_view(self.banners@)[i as int] == a@);
                return true;
            }
            i = i + 1;
        }
        assert forall|k: int| 0 <= k < strings_view(self.banners@).len() implies strings_view(self.banners@)[k] != a@ by {
            assert(strings_view(self.banners@)[k] == self.banners@[k]@);
        }
        false
    }

    /// `load_thumbnails_for_active_game`: the previews still to fetch.
    pub fn thumbnail_effects(&self) -> (res: Vec<Effect>)
        ensures
            effects_view(res@) == thumbnail_effects(self@),
    {
        let mut res: Vec<Effect> = Vec::new();
        let a = match &self.selected_game {
            Some(a) => a,
            None => {
                assert(effects_view(res@) =~= thumbnail_effects(self@));
                return res;
            },
        };
        let items = match &self.state {
            AppState::Loaded { items, .. } => items,
            _ => {
                assert(effects_view(res@) =~= thumbnail_effects(self@));
                return res;
            },
        };
        let k = match find_items(items, a) {
            Some(k) => k,
            None => {
                assert(effects_view(res@) =~= thumbnail_effects(self@));
                return res;
            },
        };
        let its = &items[k].items;
        let ghost cache = self@.thumbnails;
        let mut fetch: Vec<(String, String)> = Vec::new();
        let mut j: usize = 0;
        while j < its.len()
            invariant
                j <= its@.len(),
                cache == self@.thumbnails,
                fetch@.map_values(|p: (String, String)| (p.0@, p.1@)) == previews_to_fetch(its@.take(j as int), cache),
            decreases its@.len() - j,
        {
            assert(its@.take(j + 1).drop_last() =~= its@.take(j as int));
            assert(its@.take(j + 1).last() == its@[j as int]);
            let it = &its[j];
            let ghost before = fetch@;
            if let Some(u) = &it.preview_url {
                if !self.thumbnail_cached(&it.item_id) {
                    fetch.push((it.item_id.clone(), u.clone()));
                    assert(fetch@.map_values(|p: (String, String)| (p.0@, p.1@)) =~= before.map_values(|p: (String, String)| (p.0@, p.1@)).push((it.item_id@, u@)));
                }
            }
            j = j + 1;
        }
        assert(its@.take(its@.len() as int) =~= its@);
        if fetch.len() > 0 {
            res.push(Effect::LoadThumbnails(fetch));
        }
        assert(effects_view(res@) =~= thumbnail_effects(self@));
        res
    }

    /// `load_banner_for_appid`: nothing when the banner is already loaded.
    fn banner_effect_for(&self, a: &String, out: &mut Vec<Effect>)
        ensures
            effects_view(final(out)@) == effects_view(old(out)@) + banner_effect(self@, a@),
    {
        if !self.banner_cached(a) {
            out.push(Effect::LoadBanner(a.clone()));
        }
        assert(effects_view(out@) =~= effects_view(old(out)@) + banner_effect(self@, a@));
    }
}

} // verus!

verus! {

impl AppModel {
    fn on_scan_complete(&mut self, results: Vec<(GameEntry, Vec<WorkshopItem>)>) -> (res: Vec<Effect>)
        ensures
            final(self)@ == update_step(old(self)@, MessageView::ScanComplete(results_view(results@))).0,
            effects_view(res@) == update_step(old(self)@, MessageView::ScanComplete(results_view(results@))).1,
    {
        let ghost rv = results_view(results@);
        let mut results = results;
        let mut items: Vec<ItemsSlot> = Vec::new();
        let mut games: Vec<GameSlot> = Vec::new();
        let mut order: Vec<String> = Vec::new();
        let n = results.len();
        let mut i: usize = 0;
        assert(rv.take(0) =~= Seq::<(GameEntry, Seq<WorkshopItem>)>::empty());
        assert(items_view(items@) =~= Seq::<(Seq<char>, Seq<WorkshopItem>)>::empty());
        assert(games_view(games@) =~= Seq::<(Seq<char>, GameEntry)>::empty());
        assert(strings_view(order@) =~= Seq::<Seq<char>>::empty());
        while i < n
            invariant
                i <= n,
                n == rv.len(),
                results_view(results@) == rv.skip(i as int),
                results@.len() == n - i,
                (LoadedView { items: items_view(items@), games: games_view(games@), order: strings_view(order@) }) == scan_view(rv.take(i as int)),
            decreases n - i,
        {
            assert(results_view(results@)[0] == rv[i as int]);
            let ghost before_remove = results@;
            let (game, mut its) = results.remove(0);
            assert(results@ =~= before_remove.skip(1));
            assert(results_view(results@) =~= results_view(before_remove).skip(1));
            assert(rv.skip(i as int).skip(1) =~= rv.skip(i + 1));
            assert(results_view(results@) =~= rv.skip(i + 1));
            assert(rv.take(i + 1).drop_last() =~= rv.take(i as int));
            assert(rv.take(i + 1).last() == rv[i as int]);
            if its.len() > 0 {
                mark_out_of_date(&mut its);
                let appid = game.appid.clone();
                let ghost ov = order@;
                order.push(appid.clone());
                assert(strings_view(order@) =~= strings_view(ov).push(game.appid@));
                put_game(&mut games, appid.clone(), game);
                put_items(&mut items, appid, its);
            }
            i = i + 1;
        }
        let first = if order.len() > 0 {
            Some(order[0].clone())
        } else {
            None
        };
        assert(strings_view(order@).len() == order@.len());
        if order.len() > 0 {
            assert(strings_view(order@)[0] == order@[0]@);
        }
        let order_copy = copy_strings_into(&order);
        self.selected_game = first;
        self.state = AppState::Loaded { items, games, game_order: order };
        assert(rv.take(n as int) =~= rv);
        let mut res: Vec<Effect> = Vec::new();
        res.push(Effect::SetTitle(self.update_title()));
        let mut thumbs = self.thumbnail_effects();
        res.append(&mut thumbs);
        let ghost before = effects_view(res@);
        let mut k: usize = 0;
        while k < order_copy.len()
            invariant
                k <= order_copy@.len(),
                effects_view(res@) == before + banner_effects(self@, strings_view(order_copy@).take(k as int)),
            decreases order_copy@.len() - k,
        {
            assert(strings_view(order_copy@).take(k + 1).drop_last() =~= strings_view(order_copy@).take(k as int));
            assert(strings_view(order_copy@).take(k + 1).last() == order_copy@[k as int]@);
            let ghost mid = effects_view(res@);
            self.banner_effect_for(&order_copy[k], &mut res);
            assert(effects_view(res@) =~= before + banner_effects(self@, strings_view(order_copy@).take(k + 1)));
            k = k + 1;
        }
        assert(strings_view(order_copy@).take(order_copy@.len() as int) =~= strings_view(order_copy@));
        assert(effects_view(res@) =~= update_step(old(self)@, MessageView::ScanComplete(rv)).1);
        res
    }
}

} // verus!

verus! {

impl AppModel {
    fn on_toggle_item(&mut self, a: &String, id: &String)
        ensures
            final(self)@ == update_step(old(self)@, MessageView::ToggleItem(a@, id@)).0,
    {
        if let AppState::Loaded { items, .. } = &mut self.state {
            if let Some(k) = find_items(items, a) {
                if let Some(j) = find_item(&items[k].items, id) {
                    proof {
                        lemma_item_index_bound(items@[k as int].items@, id@);
                    }
                    let ghost before = items@;
                    items[k].items[j].selected = !items[k].items[j].selected;
                    assert(items_view(items@) =~= items_view(before).update(k as int, (before[k as int].appid@, toggle_item(before[k as int].items@, id@))));
                } else {
                    assert(items_view(items@) =~= items_view(items@).update(k as int, (items@[k as int].appid@, toggle_item(items@[k as int].items@, id@))));
                }
            }
        }
    }

    fn on_toggle_all(&mut self, a: &String)
        ensures
            final(self)@ == update_step(old(self)@, MessageView::ToggleAllItems(a@)).0,
    {
        if let AppState::Loaded { items, .. } = &mut self.state {
            if let Some(k) = find_items(items, a) {
                let all = all_selected(&items[k].items);
                let ghost before = items@;
                set_all_selected(&mut items[k].items, !all);
                assert(items_view(items@) =~= items_view(before).update(k as int, (before[k as int].appid@, toggle_all(before[k as int].items@))));
            }
        }
    }

    fn on_select_out_of_date(&mut self)
        ensures
            final(self)@ == update_step(old(self)@, MessageView::SelectOutOfDate).0,
    {
        let a = match &self.selected_game {
            Some(a) => a.clone(),
            None => return,
        };
        if let AppState::Loaded { items, .. } = &mut self.state {
            if let Some(k) = find_items(items, &a) {
                let ghost before = items@;
                mark_out_of_date(&mut items[k].items);
                assert(items_view(items@) =~= items_view(before).update(k as int, (before[k as int].appid@, select_out_of_date(before[k as int].items@))));
            }
        }
    }
}

proof fn lemma_item_index_bound(items: Seq<WorkshopItem>, id: Seq<char>)
    ensures
        item_index(items, id) matches Some(j) ==> 0 <= j < items.len() && items[j].item_id@ == id,
    decreases items.len(),
{
    if items.len() > 0 {
        lemma_item_index_bound(items.drop_last(), id);
    }
}

} // verus!

verus! {

/// The download URI of one item.
fn download_uri(appid: &String, id: &String) -> (res: String)
    ensures
        res@ == "steam://workshop_download_item/"@ + appid@ + "/"@ + id@,
{
    let mut v: Vec<char> = Vec::new();
    push_str(&mut v, "steam://workshop_download_item/");
    push_str(&mut v, appid.as_str());
    push_str(&mut v, "/");
    push_str(&mut v, id.as_str());
    string_from_chars(&v)
}

/// Ids and paths of the selected items.
fn selected_ids_and_paths(its: &Vec<WorkshopItem>) -> (res: (Vec<String>, Vec<String>))
    ensures
        strings_view(res.0@) == selected_items(its@).map_values(|it: WorkshopItem| it.item_id@),
        strings_view(res.1@) == selected_items(its@).map_values(|it: WorkshopItem| it.path@),
{
    let mut ids: Vec<String> = Vec::new();
    let mut paths: Vec<String> = Vec::new();
    let mut j: usize = 0;
    while j < its.len()
        invariant
            j <= its@.len(),
            strings_view(ids@) == selected_items(its@.take(j as int)).map_values(|it: WorkshopItem| it.item_id@),
            strings_view(paths@) == selected_items(its@.take(j as int)).map_values(|it: WorkshopItem| it.path@),
        decreases its@.len() - j,
    {
        assert(its@.take(j + 1).drop_last() =~= its@.take(j as int));
        assert(its@.take(j + 1).last() == its@[j as int]);
        reveal_with_fuel(Seq::filter, 1);
        let ghost ib = ids@;
        let ghost pb = paths@;
        if its[j].selected {
            ids.push(its[j].item_id.clone());
            paths.push(its[j].path.clone());
            assert(strings_view(ids@) =~= strings_view(ib).push(its@[j as int].item_id@));
            assert(strings_view(paths@) =~= strings_view(pb).push(its@[j as int].path@));
            assert(selected_items(its@.take(j + 1)) == selected_items(its@.take(j as int)).push(its@[j as int]));
            assert(selected_items(its@.take(j + 1)).map_values(|it: WorkshopItem| it.item_id@) =~= selected_items(its@.take(j as int)).map_values(|it: WorkshopItem| it.item_id@).push(its@[j as int].item_id@));
            assert(selected_items(its@.take(j + 1)).map_values(|it: WorkshopItem| it.path@) =~= selected_items(its@.take(j as int)).map_values(|it: WorkshopItem| it.path@).push(its@[j as int].path@));
        }
        j = j + 1;
    }
    assert(its@.take(its@.len() as int) =~= its@);
    (ids, paths)
}

/// Whether a pending id stays pending (see [`still_pending`]).
fn still_pending_exec(its: &Vec<WorkshopItem>, id: &String) -> (res: bool)
    ensures
        res == still_pending(its@, id@),
{
    proof {
        lemma_item_index_bound(its@, id@);
    }
    match find_item(its, id) {
        Some(j) => its[j].status != ItemStatus::UpToDate,
        None => true,
    }
}

impl AppModel {
    fn on_force_redownload(&mut self) -> (res: Vec<Effect>)
        ensures
            final(self)@ == update_step(old(self)@, MessageView::ForceRedownload).0,
            effects_view(res@) == update_step(old(self)@, MessageView::ForceRedownload).1,
    {
        self.confirming_redownload = false;
        self.redownload_in_progress = true;
        self.redownload_complete = false;
        let mut res: Vec<Effect> = Vec::new();
        assert(effects_view(res@) =~= Seq::<EffectView>::empty());
        let (games, items) = match &self.state {
            AppState::Loaded { games, items, .. } => (games, items),
            _ => return res,
        };
        let a = match &self.selected_game {
            Some(a) => a,
            None => return res,
        };
        let gi = match find_game(games, a) {
            Some(i) => i,
            None => return res,
        };
        let ii = match find_items(items, a) {
            Some(i) => i,
            None => return res,
        };
        let g = &games[gi].game;
        let its = &items[ii].items;
        let (ids, paths) = selected_ids_and_paths(its);
        if ids.len() == 0 {
            return res;
        }
        let ghost sel = selected_items(its@);
        let mut uris: Vec<String> = Vec::new();
        let mut k: usize = 0;
        while k < ids.len()
            invariant
                k <= ids@.len(),
                strings_view(uris@) == strings_view(ids@).take(k as int).map_values(
                    |id: Seq<char>| "steam://workshop_download_item/"@ + g.appid@ + "/"@ + id,
                ),
            decreases ids@.len() - k,
        {
            let ghost ub = uris@;
            uris.push(download_uri(&g.appid, &ids[k]));
            assert(strings_view(ids@).take(k + 1) =~= strings_view(ids@).take(k as int).push(ids@[k as int]@));
            assert(strings_view(uris@) =~= strings_view(ub).push("steam://workshop_download_item/"@ + g.appid@ + "/"@ + ids@[k as int]@));
            k = k + 1;
        }
        assert(strings_view(ids@).take(ids@.len() as int) =~= strings_view(ids@));
        let mut validate: Vec<char> = Vec::new();
        push_str(&mut validate, "steam://validate/");
        push_str(&mut validate, g.appid.as_str());
        let plan = RedownloadPlan {
            game: g.duplicate(),
            item_ids: ids,
            paths,
            download_uris: uris,
            validate_uri: string_from_chars(&validate),
        };
        assert(plan.view() == plan_for(*g, sel));
        res.push(Effect::Redownload(plan));
        assert(effects_view(res@) =~= seq![EffectView::Redownload(plan_for(*g, sel))]);
        res
    }

    fn on_redownload_complete(&mut self, ok: bool) -> (res: Vec<Effect>)
        ensures
            final(self)@ == redownload_complete_step(old(self)@, ok).0,
            effects_view(res@) == redownload_complete_step(old(self)@, ok).1,
    {
        self.redownload_in_progress = false;
        let mut res: Vec<Effect> = Vec::new();
        assert(effects_view(res@) =~= Seq::<EffectView>::empty());
        if !ok {
            return res;
        }
        let a = match &self.selected_game {
            Some(a) => a.clone(),
            None => return res,
        };
        let ghost m1 = self@;
        let pending: Vec<String> = match &self.state {
            AppState::Loaded { items, .. } => match find_items(items, &a) {
                Some(k) => {
                    let (ids, _paths) = selected_ids_and_paths(&items[k].items);
                    dedup_strings(&ids)
                },
                None => Vec::new(),
            },
            _ => Vec::new(),
        };
        assert(strings_view(pending@) =~= match m1.state {
            StateView::Loaded(l) => match assoc_get(l.items, a@) {
                Some(its) => first_occurrences(selected_items(its).map_values(|it: WorkshopItem| it.item_id@)),
                None => Seq::<Seq<char>>::empty(),
            },
            _ => Seq::<Seq<char>>::empty(),
        });
        if let AppState::Loaded { items, .. } = &mut self.state {
            let ghost before = items@;
            let mut k: usize = 0;
            while k < items.len()
                invariant
                    k <= items@.len(),
                    items@.len() == before.len(),
                    forall|q: int| 0 <= q < k ==> items@[q].appid == before[q].appid && items@[q].items@ == with_selection(before[q].items@, false),
                    forall|q: int| k <= q < items@.len() ==> items@[q] == before[q],
                decreases items@.len() - k,
            {
                set_all_selected(&mut items[k].items, false);
                k = k + 1;
            }
            assert(items_view(items@) =~= clear_all_selections(items_view(before)));
        }
        let count = pending.len();
        self.polling = Some(PollingState { appid: a.clone(), elapsed_secs: 0, pending_item_ids: pending, initial_item_count: count });
        res.push(Effect::Refresh(a));
        assert(effects_view(res@) =~= redownload_complete_step(old(self)@, ok).1);
        res
    }

    fn on_refresh_complete(&mut self, a: String, data: Vec<(GameEntry, Vec<WorkshopItem>)>) -> (res: Vec<Effect>)
        ensures
            final(self)@ == refresh_complete_step(old(self)@, a@, results_view(data@)).0,
            effects_view(res@) == refresh_complete_step(old(self)@, a@, results_view(data@)).1,
    {
        let ghost dv = results_view(data@);
        let loaded = match &self.state {
            AppState::Loaded { .. } => true,
            _ => false,
        };
        if !loaded || data.len() == 0 {
            return self.thumbnail_effects();
        }
        let mut data = data;
        assert(dv[0] == (data@[0].0, data@[0].1@));
        let (g, mut its) = data.remove(0);
        mark_out_of_date(&mut its);
        let mut clear = false;
        let mut done = false;
        if let Some(p) = &mut self.polling {
            if p.appid == a {
                let ghost pv = strings_view(p.pending_item_ids@);
                let mut kept: Vec<String> = Vec::new();
                let mut q: usize = 0;
                while q < p.pending_item_ids.len()
                    invariant
                        q <= p.pending_item_ids@.len(),
                        pv == strings_view(p.pending_item_ids@),
                        strings_view(kept@) == pv.take(q as int).filter(|id: Seq<char>| still_pending(its@, id)),
                    decreases p.pending_item_ids@.len() - q,
                {
                    assert(pv.take(q + 1).drop_last() =~= pv.take(q as int));
                    assert(pv.take(q + 1).last() == p.pending_item_ids@[q as int]@);
                    reveal_with_fuel(Seq::filter, 1);
                    let ghost kb = kept@;
                    if still_pending_exec(&its, &p.pending_item_ids[q]) {
                        kept.push(p.pending_item_ids[q].clone());
                        assert(strings_view(kept@) =~= strings_view(kb).push(p.pending_item_ids@[q as int]@));
                    }
                    q = q + 1;
                }
                assert(pv.take(pv.len() as int) =~= pv);
                if kept.len() == 0 {
                    clear = true;
                } else {
                    p.pending_item_ids = kept;
                }
                done = true;
            }
        }
        if clear {
            self.polling = None;
            self.redownload_complete = true;
        }
        if let AppState::Loaded { games, items, .. } = &mut self.state {
            put_game(games, a.clone(), g);
            put_items(items, a, its);
        }
        self.thumbnail_effects()
    }
}

} // verus!

verus! {

// ---------------------------------------------------------------------------------------
// The invariant across updates

proof fn lemma_scan_view_distinct(results: Seq<(GameEntry, Seq<WorkshopItem>)>)
    ensures
        keys_distinct(scan_view(results).items),
        keys_distinct(scan_view(results).games),
    decreases results.len(),
{
    if results.len() > 0 {
        lemma_scan_view_distinct(results.drop_last());
        let prev = scan_view(results.drop_last());
        let (g, its) = results.last();
        lemma_assoc_put_distinct(prev.items, g.appid@, select_out_of_date(its));
        lemma_assoc_put_distinct(prev.games, g.appid@, g);
    }
}

proof fn lemma_map_game_items_wf(m: ModelView, a: Seq<char>)
    requires
        model_wf(m),
    ensures
        forall|f: spec_fn(Seq<WorkshopItem>) -> Seq<WorkshopItem>| #[trigger] model_wf(map_game_items(m, a, f)),
{
    assert forall|f: spec_fn(Seq<WorkshopItem>) -> Seq<WorkshopItem>| #[trigger] model_wf(map_game_items(m, a, f)) by {
        if let StateView::Loaded(l) = m.state {
            lemma_assoc_find(l.items, a);
            if let Some(k) = assoc_find(l.items, a) {
                let n = l.items.update(k, (l.items[k].0, f(l.items[k].1)));
                assert forall|i: int| 0 <= i < n.len() implies #[trigger] n[i].0 == l.items[i].0 by {}
            }
        }
    }
}

/// The first occurrences of a list hold no entry twice, and only entries of the list.
proof fn lemma_first_occurrences_no_dup(s: Seq<Seq<char>>)
    ensures
        first_occurrences(s).no_duplicates(),
        forall|x: Seq<char>| first_occurrences(s).contains(x) ==> s.contains(x),
    decreases s.len(),
{
    if s.len() > 0 {
        let d = s.drop_last();
        lemma_first_occurrences_no_dup(d);
        assert forall|x: Seq<char>| d.contains(x) implies s.contains(x) by {
            let i = choose|i: int| 0 <= i < d.len() && d[i] == x;
            assert(s[i] == x);
        }
        if !d.contains(s.last()) {
            let r = first_occurrences(d);
            assert(!r.contains(s.last()));
            assert forall|x: Seq<char>| r.push(s.last()).contains(x) implies s.contains(x) by {
                let i = choose|i: int| 0 <= i < r.push(s.last()).len() && r.push(s.last())[i] == x;
                if i < r.len() {
                    assert(r.contains(x));
                } else {
                    assert(s[s.len() - 1] == x);
                }
            }
            assert forall|i: int, j: int| 0 <= i < r.push(s.last()).len() && 0 <= j < r.push(s.last()).len() && i != j implies r.push(s.last())[i] != r.push(s.last())[j] by {
                if i == r.len() {
                    assert(r.contains(r[j]));
                } else if j == r.len() {
                    assert(r.contains(r[i]));
                }
            }
        }
    }
}

/// Keeping some entries of a list without repeats leaves a list without repeats.
proof fn lemma_filter_no_dup(s: Seq<Seq<char>>, f: spec_fn(Seq<char>) -> bool)
    requires
        s.no_duplicates(),
    ensures
        s.filter(f).no_duplicates(),
        forall|x: Seq<char>| s.filter(f).contains(x) ==> s.contains(x),
    decreases s.len(),
{
    reveal_with_fuel(Seq::filter, 1);
    if s.len() > 0 {
        let d = s.drop_last();
        assert(d.no_duplicates()) by {
            assert forall|i: int, j: int| 0 <= i < d.len() && 0 <= j < d.len() && i != j implies d[i] != d[j] by {
                assert(d[i] == s[i] && d[j] == s[j]);
            }
        }
        lemma_filter_no_dup(d, f);
        let r = d.filter(f);
        assert forall|x: Seq<char>| d.contains(x) implies s.contains(x) by {
            let i = choose|i: int| 0 <= i < d.len() && d[i] == x;
            assert(s[i] == x);
        }
        if f(s.last()) {
            assert(!d.contains(s.last())) by {
                if d.contains(s.last()) {
                    let i = choose|i: int| 0 <= i < d.len() && d[i] == s.last();
                    assert(s[i] == s[s.len() - 1]);
                }
            }
            assert(!r.contains(s.last()));
            assert forall|x: Seq<char>| r.push(s.last()).contains(x) implies s.contains(x) by {
                let i = choose|i: int| 0 <= i < r.push(s.last()).len() && r.push(s.last())[i] == x;
                if i < r.len() {
                    assert(r.contains(x));
                } else {
                    assert(s[s.len() - 1] == x);
                }
            }
            assert forall|i: int, j: int| 0 <= i < r.push(s.last()).len() && 0 <= j < r.push(s.last()).len() && i != j implies r.push(s.last())[i] != r.push(s.last())[j] by {
                if i == r.len() {
                    assert(r.contains(r[j]));
                } else if j == r.len() {
                    assert(r.contains(r[i]));
                }
            }
        }
    }
}

/// Every message keeps the model well formed: each appid keys one entry of the
/// library, and a watched re-download stops before its time limit.
pub proof fn lemma_update_keeps_wf(m: ModelView, msg: MessageView)
    requires
        model_wf(m),
    ensures
        model_wf(update_step(m, msg).0),
{
    lemma_map_game_items_wf(m, msg_appid(m, msg));
    match msg {
        MessageView::ScanComplete(results) => {
            lemma_scan_view_distinct(results);
        },
        MessageView::RedownloadComplete(ok) => {
            if let StateView::Loaded(l) = m.state {
                let c = clear_all_selections(l.items);
                assert forall|i: int| 0 <= i < c.len() implies #[trigger] c[i].0 == l.items[i].0 by {}
                if let Some(a) = m.selected {
                    if let Some(its) = assoc_get(l.items, a) {
                        lemma_first_occurrences_no_dup(selected_items(its).map_values(|it: WorkshopItem| it.item_id@));
                    }
                }
            }
        },
        MessageView::RefreshComplete(a, data) => {
            if let StateView::Loaded(l) = m.state {
                if data.len() > 0 {
                    lemma_assoc_put_distinct(l.games, a, data[0].0);
                    let its = select_out_of_date(data[0].1);
                    lemma_assoc_put_distinct(l.items, a, its);
                    if let Some(p) = m.polling {
                        lemma_filter_no_dup(p.pending, |id: Seq<char>| still_pending(its, id));
                    }
                }
            }
        },
        _ => {},
    }
}

/// The appid whose items a message edits, if any.
spec fn msg_appid(m: ModelView, msg: MessageView) -> Seq<char> {
    match msg {
        MessageView::ToggleItem(a, _) => a,
        MessageView::ToggleAllItems(a) => a,
        _ => match m.selected {
            Some(a) => a,
            None => Seq::empty(),
        },
    }
}

} // verus!

verus! {

impl AppModel {
    fn on_select_game(&mut self, a: String) -> (res: Vec<Effect>)
        ensures
            final(self)@ == update_step(old(self)@, MessageView::SelectGame(a@)).0,
            effects_view(res@) == update_step(old(self)@, MessageView::SelectGame(a@)).1,
    {
        self.selected_game = Some(a.clone());
        self.confirming_redownload = false;
        self.redownload_complete = false;
        let mut res: Vec<Effect> = Vec::new();
        res.push(Effect::SetTitle(self.update_title()));
        let mut thumbs = self.thumbnail_effects();
        res.append(&mut thumbs);
        self.banner_effect_for(&a, &mut res);
        assert(effects_view(res@) =~= update_step(old(self)@, MessageView::SelectGame(a@)).1);
        res
    }

    fn on_tick(&mut self) -> (res: Vec<Effect>)
        requires
            model_wf(old(self)@),
        ensures
            final(self)@ == update_step(old(self)@, MessageView::Tick).0,
            effects_view(res@) == update_step(old(self)@, MessageView::Tick).1,
    {
        let mut res: Vec<Effect> = Vec::new();
        assert(effects_view(res@) =~= Seq::<EffectView>::empty());
        let (elapsed, a) = match &self.polling {
            Some(p) => (p.elapsed_secs + POLL_INTERVAL_SECS, p.appid.clone()),
            None => return res,
        };
        if elapsed >= POLL_TIMEOUT_SECS {
            self.polling = None;
            return res;
        }
        if let Some(p) = &mut self.polling {
            p.elapsed_secs = elapsed;
        }
        res.push(Effect::Refresh(a));
        assert(effects_view(res@) =~= update_step(old(self)@, MessageView::Tick).1);
        res
    }

    /// Applies one message: the new state is `update_step(..).0` and the work handed back
    /// is `update_step(..).1`; the model stays well formed.
    pub fn update(&mut self, msg: Message) -> (res: Vec<Effect>)
        requires
            model_wf(old(self)@),
        ensures
            final(self)@ == update_step(old(self)@, msg@).0,
            effects_view(res@) == update_step(old(self)@, msg@).1,
            model_wf(final(self)@),
    {
        proof {
            lemma_update_keeps_wf(self@, msg@);
        }
        let mut none: Vec<Effect> = Vec::new();
        assert(effects_view(none@) =~= Seq::<EffectView>::empty());
        match msg {
            Message::LaunchUrl(u) => {
                none.push(Effect::OpenUrl(u));
                assert(effects_view(none@) =~= seq![EffectView::OpenUrl(msg@->LaunchUrl_0)]);
                none
            },
            Message::ToggleContextPage(p) => {
                if self.context_page == p {
                    self.show_context = !self.show_context;
                } else {
                    self.context_page = p;
                    self.show_context = true;
                }
                none
            },
            Message::ScanComplete(results) => self.on_scan_complete(results),
            Message::ScanFailed(e) => {
                self.state = AppState::Error(e);
                none
            },
            Message::SelectGame(a) => self.on_select_game(a),
            Message::ToggleItem { appid, item_id } => {
                self.on_toggle_item(&appid, &item_id);
                none
            },
            Message::ToggleAllItems(a) => {
                self.on_toggle_all(&a);
                none
            },
            Message::ForceRedownload => self.on_force_redownload(),
            Message::RedownloadComplete(r) => {
                let ok = match r {
                    Ok(()) => true,
                    Err(_) => false,
                };
                self.on_redownload_complete(ok)
            },
            Message::OpenFolder(p) => {
                none.push(Effect::OpenPath(p));
                assert(effects_view(none@) =~= seq![EffectView::OpenPath(msg@->OpenFolder_0)]);
                none
            },
            Message::OpenSteam { appid, item_id } => {
                let mut v: Vec<char> = Vec::new();
                push_str(&mut v, "steam://url/CommunityFilePage/");
                push_str(&mut v, item_id.as_str());
                none.push(Effect::OpenUrl(string_from_chars(&v)));
                assert(effects_view(none@) =~= update_step(old(self)@, msg@).1);
                none
            },
            Message::RefreshGame(a) => {
                none.push(Effect::Refresh(a));
                assert(effects_view(none@) =~= seq![EffectView::Refresh(msg@->RefreshGame_0)]);
                none
            },
            Message::RefreshComplete { appid, data } => self.on_refresh_complete(appid, data),
            Message::Tick => self.on_tick(),
            Message::StopPolling => {
                self.polling = None;
                none
            },
            Message::ConfirmRedownload => {
                self.confirming_redownload = true;
                none
            },
            Message::CancelRedownload => {
                self.confirming_redownload = false;
                none
            },
            Message::DismissComplete => {
                self.redownload_complete = false;
                none
            },
            Message::SearchChanged(q) => {
                self.search_query = q;
                none
            },
            Message::SortChanged(o) => {
                self.sort_order = o;
                none
            },
            Message::ThumbnailsLoaded(keys) => {
                let mut keys = keys;
                let ghost before = self.thumbnails@;
                let ghost kv = keys@;
                self.thumbnails.append(&mut keys);
                assert(strings_view(self.thumbnails@) =~= strings_view(before) + strings_view(kv));
                none
            },
            Message::GameBannerLoaded(a) => {
                if !a.as_str().is_empty() {
                    let ghost before = self.banners@;
                    self.banners.push(a);
                    assert(strings_view(self.banners@) =~= strings_view(before).push(msg@->GameBannerLoaded_0));
                }
                none
            },
            Message::ToggleCompactMode => {
                self.compact_mode = !self.compact_mode;
                none
            },
            Message::SelectOutOfDate => {
                self.on_select_out_of_date();
                none
            },
        }
    }
}

} // verus!

verus! {

// ---------------------------------------------------------------------------------------
// Laws of the item selection

proof fn lemma_assoc_find_same_keys<V>(s1: Assoc<V>, s2: Assoc<V>, k: Seq<char>)
    requires
        s1.len() == s2.len(),
        forall|i: int| 0 <= i < s1.len() ==> #[trigger] s1[i].0 == s2[i].0,
    ensures
        assoc_find(s1, k) == assoc_find(s2, k),
    decreases s1.len(),
{
    if s1.len() > 0 {
        lemma_assoc_find_same_keys(s1.drop_last(), s2.drop_last(), k);
    }
}

proof fn lemma_item_index_same_ids(a: Seq<WorkshopItem>, b: Seq<WorkshopItem>, id: Seq<char>)
    requires
        a.len() == b.len(),
        forall|i: int| 0 <= i < a.len() ==> #[trigger] a[i].item_id == b[i].item_id,
    ensures
        item_index(a, id) == item_index(b, id),
    decreases a.len(),
{
    if a.len() > 0 {
        lemma_item_index_same_ids(a.drop_last(), b.drop_last(), id);
    }
}

proof fn lemma_toggle_item_twice(items: Seq<WorkshopItem>, id: Seq<char>)
    ensures
        toggle_item(toggle_item(items, id), id) == items,
{
    lemma_item_index_bound(items, id);
    let t = toggle_item(items, id);
    lemma_item_index_same_ids(t, items, id);
    if let Some(j) = item_index(items, id) {
        assert(t.update(j, WorkshopItem { selected: !t[j].selected, ..t[j] }) =~= items);
    }
}

proof fn lemma_map_game_items_twice(
    m: ModelView,
    a: Seq<char>,
    f: spec_fn(Seq<WorkshopItem>) -> Seq<WorkshopItem>,
)
    requires
        forall|its: Seq<WorkshopItem>| #[trigger] f(f(its)) == its,
    ensures
        map_game_items(map_game_items(m, a, f), a, f) == m,
{
    if let StateView::Loaded(l) = m.state {
        if let Some(k) = assoc_find(l.items, a) {
            lemma_assoc_find(l.items, a);
            let n = l.items.update(k, (l.items[k].0, f(l.items[k].1)));
            lemma_assoc_find_same_keys(n, l.items, a);
            assert(f(f(l.items[k].1)) == l.items[k].1);
            assert(n.update(k, (n[k].0, f(n[k].1))) =~= l.items);
        }
    }
}

/// Toggling the same item twice gives back the model as it was.
pub proof fn lemma_toggle_item_twice_restores(m: ModelView, appid: Seq<char>, item_id: Seq<char>)
    ensures
        update_step(update_step(m, MessageView::ToggleItem(appid, item_id)).0, MessageView::ToggleItem(appid, item_id)).0 == m,
        update_step(m, MessageView::ToggleItem(appid, item_id)).1.len() == 0,
{
    let f = |its: Seq<WorkshopItem>| toggle_item(its, item_id);
    assert forall|its: Seq<WorkshopItem>| #[trigger] f(f(its)) == its by {
        lemma_toggle_item_twice(its, item_id);
    }
    lemma_map_game_items_twice(m, appid, f);
}

proof fn lemma_select_out_of_date_twice(items: Seq<WorkshopItem>)
    ensures
        select_out_of_date(select_out_of_date(items)) == select_out_of_date(items),
{
    assert(select_out_of_date(select_out_of_date(items)) =~= select_out_of_date(items));
}

/// Selecting the out-of-date items a second time changes nothing more.
pub proof fn lemma_select_out_of_date_idempotent(m: ModelView)
    ensures
        update_step(update_step(m, MessageView::SelectOutOfDate).0, MessageView::SelectOutOfDate)
            == update_step(m, MessageView::SelectOutOfDate),
{
    if let Some(a) = m.selected {
        if let StateView::Loaded(l) = m.state {
            if let Some(k) = assoc_find(l.items, a) {
                lemma_assoc_find(l.items, a);
                let n = l.items.update(k, (l.items[k].0, select_out_of_date(l.items[k].1)));
                lemma_assoc_find_same_keys(n, l.items, a);
                lemma_select_out_of_date_twice(l.items[k].1);
                assert(n.update(k, (n[k].0, select_out_of_date(n[k].1))) =~= n);
            }
        }
    }
}

} // verus!

verus! {

/// The entries of the window's menu.
#[derive(Debug, Clone, Copy, PartialEq, Eq, Structural)]
pub enum MenuAction {
    About,
}

impl MenuAction {
    /// The message a menu entry sends.
    pub fn message(&self) -> (res: Message)
        ensures
            res@ == MessageView::ToggleContextPage(ContextPage::About),
    {
        match self {
            MenuAction::About => Message::ToggleContextPage(ContextPage::About),
        }
    }
}

} // verus!

verus! {

/// `b` is `a` with, at most, other `selected` flags.
pub open spec fn same_but_selection(a: Seq<WorkshopItem>, b: Seq<WorkshopItem>) -> bool {
    a.len() == b.len() && forall|i: int| 0 <= i < a.len() ==> (WorkshopItem { selected: a[i].selected, ..b[i] }) == #[trigger] a[i]
}

/// `n` is `m` with, at most, other `selected` flags on the items of the library.
pub open spec fn only_selection_changed(m: ModelView, n: ModelView) -> bool {
    match (m.state, n.state) {
        (StateView::Loaded(l), StateView::Loaded(k)) => {
            &&& n == with_state(m, n.state)
            &&& k.games == l.games
            &&& k.order == l.order
            &&& k.items.len() == l.items.len()
            &&& forall|i: int| 0 <= i < l.items.len() ==> (#[trigger] k.items[i]).0 == l.items[i].0
                && same_but_selection(l.items[i].1, k.items[i].1)
        },
        _ => n == m,
    }
}

proof fn lemma_map_game_items_selection(m: ModelView, a: Seq<char>, f: spec_fn(Seq<WorkshopItem>) -> Seq<WorkshopItem>)
    requires
        forall|its: Seq<WorkshopItem>| #[trigger] same_but_selection(its, f(its)),
    ensures
        only_selection_changed(m, map_game_items(m, a, f)),
{
    if let StateView::Loaded(l) = m.state {
        lemma_assoc_find(l.items, a);
        if let Some(k) = assoc_find(l.items, a) {
            assert(same_but_selection(l.items[k].1, f(l.items[k].1)));
        }
        let n = map_game_items(m, a, f);
        if let StateView::Loaded(kv) = n.state {
            assert forall|i: int| 0 <= i < l.items.len() implies (#[trigger] kv.items[i]).0 == l.items[i].0
                && same_but_selection(l.items[i].1, kv.items[i].1) by {
                if assoc_find(l.items, a) != Some(i) {
                    assert(kv.items[i] == l.items[i]);
                    assert forall|j: int| 0 <= j < l.items[i].1.len() implies (WorkshopItem { selected: l.items[i].1[j].selected, ..l.items[i].1[j] }) == #[trigger] l.items[i].1[j] by {}
                }
            }
        }
    }
}

/// Toggling an item, toggling all items, and selecting the out-of-date items change
/// only `selected` flags: every other part of the model, and every other field of each
/// item, stays as it was; no work is handed back.
pub proof fn lemma_selection_messages_change_only_selection(m: ModelView, msg: MessageView)
    requires
        msg is ToggleItem || msg is ToggleAllItems || msg is SelectOutOfDate,
    ensures
        only_selection_changed(m, update_step(m, msg).0),
        update_step(m, msg).1.len() == 0,
{
    match msg {
        MessageView::ToggleItem(a, id) => {
            let f = |its: Seq<WorkshopItem>| toggle_item(its, id);
            assert forall|its: Seq<WorkshopItem>| #[trigger] same_but_selection(its, f(its)) by {
                lemma_item_index_bound(its, id);
                if let Some(j) = item_index(its, id) {
                    assert forall|i: int| 0 <= i < its.len() implies (WorkshopItem { selected: its[i].selected, ..f(its)[i] }) == #[trigger] its[i] by {}
                } else {
                    assert forall|i: int| 0 <= i < its.len() implies (WorkshopItem { selected: its[i].selected, ..f(its)[i] }) == #[trigger] its[i] by {}
                }
            }
            lemma_map_game_items_selection(m, a, f);
        },
        MessageView::ToggleAllItems(a) => {
            let f = |its: Seq<WorkshopItem>| toggle_all(its);
            assert forall|its: Seq<WorkshopItem>| #[trigger] same_but_selection(its, f(its)) by {
                assert forall|i: int| 0 <= i < its.len() implies (WorkshopItem { selected: its[i].selected, ..f(its)[i] }) == #[trigger] its[i] by {}
            }
            lemma_map_game_items_selection(m, a, f);
        },
        MessageView::SelectOutOfDate => {
            let f = |its: Seq<WorkshopItem>| select_out_of_date(its);
            assert forall|its: Seq<WorkshopItem>| #[trigger] same_but_selection(its, f(its)) by {
                assert forall|i: int| 0 <= i < its.len() implies (WorkshopItem { selected: its[i].selected, ..f(its)[i] }) == #[trigger] its[i] by {}
            }
            if let Some(a) = m.selected {
                lemma_map_game_items_selection(m, a, f);
            }
        },
        _ => {},
    }
}

} // verus!

verus! {

/// The model after `n` ticks with no other message in between.
pub open spec fn after_ticks(m: ModelView, n: nat) -> ModelView
    decreases n,
{
    if n == 0 {
        m
    } else {
        after_ticks(update_step(m, MessageView::Tick).0, (n - 1) as nat)
    }
}

proof fn lemma_ticks_end_watch(m: ModelView, n: nat)
    requires
        model_wf(m),
        m.polling matches Some(p) ==> n + p.elapsed >= POLL_TIMEOUT_SECS,
    ensures
        after_ticks(m, n).polling is None,
    decreases n,
{
    if n > 0 {
        let m1 = update_step(m, MessageView::Tick).0;
        lemma_update_keeps_wf(m, MessageView::Tick);
        lemma_ticks_end_watch(m1, (n - 1) as nat);
    }
}

/// Watching a re-download stops on its own: whatever the state, `POLL_TIMEOUT_SECS`
/// ticks with no other message leave nothing being watched.
pub proof fn lemma_watch_stops(m: ModelView)
    requires
        model_wf(m),
    ensures
        after_ticks(m, POLL_TIMEOUT_SECS as nat).polling is None,
{
    lemma_ticks_end_watch(m, POLL_TIMEOUT_SECS as nat);
}


proof fn lemma_item_index_first(items: Seq<WorkshopItem>, id: Seq<char>)
    ensures
        item_index(items, id) matches Some(i) ==> 0 <= i < items.len() && items[i].item_id@ == id
            && forall|k: int| 0 <= k < i ==> items[k].item_id@ != id,
        item_index(items, id) is None ==> forall|k: int| 0 <= k < items.len() ==> items[k].item_id@ != id,
    decreases items.len(),
{
    if items.len() > 0 {
        lemma_item_index_first(items.drop_last(), id);
        assert forall|k: int| 0 <= k < items.len() - 1 implies items[k] == items.drop_last()[k] by {}
    }
}

/// The watched refresh's pending ids, and whether the watch completed, after the
/// refresh `data` of game `a`.
proof fn lemma_refresh_pending(m: ModelView, a: Seq<char>, data: Seq<(GameEntry, Seq<WorkshopItem>)>, id: Seq<char>, keep: bool)
    requires
        m.state is Loaded,
        data.len() > 0,
        m.polling matches Some(p) && p.appid == a && p.pending.contains(id),
        keep == still_pending(select_out_of_date(data[0].1), id),
    ensures
        keep ==> (update_step(m, MessageView::RefreshComplete(a, data)).0.polling matches Some(q) && q.appid == a
            && q.pending.contains(id)),
        keep ==> update_step(m, MessageView::RefreshComplete(a, data)).0.complete == m.complete,
        !keep ==> (update_step(m, MessageView::RefreshComplete(a, data)).0.polling matches Some(q) ==> !q.pending.contains(id)),
{
    let p = m.polling->Some_0;
    let its = select_out_of_date(data[0].1);
    let pred = |x: Seq<char>| still_pending(its, x);
    let pend = p.pending.filter(pred);
    let i = choose|i: int| 0 <= i < p.pending.len() && p.pending[i] == id;
    if keep {
        p.pending.lemma_filter_contains(pred, i);
        assert(pend.contains(id));
        assert(pend.len() > 0);
    } else {
        if pend.contains(id) {
            let j = choose|j: int| 0 <= j < pend.len() && pend[j] == id;
            p.pending.lemma_filter_pred(pred, j);
        }
    }
}

/// A refresh of the watched game keeps pending every pending item that the refreshed
/// list does not hold (its folder is gone and Steam has not fetched it again yet): the
/// watch goes on, and it is not marked complete.
pub proof fn lemma_refresh_keeps_absent_pending(m: ModelView, a: Seq<char>, data: Seq<(GameEntry, Seq<WorkshopItem>)>, id: Seq<char>)
    requires
        m.state is Loaded,
        data.len() > 0,
        m.polling matches Some(p) && p.appid == a && p.pending.contains(id),
        forall|j: int| 0 <= j < data[0].1.len() ==> (#[trigger] data[0].1[j]).item_id@ != id,
    ensures
        update_step(m, MessageView::RefreshComplete(a, data)).0.polling matches Some(q) && q.appid == a
            && q.pending.contains(id),
        update_step(m, MessageView::RefreshComplete(a, data)).0.complete == m.complete,
{
    let its = select_out_of_date(data[0].1);
    lemma_item_index_first(its, id);
    if let Some(i) = item_index(its, id) {
        assert(its[i].item_id@ == data[0].1[i].item_id@);
    }
    lemma_refresh_pending(m, a, data, id, still_pending(its, id));
}

/// A refresh of the watched game keeps pending an item whose (first) entry in the
/// refreshed list is not up to date, and drops one whose entry is up to date.
pub proof fn lemma_refresh_pending_by_status(m: ModelView, a: Seq<char>, data: Seq<(GameEntry, Seq<WorkshopItem>)>, id: Seq<char>, j: int)
    requires
        m.state is Loaded,
        data.len() > 0,
        m.polling matches Some(p) && p.appid == a && p.pending.contains(id),
        0 <= j < data[0].1.len(),
        data[0].1[j].item_id@ == id,
        forall|k: int| 0 <= k < j ==> (#[trigger] data[0].1[k]).item_id@ != id,
    ensures
        data[0].1[j].status == ItemStatus::UpToDate ==> (update_step(m, MessageView::RefreshComplete(a, data)).0.polling matches Some(q)
            ==> !q.pending.contains(id)),
        data[0].1[j].status != ItemStatus::UpToDate ==> (update_step(m, MessageView::RefreshComplete(a, data)).0.polling matches Some(q)
            && q.appid == a && q.pending.contains(id)),
        data[0].1[j].status != ItemStatus::UpToDate ==> update_step(m, MessageView::RefreshComplete(a, data)).0.complete == m.complete,
{
    let its = select_out_of_date(data[0].1);
    lemma_item_index_first(its, id);
    assert(its[j].item_id@ == id);
    match item_index(its, id) {
        Some(i) => {
            if i < j {
                assert(data[0].1[i].item_id@ == its[i].item_id@);
            }
            if i > j {
                assert(its[j].item_id@ == id);
            }
            assert(i == j);
        },
        None => {},
    }
    lemma_refresh_pending(m, a, data, id, still_pending(its, id));
}

} // verus!
