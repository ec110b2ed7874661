//! What the window shows of the library: the searched and ordered item list, the counts
//! on each game card, which buttons can be pressed, and the status line of a re-download.
use vstd::prelude::*;

use crate::library::{char_key, chars_key};
use crate::general::{format_size, format_timestamp, size_text, timestamp_text};
use crate::model::{assoc_get, selected_items, AppModel, AppState, LoadedView, Message, MessageView, ModelView, SortOrder, StateView};
use crate::sorting::{is_stable_sort, lemma_stable_sort_distinct, stable_sort_indices};
use crate::text::{chars_of, contains_chars, contains_seq, decimal, push_decimal, push_str, string_from_chars};
use crate::types::{ItemStatus, WorkshopItem};

verus! {

/// What `str::to_lowercase` returns for a string: its Unicode lower-case mapping.
pub uninterp spec fn lowercase(s: Seq<char>) -> Seq<char>;

/// Calls `str::to_lowercase`. Its result depends on the string alone, and is named
/// [`lowercase`] here. It maps each character of the string in turn, so the empty
/// string gives the empty string; nothing more of the mapping is stated.
#[verifier::external_body]
fn to_lower(s: &str) -> (res: String)
    ensures
        res@ == lowercase(s@),
        s@.len() == 0 ==> res@ == Seq::<char>::empty(),
{
    s.to_lowercase()
}

/// The name an item is searched and sorted by: its title, or the empty string.
pub open spec fn display_name(it: WorkshopItem) -> Seq<char> {
    match it.name {
        Some(n) => n@,
        None => Seq::empty(),
    }
}

/// Whether an item passes the search for the lower-cased query `q`: an empty query
/// passes every item; otherwise the lower-cased name or the id must contain it.
pub open spec fn item_matches(it: WorkshopItem, q: Seq<char>) -> bool {
    q.len() == 0 || contains_seq(lowercase(display_name(it)), q) || contains_seq(it.item_id@, q)
}

/// The indices of the items that pass the search, in list order.
pub open spec fn matching_indices(items: Seq<WorkshopItem>, q: Seq<char>) -> Seq<int>
    decreases items.len(),
{
    if items.len() == 0 {
        Seq::empty()
    } else {
        let prev = matching_indices(items.drop_last(), q);
        if item_matches(items.last(), q) {
            prev.push(items.len() - 1)
        } else {
            prev
        }
    }
}

/// The key an order sorts by: the name's characters, the size on disk, or 0 for an
/// out-of-date item and 1 for the others.
pub open spec fn sort_key(it: WorkshopItem, o: SortOrder) -> Seq<u64> {
    match o {
        SortOrder::NameAsc | SortOrder::NameDesc => char_key(display_name(it)),
        SortOrder::SizeAsc | SortOrder::SizeDesc => seq![it.disk_size],
        SortOrder::StatusFirst => seq![if it.status == ItemStatus::OutOfDate { 0u64 } else { 1u64 }],
    }
}

/// Whether an order puts larger keys first.
pub open spec fn sort_desc(o: SortOrder) -> bool {
    o == SortOrder::NameDesc || o == SortOrder::SizeDesc
}

/// The keys of the items at `idx`.
pub open spec fn keys_at(items: Seq<WorkshopItem>, idx: Seq<int>, o: SortOrder) -> Seq<Seq<u64>> {
    idx.map_values(|j: int| sort_key(items[j], o))
}

/// Whether `shown` is what the item list shows: the items passing the search for
/// `lowercase(query)`, stably sorted by their keys under `o` (ties keep list order).
pub open spec fn is_listing(items: Seq<WorkshopItem>, query: Seq<char>, o: SortOrder, shown: Seq<usize>) -> bool {
    let idx = matching_indices(items, lowercase(query));
    exists|perm: Seq<usize>|
        #[trigger] is_stable_sort(keys_at(items, idx, o), sort_desc(o), perm) && shown.len() == perm.len()
            && forall|k: int| 0 <= k < perm.len() ==> shown[k] as int == idx[perm[k] as int]
}

/// The item list is determined by the items, the query and the order: two lists that
/// both meet [`is_listing`] are the same.
pub proof fn lemma_listing_unique(items: Seq<WorkshopItem>, query: Seq<char>, o: SortOrder, a: Seq<usize>, b: Seq<usize>)
    requires
        is_listing(items, query, o, a),
        is_listing(items, query, o, b),
    ensures
        a == b,
{
    let idx = matching_indices(items, lowercase(query));
    let ks = keys_at(items, idx, o);
    let pa = choose|perm: Seq<usize>|
        #[trigger] is_stable_sort(ks, sort_desc(o), perm) && a.len() == perm.len()
            && forall|k: int| 0 <= k < perm.len() ==> a[k] as int == idx[perm[k] as int];
    let pb = choose|perm: Seq<usize>|
        #[trigger] is_stable_sort(ks, sort_desc(o), perm) && b.len() == perm.len()
            && forall|k: int| 0 <= k < perm.len() ==> b[k] as int == idx[perm[k] as int];
    crate::sorting::lemma_stable_sort_unique(ks, sort_desc(o), pa, pb);
    assert forall|k: int| 0 <= k < a.len() implies a[k] == b[k] by {
        assert(a[k] as int == idx[pa[k] as int]);
        assert(b[k] as int == idx[pb[k] as int]);
    }
    assert(a =~= b);
}

proof fn lemma_matching_indices(items: Seq<WorkshopItem>, q: Seq<char>)
    ensures
        forall|p: int| 0 <= p < matching_indices(items, q).len() ==> 0 <= #[trigger] matching_indices(items, q)[p] < items.len()
            && item_matches(items[matching_indices(items, q)[p]], q),
        forall|j: int| 0 <= j < items.len() && item_matches(items[j], q) ==> #[trigger] matching_indices(items, q).contains(j),
    decreases items.len(),
{
    if items.len() > 0 {
        let prev = items.drop_last();
        lemma_matching_indices(prev, q);
        let mp = matching_indices(prev, q);
        let mi = matching_indices(items, q);
        assert forall|p: int| 0 <= p < mi.len() implies 0 <= #[trigger] mi[p] < items.len() && item_matches(items[mi[p]], q) by {
            if p < mp.len() {
                assert(mi[p] == mp[p]);
                assert(prev[mp[p]] == items[mp[p]]);
            }
        }
        assert forall|j: int| 0 <= j < items.len() && item_matches(items[j], q) implies #[trigger] mi.contains(j) by {
            if j < items.len() - 1 {
                assert(prev[j] == items[j]);
                assert(mp.contains(j));
                let p = choose|p: int| 0 <= p < mp.len() && mp[p] == j;
                assert(mi[p] == j);
            } else {
                assert(mi[mi.len() - 1] == j);
            }
        }
    }
}

/// Every item that passes the search is in the listing, and every listed index is an
/// item that passes it.
proof fn lemma_listing_is_matches(items: Seq<WorkshopItem>, query: Seq<char>, o: SortOrder, shown: Seq<usize>, j: int)
    requires
        is_listing(items, query, o, shown),
        items.len() <= usize::MAX,
        0 <= j < items.len(),
    ensures
        item_matches(items[j], lowercase(query)) ==> shown.contains(j as usize),
        shown.contains(j as usize) ==> item_matches(items[j], lowercase(query)),
{
    let q = lowercase(query);
    let idx = matching_indices(items, q);
    let ks = keys_at(items, idx, o);
    lemma_matching_indices(items, q);
    let perm = choose|perm: Seq<usize>|
        #[trigger] is_stable_sort(ks, sort_desc(o), perm) && shown.len() == perm.len()
            && forall|k: int| 0 <= k < perm.len() ==> shown[k] as int == idx[perm[k] as int];
    lemma_stable_sort_distinct(ks, sort_desc(o), perm);
    assert(ks.len() == idx.len());
    assert(perm.len() == idx.len());
    if item_matches(items[j], q) {
        assert(idx.contains(j));
        let p = choose|p: int| 0 <= p < idx.len() && idx[p] == j;
        let pi = perm.map_values(|x: usize| x as int);
        assert(pi.len() == idx.len());
        assert forall|a: int| 0 <= a < pi.len() implies 0 <= #[trigger] pi[a] < idx.len() by {
            assert(perm[a] < ks.len());
        }
        assert forall|a: int, b: int| 0 <= a < b < pi.len() implies pi[a] != pi[b] by {}
        lemma_distinct_indices_cover(pi, idx.len() as int);
        assert(pi.contains(p));
        let a = choose|a: int| 0 <= a < pi.len() && pi[a] == p;
        assert(perm[a] as int == p);
        assert(shown[a] as int == idx[perm[a] as int]);
        assert(shown[a] as int == j);
        assert(shown.contains(j as usize));
    }
    if shown.contains(j as usize) {
        let a = choose|a: int| 0 <= a < shown.len() && shown[a] == j as usize;
        assert(perm[a] < ks.len());
        let pp = perm[a] as int;
        assert(shown[a] as int == idx[pp]);
        assert(0 <= idx[pp] < items.len() && item_matches(items[idx[pp]], q));
        assert(idx[pp] == j);
    }
}

/// The search looks for the lower-cased query anywhere in the lower-cased name: an item
/// whose lower-cased name holds it at some position `k` is listed.
pub proof fn lemma_name_match_anywhere_listed(items: Seq<WorkshopItem>, query: Seq<char>, o: SortOrder, shown: Seq<usize>, j: int, k: int)
    requires
        is_listing(items, query, o, shown),
        items.len() <= usize::MAX,
        0 <= j < items.len(),
        0 <= k,
        k + lowercase(query).len() <= lowercase(display_name(items[j])).len(),
        lowercase(display_name(items[j])).subrange(k, k + lowercase(query).len()) == lowercase(query),
    ensures
        shown.contains(j as usize),
{
    assert(crate::text::occurs_at(lowercase(display_name(items[j])), lowercase(query), k));
    lemma_listing_is_matches(items, query, o, shown, j);
}

/// The search looks for the lower-cased query anywhere in the item id too: an item
/// whose id holds it at some position `k` is listed.
pub proof fn lemma_id_match_anywhere_listed(items: Seq<WorkshopItem>, query: Seq<char>, o: SortOrder, shown: Seq<usize>, j: int, k: int)
    requires
        is_listing(items, query, o, shown),
        items.len() <= usize::MAX,
        0 <= j < items.len(),
        0 <= k,
        k + lowercase(query).len() <= items[j].item_id@.len(),
        items[j].item_id@.subrange(k, k + lowercase(query).len()) == lowercase(query),
    ensures
        shown.contains(j as usize),
{
    assert(crate::text::occurs_at(items[j].item_id@, lowercase(query), k));
    lemma_listing_is_matches(items, query, o, shown, j);
}

/// Only items that pass the search are listed: a listed item has an empty lower-cased
/// query, or the query at some position of its lower-cased name or of its id.
pub proof fn lemma_listed_items_match(items: Seq<WorkshopItem>, query: Seq<char>, o: SortOrder, shown: Seq<usize>, j: int)
    requires
        is_listing(items, query, o, shown),
        items.len() <= usize::MAX,
        0 <= j < items.len(),
        shown.contains(j as usize),
    ensures
        lowercase(query).len() == 0 || (exists|k: int|
            0 <= k && k + lowercase(query).len() <= lowercase(display_name(items[j])).len()
                && #[trigger] lowercase(display_name(items[j])).subrange(k, k + lowercase(query).len()) == lowercase(query))
            || (exists|k: int|
            0 <= k && k + lowercase(query).len() <= items[j].item_id@.len()
                && #[trigger] items[j].item_id@.subrange(k, k + lowercase(query).len()) == lowercase(query)),
{
    lemma_listing_is_matches(items, query, o, shown, j);
}

fn sort_key_exec(it: &WorkshopItem, o: SortOrder) -> (res: Vec<u64>)
    ensures
        res@ == sort_key(*it, o),
{
    match o {
        SortOrder::NameAsc | SortOrder::NameDesc => {
            let name = match &it.name {
                Some(n) => chars_of(n.as_str()),
                None => Vec::new(),
            };
            chars_key(&name)
        },
        SortOrder::SizeAsc | SortOrder::SizeDesc => {
            let mut k: Vec<u64> = Vec::new();
            k.push(it.disk_size);
            assert(k@ =~= seq![it.disk_size]);
            k
        },
        SortOrder::StatusFirst => {
            let mut k: Vec<u64> = Vec::new();
            k.push(if it.status == ItemStatus::OutOfDate { 0u64 } else { 1u64 });
            assert(k@ =~= sort_key(*it, o));
            k
        },
    }
}

fn item_matches_exec(it: &WorkshopItem, q: &Vec<char>) -> (res: bool)
    ensures
        res == item_matches(*it, q@),
{
    if q.len() == 0 {
        return true;
    }
    let name = match &it.name {
        Some(n) => to_lower(n.as_str()),
        None => to_lower(""),
    };
    proof {
        if it.name is None {
            reveal_strlit("");
            assert(display_name(*it) =~= ""@);
        }
    }
    let lname = chars_of(name.as_str());
    if contains_chars(&lname, q) {
        return true;
    }
    let id = chars_of(it.item_id.as_str());
    contains_chars(&id, q)
}

/// The item list as shown (`view_workshop_items`): indices into `items` of those passing
/// the search, in the chosen order. Sorting is stable, as `sort_by` and `sort_by_key` are.
pub fn visible_items(items: &Vec<WorkshopItem>, query: &str, order: SortOrder) -> (res: Vec<usize>)
    ensures
        is_listing(items@, query@, order, res@),
        query@.len() == 0 ==> res@.len() == items@.len() && forall|j: int|
            0 <= j < items@.len() ==> #[trigger] res@.contains(j as usize),
{
    let q_str = to_lower(query);
    let q = chars_of(q_str.as_str());
    let ghost qs = lowercase(query@);
    let mut idx: Vec<usize> = Vec::new();
    let mut keys: Vec<Vec<u64>> = Vec::new();
    let mut i: usize = 0;
    while i < items.len()
        invariant
            i <= items@.len(),
            q@ == qs,
            idx@.map_values(|x: usize| x as int) == matching_indices(items@.take(i as int), qs),
            keys@.map_values(|k: Vec<u64>| k@) == keys_at(items@, matching_indices(items@.take(i as int), qs), order),
        decreases items@.len() - i,
    {
        assert(items@.take(i + 1).drop_last() =~= items@.take(i as int));
        assert(items@.take(i + 1).last() == items@[i as int]);
        let ghost ib = idx@;
        let ghost kb = keys@;
        if item_matches_exec(&items[i], &q) {
            idx.push(i);
            keys.push(sort_key_exec(&items[i], order));
            assert(idx@.map_values(|x: usize| x as int) =~= ib.map_values(|x: usize| x as int).push(i as int));
            assert(keys@.map_values(|k: Vec<u64>| k@) =~= kb.map_values(|k: Vec<u64>| k@).push(sort_key(items@[i as int], order)));
            assert(keys_at(items@, matching_indices(items@.take(i + 1), qs), order) =~= keys_at(items@, matching_indices(items@.take(i as int), qs), order).push(sort_key(items@[i as int], order)));
        }
        i = i + 1;
    }
    assert(items@.take(items@.len() as int) =~= items@);
    let ghost mi = matching_indices(items@, qs);
    let ghost ks = keys_at(items@, mi, order);
    let desc = order == SortOrder::NameDesc || order == SortOrder::SizeDesc;
    let perm = stable_sort_indices(&keys, desc);
    proof {
        lemma_stable_sort_distinct(ks, desc, perm@);
    }
    let mut res: Vec<usize> = Vec::new();
    let mut k: usize = 0;
    while k < perm.len()
        invariant
            k <= perm@.len(),
            is_stable_sort(ks, desc, perm@),
            perm@.len() == idx@.len(),
            idx@.map_values(|x: usize| x as int) == mi,
            res@.len() == k,
            forall|m: int| 0 <= m < k ==> res@[m] as int == mi[perm@[m] as int],
        decreases perm@.len() - k,
    {
        assert(perm@[k as int] < ks.len());
        assert(idx@.map_values(|x: usize| x as int)[perm@[k as int] as int] == idx@[perm@[k as int] as int] as int);
        res.push(idx[perm[k]]);
        k = k + 1;
    }
    assert(is_stable_sort(keys_at(items@, matching_indices(items@, lowercase(query@)), order), sort_desc(order), perm@));
    proof {
        if query@.len() == 0 {
            lemma_match_all(items@, qs);
            let pi = perm@.map_values(|x: usize| x as int);
            assert forall|a: int| 0 <= a < pi.len() implies 0 <= #[trigger] pi[a] < items@.len() by {
                assert(perm@[a] < ks.len());
            }
            assert forall|a: int, b: int| 0 <= a < b < pi.len() implies pi[a] != pi[b] by {}
            lemma_distinct_indices_cover(pi, items@.len() as int);
            assert forall|j: int| 0 <= j < items@.len() implies #[trigger] res@.contains(j as usize) by {
                assert(pi.contains(j));
                let a = choose|a: int| 0 <= a < pi.len() && pi[a] == j;
                assert(res@[a] as int == mi[perm@[a] as int]);
            }
        }
    }
    res
}

/// With the empty query every item passes, in list order.
proof fn lemma_match_all(items: Seq<WorkshopItem>, q: Seq<char>)
    requires
        q.len() == 0,
    ensures
        matching_indices(items, q).len() == items.len(),
        forall|k: int| 0 <= k < items.len() ==> #[trigger] matching_indices(items, q)[k] == k,
    decreases items.len(),
{
    if items.len() > 0 {
        lemma_match_all(items.drop_last(), q);
    }
}

/// `n` distinct indices below `n` take every index below `n`.
proof fn lemma_distinct_indices_cover(p: Seq<int>, n: int)
    requires
        p.len() == n,
        forall|a: int| 0 <= a < p.len() ==> 0 <= #[trigger] p[a] < n,
        forall|a: int, b: int| 0 <= a < b < p.len() ==> p[a] != p[b],
    ensures
        forall|j: int| 0 <= j < n ==> #[trigger] p.contains(j),
{
    assert(p.no_duplicates()) by {
        assert forall|a: int, b: int| 0 <= a < p.len() && 0 <= b < p.len() && a != b implies p[a] != p[b] by {
            if a > b {
                assert(p[b] != p[a]);
            }
        }
    }
    p.unique_seq_to_set();
    vstd::set_lib::lemma_int_range(0, n);
    let r = vstd::set_lib::set_int_range(0, n);
    assert(p.to_set().subset_of(r));
    vstd::seq_lib::seq_to_set_is_finite(p);
    vstd::set_lib::lemma_subset_equality(p.to_set(), r);
    assert forall|j: int| 0 <= j < n implies #[trigger] p.contains(j) by {
        assert(r.contains(j));
        assert(p.to_set().contains(j));
    }
}

// ---------------------------------------------------------------------------------------
// Game cards

/// How many items have status `st`.
pub open spec fn count_status(items: Seq<WorkshopItem>, st: ItemStatus) -> nat {
    items.filter(|it: WorkshopItem| it.status == st).len()
}

/// The numbers on a game card.
#[derive(Debug, Clone, Copy, PartialEq, Eq, Structural)]
pub struct CardCounts {
    pub total: usize,
    pub up_to_date: usize,
    pub out_of_date: usize,
}

/// The counts of `view_game_card`: all items, those up to date and those out of date
/// (the card warns "N outdated" when the last is not 0).
pub fn card_counts(items: &Vec<WorkshopItem>) -> (res: CardCounts)
    ensures
        res.total == items@.len(),
        res.up_to_date == count_status(items@, ItemStatus::UpToDate),
        res.out_of_date == count_status(items@, ItemStatus::OutOfDate),
{
    let mut up: usize = 0;
    let mut out: usize = 0;
    let mut i: usize = 0;
    while i < items.len()
        invariant
            i <= items@.len(),
            up == count_status(items@.take(i as int), ItemStatus::UpToDate),
            out == count_status(items@.take(i as int), ItemStatus::OutOfDate),
            up <= i,
            out <= i,
        decreases items@.len() - i,
    {
        assert(items@.take(i + 1).drop_last() =~= items@.take(i as int));
        assert(items@.take(i + 1).last() == items@[i as int]);
        reveal_with_fuel(Seq::filter, 1);
        if items[i].status == ItemStatus::UpToDate {
            up = up + 1;
        } else if items[i].status == ItemStatus::OutOfDate {
            out = out + 1;
        }
        i = i + 1;
    }
    assert(items@.take(items@.len() as int) =~= items@);
    CardCounts { total: items.len(), up_to_date: up, out_of_date: out }
}

// ---------------------------------------------------------------------------------------
// The bottom bar

/// The appid whose items are shown: the selected one, or the empty string.
pub open spec fn active_appid(m: ModelView) -> Seq<char> {
    match m.selected {
        Some(a) => a,
        None => Seq::empty(),
    }
}

/// The items shown, if the library is loaded and has the active appid.
pub open spec fn active_items(m: ModelView) -> Option<Seq<WorkshopItem>> {
    match m.state {
        StateView::Loaded(l) => assoc_get(l.items, active_appid(m)),
        _ => None,
    }
}

/// Whether a re-download is running or being watched (the buttons are then disabled).
pub open spec fn is_busy(m: ModelView) -> bool {
    m.polling is Some || m.in_progress
}

/// What the bottom bar offers.
#[derive(Debug, Clone, Copy, PartialEq, Eq, Structural)]
pub struct BottomBar {
    /// Asking "Delete and redownload N item(s)?" instead of the usual buttons.
    pub confirming: bool,
    pub selected_count: usize,
    pub has_outdated: bool,
    /// "Refresh" (sends `RefreshGame`).
    pub refresh_enabled: bool,
    /// "Select Out of Date" (sends `SelectOutOfDate`).
    pub select_outdated_enabled: bool,
    /// "Force Redownload" (sends `ConfirmRedownload`).
    pub redownload_enabled: bool,
    /// "Yes, redownload" while confirming (sends `ForceRedownload`).
    pub confirm_enabled: bool,
}

/// The bottom bar for the shown items `its`.
pub open spec fn bottom_bar_for(m: ModelView, its: Seq<WorkshopItem>) -> BottomBar {
    let n = selected_items(its).len();
    let outdated = exists|i: int| 0 <= i < its.len() && #[trigger] its[i].status == ItemStatus::OutOfDate;
    BottomBar {
        confirming: m.confirming,
        selected_count: n as usize,
        has_outdated: outdated,
        refresh_enabled: !is_busy(m),
        select_outdated_enabled: !is_busy(m) && outdated,
        redownload_enabled: !is_busy(m) && n > 0,
        confirm_enabled: !is_busy(m),
    }
}

/// The bottom bar, shown only while the active game's items are.
pub open spec fn bottom_bar_of(m: ModelView) -> Option<BottomBar> {
    match active_items(m) {
        Some(its) => Some(bottom_bar_for(m, its)),
        None => None,
    }
}

proof fn lemma_selected_len(items: Seq<WorkshopItem>)
    ensures
        selected_items(items).len() <= items.len(),
    decreases items.len(),
{
    reveal_with_fuel(Seq::filter, 1);
    if items.len() > 0 {
        lemma_selected_len(items.drop_last());
    }
}

impl AppModel {
    /// The item list of the game whose items are shown, if any.
    pub fn shown_items(&self) -> (res: Option<&Vec<WorkshopItem>>)
        ensures
            match res {
                Some(v) => active_items(self@) == Some(v@),
                None => active_items(self@) is None,
            },
    {
        let empty = String::new();
        let a = match &self.selected_game {
            Some(a) => a,
            None => &empty,
        };
        proof {
            if self.selected_game is None {
                assert(a@ =~= Seq::<char>::empty());
            }
        }
        match &self.state {
            AppState::Loaded { items, .. } => match crate::model::find_items(items, a) {
                Some(k) => Some(&items[k].items),
                None => None,
            },
            _ => None,
        }
    }

    /// What the bottom bar offers (`view_bottom_bar`), or `None` when no items are shown.
    pub fn bottom_bar(&self) -> (res: Option<BottomBar>)
        ensures
            res == bottom_bar_of(self@),
    {
        let its = match self.shown_items() {
            Some(v) => v,
            None => return None,
        };
        let mut n: usize = 0;
        let mut outdated = false;
        let mut i: usize = 0;
        while i < its.len()
            invariant
                i <= its@.len(),
                n == selected_items(its@.take(i as int)).len(),
                n <= i,
                outdated == exists|j: int| 0 <= j < i && #[trigger] its@[j].status == ItemStatus::OutOfDate,
            decreases its@.len() - i,
        {
            assert(its@.take(i + 1).drop_last() =~= its@.take(i as int));
            assert(its@.take(i + 1).last() == its@[i as int]);
            reveal_with_fuel(Seq::filter, 1);
            if its[i].selected {
                n = n + 1;
            }
            if its[i].status == ItemStatus::OutOfDate {
                outdated = true;
            }
            i = i + 1;
        }
        assert(its@.take(its@.len() as int) =~= its@);
        let busy = self.polling.is_some() || self.redownload_in_progress;
        Some(BottomBar {
            confirming: self.confirming_redownload,
            selected_count: n,
            has_outdated: outdated,
            refresh_enabled: !busy,
            select_outdated_enabled: !busy && outdated,
            redownload_enabled: !busy && n > 0,
            confirm_enabled: !busy,
        })
    }
}

/// The messages of the bottom bar's buttons; `None` for a button that is not shown or is
/// disabled.
#[derive(Debug)]
pub struct BarActions {
    /// "Refresh": reloads the shown game.
    pub refresh: Option<Message>,
    /// "Select Out of Date".
    pub select_outdated: Option<Message>,
    /// "Force Redownload": asks for confirmation first.
    pub redownload: Option<Message>,
    /// "Cancel", while confirming.
    pub cancel: Option<Message>,
    /// "Yes, redownload", while confirming.
    pub confirm: Option<Message>,
}

/// The messages of the bottom bar, viewed.
pub struct BarActionsView {
    pub refresh: Option<MessageView>,
    pub select_outdated: Option<MessageView>,
    pub redownload: Option<MessageView>,
    pub cancel: Option<MessageView>,
    pub confirm: Option<MessageView>,
}

impl BarActions {
    pub open spec fn view(&self) -> BarActionsView {
        BarActionsView {
            refresh: opt_msg(self.refresh),
            select_outdated: opt_msg(self.select_outdated),
            redownload: opt_msg(self.redownload),
            cancel: opt_msg(self.cancel),
            confirm: opt_msg(self.confirm),
        }
    }
}

/// What each button of `bar` sends, for the game `appid`: while confirming, Cancel and (when
/// not busy) the re-download itself; otherwise Refresh, Select Out of Date and Force
/// Redownload, each when enabled.
pub open spec fn bar_actions_for(bar: BottomBar, appid: Seq<char>) -> BarActionsView {
    if bar.confirming {
        BarActionsView {
            refresh: None,
            select_outdated: None,
            redownload: None,
            cancel: Some(MessageView::CancelRedownload),
            confirm: if bar.confirm_enabled { Some(MessageView::ForceRedownload) } else { None },
        }
    } else {
        BarActionsView {
            refresh: if bar.refresh_enabled { Some(MessageView::RefreshGame(appid)) } else { None },
            select_outdated: if bar.select_outdated_enabled { Some(MessageView::SelectOutOfDate) } else { None },
            redownload: if bar.redownload_enabled { Some(MessageView::ConfirmRedownload) } else { None },
            cancel: None,
            confirm: None,
        }
    }
}

/// The messages of the bottom bar `bar` shown for the game `appid`.
pub fn bar_actions(bar: &BottomBar, appid: &str) -> (res: BarActions)
    ensures
        res.view() == bar_actions_for(*bar, appid@),
{
    if bar.confirming {
        BarActions {
            refresh: None,
            select_outdated: None,
            redownload: None,
            cancel: Some(Message::CancelRedownload),
            confirm: if bar.confirm_enabled { Some(Message::ForceRedownload) } else { None },
        }
    } else {
        BarActions {
            refresh: if bar.refresh_enabled { Some(Message::RefreshGame(appid.to_owned())) } else { None },
            select_outdated: if bar.select_outdated_enabled { Some(Message::SelectOutOfDate) } else { None },
            redownload: if bar.redownload_enabled { Some(Message::ConfirmRedownload) } else { None },
            cancel: None,
            confirm: None,
        }
    }
}

impl AppModel {
    /// The appid whose items are shown (empty when none is selected).
    pub fn active_appid(&self) -> (res: String)
        ensures
            res@ == active_appid(self@),
    {
        match &self.selected_game {
            Some(a) => a.clone(),
            None => {
                let e = String::new();
                assert(e@ =~= Seq::<char>::empty());
                e
            },
        }
    }

    /// The messages of the bottom bar, or `None` when no items are shown.
    pub fn bottom_bar_actions(&self) -> (res: Option<BarActions>)
        ensures
            match bottom_bar_of(self@) {
                Some(b) => res matches Some(acts) && acts.view() == bar_actions_for(b, active_appid(self@)),
                None => res is None,
            },
    {
        match self.bottom_bar() {
            Some(bar) => {
                let a = self.active_appid();
                Some(bar_actions(&bar, a.as_str()))
            },
            None => None,
        }
    }

    /// What toggling the header's check box sends: select or clear all items of the shown game.
    pub fn header_toggle_action(&self) -> (res: Message)
        ensures
            res.view() == MessageView::ToggleAllItems(active_appid(self@)),
    {
        Message::ToggleAllItems(self.active_appid())
    }
}

/// The text left of the bottom bar's buttons.
pub open spec fn selection_text(confirming: bool, n: nat) -> Seq<char> {
    if confirming {
        "Delete and redownload "@ + decimal(n) + " item(s) from Steam? This cannot be undone."@
    } else if n == 0 {
        "No items selected"@
    } else {
        decimal(n) + " item(s) selected"@
    }
}

/// The label of the bottom bar.
pub fn selection_label(bar: &BottomBar) -> (res: String)
    ensures
        res@ == selection_text(bar.confirming, bar.selected_count as nat),
{
    let mut v: Vec<char> = Vec::new();
    if bar.confirming {
        push_str(&mut v, "Delete and redownload ");
        push_decimal(&mut v, bar.selected_count as u64);
        push_str(&mut v, " item(s) from Steam? This cannot be undone.");
    } else if bar.selected_count == 0 {
        push_str(&mut v, "No items selected");
    } else {
        push_decimal(&mut v, bar.selected_count as u64);
        push_str(&mut v, " item(s) selected");
    }
    string_from_chars(&v)
}

/// The header of the item list: `N item(s)`, and ` (filtered from M)` when the search hides some.
pub open spec fn count_text(shown: nat, total: nat) -> Seq<char> {
    decimal(shown) + " item(s)"@ + if shown != total {
        " (filtered from "@ + decimal(total) + ")"@
    } else {
        Seq::empty()
    }
}

/// The count shown above the item list.
pub fn count_label(shown: usize, total: usize) -> (res: String)
    ensures
        res@ == count_text(shown as nat, total as nat),
{
    let mut v: Vec<char> = Vec::new();
    push_decimal(&mut v, shown as u64);
    push_str(&mut v, " item(s)");
    if shown != total {
        push_str(&mut v, " (filtered from ");
        push_decimal(&mut v, total as u64);
        push_str(&mut v, ")");
    }
    assert(v@ =~= count_text(shown as nat, total as nat));
    string_from_chars(&v)
}

// ---------------------------------------------------------------------------------------
// The status line

/// What the status line above the item list shows.
#[derive(Debug, Clone, Copy, PartialEq, Eq, Structural)]
pub enum StatusLine {
    Hidden,
    /// "All items redownloaded successfully." with a Dismiss button.
    Complete,
    /// Deleting files and queueing downloads.
    InProgress,
    /// Watching Steam: items still pending, resolved so far, at the start, and seconds.
    Watching { pending: usize, resolved: usize, initial: usize, elapsed: u32 },
}

/// The status line (`view_status_bar`): a finished re-download first, then one running,
/// then one watched; `resolved` is `initial - pending`, or 0 when that would be negative.
pub open spec fn status_line_of(m: ModelView) -> StatusLine {
    if m.complete {
        StatusLine::Complete
    } else if m.in_progress {
        StatusLine::InProgress
    } else {
        match m.polling {
            Some(p) => StatusLine::Watching {
                pending: p.pending.len() as usize,
                resolved: if p.initial >= p.pending.len() { (p.initial - p.pending.len()) as usize } else { 0 },
                initial: p.initial,
                elapsed: p.elapsed,
            },
            None => StatusLine::Hidden,
        }
    }
}

/// The text of a watched re-download.
pub open spec fn watching_text(pending: nat, resolved: nat, initial: nat, elapsed: nat) -> Seq<char> {
    if elapsed == 0 {
        "Waiting for Steam to start downloading "@ + decimal(pending) + " item(s)..."@
    } else if pending == 0 {
        "All items downloaded — verifying..."@
    } else {
        "Downloading — "@ + decimal(resolved) + " of "@ + decimal(initial) + " item(s) resolved ("@ + decimal(elapsed)
            + "s elapsed)"@
    }
}

impl AppModel {
    /// What the status line shows.
    pub fn status_line(&self) -> (res: StatusLine)
        ensures
            res == status_line_of(self@),
    {
        if self.redownload_complete {
            StatusLine::Complete
        } else if self.redownload_in_progress {
            StatusLine::InProgress
        } else {
            match &self.polling {
                Some(p) => {
                    let pending = p.pending_item_ids.len();
                    proof {
                        assert(crate::model::strings_view(p.pending_item_ids@).len() == pending);
                    }
                    StatusLine::Watching {
                        pending,
                        resolved: p.initial_item_count.saturating_sub(pending),
                        initial: p.initial_item_count,
                        elapsed: p.elapsed_secs,
                    }
                },
                None => StatusLine::Hidden,
            }
        }
    }
}

/// The text of the status line, if it has one of its own.
pub fn status_text(line: StatusLine) -> (res: Option<String>)
    ensures
        line is Hidden ==> res is None,
        line is Complete ==> (res matches Some(s) && s@ == "✓ All items redownloaded successfully."@),
        line is InProgress ==> (res matches Some(s) && s@ == "Deleting local files and queuing Steam download..."@),
        line matches StatusLine::Watching { pending, resolved, initial, elapsed } ==> (res matches Some(s) && s@
            == watching_text(pending as nat, resolved as nat, initial as nat, elapsed as nat)),
{
    match line {
        StatusLine::Hidden => None,
        StatusLine::Complete => Some(String::from_str("✓ All items redownloaded successfully.")),
        StatusLine::InProgress => Some(String::from_str("Deleting local files and queuing Steam download...")),
        StatusLine::Watching { pending, resolved, initial, elapsed } => {
            let mut v: Vec<char> = Vec::new();
            if elapsed == 0 {
                push_str(&mut v, "Waiting for Steam to start downloading ");
                push_decimal(&mut v, pending as u64);
                push_str(&mut v, " item(s)...");
            } else if pending == 0 {
                push_str(&mut v, "All items downloaded — verifying...");
            } else {
                push_str(&mut v, "Downloading — ");
                push_decimal(&mut v, resolved as u64);
                push_str(&mut v, " of ");
                push_decimal(&mut v, initial as u64);
                push_str(&mut v, " item(s) resolved (");
                push_decimal(&mut v, elapsed as u64);
                push_str(&mut v, "s elapsed)");
            }
            assert(v@ =~= watching_text(pending as nat, resolved as nat, initial as nat, elapsed as nat));
            Some(string_from_chars(&v))
        },
    }
}

/// A message that may be sent, viewed.
pub open spec fn opt_msg(o: Option<Message>) -> Option<MessageView> {
    match o {
        Some(m) => Some(m.view()),
        None => None,
    }
}

/// The button of the status line and what it sends: Dismiss on a finished re-download,
/// Stop watching while Steam is watched, none otherwise.
pub open spec fn status_action_of(line: StatusLine) -> Option<MessageView> {
    match line {
        StatusLine::Complete => Some(MessageView::DismissComplete),
        StatusLine::Watching { .. } => Some(MessageView::StopPolling),
        _ => None,
    }
}

/// The message that the status line's button sends, if it has one.
pub fn status_action(line: StatusLine) -> (res: Option<Message>)
    ensures
        opt_msg(res) == status_action_of(line),
{
    match line {
        StatusLine::Complete => Some(Message::DismissComplete),
        StatusLine::Watching { .. } => Some(Message::StopPolling),
        _ => None,
    }
}

// ---------------------------------------------------------------------------------------
// The scan's progress texts

/// Which part of a game's scan is running.
#[derive(Debug, Clone, Copy, PartialEq, Eq, Structural)]
pub enum ScanStep {
    /// Listing the item folders.
    Entries,
    /// Asking the Workshop about the items.
    Metadata,
}

/// The status text while game number `i` (counted from 0) of `total` is scanned.
pub open spec fn scan_step_text(step: ScanStep, name: Seq<char>, i: nat, total: nat) -> Seq<char> {
    let head = match step {
        ScanStep::Entries => "Loading workshop entries for "@,
        ScanStep::Metadata => "Fetching workshop metadata for "@,
    };
    head + name + " ("@ + decimal(i + 1) + "/"@ + decimal(total) + ")..."@
}

/// The status text of a step of the scan (`scan_steam_with_status`).
pub fn scan_step_label(step: ScanStep, name: &str, index: usize, total: usize) -> (res: String)
    requires
        index < usize::MAX,
    ensures
        res@ == scan_step_text(step, name@, index as nat, total as nat),
{
    let mut v: Vec<char> = Vec::new();
    match step {
        ScanStep::Entries => push_str(&mut v, "Loading workshop entries for "),
        ScanStep::Metadata => push_str(&mut v, "Fetching workshop metadata for "),
    }
    push_str(&mut v, name);
    push_str(&mut v, " (");
    push_decimal(&mut v, (index + 1) as u64);
    push_str(&mut v, "/");
    push_decimal(&mut v, total as u64);
    push_str(&mut v, ")...");
    assert(v@ =~= scan_step_text(step, name@, index as nat, total as nat));
    string_from_chars(&v)
}

/// The status text once the scan has ended: how many games loaded, or why it failed.
pub open spec fn scan_done_text(loaded: Result<nat, Seq<char>>) -> Seq<char> {
    match loaded {
        Ok(n) => "Loaded "@ + decimal(n) + " games"@,
        Err(e) => "Scan failed: "@ + e,
    }
}

/// The status text once the scan has ended.
pub fn scan_done_label(loaded: &Result<usize, String>) -> (res: String)
    ensures
        res@ == scan_done_text(match loaded {
            Ok(n) => Ok(*n as nat),
            Err(e) => Err(e@),
        }),
{
    let mut v: Vec<char> = Vec::new();
    match loaded {
        Ok(n) => {
            push_str(&mut v, "Loaded ");
            push_decimal(&mut v, *n as u64);
            push_str(&mut v, " games");
        },
        Err(e) => {
            push_str(&mut v, "Scan failed: ");
            push_str(&mut v, e.as_str());
        },
    }
    string_from_chars(&v)
}

// ---------------------------------------------------------------------------------------
// The game list

/// A game card, viewed.
pub struct GameCardView {
    pub appid: Seq<char>,
    pub name: Seq<char>,
    pub counts: CardCounts,
    pub selected: bool,
    pub has_banner: bool,
    pub on_press: MessageView,
}

/// A card of the game list.
#[derive(Debug)]
pub struct GameCard {
    pub appid: String,
    /// The game's name, or `Unknown Game`.
    pub name: String,
    pub counts: CardCounts,
    /// The card of the game whose items are shown.
    pub selected: bool,
    /// Its banner image is loaded (else a placeholder is drawn).
    pub has_banner: bool,
    /// What pressing the card sends: select its game.
    pub on_press: Message,
}

impl GameCard {
    pub open spec fn view(&self) -> GameCardView {
        GameCardView {
            appid: self.appid@,
            name: self.name@,
            counts: self.counts,
            selected: self.selected,
            has_banner: self.has_banner,
            on_press: self.on_press.view(),
        }
    }
}

/// The counts of a list of items.
pub open spec fn counts_of(its: Seq<WorkshopItem>) -> CardCounts {
    CardCounts {
        total: its.len() as usize,
        up_to_date: count_status(its, ItemStatus::UpToDate) as usize,
        out_of_date: count_status(its, ItemStatus::OutOfDate) as usize,
    }
}

/// The card of game `g` (appid `a`); a game without an item list counts none.
pub open spec fn card_for(m: ModelView, l: LoadedView, a: Seq<char>, g: crate::types::GameEntry) -> GameCardView {
    GameCardView {
        appid: a,
        name: match g.name {
            Some(n) => n@,
            None => "Unknown Game"@,
        },
        counts: counts_of(
            match assoc_get(l.items, a) {
                Some(its) => its,
                None => Seq::empty(),
            },
        ),
        selected: a == active_appid(m),
        has_banner: m.banners.contains(a),
        on_press: MessageView::SelectGame(a),
    }
}

/// The cards for the appids of `order` that have a game, in that order.
pub open spec fn cards_for(m: ModelView, l: LoadedView, order: Seq<Seq<char>>) -> Seq<GameCardView>
    decreases order.len(),
{
    if order.len() == 0 {
        Seq::empty()
    } else {
        let prev = cards_for(m, l, order.drop_last());
        match assoc_get(l.games, order.last()) {
            Some(g) => prev.push(card_for(m, l, order.last(), g)),
            None => prev,
        }
    }
}

/// The game list (`view_game_list`): empty unless the library is loaded.
pub open spec fn game_cards_of(m: ModelView) -> Seq<GameCardView> {
    match m.state {
        StateView::Loaded(l) => cards_for(m, l, l.order),
        _ => Seq::empty(),
    }
}

proof fn lemma_count_status_bound(its: Seq<WorkshopItem>, st: ItemStatus)
    ensures
        count_status(its, st) <= its.len(),
    decreases its.len(),
{
    reveal_with_fuel(Seq::filter, 1);
    if its.len() > 0 {
        lemma_count_status_bound(its.drop_last(), st);
        assert(its.drop_last().filter(|it: WorkshopItem| it.status == st) == its.filter(|it: WorkshopItem| it.status == st)
            || its.filter(|it: WorkshopItem| it.status == st) == its.drop_last().filter(|it: WorkshopItem| it.status == st).push(its.last()));
    }
}

impl AppModel {
    /// Whether `a` is the appid whose items are shown.
    fn is_active(&self, a: &String) -> (res: bool)
        ensures
            res == (a@ == active_appid(self@)),
    {
        match &self.selected_game {
            Some(s) => *s == *a,
            None => {
                proof {
                    if a@.len() == 0 {
                        assert(a@ =~= Seq::<char>::empty());
                    }
                }
                a.as_str().is_empty()
            },
        }
    }

    /// The cards of the game list, in the scan's order.
    pub fn game_cards(&self) -> (res: Vec<GameCard>)
        ensures
            res@.map_values(|c: GameCard| c.view()) == game_cards_of(self@),
    {
        let mut res: Vec<GameCard> = Vec::new();
        let (games, items, order) = match &self.state {
            AppState::Loaded { games, items, game_order } => (games, items, game_order),
            _ => {
                assert(res@.map_values(|c: GameCard| c.view()) =~= game_cards_of(self@));
                return res;
            },
        };
        let ghost l = match self@.state {
            StateView::Loaded(l) => l,
            _ => arbitrary(),
        };
        let ghost ov = l.order;
        let mut i: usize = 0;
        while i < order.len()
            invariant
                i <= order@.len(),
                self@.state == StateView::Loaded(l),
                ov == crate::model::strings_view(order@),
                l.order == ov,
                l.games == crate::model::games_view(games@),
                l.items == crate::model::items_view(items@),
                res@.map_values(|c: GameCard| c.view()) == cards_for(self@, l, ov.take(i as int)),
            decreases order@.len() - i,
        {
            assert(ov.take(i + 1).drop_last() =~= ov.take(i as int));
            assert(ov.take(i + 1).last() == order@[i as int]@);
            let a = &order[i];
            let ghost before = res@;
            proof {
                crate::model::lemma_assoc_find(l.games, a@);
                crate::model::lemma_assoc_find(l.items, a@);
            }
            if let Some(gi) = crate::model::find_game(games, a) {
                let g = &games[gi].game;
                let name = match &g.name {
                    Some(n) => n.clone(),
                    None => String::from_str("Unknown Game"),
                };
                let counts = match crate::model::find_items(items, a) {
                    Some(k) => {
                        let c = card_counts(&items[k].items);
                        proof {
                            lemma_count_status_bound(items@[k as int].items@, ItemStatus::UpToDate);
                            lemma_count_status_bound(items@[k as int].items@, ItemStatus::OutOfDate);
                        }
                        c
                    },
                    None => {
                        let empty: Vec<WorkshopItem> = Vec::new();
                        let c = card_counts(&empty);
                        proof {
                            lemma_count_status_bound(empty@, ItemStatus::UpToDate);
                            lemma_count_status_bound(empty@, ItemStatus::OutOfDate);
                            assert(empty@ =~= Seq::<WorkshopItem>::empty());
                        }
                        c
                    },
                };
                let card = GameCard {
                    appid: a.clone(),
                    name,
                    counts,
                    selected: self.is_active(a),
                    has_banner: self.banner_cached(a),
                    on_press: Message::SelectGame(a.clone()),
                };
                res.push(card);
                assert(res@.map_values(|c: GameCard| c.view()) =~= before.map_values(|c: GameCard| c.view()).push(
                    card_for(self@, l, a@, *g),
                ));
            }
            i = i + 1;
        }
        assert(ov.take(order@.len() as int) =~= ov);
        res
    }
}

// ---------------------------------------------------------------------------------------
// The item rows

/// How an item row is drawn.
#[derive(Debug, Clone, Copy, PartialEq, Eq, Structural)]
pub enum RowStyle {
    Selected,
    OutOfDate,
    Plain,
}

/// What a row of the item list shows.
#[derive(Debug)]
pub struct ItemRow {
    /// The item's title, or its id.
    pub title: String,
    pub status_text: String,
    /// `ID: …  •  Size: …  •  Local: …  •  Remote: …` (shown unless compact).
    pub details: String,
    pub style: RowStyle,
    /// What pressing the row sends: toggle the item's selection.
    pub on_press: Message,
    /// What the folder button sends: open the item's folder.
    pub on_folder: Message,
    /// What the Steam button sends: open the item's Workshop page.
    pub on_steam: Message,
}

/// The words for a status.
pub open spec fn status_words(st: ItemStatus) -> Seq<char> {
    match st {
        ItemStatus::UpToDate => "Up to Date"@,
        ItemStatus::OutOfDate => "Out of Date"@,
        ItemStatus::Unknown => "Unknown"@,
    }
}

/// The title of a row.
pub open spec fn row_title(it: WorkshopItem) -> Seq<char> {
    match it.name {
        Some(n) => n@,
        None => it.item_id@,
    }
}

/// A selected row stands out first; then an out-of-date one.
pub open spec fn row_style(it: WorkshopItem) -> RowStyle {
    if it.selected {
        RowStyle::Selected
    } else if it.status == ItemStatus::OutOfDate {
        RowStyle::OutOfDate
    } else {
        RowStyle::Plain
    }
}

/// The detail line, given the texts of the two timestamps.
pub open spec fn row_details(it: WorkshopItem, local: Seq<char>, remote: Seq<char>) -> Seq<char> {
    "ID: "@ + it.item_id@ + "  •  Size: "@ + size_text(it.disk_size as nat) + "  •  Local: "@ + local
        + "  •  Remote: "@ + remote
}

/// The row of item `it` of the game `appid`.
pub fn item_row(appid: &str, it: &WorkshopItem) -> (res: ItemRow)
    ensures
        res.title@ == row_title(*it),
        res.status_text@ == "•  "@ + status_words(it.status),
        res.style == row_style(*it),
        res.on_press.view() == MessageView::ToggleItem(appid@, it.item_id@),
        res.on_folder.view() == MessageView::OpenFolder(it.path@),
        res.on_steam.view() == MessageView::OpenSteam(appid@, it.item_id@),
        res.details@ == row_details(*it, timestamp_text(it.local_timestamp), timestamp_text(it.remote_timestamp)),
{
    let title = match &it.name {
        Some(n) => n.clone(),
        None => it.item_id.clone(),
    };
    let mut st: Vec<char> = Vec::new();
    push_str(&mut st, "•  ");
    match it.status {
        ItemStatus::UpToDate => push_str(&mut st, "Up to Date"),
        ItemStatus::OutOfDate => push_str(&mut st, "Out of Date"),
        ItemStatus::Unknown => push_str(&mut st, "Unknown"),
    }
    let status_text = string_from_chars(&st);
    let size = format_size(it.disk_size);
    let local = format_timestamp(it.local_timestamp);
    let remote = format_timestamp(it.remote_timestamp);
    let mut v: Vec<char> = Vec::new();
    push_str(&mut v, "ID: ");
    push_str(&mut v, it.item_id.as_str());
    push_str(&mut v, "  •  Size: ");
    push_str(&mut v, size.as_str());
    push_str(&mut v, "  •  Local: ");
    push_str(&mut v, local.as_str());
    push_str(&mut v, "  •  Remote: ");
    push_str(&mut v, remote.as_str());
    assert(v@ =~= row_details(*it, local@, remote@));
    let style = if it.selected {
        RowStyle::Selected
    } else if it.status == ItemStatus::OutOfDate {
        RowStyle::OutOfDate
    } else {
        RowStyle::Plain
    };
    ItemRow {
        title,
        status_text,
        details: string_from_chars(&v),
        style,
        on_press: Message::ToggleItem { appid: appid.to_owned(), item_id: it.item_id.clone() },
        on_folder: Message::OpenFolder(it.path.clone()),
        on_steam: Message::OpenSteam { appid: appid.to_owned(), item_id: it.item_id.clone() },
    }
}

/// The header's check box: ticked when there are items and all are selected.
pub fn all_checked(items: &Vec<WorkshopItem>) -> (res: bool)
    ensures
        res == (items@.len() > 0 && forall|i: int| 0 <= i < items@.len() ==> #[trigger] items@[i].selected),
{
    let mut i: usize = 0;
    while i < items.len()
        invariant
            i <= items@.len(),
            forall|j: int| 0 <= j < i ==> #[trigger] items@[j].selected,
        decreases items@.len() - i,
    {
        if !items[i].selected {
            return false;
        }
        i = i + 1;
    }
    items.len() > 0
}

// ---------------------------------------------------------------------------------------
// The sort menu

/// The position of an order in the sort menu.
pub open spec fn sort_position(o: SortOrder) -> nat {
    match o {
        SortOrder::NameAsc => 0,
        SortOrder::NameDesc => 1,
        SortOrder::SizeAsc => 2,
        SortOrder::SizeDesc => 3,
        SortOrder::StatusFirst => 4,
    }
}

/// The order chosen at a menu position (any other position means `NameAsc`).
pub open spec fn sort_at_position(i: nat) -> SortOrder {
    if i == 1 {
        SortOrder::NameDesc
    } else if i == 2 {
        SortOrder::SizeAsc
    } else if i == 3 {
        SortOrder::SizeDesc
    } else if i == 4 {
        SortOrder::StatusFirst
    } else {
        SortOrder::NameAsc
    }
}

/// The menu position of an order.
pub fn sort_order_index(o: SortOrder) -> (res: usize)
    ensures
        res == sort_position(o),
{
    match o {
        SortOrder::NameAsc => 0,
        SortOrder::NameDesc => 1,
        SortOrder::SizeAsc => 2,
        SortOrder::SizeDesc => 3,
        SortOrder::StatusFirst => 4,
    }
}

/// The order chosen at a menu position.
pub fn sort_order_at(i: usize) -> (res: SortOrder)
    ensures
        res == sort_at_position(i as nat),
{
    if i == 1 {
        SortOrder::NameDesc
    } else if i == 2 {
        SortOrder::SizeAsc
    } else if i == 3 {
        SortOrder::SizeDesc
    } else if i == 4 {
        SortOrder::StatusFirst
    } else {
        SortOrder::NameAsc
    }
}

/// What choosing the entry at menu position `i` sends.
pub fn sort_choice_message(i: usize) -> (res: Message)
    ensures
        res.view() == MessageView::SortChanged(sort_at_position(i as nat)),
{
    Message::SortChanged(sort_order_at(i))
}

/// Choosing the entry that shows the current order keeps that order.
pub proof fn lemma_sort_menu_roundtrip(o: SortOrder)
    ensures
        sort_at_position(sort_position(o)) == o,
{
}

// ---------------------------------------------------------------------------------------
// Small texts of the cards and the header

/// `N items` under a game's name.
pub fn item_total_text(n: usize) -> (res: String)
    ensures
        res@ == decimal(n as nat) + " items"@,
{
    let mut v: Vec<char> = Vec::new();
    push_decimal(&mut v, n as u64);
    push_str(&mut v, " items");
    string_from_chars(&v)
}

/// The warning badge of a card: `N outdated`, shown only when some item is.
pub fn outdated_badge(out_of_date: usize) -> (res: Option<String>)
    ensures
        out_of_date == 0 ==> res is None,
        out_of_date > 0 ==> (res matches Some(s) && s@ == decimal(out_of_date as nat) + " outdated"@),
{
    if out_of_date == 0 {
        return None;
    }
    let mut v: Vec<char> = Vec::new();
    push_decimal(&mut v, out_of_date as u64);
    push_str(&mut v, " outdated");
    Some(string_from_chars(&v))
}

/// The label of the button that switches the list layout.
pub fn compact_toggle_label(compact: bool) -> (res: String)
    ensures
        res@ == if compact { "Expanded"@ } else { "Compact"@ },
{
    if compact {
        String::from_str("Expanded")
    } else {
        String::from_str("Compact")
    }
}

} // verus!
