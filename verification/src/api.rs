//! The Steam Web API and Steam Community requests: what is sent, and how the answers are
//! read.
use vstd::prelude::*;

use crate::library::MetadataEntry;
use crate::text::{decimal, push_decimal, push_str, string_from_chars};
use crate::types::{copy_opt_string, SteamCookies, WorkshopMetadata};

verus! {

/// One `publishedfiledetails` entry of a `GetPublishedFileDetails` answer (the tags as
/// their `tag` strings).
#[derive(Debug)]
pub struct PublishedFileEntry {
    pub publishedfileid: Option<String>,
    pub title: Option<String>,
    pub time_updated: Option<u64>,
    pub incompatible: Option<bool>,
    pub tags: Option<Vec<String>>,
    pub preview_url: Option<String>,
    pub hcontent_preview: Option<String>,
}

/// The preview to show: a non-empty `preview_url`, else the UGC image URL of a non-empty
/// `hcontent_preview`.
pub open spec fn resolved_preview(preview_url: Option<String>, hcontent: Option<String>) -> Option<Seq<char>> {
    match preview_url {
        Some(p) if p@.len() > 0 => Some(p@),
        _ => match hcontent {
            Some(h) if h@.len() > 0 => Some("https://steamuserimages-a.akamaihd.net/ugc/"@ + h@ + "/"@),
            _ => None,
        },
    }
}

fn resolve_preview(preview_url: &Option<String>, hcontent: &Option<String>) -> (res: Option<String>)
    ensures
        match resolved_preview(*preview_url, *hcontent) {
            Some(t) => res matches Some(s) && s@ == t,
            None => res is None,
        },
{
    if let Some(p) = preview_url {
        if !p.as_str().is_empty() {
            return Some(p.clone());
        }
    }
    if let Some(h) = hcontent {
        if !h.as_str().is_empty() {
            let mut v: Vec<char> = Vec::new();
            push_str(&mut v, "https://steamuserimages-a.akamaihd.net/ugc/");
            push_str(&mut v, h.as_str());
            push_str(&mut v, "/");
            return Some(string_from_chars(&v));
        }
    }
    None
}

/// Whether `m` is what `fetch_workshop_metadata_batch` records for entry `e`.
pub open spec fn metadata_of_entry(e: PublishedFileEntry, m: WorkshopMetadata) -> bool {
    &&& m.title == e.title
    &&& m.time_updated == e.time_updated
    &&& m.incompatible == match e.incompatible {
        Some(b) => b,
        None => false,
    }
    &&& m.tags@ == match e.tags {
        Some(t) => t@,
        None => Seq::empty(),
    }
    &&& match resolved_preview(e.preview_url, e.hcontent_preview) {
        Some(t) => m.preview_url matches Some(s) && s@ == t,
        None => m.preview_url is None,
    }
}

/// The preview recorded for an entry: its `preview_url` when that is present and not
/// empty; otherwise (absent or empty) the UGC image URL of a non-empty
/// `hcontent_preview`; and nothing when neither is there.
pub proof fn lemma_recorded_preview(e: PublishedFileEntry, m: WorkshopMetadata)
    requires
        metadata_of_entry(e, m),
    ensures
        e.preview_url is Some && e.preview_url->Some_0@.len() > 0 ==> (m.preview_url matches Some(s) && s@
            == e.preview_url->Some_0@),
        (e.preview_url is None || e.preview_url->Some_0@.len() == 0) ==> match e.hcontent_preview {
            Some(h) if h@.len() > 0 => m.preview_url matches Some(s) && s@
                == "https://steamuserimages-a.akamaihd.net/ugc/"@ + h@ + "/"@,
            _ => m.preview_url is None,
        },
{
}

/// The entries of `entries` that carry an id, in order.
pub open spec fn entries_with_id(entries: Seq<PublishedFileEntry>) -> Seq<PublishedFileEntry> {
    entries.filter(|e: PublishedFileEntry| e.publishedfileid is Some)
}

/// The metadata of every answered entry that has an id, in answer order (a later entry
/// for the same id replaces an earlier one on lookup).
pub fn metadata_from_entries(entries: Vec<PublishedFileEntry>) -> (res: Vec<MetadataEntry>)
    ensures
        res@.len() == entries_with_id(entries@).len(),
        forall|k: int|
            0 <= k < res@.len() ==> (entries_with_id(entries@)[k].publishedfileid matches Some(id) && (#[trigger] res@[k]).id == id)
                && metadata_of_entry(entries_with_id(entries@)[k], res@[k].metadata),
{
    let mut res: Vec<MetadataEntry> = Vec::new();
    let mut i: usize = 0;
    while i < entries.len()
        invariant
            i <= entries.len(),
            res@.len() == entries_with_id(entries@.take(i as int)).len(),
            forall|k: int|
                0 <= k < res@.len() ==> (entries_with_id(entries@.take(i as int))[k].publishedfileid matches Some(id) && (#[trigger] res@[k]).id == id)
                    && metadata_of_entry(entries_with_id(entries@.take(i as int))[k], res@[k].metadata),
        decreases entries.len() - i,
    {
        assert(entries@.take(i + 1).drop_last() =~= entries@.take(i as int));
        assert(entries@.take(i + 1).last() == entries@[i as int]);
        reveal_with_fuel(Seq::filter, 1);
        let e = &entries[i];
        if let Some(id) = &e.publishedfileid {
            let tags = match &e.tags {
                Some(t) => crate::types::copy_strings(t),
                None => Vec::new(),
            };
            let meta = WorkshopMetadata {
                title: copy_opt_string(&e.title),
                time_updated: e.time_updated,
                incompatible: match e.incompatible {
                    Some(b) => b,
                    None => false,
                },
                tags,
                preview_url: resolve_preview(&e.preview_url, &e.hcontent_preview),
            };
            assert(meta.tags@ =~= match e.tags { Some(t) => t@, None => Seq::<String>::empty() });
            res.push(MetadataEntry { id: id.clone(), metadata: meta });
        }
        i = i + 1;
    }
    assert(entries@.take(entries.len() as int) =~= entries@);
    res
}

/// The form of a `GetPublishedFileDetails` request: `itemcount`, one
/// `publishedfileids[i]` per id, and `format=json`.
pub open spec fn details_form(ids: Seq<Seq<char>>) -> Seq<(Seq<char>, Seq<char>)> {
    seq![("itemcount"@, decimal(ids.len()))] + Seq::new(
        ids.len(),
        |i: int| ("publishedfileids["@ + decimal(i as nat) + "]"@, ids[i]),
    ) + seq![("format"@, "json"@)]
}

/// The URL the details request is posted to.
pub fn details_url() -> (res: String)
    ensures
        res@ == "https://api.steampowered.com/ISteamRemoteStorage/GetPublishedFileDetails/v1/"@,
{
    String::from_str("https://api.steampowered.com/ISteamRemoteStorage/GetPublishedFileDetails/v1/")
}

/// The form fields of the details request for `ids`.
pub fn details_request_form(ids: &Vec<String>) -> (res: Vec<(String, String)>)
    ensures
        res@.map_values(|p: (String, String)| (p.0@, p.1@)) == details_form(ids@.map_values(|s: String| s@)),
{
    let ghost iv = ids@.map_values(|s: String| s@);
    let mut res: Vec<(String, String)> = Vec::new();
    res.push((String::from_str("itemcount"), crate::text::decimal_string(ids.len() as u64)));
    let mut i: usize = 0;
    while i < ids.len()
        invariant
            i <= ids.len(),
            iv == ids@.map_values(|s: String| s@),
            res@.map_values(|p: (String, String)| (p.0@, p.1@)) == seq![("itemcount"@, decimal(iv.len()))] + Seq::new(
                i as nat,
                |j: int| ("publishedfileids["@ + decimal(j as nat) + "]"@, iv[j]),
            ),
            res@.len() == i + 1,
        decreases ids.len() - i,
    {
        let mut key: Vec<char> = Vec::new();
        push_str(&mut key, "publishedfileids[");
        push_decimal(&mut key, i as u64);
        push_str(&mut key, "]");
        let ghost old_view = res@.map_values(|p: (String, String)| (p.0@, p.1@));
        let ks = string_from_chars(&key);
        let idc = ids[i].clone();
        assert(idc@ == iv[i as int]);
        res.push((ks, idc));
        let ghost f = |j: int| ("publishedfileids["@ + decimal(j as nat) + "]"@, iv[j]);
        assert(res@.map_values(|p: (String, String)| (p.0@, p.1@)) =~= old_view.push(f(i as int)));
        assert(Seq::new((i + 1) as nat, f) =~= Seq::new(i as nat, f).push(f(i as int)));
        assert(res@.map_values(|p: (String, String)| (p.0@, p.1@)) =~= seq![("itemcount"@, decimal(iv.len()))] + Seq::new((i + 1) as nat, f));
        i = i + 1;
    }
    let ghost before = res@;
    res.push((String::from_str("format"), String::from_str("json")));
    assert(res@.map_values(|p: (String, String)| (p.0@, p.1@)) =~= before.map_values(|p: (String, String)| (p.0@, p.1@)).push(("format"@, "json"@)));
    assert(res@.map_values(|p: (String, String)| (p.0@, p.1@)) =~= details_form(iv));
    res
}

/// A subscribe or unsubscribe request to the Steam Community.
#[derive(Debug)]
pub struct CommunityRequest {
    pub url: String,
    pub cookie: String,
    pub referer: String,
    pub origin: String,
    pub form: Vec<(String, String)>,
}

/// The `Cookie` header: `steamLoginSecure=<..>; sessionid=<..>`.
pub open spec fn cookie_header(c: SteamCookies) -> Seq<char> {
    "steamLoginSecure="@ + c.login_secure@ + "; sessionid="@ + c.session_id@
}

/// Whether `r` is the request that `subscribe` (or `unsubscribe`) sends.
pub open spec fn is_community_request(r: CommunityRequest, subscribe: bool, appid: Seq<char>, item_id: Seq<char>, c: SteamCookies) -> bool {
    &&& r.url@ == if subscribe {
        "https://steamcommunity.com/sharedfiles/subscribe"@
    } else {
        "https://steamcommunity.com/sharedfiles/unsubscribe"@
    }
    &&& r.cookie@ == cookie_header(c)
    &&& r.referer@ == "https://steamcommunity.com/sharedfiles/filedetails/?id="@ + item_id
    &&& r.origin@ == "https://steamcommunity.com"@
    &&& r.form@.map_values(|p: (String, String)| (p.0@, p.1@)) == seq![("id"@, item_id), ("appid"@, appid), ("sessionid"@, c.session_id@)]
}

/// The request that subscribes to (or unsubscribes from) a workshop item.
pub fn community_request(subscribe: bool, appid: &str, item_id: &str, cookies: &SteamCookies) -> (res: CommunityRequest)
    ensures
        is_community_request(res, subscribe, appid@, item_id@, *cookies),
{
    let url = if subscribe {
        String::from_str("https://steamcommunity.com/sharedfiles/subscribe")
    } else {
        String::from_str("https://steamcommunity.com/sharedfiles/unsubscribe")
    };
    let mut cookie: Vec<char> = Vec::new();
    push_str(&mut cookie, "steamLoginSecure=");
    push_str(&mut cookie, cookies.login_secure.as_str());
    push_str(&mut cookie, "; sessionid=");
    push_str(&mut cookie, cookies.session_id.as_str());
    let mut referer: Vec<char> = Vec::new();
    push_str(&mut referer, "https://steamcommunity.com/sharedfiles/filedetails/?id=");
    push_str(&mut referer, item_id);
    let mut form: Vec<(String, String)> = Vec::new();
    form.push((String::from_str("id"), String::from_str(item_id)));
    form.push((String::from_str("appid"), String::from_str(appid)));
    form.push((String::from_str("sessionid"), cookies.session_id.clone()));
    let r = CommunityRequest {
        url,
        cookie: string_from_chars(&cookie),
        referer: string_from_chars(&referer),
        origin: String::from_str("https://steamcommunity.com"),
        form,
    };
    assert(r.form@.map_values(|p: (String, String)| (p.0@, p.1@)) =~= seq![("id"@, item_id@), ("appid"@, appid@), ("sessionid"@, cookies.session_id@)]);
    r
}

} // verus!

verus! {

// ---------------------------------------------------------------------------------------
// Game banners

/// The images tried for a game's banner, in order: its library hero, then its header.
pub open spec fn banner_urls(appid: Seq<char>) -> Seq<Seq<char>> {
    seq![
        "https://cdn.cloudflare.steamstatic.com/steam/apps/"@ + appid + "/library_hero.jpg"@,
        "https://cdn.cloudflare.steamstatic.com/steam/apps/"@ + appid + "/header.jpg"@,
    ]
}

/// The CDN images tried for a game's banner (`load_banner_for_appid`).
pub fn banner_candidates(appid: &str) -> (res: Vec<String>)
    ensures
        res@.map_values(|s: String| s@) == banner_urls(appid@),
{
    let mut hero: Vec<char> = Vec::new();
    push_str(&mut hero, "https://cdn.cloudflare.steamstatic.com/steam/apps/");
    push_str(&mut hero, appid);
    push_str(&mut hero, "/library_hero.jpg");
    let mut header: Vec<char> = Vec::new();
    push_str(&mut header, "https://cdn.cloudflare.steamstatic.com/steam/apps/");
    push_str(&mut header, appid);
    push_str(&mut header, "/header.jpg");
    let mut res: Vec<String> = Vec::new();
    res.push(string_from_chars(&hero));
    res.push(string_from_chars(&header));
    assert(res@.map_values(|s: String| s@) =~= banner_urls(appid@));
    res
}

/// The store API asked for a game's header image when the CDN images fail.
pub fn app_details_url(appid: &str) -> (res: String)
    ensures
        res@ == "https://store.steampowered.com/api/appdetails?appids="@ + appid@ + "&filters=basic"@,
{
    let mut v: Vec<char> = Vec::new();
    push_str(&mut v, "https://store.steampowered.com/api/appdetails?appids=");
    push_str(&mut v, appid);
    push_str(&mut v, "&filters=basic");
    string_from_chars(&v)
}

/// The `header_image` the store API named, if it is a string and not empty.
pub fn usable_header_image(header_image: Option<String>) -> (res: Option<String>)
    ensures
        res == match header_image {
            Some(h) => if h@.len() > 0 { Some(h) } else { None },
            None => None,
        },
{
    match header_image {
        Some(h) => if h.as_str().is_empty() {
            None
        } else {
            Some(h)
        },
        None => None,
    }
}

/// Where a store answer keeps a game's header image: `[appid]["data"]["header_image"]`.
pub open spec fn header_image_keys(appid: Seq<char>) -> Seq<Seq<char>> {
    seq![appid, "data"@, "header_image"@]
}

/// The banner image a store answer offers: its `header_image`, if that is a non-empty
/// string.
pub fn header_image_url(answer: &str, appid: &str) -> (res: Option<String>)
    ensures
        match crate::json::json_str_at(answer@, header_image_keys(appid@)) {
            Some(Some(h)) => if h.len() > 0 {
                res matches Some(s) && s@ == h
            } else {
                res is None
            },
            _ => res is None,
        },
{
    let mut keys: Vec<String> = Vec::new();
    keys.push(String::from_str(appid));
    keys.push(String::from_str("data"));
    keys.push(String::from_str("header_image"));
    assert(keys@.map_values(|k: String| k@) =~= header_image_keys(appid@));
    let found = match crate::json::json_string_at(answer, &keys) {
        Some(Some(h)) => Some(h),
        _ => None,
    };
    usable_header_image(found)
}

} // verus!
