use steam_workshop_utility::api::{
    app_details_url, banner_candidates, community_request, header_image_url, details_request_form, details_url,
    metadata_from_entries, usable_header_image, PublishedFileEntry,
};
use steam_workshop_utility::types::SteamCookies;

fn entry(id: Option<&str>) -> PublishedFileEntry {
    PublishedFileEntry {
        publishedfileid: id.map(|s| s.to_string()),
        title: Some("Title".to_string()),
        time_updated: Some(1700000000),
        incompatible: None,
        tags: None,
        preview_url: None,
        hcontent_preview: None,
    }
}

#[test]
fn details_request() {
    assert_eq!(
        details_url(),
        "https://api.steampowered.com/ISteamRemoteStorage/GetPublishedFileDetails/v1/"
    );
    let ids = vec!["5".to_string(), "6".to_string()];
    let form = details_request_form(&ids);
    let expected: Vec<(String, String)> = [
        ("itemcount", "2"),
        ("publishedfileids[0]", "5"),
        ("publishedfileids[1]", "6"),
        ("format", "json"),
    ]
    .iter()
    .map(|(k, v)| (k.to_string(), v.to_string()))
    .collect();
    assert_eq!(form, expected);
}

#[test]
fn metadata_from_answers() {
    let mut with_preview = entry(Some("1"));
    with_preview.preview_url = Some("https://img/1".to_string());
    with_preview.incompatible = Some(true);
    with_preview.tags = Some(vec!["1.5".to_string(), "Mod".to_string()]);
    let mut with_hcontent = entry(Some("2"));
    with_hcontent.preview_url = Some(String::new());
    with_hcontent.hcontent_preview = Some("abc".to_string());
    let mut empty_hcontent = entry(Some("3"));
    empty_hcontent.hcontent_preview = Some(String::new());
    let out = metadata_from_entries(vec![with_preview, entry(None), with_hcontent, empty_hcontent]);
    assert_eq!(out.len(), 3);
    assert_eq!(out[0].id, "1");
    assert_eq!(out[0].metadata.preview_url.as_deref(), Some("https://img/1"));
    assert!(out[0].metadata.incompatible);
    assert_eq!(out[0].metadata.tags, vec!["1.5", "Mod"]);
    assert_eq!(out[1].id, "2");
    assert_eq!(
        out[1].metadata.preview_url.as_deref(),
        Some("https://steamuserimages-a.akamaihd.net/ugc/abc/")
    );
    assert!(!out[1].metadata.incompatible);
    assert!(out[1].metadata.tags.is_empty());
    assert_eq!(out[2].metadata.preview_url, None);
    assert_eq!(out[2].metadata.title.as_deref(), Some("Title"));
    assert_eq!(out[2].metadata.time_updated, Some(1700000000));
}

#[test]
fn subscribe_and_unsubscribe_requests() {
    let cookies = SteamCookies { session_id: "sid".to_string(), login_secure: "login".to_string() };
    let r = community_request(true, "440", "123", &cookies);
    assert_eq!(r.url, "https://steamcommunity.com/sharedfiles/subscribe");
    assert_eq!(r.cookie, "steamLoginSecure=login; sessionid=sid");
    assert_eq!(r.referer, "https://steamcommunity.com/sharedfiles/filedetails/?id=123");
    assert_eq!(r.origin, "https://steamcommunity.com");
    let form: Vec<(&str, &str)> = r.form.iter().map(|(k, v)| (k.as_str(), v.as_str())).collect();
    assert_eq!(form, vec![("id", "123"), ("appid", "440"), ("sessionid", "sid")]);
    let u = community_request(false, "440", "123", &cookies);
    assert_eq!(u.url, "https://steamcommunity.com/sharedfiles/unsubscribe");
}

#[test]
fn banner_sources() {
    assert_eq!(
        banner_candidates("440"),
        vec![
            "https://cdn.cloudflare.steamstatic.com/steam/apps/440/library_hero.jpg",
            "https://cdn.cloudflare.steamstatic.com/steam/apps/440/header.jpg",
        ]
    );
    assert_eq!(
        app_details_url("440"),
        "https://store.steampowered.com/api/appdetails?appids=440&filters=basic"
    );
    assert_eq!(usable_header_image(Some("https://h".to_string())), Some("https://h".to_string()));
    assert_eq!(usable_header_image(Some(String::new())), None);
    assert_eq!(usable_header_image(None), None);
}

#[test]
fn header_image_from_a_store_answer() {
    let answer = "{\"440\":{\"success\":true,\"data\":{\"header_image\":\"https://h/440.jpg\"}}}";
    assert_eq!(header_image_url(answer, "440"), Some("https://h/440.jpg".to_string()));
    assert_eq!(header_image_url(answer, "441"), None);
    assert_eq!(header_image_url("{\"7\":{\"data\":{\"header_image\":\"\"}}}", "7"), None);
    assert_eq!(header_image_url("not json", "7"), None);
}
