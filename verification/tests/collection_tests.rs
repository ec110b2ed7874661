use steam_workshop_utility::collection::CollectionCode;

const JSON: &str = "{\"appid\":\"440\",\"name\":\"My pack\",\"items\":[\"1\",\"2\"]}";
const CODE: &str = "SWUC_eyJhcHBpZCI6IjQ0MCIsIm5hbWUiOiJNeSBwYWNrIiwiaXRlbXMiOlsiMSIsIjIiXX0";

#[test]
fn encode_is_prefix_and_url_safe_base64() {
    assert_eq!(CollectionCode::encode_json(JSON), CODE);
}

#[test]
fn a_code_carries_its_json_back() {
    let code = CollectionCode::encode_json(JSON);
    assert_eq!(CollectionCode::decode_payload(&code), Some(JSON.as_bytes().to_vec()));
    let value: serde_json::Value = serde_json::from_slice(&CollectionCode::decode_payload(&code).unwrap()).unwrap();
    assert_eq!(value["appid"], "440");
    assert_eq!(value["items"][1], "2");
}

#[test]
fn decoding_trims_white_space() {
    let padded = format!("  {CODE}\n");
    assert_eq!(CollectionCode::decode_payload(&padded), Some(JSON.as_bytes().to_vec()));
}

#[test]
fn decoding_rejects_other_text() {
    assert_eq!(CollectionCode::decode_payload("eyJhcHBpZCI6IjQ0MCJ9"), None);
    assert_eq!(CollectionCode::decode_payload("SWUC_***"), None);
    assert_eq!(CollectionCode::decode_payload(""), None);
    assert_eq!(CollectionCode::decode_payload("SWUC_"), Some(Vec::new()));
}
