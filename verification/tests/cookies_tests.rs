use aes_gcm::aead::{Aead, KeyInit};
use cbc::cipher::{BlockModeEncrypt, KeyIvInit};
use steam_workshop_utility::cookies::{
    aes_key_blob, immutable_db_uri, key_blob_from_field, choose_cookie_db, cookie_db_candidates, decrypt_cookie, decrypt_cookie_windows, dpapi_blob,
    needs_keyring, steam_cookies_from_rows, CookieError, CookieRow, choose_windows_cookie_db,
    decrypt_cookie_on_windows, find_windows_cookie_db, steam_cookies_from_windows_rows,
    windows_cookie_db_candidates_of,
};

fn cbc128(password: &[u8], msg: &[u8]) -> Vec<u8> {
    let mut key = [0u8; 16];
    pbkdf2::pbkdf2_hmac::<sha1::Sha1>(password, b"saltysalt", 1, &mut key);
    let iv = [b' '; 16];
    let mut buf = vec![0u8; msg.len() + 16];
    buf[..msg.len()].copy_from_slice(msg);
    let ct = cbc::Encryptor::<aes::Aes128>::new(&key.into(), &iv.into())
        .encrypt_padded::<cbc::cipher::block_padding::Pkcs7>(&mut buf, msg.len())
        .unwrap()
        .to_vec();
    ct
}

fn with_prefix(prefix: &[u8], body: Vec<u8>) -> Vec<u8> {
    let mut v = prefix.to_vec();
    v.extend(body);
    v
}

#[test]
fn unprefixed_values_are_plain_text() {
    assert_eq!(decrypt_cookie(b"plain-cookie", &None), Ok("plain-cookie".to_string()));
    assert!(!needs_keyring(b"plain-cookie"));
}

#[test]
fn empty_and_short_values() {
    assert_eq!(decrypt_cookie(b"", &None), Err(CookieError::EmptyValue));
    assert_eq!(decrypt_cookie(b"ab", &None), Err(CookieError::TooShort));
    assert_eq!(CookieError::EmptyValue.message(), "Empty encrypted value");
    assert_eq!(CookieError::TooShort.message(), "Encrypted value too short");
}

#[test]
fn v10_values_decrypt_with_the_default_password() {
    let enc = with_prefix(b"v10", cbc128(b"peanuts", b"session-token-123"));
    assert!(needs_keyring(&enc));
    assert_eq!(decrypt_cookie(&enc, &None), Ok("session-token-123".to_string()));
    assert_eq!(decrypt_cookie(&enc, &Some(b"other".to_vec())), Ok("session-token-123".to_string()));
}

#[test]
fn v11_values_decrypt_with_the_keyring_password() {
    let enc = with_prefix(b"v11", cbc128(b"keyring-secret", b"login-secure-456"));
    assert_eq!(
        decrypt_cookie(&enc, &Some(b"keyring-secret".to_vec())),
        Ok("login-secure-456".to_string())
    );
}

#[test]
fn v10_values_decrypt_with_the_empty_password() {
    let enc = with_prefix(b"v10", cbc128(b"", b"empty-password-value"));
    assert_eq!(decrypt_cookie(&enc, &None), Ok("empty-password-value".to_string()));
}

#[test]
fn undecryptable_values_fail() {
    assert_eq!(decrypt_cookie(b"v10abc", &None), Err(CookieError::AllAttemptsFailed));
    assert_eq!(CookieError::AllAttemptsFailed.message(), "All decryption attempts failed");
}

#[test]
fn windows_values_use_aes_gcm() {
    let key = [7u8; 32];
    let nonce = [9u8; 12];
    let ct = aes_gcm::Aes256Gcm::new(&key.into()).encrypt(&nonce.into(), b"gcm-secret".as_ref()).unwrap();
    let mut enc = b"v10".to_vec();
    enc.extend_from_slice(&nonce);
    enc.extend(ct);
    assert_eq!(decrypt_cookie_windows(&enc, &key, &None), Ok("gcm-secret".to_string()));
    assert_eq!(decrypt_cookie_windows(&enc, &[1u8; 32], &None), Err(CookieError::GcmFailed));
    assert_eq!(decrypt_cookie_windows(&enc, &[7u8; 16], &None), Err(CookieError::BadKeyLength));
    assert_eq!(decrypt_cookie_windows(b"v10short", &key, &None), Err(CookieError::TooShortForGcm));
    assert_eq!(decrypt_cookie_windows(b"xy", &key, &None), Err(CookieError::TooShort));
}

#[test]
fn windows_legacy_values() {
    assert_eq!(
        decrypt_cookie_windows(b"legacyblob", &[0u8; 32], &Some(b"legacy plain".to_vec())),
        Ok("legacy plain".to_string())
    );
    assert_eq!(decrypt_cookie_windows(b"legacyblob", &[0u8; 32], &None), Err(CookieError::LegacyDpapiFailed));
}

#[test]
fn dpapi_prefix() {
    assert_eq!(dpapi_blob(b"DPAPIxyz"), Ok(b"xyz".to_vec()));
    assert_eq!(dpapi_blob(b"DPAPI"), Ok(Vec::new()));
    assert_eq!(dpapi_blob(b"DPAP"), Err(CookieError::NoDpapiPrefix));
    assert_eq!(dpapi_blob(b"XPAPIxyz"), Err(CookieError::NoDpapiPrefix));
}

fn row(name: &str, value: &str, enc: &[u8]) -> CookieRow {
    CookieRow { name: name.to_string(), value: value.to_string(), encrypted_value: enc.to_vec() }
}

#[test]
fn session_from_cookie_rows() {
    let enc = with_prefix(b"v10", cbc128(b"peanuts", b"secure-cookie"));
    let rows = vec![
        row("sessionid", "old", b""),
        row("other", "x", b""),
        row("steamLoginSecure", "", &enc),
        row("sessionid", "abc123", b""),
    ];
    let c = steam_cookies_from_rows(&rows, &None).unwrap();
    assert_eq!(c.session_id, "abc123");
    assert_eq!(c.login_secure, "secure-cookie");
}

#[test]
fn missing_session_cookies() {
    let only_login = vec![row("steamLoginSecure", "l", b"")];
    let only_session = vec![row("sessionid", "s", b"")];
    assert_eq!(steam_cookies_from_rows(&only_login, &None).unwrap_err(), CookieError::NoSessionId);
    assert_eq!(steam_cookies_from_rows(&only_session, &None).unwrap_err(), CookieError::NoLoginSecure);
    assert_eq!(
        CookieError::NoSessionId.message(),
        "sessionid cookie not found — are you logged into Steam?"
    );
    let undecryptable = vec![row("sessionid", "s", b""), row("steamLoginSecure", "", b"v10abc")];
    let c = steam_cookies_from_rows(&undecryptable, &None).unwrap();
    assert_eq!(c.login_secure, "");
}

#[test]
fn cookie_database_candidates() {
    let cands = cookie_db_candidates("/home/u");
    assert_eq!(
        cands,
        vec![
            "/home/u/.local/share/Steam/config/htmlcache/Default/Network/Cookies",
            "/home/u/.local/share/Steam/config/htmlcache/Default/Cookies",
        ]
    );
    assert_eq!(choose_cookie_db(&cands, &vec![false, true]), Ok(cands[1].clone()));
    assert_eq!(
        choose_cookie_db(&cands, &vec![false, false]),
        Err(format!("Steam cookie database not found — checked {}, {}", cands[0], cands[1]))
    );
}

fn cbc256(password: &[u8], msg: &[u8]) -> Vec<u8> {
    let mut key = [0u8; 32];
    pbkdf2::pbkdf2_hmac::<sha1::Sha1>(password, b"saltysalt", 1, &mut key);
    let iv = [b' '; 16];
    let mut buf = vec![0u8; msg.len() + 16];
    buf[..msg.len()].copy_from_slice(msg);
    cbc::Encryptor::<aes::Aes256>::new(&key.into(), &iv.into())
        .encrypt_padded::<cbc::cipher::block_padding::Pkcs7>(&mut buf, msg.len())
        .unwrap()
        .to_vec()
}

#[test]
fn aes256_values_are_tried_after_aes128() {
    let enc = with_prefix(b"v11", cbc256(b"peanuts", b"a-256-bit-secret"));
    assert_eq!(decrypt_cookie(&enc, &None), Ok("a-256-bit-secret".to_string()));
}

#[test]
fn invalid_utf8_becomes_replacement_characters() {
    assert_eq!(decrypt_cookie(b"ab\xffcd", &None), Ok("ab\u{FFFD}cd".to_string()));
}

#[test]
fn no_cookie_database_under_a_missing_home() {
    let r = steam_workshop_utility::cookies::find_cookie_db("/nonexistent-home-for-tests");
    assert_eq!(
        r,
        Err("Steam cookie database not found — checked /nonexistent-home-for-tests/.local/share/Steam/config/htmlcache/Default/Network/Cookies, /nonexistent-home-for-tests/.local/share/Steam/config/htmlcache/Default/Cookies".to_string())
    );
}

#[test]
fn the_protected_key_in_local_state() {
    assert_eq!(
        aes_key_blob("{\"os_crypt\":{\"encrypted_key\":\"RFBBUEl4eXo=\"}}"),
        Ok(b"xyz".to_vec())
    );
    assert_eq!(aes_key_blob("not json"), Err(CookieError::BadLocalState));
    assert_eq!(aes_key_blob("{\"os_crypt\":{}}"), Err(CookieError::NoEncryptedKey));
    assert_eq!(aes_key_blob("{\"os_crypt\":{\"encrypted_key\":7}}"), Err(CookieError::NoEncryptedKey));
    assert_eq!(
        aes_key_blob("{\"os_crypt\":{\"encrypted_key\":\"!!\"}}"),
        Err(CookieError::BadBase64Key)
    );
    assert_eq!(
        aes_key_blob("{\"os_crypt\":{\"encrypted_key\":\"Tk9QRXh5eg==\"}}"),
        Err(CookieError::NoDpapiPrefix)
    );
    assert_eq!(key_blob_from_field(Some(Some("RFBBUEl4eXo=".to_string()))), Ok(b"xyz".to_vec()));
    assert_eq!(key_blob_from_field(None), Err(CookieError::BadLocalState));
    assert_eq!(CookieError::BadLocalState.message(), "Could not parse Local State JSON");
}

#[test]
fn immutable_database_uris() {
    assert_eq!(
        immutable_db_uri("C:\\Program Files (x86)\\Steam\\htmlcache\\Cookies"),
        "file:///C:/Program Files (x86)/Steam/htmlcache/Cookies?immutable=1&mode=ro"
    );
    assert_eq!(immutable_db_uri("/home/u/Cookies"), "file:///home/u/Cookies?immutable=1&mode=ro");
    assert_eq!(immutable_db_uri("\\\\server\\share\\db"), "file:///server/share/db?immutable=1&mode=ro");
}

#[test]
fn keyring_lookups() {
    assert_eq!(steam_workshop_utility::cookies::keyring_password(b"  s3cret\n"), b"s3cret".to_vec());
    assert_eq!(steam_workshop_utility::cookies::keyring_answer(true, b"pw\n"), Some(b"pw".to_vec()));
    assert_eq!(steam_workshop_utility::cookies::keyring_answer(false, b"pw\n"), None);
    assert_eq!(steam_workshop_utility::cookies::keyring_answer(true, b""), None);
}

#[test]
fn only_prefixed_encrypted_rows_need_the_keyring() {
    let plain = vec![row("sessionid", "s", b"v10abc"), row("steamLoginSecure", "", b"legacy")];
    assert!(!steam_workshop_utility::cookies::rows_need_keyring(&plain));
    let prefixed = vec![row("sessionid", "s", b""), row("steamLoginSecure", "", b"v11abc")];
    assert!(steam_workshop_utility::cookies::rows_need_keyring(&prefixed));
    assert!(!steam_workshop_utility::cookies::rows_need_keyring(&Vec::new()));
}

#[test]
fn decrypt_cookie_on_windows_reads_the_dpapi_answer() {
    assert_eq!(decrypt_cookie_on_windows(b"", &Some(b"x".to_vec())), Err(CookieError::EmptyValue));
    assert_eq!(decrypt_cookie_on_windows(b"v10blob", &Some(b"plain".to_vec())), Ok("plain".to_string()));
    assert_eq!(decrypt_cookie_on_windows(b"blob", &Some(vec![b'a', 0xff])), Ok("a\u{FFFD}".to_string()));
    assert_eq!(decrypt_cookie_on_windows(b"blob", &None), Err(CookieError::LegacyDpapiFailed));
}

#[test]
fn session_from_windows_cookie_rows() {
    let key = [7u8; 32];
    let nonce = [9u8; 12];
    let ct = aes_gcm::Aes256Gcm::new(&key.into()).encrypt(&nonce.into(), b"login".as_ref()).unwrap();
    let mut enc = b"v10".to_vec();
    enc.extend_from_slice(&nonce);
    enc.extend(ct);
    let rows = vec![
        row("sessionid", "", b"legacy"),
        row("steamLoginSecure", "", &enc),
        row("other", "", b"legacy"),
    ];
    let legacy = vec![Some(b"sid".to_vec()), None, None];
    let c = steam_cookies_from_windows_rows(&rows, &key, &legacy).unwrap();
    assert_eq!(c.session_id, "sid");
    assert_eq!(c.login_secure, "login");
    let failed = vec![None, None, None];
    let c = steam_cookies_from_windows_rows(&rows, &[1u8; 32], &failed).unwrap();
    assert_eq!(c.session_id, "");
    assert_eq!(c.login_secure, "");
    let only_session = vec![row("sessionid", "s", b"")];
    assert_eq!(
        steam_cookies_from_windows_rows(&only_session, &key, &vec![None]).unwrap_err(),
        CookieError::NoLoginSecure
    );
    assert_eq!(steam_cookies_from_windows_rows(&Vec::new(), &key, &Vec::new()).unwrap_err(), CookieError::NoSessionId);
}

#[test]
fn windows_cookie_database_candidates() {
    let c = windows_cookie_db_candidates_of("C:\\Users\\a\\AppData\\Local");
    assert_eq!(c.len(), 11);
    assert_eq!(c[0], "C:\\Users\\a\\AppData\\Local\\Steam\\htmlcache\\Default\\Network\\Cookies");
    assert_eq!(c[5], "C:\\Users\\a\\AppData\\Local\\Steam\\config\\htmlcache\\Cookies");
    assert_eq!(c[6], "C:\\Program Files (x86)\\Steam\\htmlcache\\Default\\Network\\Cookies");
    assert_eq!(c[10], "C:\\Program Files\\Steam\\htmlcache\\Default\\Cookies");
    assert_eq!(windows_cookie_db_candidates_of("D:\\")[2], "D:\\Steam\\htmlcache\\Cookies");
    assert_eq!(windows_cookie_db_candidates_of("D:")[2], "D:Steam\\htmlcache\\Cookies");
    assert_eq!(windows_cookie_db_candidates_of("")[2], "Steam\\htmlcache\\Cookies");
    let exists = vec![false, false, true, true, false, false, false, false, false, false, false];
    assert_eq!(choose_windows_cookie_db(&c, &exists), Ok(c[2].clone()));
    assert_eq!(
        choose_windows_cookie_db(&c, &vec![false; 11]),
        Err("Steam cookie database not found — checked 11 locations".to_string())
    );
}

#[test]
fn no_windows_cookie_database_under_a_missing_directory() {
    let r = find_windows_cookie_db("/nonexistent-dir-for-cookie-tests");
    if !std::path::Path::new("C:\\Program Files (x86)\\Steam\\htmlcache\\Default\\Network\\Cookies").exists() {
        assert_eq!(r, Err("Steam cookie database not found — checked 11 locations".to_string()));
    }
}
