//! Reading the Steam Community session from the cookies of Steam's built-in browser.
use vstd::prelude::*;
use aes_gcm::aead::{Aead, KeyInit};
use base64::Engine;
use cbc::cipher::{BlockModeDecrypt, KeyIvInit};
use vstd::utf8::{decode_utf8, valid_utf8};

use crate::appinfo::ascii_bytes;
use crate::paths::{join_path, path_exists, path_join};
use crate::text::{chars_of, decimal, push_decimal, push_str, string_from_chars};
use crate::types::SteamCookies;

verus! {

/// Why reading or decrypting a cookie failed.
#[derive(Debug, PartialEq, Eq, Structural)]
pub enum CookieError {
    EmptyValue,
    TooShort,
    AllAttemptsFailed,
    TooShortForGcm,
    BadKeyLength,
    GcmFailed,
    LegacyDpapiFailed,
    NoDpapiPrefix,
    BadBase64Key,
    BadLocalState,
    NoEncryptedKey,
    NoSessionId,
    NoLoginSecure,
}

impl CookieError {
    /// The message the error is reported with.
    pub fn message(&self) -> (res: String)
        ensures
            *self == CookieError::EmptyValue ==> res@ == "Empty encrypted value"@,
            *self == CookieError::TooShort ==> res@ == "Encrypted value too short"@,
            *self == CookieError::AllAttemptsFailed ==> res@ == "All decryption attempts failed"@,
            *self == CookieError::NoSessionId ==> res@ == "sessionid cookie not found — are you logged into Steam?"@,
            *self == CookieError::NoLoginSecure ==> res@ == "steamLoginSecure cookie not found — are you logged into Steam?"@,
            *self == CookieError::TooShortForGcm ==> res@ == "Encrypted value too short for AES-GCM"@,
            *self == CookieError::BadKeyLength ==> res@ == "AES key must be 32 bytes"@,
            *self == CookieError::GcmFailed ==> res@ == "AES-GCM decryption failed"@,
            *self == CookieError::LegacyDpapiFailed ==> res@ == "Legacy DPAPI decrypt failed"@,
            *self == CookieError::NoDpapiPrefix ==> res@ == "encrypted_key does not start with DPAPI prefix"@,
            *self == CookieError::BadBase64Key ==> res@ == "Could not base64-decode encrypted_key"@,
            *self == CookieError::BadLocalState ==> res@ == "Could not parse Local State JSON"@,
            *self == CookieError::NoEncryptedKey ==> res@ == "No os_crypt.encrypted_key in Local State"@,
    {
        match self {
            CookieError::EmptyValue => String::from_str("Empty encrypted value"),
            CookieError::TooShort => String::from_str("Encrypted value too short"),
            CookieError::AllAttemptsFailed => String::from_str("All decryption attempts failed"),
            CookieError::TooShortForGcm => String::from_str("Encrypted value too short for AES-GCM"),
            CookieError::BadKeyLength => String::from_str("AES key must be 32 bytes"),
            CookieError::GcmFailed => String::from_str("AES-GCM decryption failed"),
            CookieError::LegacyDpapiFailed => String::from_str("Legacy DPAPI decrypt failed"),
            CookieError::NoDpapiPrefix => String::from_str("encrypted_key does not start with DPAPI prefix"),
            CookieError::BadBase64Key => String::from_str("Could not base64-decode encrypted_key"),
            CookieError::BadLocalState => String::from_str("Could not parse Local State JSON"),
            CookieError::NoEncryptedKey => String::from_str("No os_crypt.encrypted_key in Local State"),
            CookieError::NoSessionId => String::from_str(
                "sessionid cookie not found — are you logged into Steam?",
            ),
            CookieError::NoLoginSecure => String::from_str(
                "steamLoginSecure cookie not found — are you logged into Steam?",
            ),
        }
    }
}

/// The bytes that `pbkdf2_hmac::<Sha1>` derives.
pub uninterp spec fn pbkdf2_hmac_sha1(password: Seq<u8>, salt: Seq<u8>, rounds: u32, len: nat) -> Seq<u8>;

/// `pbkdf2::pbkdf2_hmac::<sha1::Sha1>(password, salt, rounds, &mut key)` into a key of
/// `len` bytes. Claimed: the key has `len` bytes and depends on the arguments alone.
#[verifier::external_body]
fn derive_key(password: &[u8], salt: &[u8], rounds: u32, len: usize) -> (res: Vec<u8>)
    ensures
        res@.len() == len,
        res@ == pbkdf2_hmac_sha1(password@, salt@, rounds, len as nat),
{
    let mut key = vec![0u8; len];
    pbkdf2::pbkdf2_hmac::<sha1::Sha1>(password, salt, rounds, &mut key);
    key
}

/// The plaintext that AES-128-CBC with PKCS#7 padding recovers, if the padding checks.
pub uninterp spec fn aes128_cbc_plain(key: Seq<u8>, iv: Seq<u8>, ciphertext: Seq<u8>) -> Option<Seq<u8>>;

/// The plaintext that AES-256-CBC with PKCS#7 padding recovers, if the padding checks.
pub uninterp spec fn aes256_cbc_plain(key: Seq<u8>, iv: Seq<u8>, ciphertext: Seq<u8>) -> Option<Seq<u8>>;

/// `cbc::Decryptor::<aes::Aes128>::new(key, iv).decrypt_padded::<Pkcs7>(..)`. Claimed:
/// `None` when the input is not a whole number of 16-byte blocks (as its documentation
/// says) or the padding is malformed; the result depends on the arguments alone.
#[verifier::external_body]
fn aes128_cbc_decrypt(key: &[u8; 16], iv: &[u8; 16], ciphertext: &[u8]) -> (res: Option<Vec<u8>>)
    ensures
        ciphertext@.len() % 16 != 0 ==> res is None,
        match res {
            Some(p) => aes128_cbc_plain(key@, iv@, ciphertext@) == Some(p@),
            None => aes128_cbc_plain(key@, iv@, ciphertext@) is None,
        },
{
    let mut buf = ciphertext.to_vec();
    let dec = cbc::Decryptor::<aes::Aes128>::new(&(*key).into(), &(*iv).into());
    dec.decrypt_padded::<cbc::cipher::block_padding::Pkcs7>(&mut buf).ok().map(|p| p.to_vec())
}

/// `cbc::Decryptor::<aes::Aes256>::new(key, iv).decrypt_padded::<Pkcs7>(..)`. Claimed as
/// for the 128-bit variant.
#[verifier::external_body]
fn aes256_cbc_decrypt(key: &[u8; 32], iv: &[u8; 16], ciphertext: &[u8]) -> (res: Option<Vec<u8>>)
    ensures
        ciphertext@.len() % 16 != 0 ==> res is None,
        match res {
            Some(p) => aes256_cbc_plain(key@, iv@, ciphertext@) == Some(p@),
            None => aes256_cbc_plain(key@, iv@, ciphertext@) is None,
        },
{
    let mut buf = ciphertext.to_vec();
    let dec = cbc::Decryptor::<aes::Aes256>::new(&(*key).into(), &(*iv).into());
    dec.decrypt_padded::<cbc::cipher::block_padding::Pkcs7>(&mut buf).ok().map(|p| p.to_vec())
}

/// The plaintext that AES-256-GCM recovers from ciphertext and tag, if the tag checks.
pub uninterp spec fn aes256_gcm_plain(key: Seq<u8>, nonce: Seq<u8>, ciphertext_and_tag: Seq<u8>) -> Option<Seq<u8>>;

/// `aes_gcm::Aes256Gcm::new(key).decrypt(nonce, ciphertext_and_tag)`. Claimed: the
/// result depends on the arguments alone.
#[verifier::external_body]
fn aes256_gcm_decrypt(key: &[u8], nonce: &[u8], ciphertext_and_tag: &[u8]) -> (res: Option<Vec<u8>>)
    requires
        key@.len() == 32,
        nonce@.len() == 12,
    ensures
        match res {
            Some(p) => aes256_gcm_plain(key@, nonce@, ciphertext_and_tag@) == Some(p@),
            None => aes256_gcm_plain(key@, nonce@, ciphertext_and_tag@) is None,
        },
{
    let key: &aes_gcm::aead::Key<aes_gcm::Aes256Gcm> = key.try_into().ok()?;
    let nonce: &aes_gcm::Nonce<_> = nonce.try_into().ok()?;
    aes_gcm::Aes256Gcm::new(key).decrypt(nonce, ciphertext_and_tag).ok()
}

/// The text `String::from_utf8_lossy` makes of some bytes.
pub uninterp spec fn utf8_lossy(bytes: Seq<u8>) -> Seq<char>;

/// `String::from_utf8_lossy(bytes).to_string()`. Claimed, as documented: valid UTF-8 is
/// decoded unchanged; other input maps to a text that depends on the bytes alone.
#[verifier::external_body]
pub(crate) fn lossy_text(bytes: &[u8]) -> (res: String)
    ensures
        res@ == utf8_lossy(bytes@),
        valid_utf8(bytes@) ==> res@ == decode_utf8(bytes@),
{
    String::from_utf8_lossy(bytes).to_string()
}

/// Whether the value carries Chromium's `v10`/`v11` encryption prefix.
pub open spec fn has_version_prefix(e: Seq<u8>) -> bool {
    e.len() >= 3 && (e.take(3) == ascii_bytes("v10"@) || e.take(3) == ascii_bytes("v11"@))
}

/// The password candidates tried in turn: the keyring's (or `peanuts` without one),
/// `peanuts`, and the empty password.
pub open spec fn password_candidates(keyring: Option<Seq<u8>>) -> Seq<Seq<u8>> {
    let first = match keyring {
        Some(p) => p,
        None => ascii_bytes("peanuts"@),
    };
    seq![first, ascii_bytes("peanuts"@), Seq::empty()]
}

/// The IV Chromium uses on Linux: sixteen spaces.
pub open spec fn space_iv() -> Seq<u8> {
    Seq::new(16, |i: int| 32u8)
}

/// The first successful CBC decryption over the candidates, 128-bit keys first.
pub open spec fn first_cbc_plain(ct: Seq<u8>, pws: Seq<Seq<u8>>, aes256: bool, k: int) -> Option<Seq<u8>>
    decreases 3 - k,
{
    if k < 0 || k >= 3 {
        None
    } else {
        let salt = ascii_bytes("saltysalt"@);
        let attempt = if aes256 {
            aes256_cbc_plain(pbkdf2_hmac_sha1(pws[k], salt, 1, 32), space_iv(), ct)
        } else {
            aes128_cbc_plain(pbkdf2_hmac_sha1(pws[k], salt, 1, 16), space_iv(), ct)
        };
        match attempt {
            Some(p) => Some(p),
            None => first_cbc_plain(ct, pws, aes256, k + 1),
        }
    }
}

/// `decrypt_cookie_linux`: values without the prefix are plain text; prefixed ones are
/// tried with AES-128-CBC and then AES-256-CBC under each password candidate.
pub open spec fn linux_cookie_plain(e: Seq<u8>, keyring: Option<Seq<u8>>) -> Result<Seq<char>, CookieError> {
    if e.len() < 3 {
        Err(CookieError::TooShort)
    } else if !has_version_prefix(e) {
        Ok(utf8_lossy(e))
    } else {
        let ct = e.skip(3);
        let pws = password_candidates(keyring);
        match first_cbc_plain(ct, pws, false, 0) {
            Some(p) => Ok(utf8_lossy(p)),
            None => match first_cbc_plain(ct, pws, true, 0) {
                Some(p) => Ok(utf8_lossy(p)),
                None => Err(CookieError::AllAttemptsFailed),
            },
        }
    }
}

fn ascii_vec(s: &str) -> (res: Vec<u8>)
    ensures
        res@ == ascii_bytes(s@),
{
    let cs = chars_of(s);
    let mut res: Vec<u8> = Vec::new();
    let mut i: usize = 0;
    while i < cs.len()
        invariant
            i <= cs.len(),
            cs@ == s@,
            res@ == ascii_bytes(cs@.take(i as int)),
        decreases cs.len() - i,
    {
        res.push(cs[i] as u32 as u8);
        i = i + 1;
        assert(res@ =~= ascii_bytes(cs@.take(i as int)));
    }
    assert(cs@.take(cs.len() as int) =~= cs@);
    res
}

fn has_version_prefix_exec(e: &[u8]) -> (res: bool)
    ensures
        res == has_version_prefix(e@),
{
    if e.len() < 3 {
        return false;
    }
    proof {
        reveal_strlit("v10");
        reveal_strlit("v11");
    }
    let ok = e[0] == 118u8 && e[1] == 49u8 && (e[2] == 48u8 || e[2] == 49u8);
    assert(ascii_bytes("v10"@) =~= seq![118u8, 49u8, 48u8]);
    assert(ascii_bytes("v11"@) =~= seq![118u8, 49u8, 49u8]);
    if ok {
        assert(e@.take(3) =~= seq![118u8, 49u8, e@[2]]);
    } else {
        assert(e@.take(3)[0] == e@[0] && e@.take(3)[1] == e@[1] && e@.take(3)[2] == e@[2]);
    }
    ok
}

fn cbc_attempt(ct: &[u8], pw: &[u8], aes256: bool) -> (res: Option<Vec<u8>>)
    ensures
        match res {
            Some(p) => (if aes256 {
                aes256_cbc_plain(pbkdf2_hmac_sha1(pw@, ascii_bytes("saltysalt"@), 1, 32), space_iv(), ct@)
            } else {
                aes128_cbc_plain(pbkdf2_hmac_sha1(pw@, ascii_bytes("saltysalt"@), 1, 16), space_iv(), ct@)
            }) == Some(p@),
            None => (if aes256 {
                aes256_cbc_plain(pbkdf2_hmac_sha1(pw@, ascii_bytes("saltysalt"@), 1, 32), space_iv(), ct@)
            } else {
                aes128_cbc_plain(pbkdf2_hmac_sha1(pw@, ascii_bytes("saltysalt"@), 1, 16), space_iv(), ct@)
            }) is None,
        },
{
    let salt = ascii_vec("saltysalt");
    let iv: [u8; 16] = [32u8; 16];
    assert(iv@ =~= space_iv());
    if aes256 {
        let k = derive_key(pw, &salt, 1, 32);
        let key: [u8; 32] = [k[0], k[1], k[2], k[3], k[4], k[5], k[6], k[7], k[8], k[9], k[10], k[11], k[12], k[13], k[14], k[15], k[16], k[17], k[18], k[19], k[20], k[21], k[22], k[23], k[24], k[25], k[26], k[27], k[28], k[29], k[30], k[31]];
        assert(key@ =~= k@);
        aes256_cbc_decrypt(&key, &iv, ct)
    } else {
        let k = derive_key(pw, &salt, 1, 16);
        let key: [u8; 16] = [k[0], k[1], k[2], k[3], k[4], k[5], k[6], k[7], k[8], k[9], k[10], k[11], k[12], k[13], k[14], k[15]];
        assert(key@ =~= k@);
        aes128_cbc_decrypt(&key, &iv, ct)
    }
}

fn first_cbc_exec(ct: &[u8], pws: &Vec<Vec<u8>>, aes256: bool) -> (res: Option<Vec<u8>>)
    requires
        pws@.len() == 3,
    ensures
        match res {
            Some(p) => first_cbc_plain(ct@, pws@.map_values(|v: Vec<u8>| v@), aes256, 0) == Some(p@),
            None => first_cbc_plain(ct@, pws@.map_values(|v: Vec<u8>| v@), aes256, 0) is None,
        },
{
    let ghost pv = pws@.map_values(|v: Vec<u8>| v@);
    let mut k: usize = 0;
    while k < 3
        invariant
            k <= 3,
            pws@.len() == 3,
            pv == pws@.map_values(|v: Vec<u8>| v@),
            first_cbc_plain(ct@, pv, aes256, 0) == first_cbc_plain(ct@, pv, aes256, k as int),
        decreases 3 - k,
    {
        assert(pv[k as int] == pws@[k as int]@);
        if let Some(p) = cbc_attempt(ct, &pws[k], aes256) {
            return Some(p);
        }
        k = k + 1;
    }
    None
}

/// `decrypt_cookie_linux`, with the keyring password (if the keyring had one) given.
pub fn decrypt_cookie_linux(encrypted: &[u8], keyring: &Option<Vec<u8>>) -> (res: Result<String, CookieError>)
    ensures
        match linux_cookie_plain(encrypted@, match keyring { Some(p) => Some(p@), None => None }) {
            Ok(t) => res matches Ok(s) && s@ == t,
            Err(e) => res == Err::<String, CookieError>(e),
        },
{
    if encrypted.len() < 3 {
        return Err(CookieError::TooShort);
    }
    if !has_version_prefix_exec(encrypted) {
        return Ok(lossy_text(encrypted));
    }
    let ct = crate::library::byte_range(encrypted, 3, encrypted.len());
    assert(ct@ =~= encrypted@.skip(3));
    let peanuts = ascii_vec("peanuts");
    let first = match keyring {
        Some(p) => crate::library::byte_range(p, 0, p.len()),
        None => ascii_vec("peanuts"),
    };
    let mut pws: Vec<Vec<u8>> = Vec::new();
    pws.push(first);
    pws.push(peanuts);
    pws.push(Vec::new());
    let ghost kr = match keyring { Some(p) => Some(p@), None => None::<Seq<u8>> };
    assert(pws@.map_values(|v: Vec<u8>| v@) =~= password_candidates(kr)) by {
        if let Some(p) = keyring {
            assert(p@.subrange(0, p@.len() as int) =~= p@);
        }
    }
    match first_cbc_exec(&ct, &pws, false) {
        Some(p) => Ok(lossy_text(&p)),
        None => match first_cbc_exec(&ct, &pws, true) {
            Some(p) => Ok(lossy_text(&p)),
            None => Err(CookieError::AllAttemptsFailed),
        },
    }
}

/// `decrypt_cookie` (as on Linux): an empty value is an error, anything else goes to
/// [`decrypt_cookie_linux`].
pub fn decrypt_cookie(encrypted: &[u8], keyring: &Option<Vec<u8>>) -> (res: Result<String, CookieError>)
    ensures
        encrypted@.len() == 0 ==> res == Err::<String, CookieError>(CookieError::EmptyValue),
        encrypted@.len() > 0 ==> match linux_cookie_plain(encrypted@, match keyring { Some(p) => Some(p@), None => None }) {
            Ok(t) => res matches Ok(s) && s@ == t,
            Err(e) => res == Err::<String, CookieError>(e),
        },
{
    if encrypted.len() == 0 {
        return Err(CookieError::EmptyValue);
    }
    decrypt_cookie_linux(encrypted, keyring)
}

/// Whether the keyring is consulted for this value (only prefixed values are
/// decrypted with a password).
pub fn needs_keyring(encrypted: &[u8]) -> (res: bool)
    ensures
        res == has_version_prefix(encrypted@),
{
    has_version_prefix_exec(encrypted)
}

/// `decrypt_cookie_windows`: AES-256-GCM for prefixed values (12-byte nonce, then
/// ciphertext and tag); values without the prefix are legacy DPAPI blobs, whose
/// decryption by the operating system the caller passes in.
pub open spec fn windows_cookie_plain(e: Seq<u8>, key: Seq<u8>, legacy: Option<Seq<u8>>) -> Result<Seq<char>, CookieError> {
    if e.len() < 3 {
        Err(CookieError::TooShort)
    } else if !has_version_prefix(e) {
        match legacy {
            Some(p) => Ok(utf8_lossy(p)),
            None => Err(CookieError::LegacyDpapiFailed),
        }
    } else if e.len() - 3 < 28 {
        Err(CookieError::TooShortForGcm)
    } else if key.len() != 32 {
        Err(CookieError::BadKeyLength)
    } else {
        match aes256_gcm_plain(key, e.subrange(3, 15), e.skip(15)) {
            Some(p) => Ok(utf8_lossy(p)),
            None => Err(CookieError::GcmFailed),
        }
    }
}

/// Decrypts a Windows cookie value with the AES key from `Local State`.
pub fn decrypt_cookie_windows(encrypted: &[u8], aes_key: &[u8], legacy_plain: &Option<Vec<u8>>) -> (res: Result<String, CookieError>)
    ensures
        match windows_cookie_plain(encrypted@, aes_key@, match legacy_plain { Some(p) => Some(p@), None => None }) {
            Ok(t) => res matches Ok(s) && s@ == t,
            Err(e) => res == Err::<String, CookieError>(e),
        },
{
    if encrypted.len() < 3 {
        return Err(CookieError::TooShort);
    }
    if !has_version_prefix_exec(encrypted) {
        return match legacy_plain {
            Some(p) => Ok(lossy_text(p)),
            None => Err(CookieError::LegacyDpapiFailed),
        };
    }
    if encrypted.len() - 3 < 28 {
        return Err(CookieError::TooShortForGcm);
    }
    if aes_key.len() != 32 {
        return Err(CookieError::BadKeyLength);
    }
    let nonce = crate::library::byte_range(encrypted, 3, 15);
    let rest = crate::library::byte_range(encrypted, 15, encrypted.len());
    assert(rest@ =~= encrypted@.skip(15));
    match aes256_gcm_decrypt(aes_key, &nonce, &rest) {
        Some(p) => Ok(lossy_text(&p)),
        None => Err(CookieError::GcmFailed),
    }
}

/// The DPAPI blob inside `Local State`'s decoded `encrypted_key`: what follows `DPAPI`.
pub fn dpapi_blob(encrypted_key: &[u8]) -> (res: Result<Vec<u8>, CookieError>)
    ensures
        encrypted_key@.len() >= 5 && encrypted_key@.take(5) == ascii_bytes("DPAPI"@) ==> (res matches Ok(b) && b@ == encrypted_key@.skip(5)),
        !(encrypted_key@.len() >= 5 && encrypted_key@.take(5) == ascii_bytes("DPAPI"@)) ==> res == Err::<Vec<u8>, CookieError>(CookieError::NoDpapiPrefix),
{
    let prefix = ascii_vec("DPAPI");
    proof {
        reveal_strlit("DPAPI");
    }
    if encrypted_key.len() < 5 {
        return Err(CookieError::NoDpapiPrefix);
    }
    let head = crate::library::byte_range(encrypted_key, 0, 5);
    let mut same = true;
    let mut i: usize = 0;
    while i < 5
        invariant
            i <= 5,
            head@.len() == 5,
            prefix@.len() == 5,
            same == forall|j: int| 0 <= j < i ==> head@[j] == prefix@[j],
        decreases 5 - i,
    {
        if head[i] != prefix[i] {
            same = false;
        }
        i = i + 1;
    }
    assert(head@ == encrypted_key@.take(5));
    if !same {
        assert(head@ != prefix@) by {
            if head@ == prefix@ {
                assert(forall|j: int| 0 <= j < 5 ==> head@[j] == prefix@[j]);
            }
        }
        return Err(CookieError::NoDpapiPrefix);
    }
    assert(head@ =~= prefix@);
    let blob = crate::library::byte_range(encrypted_key, 5, encrypted_key.len());
    assert(blob@ =~= encrypted_key@.skip(5));
    Ok(blob)
}

/// One row of the `cookies` table.
#[derive(Debug)]
pub struct CookieRow {
    pub name: String,
    pub value: String,
    pub encrypted_value: Vec<u8>,
}

/// The value a row resolves to: the plain value if there is one, else the decrypted
/// value (empty when decryption fails), else empty.
pub open spec fn row_value(row: CookieRow, keyring: Option<Seq<u8>>) -> Seq<char> {
    if row.value@.len() > 0 {
        row.value@
    } else if row.encrypted_value@.len() > 0 {
        match linux_cookie_plain(row.encrypted_value@, keyring) {
            Ok(t) => t,
            Err(_) => Seq::empty(),
        }
    } else {
        Seq::empty()
    }
}

/// The value of the last row named `name`, if any.
pub open spec fn last_value_named(rows: Seq<CookieRow>, name: Seq<char>, keyring: Option<Seq<u8>>) -> Option<Seq<char>>
    decreases rows.len(),
{
    if rows.len() == 0 {
        None
    } else if rows.last().name@ == name {
        Some(row_value(rows.last(), keyring))
    } else {
        last_value_named(rows.drop_last(), name, keyring)
    }
}

/// The session from the cookie rows: `sessionid` and `steamLoginSecure` must both be
/// present (the last row of each name counts).
pub open spec fn cookies_from_rows(rows: Seq<CookieRow>, keyring: Option<Seq<u8>>) -> Result<(Seq<char>, Seq<char>), CookieError> {
    match (last_value_named(rows, "sessionid"@, keyring), last_value_named(rows, "steamLoginSecure"@, keyring)) {
        (Some(s), Some(l)) => Ok((s, l)),
        (None, _) => Err(CookieError::NoSessionId),
        (Some(_), None) => Err(CookieError::NoLoginSecure),
    }
}

fn resolve_row(row: &CookieRow, keyring: &Option<Vec<u8>>) -> (res: String)
    ensures
        res@ == row_value(*row, match keyring { Some(p) => Some(p@), None => None }),
{
    if !row.value.as_str().is_empty() {
        row.value.clone()
    } else {
        if row.encrypted_value.len() > 0 {
            match decrypt_cookie(&row.encrypted_value, keyring) {
                Ok(v) => v,
                Err(_) => String::new(),
            }
        } else {
            String::new()
        }
    }
}

/// The Steam session that the rows of the cookie database hold.
pub fn steam_cookies_from_rows(rows: &Vec<CookieRow>, keyring: &Option<Vec<u8>>) -> (res: Result<SteamCookies, CookieError>)
    ensures
        match cookies_from_rows(rows@, match keyring { Some(p) => Some(p@), None => None }) {
            Ok((s, l)) => res matches Ok(c) && c.session_id@ == s && c.login_secure@ == l,
            Err(e) => res matches Err(e2) && e2 == e,
        },
{
    let ghost kr = match keyring { Some(p) => Some(p@), None => None::<Seq<u8>> };
    let mut session_id: Option<String> = None;
    let mut login_secure: Option<String> = None;
    let sid_name = String::from_str("sessionid");
    let login_name = String::from_str("steamLoginSecure");
    let mut i: usize = 0;
    while i < rows.len()
        invariant
            i <= rows.len(),
            kr == match keyring { Some(p) => Some(p@), None => None::<Seq<u8>> },
            sid_name@ == "sessionid"@,
            login_name@ == "steamLoginSecure"@,
            (match session_id { Some(s) => Some(s@), None => None::<Seq<char>> }) == last_value_named(rows@.take(i as int), "sessionid"@, kr),
            (match login_secure { Some(s) => Some(s@), None => None::<Seq<char>> }) == last_value_named(rows@.take(i as int), "steamLoginSecure"@, kr),
        decreases rows.len() - i,
    {
        assert(rows@.take(i + 1).drop_last() =~= rows@.take(i as int));
        assert(rows@.take(i + 1).last() == rows@[i as int]);
        let row = &rows[i];
        proof {
            reveal_strlit("sessionid");
            reveal_strlit("steamLoginSecure");
        }
        assert("sessionid"@ != "steamLoginSecure"@) by {
            assert("sessionid"@.len() != "steamLoginSecure"@.len());
        }
        let resolved = resolve_row(row, keyring);
        if row.name == sid_name {
            session_id = Some(resolved);
        } else if row.name == login_name {
            assert(row.name@ != "sessionid"@);
            login_secure = Some(resolved);
        }
        i = i + 1;
    }
    assert(rows@.take(rows.len() as int) =~= rows@);
    match session_id {
        None => Err(CookieError::NoSessionId),
        Some(s) => match login_secure {
            None => Err(CookieError::NoLoginSecure),
            Some(l) => Ok(SteamCookies { session_id: s, login_secure: l }),
        },
    }
}

/// `decrypt_cookie` on Windows: an empty value is an error; any other value is handed
/// to DPAPI, and `dpapi_plain` is what the operating system gave back (`None` when it
/// refused), read as lossy UTF-8.
pub fn decrypt_cookie_on_windows(encrypted: &[u8], dpapi_plain: &Option<Vec<u8>>) -> (res: Result<String, CookieError>)
    ensures
        encrypted@.len() == 0 ==> res == Err::<String, CookieError>(CookieError::EmptyValue),
        encrypted@.len() > 0 ==> match dpapi_plain {
            Some(p) => res matches Ok(s) && s@ == utf8_lossy(p@),
            None => res == Err::<String, CookieError>(CookieError::LegacyDpapiFailed),
        },
{
    if encrypted.len() == 0 {
        return Err(CookieError::EmptyValue);
    }
    match dpapi_plain {
        Some(p) => Ok(lossy_text(p)),
        None => Err(CookieError::LegacyDpapiFailed),
    }
}

/// The value a row resolves to on Windows: the plain value if there is one, else the
/// value decrypted with the AES key (`legacy` is the DPAPI answer for a value without the
/// version prefix), empty when decryption fails, else empty.
pub open spec fn windows_row_value(row: CookieRow, key: Seq<u8>, legacy: Option<Seq<u8>>) -> Seq<char> {
    if row.value@.len() > 0 {
        row.value@
    } else if row.encrypted_value@.len() > 0 {
        match windows_cookie_plain(row.encrypted_value@, key, legacy) {
            Ok(t) => t,
            Err(_) => Seq::empty(),
        }
    } else {
        Seq::empty()
    }
}

/// The DPAPI answers, viewed.
pub open spec fn legacy_view(legacy: Seq<Option<Vec<u8>>>) -> Seq<Option<Seq<u8>>> {
    legacy.map_values(|o: Option<Vec<u8>>| match o { Some(p) => Some(p@), None => None })
}

/// The value of the last row named `name` on Windows (`legacy[i]` belongs to row `i`).
pub open spec fn last_windows_value_named(rows: Seq<CookieRow>, legacy: Seq<Option<Seq<u8>>>, key: Seq<u8>, name: Seq<char>) -> Option<Seq<char>>
    decreases rows.len(),
{
    if rows.len() == 0 {
        None
    } else if rows.last().name@ == name {
        Some(windows_row_value(rows.last(), key, legacy[rows.len() - 1]))
    } else {
        last_windows_value_named(rows.drop_last(), legacy, key, name)
    }
}

/// The session from the cookie rows on Windows: both cookies must be present.
pub open spec fn windows_cookies_from_rows(rows: Seq<CookieRow>, legacy: Seq<Option<Seq<u8>>>, key: Seq<u8>) -> Result<(Seq<char>, Seq<char>), CookieError> {
    match (
        last_windows_value_named(rows, legacy, key, "sessionid"@),
        last_windows_value_named(rows, legacy, key, "steamLoginSecure"@),
    ) {
        (Some(s), Some(l)) => Ok((s, l)),
        (None, _) => Err(CookieError::NoSessionId),
        (Some(_), None) => Err(CookieError::NoLoginSecure),
    }
}

fn resolve_windows_row(row: &CookieRow, aes_key: &[u8], legacy: &Option<Vec<u8>>) -> (res: String)
    ensures
        res@ == windows_row_value(*row, aes_key@, match legacy { Some(p) => Some(p@), None => None }),
{
    if !row.value.as_str().is_empty() {
        row.value.clone()
    } else if row.encrypted_value.len() > 0 {
        match decrypt_cookie_windows(&row.encrypted_value, aes_key, legacy) {
            Ok(v) => v,
            Err(_) => String::new(),
        }
    } else {
        String::new()
    }
}

/// The Steam session that the rows of the cookie database hold on Windows, with the AES
/// key of `Local State`; `legacy[i]` is the DPAPI answer for row `i`'s encrypted value.
pub fn steam_cookies_from_windows_rows(rows: &Vec<CookieRow>, aes_key: &[u8], legacy: &Vec<Option<Vec<u8>>>) -> (res: Result<SteamCookies, CookieError>)
    requires
        legacy@.len() == rows@.len(),
    ensures
        match windows_cookies_from_rows(rows@, legacy_view(legacy@), aes_key@) {
            Ok((s, l)) => res matches Ok(c) && c.session_id@ == s && c.login_secure@ == l,
            Err(e) => res matches Err(e2) && e2 == e,
        },
{
    let ghost lv = legacy_view(legacy@);
    let mut session_id: Option<String> = None;
    let mut login_secure: Option<String> = None;
    let sid_name = String::from_str("sessionid");
    let login_name = String::from_str("steamLoginSecure");
    let mut i: usize = 0;
    while i < rows.len()
        invariant
            i <= rows.len(),
            legacy@.len() == rows@.len(),
            lv == legacy_view(legacy@),
            sid_name@ == "sessionid"@,
            login_name@ == "steamLoginSecure"@,
            (match session_id { Some(s) => Some(s@), None => None::<Seq<char>> }) == last_windows_value_named(rows@.take(i as int), lv, aes_key@, "sessionid"@),
            (match login_secure { Some(s) => Some(s@), None => None::<Seq<char>> }) == last_windows_value_named(rows@.take(i as int), lv, aes_key@, "steamLoginSecure"@),
        decreases rows.len() - i,
    {
        assert(rows@.take(i + 1).drop_last() =~= rows@.take(i as int));
        assert(rows@.take(i + 1).last() == rows@[i as int]);
        assert(rows@.take(i + 1).len() - 1 == i);
        let row = &rows[i];
        proof {
            reveal_strlit("sessionid");
            reveal_strlit("steamLoginSecure");
        }
        assert("sessionid"@ != "steamLoginSecure"@) by {
            assert("sessionid"@.len() != "steamLoginSecure"@.len());
        }
        let resolved = resolve_windows_row(row, aes_key, &legacy[i]);
        assert(lv[i as int] == match legacy@[i as int] { Some(p) => Some(p@), None => None::<Seq<u8>> });
        if row.name == sid_name {
            session_id = Some(resolved);
        } else if row.name == login_name {
            assert(row.name@ != "sessionid"@);
            login_secure = Some(resolved);
        }
        i = i + 1;
    }
    assert(rows@.take(rows.len() as int) =~= rows@);
    match session_id {
        None => Err(CookieError::NoSessionId),
        Some(s) => match login_secure {
            None => Err(CookieError::NoLoginSecure),
            Some(l) => Ok(SteamCookies { session_id: s, login_secure: l }),
        },
    }
}

/// Where the cookie database may be on Linux, in the order they are tried.
pub open spec fn linux_cookie_db_candidates(home: Seq<char>) -> Seq<Seq<char>> {
    let base = path_join(home, ".local/share/Steam/config/htmlcache/Default"@);
    seq![path_join(base, "Network/Cookies"@), path_join(base, "Cookies"@)]
}

/// The candidate paths of the cookie database under `home`.
pub fn cookie_db_candidates(home: &str) -> (res: Vec<String>)
    ensures
        res@.map_values(|s: String| s@) == linux_cookie_db_candidates(home@),
{
    let base = join_path(home, ".local/share/Steam/config/htmlcache/Default");
    let mut res: Vec<String> = Vec::new();
    res.push(join_path(base.as_str(), "Network/Cookies"));
    res.push(join_path(base.as_str(), "Cookies"));
    assert(res@.map_values(|s: String| s@) =~= linux_cookie_db_candidates(home@));
    res
}

/// The message when no candidate exists: all of them, joined by `, `.
pub open spec fn not_found_message(cands: Seq<Seq<char>>) -> Seq<char> {
    "Steam cookie database not found — checked "@ + join_with_comma(cands)
}

/// `cands.join(", ")`.
pub open spec fn join_with_comma(cands: Seq<Seq<char>>) -> Seq<char>
    decreases cands.len(),
{
    if cands.len() == 0 {
        Seq::empty()
    } else if cands.len() == 1 {
        cands[0]
    } else {
        join_with_comma(cands.drop_last()) + ", "@ + cands.last()
    }
}

/// Picks the first candidate that exists (`exists[i]` tells whether `cands[i]` does).
pub fn choose_cookie_db(cands: &Vec<String>, exists: &Vec<bool>) -> (res: Result<String, String>)
    requires
        exists@.len() == cands@.len(),
    ensures
        match res {
            Ok(p) => exists|i: int| 0 <= i < cands@.len() && exists@[i] && cands@[i] == p && forall|j: int| 0 <= j < i ==> !exists@[j],
            Err(m) => (forall|j: int| 0 <= j < cands@.len() ==> !exists@[j]) && m@ == not_found_message(cands@.map_values(|s: String| s@)),
        },
{
    let mut i: usize = 0;
    while i < cands.len()
        invariant
            i <= cands.len(),
            exists@.len() == cands@.len(),
            forall|j: int| 0 <= j < i ==> !exists@[j],
        decreases cands.len() - i,
    {
        if exists[i] {
            return Ok(cands[i].clone());
        }
        i = i + 1;
    }
    let ghost cv = cands@.map_values(|s: String| s@);
    let mut msg: Vec<char> = Vec::new();
    push_str(&mut msg, "Steam cookie database not found — checked ");
    let ghost prefix = msg@;
    let mut k: usize = 0;
    while k < cands.len()
        invariant
            k <= cands.len(),
            cv == cands@.map_values(|s: String| s@),
            prefix == "Steam cookie database not found — checked "@,
            msg@ == prefix + join_with_comma(cv.take(k as int)),
        decreases cands.len() - k,
    {
        assert(cv.take(k + 1).drop_last() =~= cv.take(k as int));
        assert(cv.take(k + 1).last() == cands@[k as int]@);
        if k > 0 {
            push_str(&mut msg, ", ");
        } else {
            assert(cv.take(k as int) =~= Seq::<Seq<char>>::empty());
            assert(cv.take(1) =~= seq![cv[0]]);
        }
        push_str(&mut msg, cands[k].as_str());
        k = k + 1;
        assert(msg@ =~= prefix + join_with_comma(cv.take(k as int)));
    }
    assert(cv.take(cands.len() as int) =~= cv);
    assert(msg@ =~= not_found_message(cv));
    Err(string_from_chars(&msg))
}

/// `get_cookie_db_path` on Linux: the first candidate under `home` that exists now.
pub fn find_cookie_db(home: &str) -> (res: Result<String, String>)
    ensures
        match res {
            Ok(p) => linux_cookie_db_candidates(home@).contains(p@),
            Err(m) => m@ == not_found_message(linux_cookie_db_candidates(home@)),
        },
{
    let cands = cookie_db_candidates(home);
    let mut exists: Vec<bool> = Vec::new();
    let mut i: usize = 0;
    while i < cands.len()
        invariant
            i <= cands.len(),
            exists@.len() == i,
        decreases cands.len() - i,
    {
        exists.push(path_exists(cands[i].as_str()));
        i = i + 1;
    }
    let r = choose_cookie_db(&cands, &exists);
    proof {
        if r is Ok {
            let p = r->Ok_0;
            let i = choose|i: int| 0 <= i < cands@.len() && exists@[i] && cands@[i] == p && forall|j: int| 0 <= j < i ==> !exists@[j];
            assert(cands@.map_values(|s: String| s@)[i] == p@);
        }
    }
    r
}

/// `Path::join` on Windows for a relative part without a drive or root: the part is
/// appended, after a `\` unless the directory is empty, ends with a separator (`\` or
/// `/`), or is a bare drive such as `C:`.
pub open spec fn windows_join(base: Seq<char>, rel: Seq<char>) -> Seq<char> {
    if base.len() == 0 || base.last() == '\\' || base.last() == '/' || (base.len() == 2 && base[1] == ':'
        && (('a' <= base[0] && base[0] <= 'z') || ('A' <= base[0] && base[0] <= 'Z'))) {
        base + rel
    } else {
        base + "\\"@ + rel
    }
}

/// Where the cookie database may be on Windows, in the order they are tried: six places
/// under the local data directory `base`, then five fixed ones.
pub open spec fn windows_cookie_db_candidates(base: Seq<char>) -> Seq<Seq<char>> {
    seq![
        windows_join(base, "Steam\\htmlcache\\Default\\Network\\Cookies"@),
        windows_join(base, "Steam\\htmlcache\\Default\\Cookies"@),
        windows_join(base, "Steam\\htmlcache\\Cookies"@),
        windows_join(base, "Steam\\config\\htmlcache\\Default\\Network\\Cookies"@),
        windows_join(base, "Steam\\config\\htmlcache\\Default\\Cookies"@),
        windows_join(base, "Steam\\config\\htmlcache\\Cookies"@),
        "C:\\Program Files (x86)\\Steam\\htmlcache\\Default\\Network\\Cookies"@,
        "C:\\Program Files (x86)\\Steam\\htmlcache\\Default\\Cookies"@,
        "C:\\Program Files (x86)\\Steam\\htmlcache\\Cookies"@,
        "C:\\Program Files\\Steam\\htmlcache\\Default\\Network\\Cookies"@,
        "C:\\Program Files\\Steam\\htmlcache\\Default\\Cookies"@,
    ]
}

fn windows_join_exec(base: &str, rel: &str) -> (res: String)
    ensures
        res@ == windows_join(base@, rel@),
{
    let b = chars_of(base);
    let n = b.len();
    let mut v: Vec<char> = Vec::new();
    push_str(&mut v, base);
    let bare_drive = n == 2 && b[1] == ':' && (('a' <= b[0] && b[0] <= 'z') || ('A' <= b[0] && b[0] <= 'Z'));
    if !(n == 0 || b[n - 1] == '\\' || b[n - 1] == '/' || bare_drive) {
        push_str(&mut v, "\\");
    }
    push_str(&mut v, rel);
    string_from_chars(&v)
}

/// The candidate paths of the cookie database on Windows, under the local data
/// directory `base`.
pub fn windows_cookie_db_candidates_of(base: &str) -> (res: Vec<String>)
    ensures
        res@.map_values(|s: String| s@) == windows_cookie_db_candidates(base@),
{
    let mut res: Vec<String> = Vec::new();
    res.push(windows_join_exec(base, "Steam\\htmlcache\\Default\\Network\\Cookies"));
    res.push(windows_join_exec(base, "Steam\\htmlcache\\Default\\Cookies"));
    res.push(windows_join_exec(base, "Steam\\htmlcache\\Cookies"));
    res.push(windows_join_exec(base, "Steam\\config\\htmlcache\\Default\\Network\\Cookies"));
    res.push(windows_join_exec(base, "Steam\\config\\htmlcache\\Default\\Cookies"));
    res.push(windows_join_exec(base, "Steam\\config\\htmlcache\\Cookies"));
    res.push(String::from_str("C:\\Program Files (x86)\\Steam\\htmlcache\\Default\\Network\\Cookies"));
    res.push(String::from_str("C:\\Program Files (x86)\\Steam\\htmlcache\\Default\\Cookies"));
    res.push(String::from_str("C:\\Program Files (x86)\\Steam\\htmlcache\\Cookies"));
    res.push(String::from_str("C:\\Program Files\\Steam\\htmlcache\\Default\\Network\\Cookies"));
    res.push(String::from_str("C:\\Program Files\\Steam\\htmlcache\\Default\\Cookies"));
    assert(res@.map_values(|s: String| s@) =~= windows_cookie_db_candidates(base@));
    res
}

/// The message on Windows when no candidate exists: how many were checked.
pub open spec fn windows_not_found_message(n: nat) -> Seq<char> {
    "Steam cookie database not found — checked "@ + decimal(n) + " locations"@
}

/// Picks the first candidate that exists on Windows (`exists[i]` tells whether
/// `cands[i]` does).
pub fn choose_windows_cookie_db(cands: &Vec<String>, exists: &Vec<bool>) -> (res: Result<String, String>)
    requires
        exists@.len() == cands@.len(),
    ensures
        match res {
            Ok(p) => exists|i: int| 0 <= i < cands@.len() && exists@[i] && cands@[i] == p && forall|j: int| 0 <= j < i ==> !exists@[j],
            Err(m) => (forall|j: int| 0 <= j < cands@.len() ==> !exists@[j]) && m@ == windows_not_found_message(cands@.len()),
        },
{
    let mut i: usize = 0;
    while i < cands.len()
        invariant
            i <= cands.len(),
            exists@.len() == cands@.len(),
            forall|j: int| 0 <= j < i ==> !exists@[j],
        decreases cands.len() - i,
    {
        if exists[i] {
            return Ok(cands[i].clone());
        }
        i = i + 1;
    }
    let mut msg: Vec<char> = Vec::new();
    push_str(&mut msg, "Steam cookie database not found — checked ");
    push_decimal(&mut msg, cands.len() as u64);
    push_str(&mut msg, " locations");
    Err(string_from_chars(&msg))
}

/// `get_cookie_db_path` on Windows: the first candidate under the local data directory
/// `base` that exists now.
pub fn find_windows_cookie_db(base: &str) -> (res: Result<String, String>)
    ensures
        match res {
            Ok(p) => windows_cookie_db_candidates(base@).contains(p@),
            Err(m) => m@ == windows_not_found_message(11),
        },
{
    let cands = windows_cookie_db_candidates_of(base);
    let mut exists: Vec<bool> = Vec::new();
    let mut i: usize = 0;
    while i < cands.len()
        invariant
            i <= cands.len(),
            exists@.len() == i,
        decreases cands.len() - i,
    {
        exists.push(path_exists(cands[i].as_str()));
        i = i + 1;
    }
    let r = choose_windows_cookie_db(&cands, &exists);
    proof {
        if r is Ok {
            let p = r->Ok_0;
            let i = choose|i: int| 0 <= i < cands@.len() && exists@[i] && cands@[i] == p && forall|j: int| 0 <= j < i ==> !exists@[j];
            assert(cands@.map_values(|s: String| s@)[i] == p@);
        }
        assert(cands@.map_values(|s: String| s@).len() == 11);
    }
    r
}

// ---------------------------------------------------------------------------------------
// The cookie key on Windows

/// Where `Local State` keeps the protected cookie key: `["os_crypt"]["encrypted_key"]`.
pub open spec fn local_state_key_path() -> Seq<Seq<char>> {
    seq!["os_crypt"@, "encrypted_key"@]
}

/// The bytes that standard, padded Base64 text decodes to, if it is valid.
pub uninterp spec fn base64_standard_decoded(text: Seq<char>) -> Option<Seq<u8>>;

/// `base64::engine::general_purpose::STANDARD.decode(text).ok()`. Claimed: the result
/// depends on the text alone.
#[verifier::external_body]
fn b64_standard_decode(text: &str) -> (res: Option<Vec<u8>>)
    ensures
        match res {
            Some(b) => base64_standard_decoded(text@) == Some(b@),
            None => base64_standard_decoded(text@) is None,
        },
{
    base64::engine::general_purpose::STANDARD.decode(text).ok()
}

/// Whether decoded key bytes start with `DPAPI`.
pub open spec fn has_dpapi_prefix(b: Seq<u8>) -> bool {
    b.len() >= 5 && b.take(5) == ascii_bytes("DPAPI"@)
}

/// The DPAPI-protected AES key that a `Local State` field names: the Base64 of the field
/// must decode and start with `DPAPI`.
pub open spec fn key_blob_of_field(field: Option<Option<Seq<char>>>) -> Result<Seq<u8>, CookieError> {
    match field {
        None => Err(CookieError::BadLocalState),
        Some(None) => Err(CookieError::NoEncryptedKey),
        Some(Some(k)) => match base64_standard_decoded(k) {
            None => Err(CookieError::BadBase64Key),
            Some(b) => if has_dpapi_prefix(b) {
                Ok(b.skip(5))
            } else {
                Err(CookieError::NoDpapiPrefix)
            },
        },
    }
}

/// The blob to unprotect, given what the `Local State` JSON holds at
/// `os_crypt.encrypted_key`.
pub fn key_blob_from_field(field: Option<Option<String>>) -> (res: Result<Vec<u8>, CookieError>)
    ensures
        match key_blob_of_field(match field {
            None => None,
            Some(None) => Some(None),
            Some(Some(s)) => Some(Some(s@)),
        }) {
            Ok(b) => res matches Ok(r) && r@ == b,
            Err(e) => res == Err::<Vec<u8>, CookieError>(e),
        },
{
    match field {
        None => Err(CookieError::BadLocalState),
        Some(None) => Err(CookieError::NoEncryptedKey),
        Some(Some(k)) => match b64_standard_decode(k.as_str()) {
            None => Err(CookieError::BadBase64Key),
            Some(b) => dpapi_blob(&b),
        },
    }
}

/// `get_aes_key` up to the DPAPI call: the protected key blob in a `Local State` text.
pub fn aes_key_blob(local_state: &str) -> (res: Result<Vec<u8>, CookieError>)
    ensures
        match key_blob_of_field(crate::json::json_str_at(local_state@, local_state_key_path())) {
            Ok(b) => res matches Ok(r) && r@ == b,
            Err(e) => res == Err::<Vec<u8>, CookieError>(e),
        },
{
    let mut keys: Vec<String> = Vec::new();
    keys.push(String::from_str("os_crypt"));
    keys.push(String::from_str("encrypted_key"));
    assert(keys@.map_values(|k: String| k@) =~= local_state_key_path());
    key_blob_from_field(crate::json::json_string_at(local_state, &keys))
}

/// `s` with `\` turned into `/` and its leading `/`s removed.
pub open spec fn forward_slashed(s: Seq<char>) -> Seq<char> {
    let f = s.map_values(|c: char| if c == '\\' { '/' } else { c });
    f.skip(leading_slashes(f) as int)
}

/// How many `/` a text starts with.
pub open spec fn leading_slashes(s: Seq<char>) -> nat
    decreases s.len(),
{
    if s.len() > 0 && s[0] == '/' {
        1 + leading_slashes(s.drop_first())
    } else {
        0
    }
}

/// The read-only, immutable SQLite URI of a database file (for a file another process
/// keeps locked): `file:///<path with forward slashes>?immutable=1&mode=ro`.
pub fn immutable_db_uri(path: &str) -> (res: String)
    ensures
        res@ == "file:///"@ + forward_slashed(path@) + "?immutable=1&mode=ro"@,
{
    let cs = chars_of(path);
    let mut f: Vec<char> = Vec::new();
    let mut i: usize = 0;
    while i < cs.len()
        invariant
            i <= cs.len(),
            cs@ == path@,
            f@ == cs@.take(i as int).map_values(|c: char| if c == '\\' { '/' } else { c }),
        decreases cs.len() - i,
    {
        f.push(if cs[i] == '\\' { '/' } else { cs[i] });
        i = i + 1;
        assert(f@ =~= cs@.take(i as int).map_values(|c: char| if c == '\\' { '/' } else { c }));
    }
    assert(cs@.take(cs.len() as int) =~= cs@);
    let ghost fv = f@;
    let mut k: usize = 0;
    assert(fv.skip(0) =~= fv);
    while k < f.len() && f[k] == '/'
        invariant
            k <= f@.len(),
            fv == f@,
            leading_slashes(fv) == k + leading_slashes(fv.skip(k as int)),
        decreases f@.len() - k,
    {
        assert(fv.skip(k as int).drop_first() =~= fv.skip(k + 1));
        k = k + 1;
    }
    let mut out: Vec<char> = Vec::new();
    push_str(&mut out, "file:///");
    let rest = crate::text::slice_chars(&f, k, f.len());
    crate::text::push_chars(&mut out, rest.as_slice());
    push_str(&mut out, "?immutable=1&mode=ro");
    assert(rest@ =~= forward_slashed(path@));
    string_from_chars(&out)
}

// ---------------------------------------------------------------------------------------
// The keyring password on Linux

/// The password that `secret-tool lookup` printed: its output read as UTF-8 (lossily),
/// trimmed, as bytes.
pub fn keyring_password(stdout: &[u8]) -> (res: Vec<u8>)
    ensures
        res@ == vstd::utf8::encode_utf8(crate::text::trim(utf8_lossy(stdout@))),
{
    let text = lossy_text(stdout);
    let cs = chars_of(text.as_str());
    let t = crate::text::trim_chars(&cs);
    let s = string_from_chars(&t);
    let b = s.as_str().as_bytes();
    crate::library::byte_range(b, 0, b.len())
}

/// The keyring's answer to one lookup: a password when the tool succeeded and printed
/// something, else nothing (the next lookup is tried).
pub fn keyring_answer(success: bool, stdout: &[u8]) -> (res: Option<Vec<u8>>)
    ensures
        success && stdout@.len() > 0 ==> (res matches Some(p) && p@ == vstd::utf8::encode_utf8(crate::text::trim(utf8_lossy(stdout@)))),
        !(success && stdout@.len() > 0) ==> res is None,
{
    if success && stdout.len() > 0 {
        Some(keyring_password(stdout))
    } else {
        None
    }
}

/// Whether a row's value is read by decrypting a `v10`/`v11` value (the keyring's
/// password is then needed).
pub open spec fn row_needs_keyring(row: CookieRow) -> bool {
    row.value@.len() == 0 && row.encrypted_value@.len() > 0 && has_version_prefix(row.encrypted_value@)
}

/// Whether any row needs the keyring's password.
pub fn rows_need_keyring(rows: &Vec<CookieRow>) -> (res: bool)
    ensures
        res == exists|i: int| 0 <= i < rows@.len() && row_needs_keyring(#[trigger] rows@[i]),
{
    let mut i: usize = 0;
    while i < rows.len()
        invariant
            i <= rows@.len(),
            forall|j: int| 0 <= j < i ==> !row_needs_keyring(#[trigger] rows@[j]),
        decreases rows@.len() - i,
    {
        let r = &rows[i];
        if r.value.as_str().is_empty() && r.encrypted_value.len() > 0 && has_version_prefix_exec(&r.encrypted_value) {
            return true;
        }
        i = i + 1;
    }
    false
}

} // verus!
