//! Shareable collection codes: `SWUC_` followed by the URL-safe, unpadded Base64 of the
//! collection's JSON.
use vstd::prelude::*;

use base64::Engine;

use crate::text::{chars_of, has_prefix, is_white_space, push_str, slice_chars, string_from_chars, trim, trim_chars};

verus! {

/// A set of workshop items of one game that can be shared as a text code.
#[derive(Debug)]
pub struct CollectionCode {
    pub appid: String,
    pub name: String,
    /// Workshop item ids.
    pub items: Vec<String>,
}

/// A character of the URL-safe Base64 alphabet.
pub open spec fn is_url_safe_b64_char(c: char) -> bool {
    ('A' <= c <= 'Z') || ('a' <= c <= 'z') || ('0' <= c <= '9') || c == '-' || c == '_'
}

/// The unpadded URL-safe Base64 text of some bytes.
pub uninterp spec fn base64_url_nopad(bytes: Seq<u8>) -> Seq<char>;

/// The bytes an unpadded URL-safe Base64 text decodes to, if it is valid.
pub uninterp spec fn base64_url_nopad_decoded(text: Seq<char>) -> Option<Seq<u8>>;

/// `base64::engine::general_purpose::URL_SAFE_NO_PAD.encode(bytes)`. Claimed: the text
/// uses only the URL-safe alphabet, depends on the bytes alone, and decodes back to them.
#[verifier::external_body]
fn b64_encode(bytes: &[u8]) -> (res: String)
    ensures
        res@ == base64_url_nopad(bytes@),
        forall|i: int| 0 <= i < res@.len() ==> is_url_safe_b64_char(#[trigger] res@[i]),
        base64_url_nopad_decoded(res@) == Some(bytes@),
{
    base64::engine::general_purpose::URL_SAFE_NO_PAD.encode(bytes)
}

/// `base64::engine::general_purpose::URL_SAFE_NO_PAD.decode(text).ok()`. Claimed: the
/// result depends on the text alone.
#[verifier::external_body]
fn b64_decode(text: &[char]) -> (res: Option<Vec<u8>>)
    ensures
        match res {
            Some(b) => base64_url_nopad_decoded(text@) == Some(b@),
            None => base64_url_nopad_decoded(text@) is None,
        },
{
    let s: String = text.iter().collect();
    base64::engine::general_purpose::URL_SAFE_NO_PAD.decode(s).ok()
}

/// The code prefix.
pub open spec fn code_prefix() -> Seq<char> {
    "SWUC_"@
}

/// The code for a collection whose JSON text is `json`.
pub open spec fn code_for(json: Seq<char>) -> Seq<char> {
    code_prefix() + base64_url_nopad(vstd::utf8::encode_utf8(json))
}

/// The bytes a code carries: after trimming white space, the prefix must be there and
/// the rest must be valid Base64.
pub open spec fn payload_of(code: Seq<char>) -> Option<Seq<u8>> {
    let t = trim(code);
    if has_prefix(t, code_prefix()) {
        base64_url_nopad_decoded(t.skip(5))
    } else {
        None
    }
}

impl CollectionCode {
    /// `encode`, given the collection's JSON text: `SWUC_` and the Base64 of its bytes.
    /// The code carries exactly those bytes back (see [`CollectionCode::decode_payload`]).
    pub fn encode_json(json: &str) -> (res: String)
        ensures
            res@ == code_for(json@),
            payload_of(res@) == Some(vstd::utf8::encode_utf8(json@)),
    {
        let bytes = json.as_bytes();
        let b = b64_encode(bytes);
        let mut v: Vec<char> = Vec::new();
        push_str(&mut v, "SWUC_");
        push_str(&mut v, b.as_str());
        proof {
            lemma_code_no_white_space(b@);
            crate::text::lemma_leading_ws_unique(v@, 0);
            assert(v@.skip(0) =~= v@);
            crate::text::lemma_trailing_ws_unique(v@, 0);
            assert(v@.take(v@.len() as int) =~= v@);
            assert(trim(v@) =~= v@);
            reveal_strlit("SWUC_");
            assert(v@.take(5) =~= code_prefix());
            assert(v@.skip(5) =~= b@);
        }
        string_from_chars(&v)
    }

    /// `decode` up to the JSON: the bytes that the code carries, if it has the prefix
    /// (after trimming) and the rest is valid Base64.
    pub fn decode_payload(code: &str) -> (res: Option<Vec<u8>>)
        ensures
            match res {
                Some(b) => payload_of(code@) == Some(b@),
                None => payload_of(code@) is None,
            },
    {
        let cs = chars_of(code);
        let t = trim_chars(&cs);
        proof {
            reveal_strlit("SWUC_");
        }
        if !crate::text::starts_with(&t, "SWUC_") {
            return None;
        }
        let rest = slice_chars(&t, 5, t.len());
        assert(rest@ =~= trim(code@).skip(5));
        b64_decode(&rest)
    }
}

/// Nothing in a code is white space.
proof fn lemma_code_no_white_space(enc: Seq<char>)
    requires
        forall|i: int| 0 <= i < enc.len() ==> is_url_safe_b64_char(#[trigger] enc[i]),
    ensures
        forall|i: int| 0 <= i < (code_prefix() + enc).len() ==> !is_white_space(#[trigger] (code_prefix() + enc)[i]),
{
    reveal_strlit("SWUC_");
    assert forall|i: int| 0 <= i < (code_prefix() + enc).len() implies !is_white_space(#[trigger] (code_prefix() + enc)[i]) by {
        if i >= 5 {
            assert((code_prefix() + enc)[i] == enc[i - 5]);
            assert(is_url_safe_b64_char(enc[i - 5]));
        }
    }
}

} // verus!
