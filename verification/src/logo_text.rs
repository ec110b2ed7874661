//! What a logo path read from `appinfo.vdf` looks like as text.
use vstd::prelude::*;
use vstd::utf8::{decode_utf8, valid_utf8};

use crate::appinfo::{appinfo_logo, appinfo_scan_from, ascii_bytes, parse_u32_spec, AppinfoScan};

verus! {

/// A text with a NUL character encodes to bytes holding a zero.
proof fn lemma_encode_nul(chars: Seq<char>, m: int)
    requires
        0 <= m < chars.len(),
        chars[m] == '\0',
    ensures
        exists|k: int| 0 <= k < vstd::utf8::encode_utf8(chars).len() && #[trigger] vstd::utf8::encode_utf8(chars)[k] == 0,
    decreases chars.len(),
{
    let e = vstd::utf8::encode_utf8(chars);
    let first = vstd::utf8::encode_scalar(chars[0] as u32);
    let rest = vstd::utf8::encode_utf8(chars.drop_first());
    assert(e == first + rest);
    if m == 0 {
        assert((0u32 & 0x7Fu32) == 0u32) by (bit_vector);
        assert(first == seq![0u8]);
        assert(e[0] == 0);
    } else {
        lemma_encode_nul(chars.drop_first(), m - 1);
        let k = choose|k: int| 0 <= k < rest.len() && #[trigger] rest[k] == 0;
        assert(e[first.len() + k] == 0);
    }
}

/// Valid UTF-8 ending in the bytes of `logo.png` decodes to a text ending in `logo.png`.
proof fn lemma_decode_logo_suffix(b: Seq<u8>)
    requires
        valid_utf8(b),
        b.len() >= 8,
        b.subrange(b.len() - 8, b.len() as int) == ascii_bytes("logo.png"@),
    ensures
        decode_utf8(b).len() >= 8,
        decode_utf8(b).subrange(decode_utf8(b).len() - 8, decode_utf8(b).len() as int) == "logo.png"@,
{
    reveal_strlit("logo.png");
    let logo = "logo.png"@;
    let i = b.len() - 8;
    assert(b[i] == b.subrange(i, b.len() as int)[0]);
    assert(vstd::utf8::is_leading_byte_width_1(b[i]));
    vstd::utf8::is_char_boundary_iff_is_leading_byte(b, i);
    vstd::utf8::decode_utf8_split(b, i);
    assert(vstd::utf8::is_ascii_chars(logo));
    vstd::utf8::is_ascii_chars_encode_utf8(logo);
    assert(vstd::utf8::encode_utf8(logo) =~= ascii_bytes(logo));
    vstd::utf8::encode_utf8_decode_utf8(logo);
    let head = decode_utf8(b.subrange(0, i));
    let p = decode_utf8(b);
    assert(p =~= head + logo);
    assert(p.subrange(p.len() - 8, p.len() as int) =~= logo);
}

/// Valid UTF-8 without a zero byte decodes to a text without a NUL character.
proof fn lemma_decode_no_nul(b: Seq<u8>)
    requires
        valid_utf8(b),
        forall|k: int| 0 <= k < b.len() ==> b[k] != 0,
    ensures
        !decode_utf8(b).contains('\0'),
{
    let p = decode_utf8(b);
    vstd::utf8::decode_utf8_encode_utf8(b);
    if p.contains('\0') {
        let m = choose|m: int| 0 <= m < p.len() && p[m] == '\0';
        lemma_encode_nul(p, m);
        let k = choose|k: int| 0 <= k < vstd::utf8::encode_utf8(p).len() && #[trigger] vstd::utf8::encode_utf8(p)[k] == 0;
        assert(b[k] == 0);
    }
}

/// A logo path read from `appinfo.vdf` ends with `logo.png` and holds no NUL character.
pub proof fn lemma_appinfo_logo_shape(data: Seq<u8>, appid: Seq<char>)
    requires
        data.len() <= usize::MAX,
    ensures
        appinfo_logo(data, appid) matches Some(p) ==> {
            &&& p.len() >= 8
            &&& p.subrange(p.len() - 8, p.len() as int) == "logo.png"@
            &&& !p.contains('\0')
        },
{
    if let Some(id) = parse_u32_spec(appid) {
        crate::appinfo::lemma_found_logo_range(data, id);
        if let AppinfoScan::Found { start, end } = appinfo_scan_from(data, id, 0) {
            let b = data.subrange(start as int, end as int);
            if valid_utf8(b) {
                assert(b.subrange(b.len() - 8, b.len() as int) =~= data.subrange(end - 8, end as int));
                lemma_decode_logo_suffix(b);
                lemma_decode_no_nul(b);
            }
        }
    }
}

} // verus!
