//! Finding a game's library logo path in Steam's binary `appcache/appinfo.vdf`.
use vstd::prelude::*;
use vstd::utf8::{decode_utf8, valid_utf8};

use crate::library::first_occurrence;
use crate::text::{chars_of, occurs_at};

verus! {

/// Characterizes `first_occurrence` by its defining facts.
pub proof fn lemma_first_occurrence_unique(h: Seq<u8>, n: Seq<u8>, i: int)
    requires
        occurs_at(h, n, i),
        forall|j: int| 0 <= j < i ==> !occurs_at(h, n, j),
    ensures
        first_occurrence(h, n) == Some(i),
{
    let c = choose|c: int| occurs_at(h, n, c) && forall|j: int| 0 <= j < c ==> !occurs_at(h, n, j);
    assert(occurs_at(h, n, c));
    if c < i {
        assert(!occurs_at(h, n, c));
    } else if i < c {
        assert(!occurs_at(h, n, i));
    }
}

/// Index of the first occurrence of `needle` in `data[from..to]`, counted from `from`.
pub fn find_bytes_in(data: &[u8], from: usize, to: usize, needle: &[u8]) -> (res: Option<usize>)
    requires
        from <= to <= data.len(),
    ensures
        match res {
            Some(i) => first_occurrence(data@.subrange(from as int, to as int), needle@) == Some(i as int),
            None => first_occurrence(data@.subrange(from as int, to as int), needle@) is None,
        },
{
    let ghost h = data@.subrange(from as int, to as int);
    if needle.len() > to - from {
        proof {
            if exists|i: int| occurs_at(h, needle@, i) {
                let i = choose|i: int| occurs_at(h, needle@, i);
                assert(i + needle.len() <= h.len());
            }
        }
        return None;
    }
    let last = to - from - needle.len();
    let mut i: usize = 0;
    loop
        invariant
            from <= to <= data.len(),
            h == data@.subrange(from as int, to as int),
            last == to - from - needle.len(),
            i <= last,
            forall|j: int| 0 <= j < i ==> !occurs_at(h, needle@, j),
        decreases last - i,
    {
        let mut k: usize = 0;
        let mut same = true;
        while k < needle.len()
            invariant
                from + i + needle.len() <= to <= data.len(),
                k <= needle.len(),
                same == forall|m: int| 0 <= m < k ==> data@[from + i + m] == needle@[m],
            decreases needle.len() - k,
        {
            if data[from + i + k] != needle[k] {
                same = false;
            }
            k = k + 1;
        }
        if same {
            assert(h.subrange(i as int, i + needle.len()) =~= needle@);
            proof {
                lemma_first_occurrence_unique(h, needle@, i as int);
            }
            return Some(i);
        } else {
            assert(!occurs_at(h, needle@, i as int)) by {
                if occurs_at(h, needle@, i as int) {
                    assert forall|m: int| 0 <= m < needle.len() implies data@[from + i + m] == needle@[m] by {
                        assert(h.subrange(i as int, i + needle.len())[m] == h[i + m]);
                    }
                }
            }
        }
        if i == last {
            proof {
                if exists|j: int| occurs_at(h, needle@, j) {
                    let j = choose|j: int| occurs_at(h, needle@, j);
                    assert(j <= last);
                }
            }
            return None;
        }
        i = i + 1;
    }
}

/// The bytes of an ASCII text.
pub open spec fn ascii_bytes(s: Seq<char>) -> Seq<u8> {
    s.map_values(|c: char| c as u32 as u8)
}

fn ascii_bytes_of(s: &str) -> (res: Vec<u8>)
    ensures
        res@ == ascii_bytes(s@),
{
    let cs = chars_of(s);
    let mut res: Vec<u8> = Vec::new();
    let mut i: usize = 0;
    while i < cs.len()
        invariant
            i <= cs.len(),
            cs@ == s@,
            res@ == ascii_bytes(cs@.take(i as int)),
        decreases cs.len() - i,
    {
        res.push(cs[i] as u32 as u8);
        i = i + 1;
        assert(res@ =~= ascii_bytes(cs@.take(i as int)));
    }
    assert(cs@.take(cs.len() as int) =~= cs@);
    res
}

/// `appid.to_le_bytes()`.
pub open spec fn le_bytes(id: u32) -> Seq<u8> {
    seq![(id % 256) as u8, (id / 256 % 256) as u8, (id / 65536 % 256) as u8, (id / 16777216) as u8]
}

/// How the scan of `appinfo.vdf` ended.
#[derive(Debug, PartialEq, Eq, Structural)]
pub enum AppinfoScan {
    /// The logo path is `data[start..end]`.
    Found { start: usize, end: usize },
    /// `library_logo` ends exactly at the end of the 64 KiB window, where the lookup
    /// slices past the window's end (and panics).
    TruncatedKey,
    /// No block of the app names a logo.
    NotFound,
}

/// Last index before `k` that holds a zero byte.
pub open spec fn last_zero_before(s: Seq<u8>, k: int) -> Option<int>
    decreases k,
{
    if k <= 0 {
        None
    } else if s[k - 1] == 0 {
        Some(k - 1)
    } else {
        last_zero_before(s, k - 1)
    }
}

/// What the scan decides at position `pos` (`None`: go on with the next position).
pub open spec fn appinfo_at(data: Seq<u8>, id: u32, pos: int) -> Option<AppinfoScan> {
    if data.subrange(pos, pos + 4) != le_bytes(id) {
        None
    } else {
        let end = if pos + 65536 <= data.len() { pos + 65536 } else { data.len() as int };
        let chunk = data.subrange(pos, end);
        match first_occurrence(chunk, ascii_bytes("library_logo"@)) {
            None => None,
            Some(lo) => if lo + 13 > chunk.len() {
                Some(AppinfoScan::TruncatedKey)
            } else {
                match first_occurrence(chunk.skip(lo + 13), ascii_bytes("logo.png"@)) {
                    None => None,
                    Some(po) => {
                        let abs = lo + 13 + po;
                        let st = match last_zero_before(chunk, abs) {
                            Some(j) => j + 1,
                            None => abs,
                        };
                        Some(AppinfoScan::Found { start: (pos + st) as usize, end: (pos + abs + 8) as usize })
                    },
                }
            },
        }
    }
}

/// The scan from position `pos` on: each position where the app id's four bytes start
/// (and at least one byte follows) is tried in turn.
pub open spec fn appinfo_scan_from(data: Seq<u8>, id: u32, pos: int) -> AppinfoScan
    decreases data.len() - pos,
{
    if pos < 0 || pos + 4 >= data.len() {
        AppinfoScan::NotFound
    } else {
        match appinfo_at(data, id, pos) {
            Some(r) => r,
            None => appinfo_scan_from(data, id, pos + 1),
        }
    }
}

fn last_zero_exec(data: &[u8], from: usize, k: usize) -> (res: Option<usize>)
    requires
        from + k <= data.len(),
    ensures
        match res {
            Some(j) => last_zero_before(data@.subrange(from as int, data.len() as int), k as int) == Some(j as int),
            None => last_zero_before(data@.subrange(from as int, data.len() as int), k as int) is None,
        },
    decreases k,
{
    let ghost s = data@.subrange(from as int, data.len() as int);
    if k == 0 {
        None
    } else if data[from + k - 1] == 0 {
        assert(s[k - 1] == data@[from + k - 1]);
        Some(k - 1)
    } else {
        assert(s[k - 1] == data@[from + k - 1]);
        last_zero_exec(data, from, k - 1)
    }
}

proof fn lemma_last_zero_window(data: Seq<u8>, from: int, end: int, k: int)
    requires
        0 <= from <= end <= data.len(),
        0 <= k <= end - from,
    ensures
        last_zero_before(data.subrange(from, end), k) == last_zero_before(data.subrange(from, data.len() as int), k),
    decreases k,
{
    if k > 0 {
        assert(data.subrange(from, end)[k - 1] == data.subrange(from, data.len() as int)[k - 1]);
        lemma_last_zero_window(data, from, end, k - 1);
    }
}

/// What the scan decides at position `pos` (see [`appinfo_at`]).
fn scan_at(data: &[u8], id: &[u8; 4], key: &Vec<u8>, png: &Vec<u8>, appid: u32, pos: usize) -> (res: Option<AppinfoScan>)
    requires
        pos + 4 < data.len(),
        id@ == le_bytes(appid),
        key@ == ascii_bytes("library_logo"@),
        png@ == ascii_bytes("logo.png"@),
    ensures
        res == appinfo_at(data@, appid, pos as int),
{
    let matches_id = data[pos] == id[0] && data[pos + 1] == id[1] && data[pos + 2] == id[2] && data[pos + 3] == id[3];
    assert(matches_id == (data@.subrange(pos as int, pos + 4) == le_bytes(appid))) by {
        if data@.subrange(pos as int, pos + 4) == le_bytes(appid) {
            assert(data@.subrange(pos as int, pos + 4)[0] == data@[pos as int]);
            assert(data@.subrange(pos as int, pos + 4)[1] == data@[pos + 1]);
            assert(data@.subrange(pos as int, pos + 4)[2] == data@[pos + 2]);
            assert(data@.subrange(pos as int, pos + 4)[3] == data@[pos + 3]);
        }
        if matches_id {
            assert(data@.subrange(pos as int, pos + 4) =~= le_bytes(appid));
        }
    }
    if !matches_id {
        return None;
    }
    let end = if data.len() - pos > 65536 {
        pos + 65536
    } else {
        data.len()
    };
    let ghost chunk = data@.subrange(pos as int, end as int);
    let lo = match find_bytes_in(data, pos, end, key) {
        Some(lo) => lo,
        None => return None,
    };
    proof {
        crate::library::lemma_first_occurrence_found(chunk, key@);
    }
    proof {
        reveal_strlit("library_logo");
        reveal_strlit("logo.png");
    }
    assert(key@.len() == 12);
    if lo + 13 > end - pos {
        return Some(AppinfoScan::TruncatedKey);
    }
    assert(chunk.skip(lo + 13) =~= data@.subrange(pos + lo + 13, end as int));
    let po = match find_bytes_in(data, pos + lo + 13, end, png) {
        Some(po) => po,
        None => return None,
    };
    proof {
        crate::library::lemma_first_occurrence_found(chunk.skip(lo + 13), png@);
    }
    assert(png@.len() == 8);
    let abs = lo + 13 + po;
    let z = last_zero_exec(data, pos, abs);
    proof {
        lemma_last_zero_window(data@, pos as int, end as int, abs as int);
        lemma_last_zero_bound(chunk, abs as int);
    }
    let st = match z {
        Some(j) => j + 1,
        None => abs,
    };
    Some(AppinfoScan::Found { start: pos + st, end: pos + abs + 8 })
}

/// Scans `appinfo.vdf` for the logo path of app `appid` (see [`appinfo_scan_from`]).
pub fn scan_appinfo(data: &[u8], appid: u32) -> (res: AppinfoScan)
    ensures
        res == appinfo_scan_from(data@, appid, 0),
{
    let id: [u8; 4] = [(appid % 256) as u8, (appid / 256 % 256) as u8, (appid / 65536 % 256) as u8, (appid / 16777216) as u8];
    assert(id@ =~= le_bytes(appid));
    let key = ascii_bytes_of("library_logo");
    let png = ascii_bytes_of("logo.png");
    proof {
        reveal_strlit("library_logo");
        reveal_strlit("logo.png");
    }
    let mut pos: usize = 0;
    while pos < data.len() && data.len() - pos > 4
        invariant
            id@ == le_bytes(appid),
            key@ == ascii_bytes("library_logo"@),
            png@ == ascii_bytes("logo.png"@),
            appinfo_scan_from(data@, appid, 0) == appinfo_scan_from(data@, appid, pos as int),
        decreases data.len() - pos,
    {
        if let Some(r) = scan_at(data, &id, &key, &png, appid, pos) {
            return r;
        }
        pos = pos + 1;
    }
    AppinfoScan::NotFound
}

/// `u32::from_str`: an optional `+`, then one or more ASCII digits, at most `u32::MAX`.
pub open spec fn parse_u32_spec(s: Seq<char>) -> Option<u32> {
    let digits = unsigned_digits(s);
    if digits.len() > 0 && all_digits(digits) && digits_value(digits) <= u32::MAX {
        Some(digits_value(digits) as u32)
    } else {
        None
    }
}

/// The part of a number's text after an optional `+`.
pub open spec fn unsigned_digits(s: Seq<char>) -> Seq<char> {
    if s.len() > 0 && s[0] == '+' {
        s.drop_first()
    } else {
        s
    }
}

/// Every character is an ASCII digit.
pub open spec fn all_digits(d: Seq<char>) -> bool {
    forall|i: int| 0 <= i < d.len() ==> '0' <= #[trigger] d[i] <= '9'
}

/// The number that a string of decimal digits denotes.
pub open spec fn digits_value(d: Seq<char>) -> nat
    decreases d.len(),
{
    if d.len() == 0 {
        0
    } else {
        digits_value(d.drop_last()) * 10 + ((d.last() as u32 - 48) as nat)
    }
}

proof fn lemma_digits_value_mono(d: Seq<char>, k: int)
    requires
        0 <= k <= d.len(),
        forall|i: int| 0 <= i < d.len() ==> '0' <= #[trigger] d[i] <= '9',
    ensures
        digits_value(d.take(k)) <= digits_value(d),
    decreases d.len() - k,
{
    if k < d.len() {
        lemma_digits_value_mono(d, k + 1);
        assert(d.take(k + 1).drop_last() =~= d.take(k));
        assert(d.take(k + 1).last() == d[k]);
    } else {
        assert(d.take(k) =~= d);
    }
}

/// `appid.parse::<u32>()`.
pub fn parse_u32(s: &str) -> (res: Option<u32>)
    ensures
        res == parse_u32_spec(s@),
{
    let cs = chars_of(s);
    let start: usize = if cs.len() > 0 && cs[0] == '+' { 1 } else { 0 };
    let ghost digits = unsigned_digits(s@);
    assert(digits =~= cs@.skip(start as int));
    if start == cs.len() {
        return None;
    }
    let mut v: u64 = 0;
    let mut i = start;
    while i < cs.len()
        invariant
            start <= i <= cs.len(),
            cs@ == s@,
            digits == unsigned_digits(s@),
            digits =~= cs@.skip(start as int),
            forall|j: int| start <= j < i ==> '0' <= #[trigger] cs@[j] <= '9',
            v == digits_value(cs@.subrange(start as int, i as int)),
            v <= u32::MAX,
        decreases cs.len() - i,
    {
        let c = cs[i];
        assert(cs@.subrange(start as int, i + 1).drop_last() =~= cs@.subrange(start as int, i as int));
        if !('0' <= c && c <= '9') {
            assert(digits[i - start] == c);
            assert(!all_digits(digits));
            assert(parse_u32_spec(s@) is None);
            return None;
        }
        let d = (c as u32 - 48) as u64;
        let nv = v * 10 + d;
        let ghost pre = cs@.subrange(start as int, i + 1);
        assert(pre.drop_last() =~= cs@.subrange(start as int, i as int));
        assert(digits_value(pre) == v * 10 + d);
        if nv > u32::MAX as u64 {
            proof {
                assert(pre =~= digits.take(i + 1 - start));
                if all_digits(digits) {
                    lemma_digits_value_mono(digits, i + 1 - start);
                    assert(digits_value(digits) > u32::MAX);
                }
                assert(parse_u32_spec(s@) is None);
            }
            return None;
        }
        v = nv;
        i = i + 1;
    }
    assert(cs@.subrange(start as int, cs.len() as int) =~= digits);
    Some(v as u32)
}

/// `std::str::from_utf8(bytes).ok().map(str::to_string)`. Claimed, as its documentation
/// says: it succeeds exactly on valid UTF-8 and then holds the decoded characters.
#[verifier::external_body]
pub(crate) fn utf8_to_string(bytes: &[u8]) -> (res: Option<String>)
    ensures
        res is Some <==> valid_utf8(bytes@),
        res matches Some(s) ==> s@ == decode_utf8(bytes@),
{
    std::str::from_utf8(bytes).ok().map(|s| s.to_string())
}

/// Whether the scan of `appinfo.vdf` for `appid` slices past a window (the lookup
/// panics there).
pub open spec fn appinfo_lookup_panics(data: Seq<u8>, appid: Seq<char>) -> bool {
    parse_u32_spec(appid) matches Some(id) && appinfo_scan_from(data, id, 0) == AppinfoScan::TruncatedKey
}

/// The logo path that `get_logo_path_from_appinfo` reads from `appinfo.vdf`: the text
/// of the found range, if it is valid UTF-8.
pub open spec fn appinfo_logo(data: Seq<u8>, appid: Seq<char>) -> Option<Seq<char>> {
    match parse_u32_spec(appid) {
        None => None,
        Some(id) => match appinfo_scan_from(data, id, 0) {
            AppinfoScan::Found { start, end } => {
                let b = data.subrange(start as int, end as int);
                if valid_utf8(b) {
                    Some(decode_utf8(b))
                } else {
                    None
                }
            },
            _ => None,
        },
    }
}

/// The library logo path of `appid` recorded in the contents of `appinfo.vdf`.
pub fn logo_path_from_appinfo(data: &[u8], appid: &str) -> (res: Option<String>)
    requires
        !appinfo_lookup_panics(data@, appid@),
    ensures
        match appinfo_logo(data@, appid@) {
            Some(p) => res matches Some(s) && s@ == p,
            None => res is None,
        },
{
    let id = match parse_u32(appid) {
        Some(id) => id,
        None => return None,
    };
    match scan_appinfo(data, id) {
        AppinfoScan::Found { start, end } => {
            proof {
                lemma_scan_found_bounds(data@, id, 0);
            }
            let n = data.len();
            assert(data@.len() == n);
            assert(start <= end <= data.len());
            let b = crate::library::byte_range(data, start, end);
            utf8_to_string(&b)
        },
        _ => None,
    }
}

proof fn lemma_scan_found_bounds(data: Seq<u8>, id: u32, pos: int)
    requires
        pos >= 0,
    ensures
        data.len() <= usize::MAX ==> (appinfo_scan_from(data, id, pos) matches AppinfoScan::Found { start, end } ==> start <= end <= data.len()),
    decreases data.len() - pos,
{
    if !(pos < 0 || pos + 4 >= data.len()) {
        if appinfo_at(data, id, pos) is None {
            lemma_scan_found_bounds(data, id, pos + 1);
        } else {
            let end = if pos + 65536 <= data.len() { pos + 65536 } else { data.len() as int };
            let chunk = data.subrange(pos, end);
            reveal_strlit("library_logo");
            reveal_strlit("logo.png");
            crate::library::lemma_first_occurrence_found(chunk, ascii_bytes("library_logo"@));
            if let Some(lo) = first_occurrence(chunk, ascii_bytes("library_logo"@)) {
                if lo + 13 <= chunk.len() {
                    crate::library::lemma_first_occurrence_found(chunk.skip(lo + 13), ascii_bytes("logo.png"@));
                    if let Some(po) = first_occurrence(chunk.skip(lo + 13), ascii_bytes("logo.png"@)) {
                        let abs = lo + 13 + po;
                        lemma_last_zero_bound(chunk, abs);
                        assert(ascii_bytes("logo.png"@).len() == "logo.png"@.len());
                        assert(crate::text::occurs_at(chunk.skip(lo + 13), ascii_bytes("logo.png"@), po));
                    }
                }
            }
        }
    }
}

proof fn lemma_last_zero_bound(s: Seq<u8>, k: int)
    ensures
        last_zero_before(s, k) matches Some(j) ==> 0 <= j < k,
    decreases k,
{
    if k > 0 && s[k - 1] != 0 {
        lemma_last_zero_bound(s, k - 1);
    }
}


proof fn lemma_last_zero_props(s: Seq<u8>, k: int)
    requires
        0 <= k <= s.len(),
    ensures
        last_zero_before(s, k) matches Some(j) ==> 0 <= j < k && s[j] == 0 && forall|i: int| j < i < k ==> s[i] != 0,
        last_zero_before(s, k) is None ==> forall|i: int| 0 <= i < k ==> s[i] != 0,
    decreases k,
{
    if k > 0 && s[k - 1] != 0 {
        lemma_last_zero_props(s, k - 1);
    }
}

proof fn lemma_found_logo_range_from(data: Seq<u8>, id: u32, pos: int)
    requires
        pos >= 0,
        data.len() <= usize::MAX,
    ensures
        appinfo_scan_from(data, id, pos) matches AppinfoScan::Found { start, end } ==> {
            &&& start + 8 <= end <= data.len()
            &&& data.subrange(end - 8, end as int) == ascii_bytes("logo.png"@)
            &&& forall|k: int| start <= k < end ==> data[k] != 0
        },
    decreases data.len() - pos,
{
    if !(pos < 0 || pos + 4 >= data.len()) {
        if appinfo_at(data, id, pos) is None {
            lemma_found_logo_range_from(data, id, pos + 1);
        } else {
            let end = if pos + 65536 <= data.len() { pos + 65536 } else { data.len() as int };
            let chunk = data.subrange(pos, end);
            reveal_strlit("library_logo");
            reveal_strlit("logo.png");
            let logo = ascii_bytes("logo.png"@);
            crate::library::lemma_first_occurrence_found(chunk, ascii_bytes("library_logo"@));
            if let Some(lo) = first_occurrence(chunk, ascii_bytes("library_logo"@)) {
                if lo + 13 <= chunk.len() {
                    crate::library::lemma_first_occurrence_found(chunk.skip(lo + 13), logo);
                    if let Some(po) = first_occurrence(chunk.skip(lo + 13), logo) {
                        let abs = lo + 13 + po;
                        assert(logo.len() == 8);
                        assert(crate::text::occurs_at(chunk.skip(lo + 13), logo, po));
                        lemma_last_zero_props(chunk, abs);
                        let st = match last_zero_before(chunk, abs) {
                            Some(j) => j + 1,
                            None => abs,
                        };
                        assert forall|i: int| 0 <= i < 8 implies data[pos + abs + i] == logo[i] by {
                            assert(chunk.skip(lo + 13)[po + i] == logo[i]);
                            assert(chunk[abs + i] == data[pos + abs + i]);
                        }
                        assert(data.subrange(pos + abs, pos + abs + 8) =~= logo);
                        assert forall|k: int| pos + st <= k < pos + abs + 8 implies data[k] != 0 by {
                            if k < pos + abs {
                                assert(chunk[k - pos] == data[k]);
                            } else {
                                assert(data[k] == logo[k - pos - abs]);
                            }
                        }
                    }
                }
            }
        }
    }
}

/// The range that the scan finds is a logo path: it ends with `logo.png` and holds no
/// zero byte.
pub proof fn lemma_found_logo_range(data: Seq<u8>, id: u32)
    requires
        data.len() <= usize::MAX,
    ensures
        appinfo_scan_from(data, id, 0) matches AppinfoScan::Found { start, end } ==> {
            &&& start + 8 <= end <= data.len()
            &&& data.subrange(end - 8, end as int) == ascii_bytes("logo.png"@)
            &&& forall|k: int| start <= k < end ==> data[k] != 0
        },
{
    lemma_found_logo_range_from(data, id, 0);
}

} // verus!
