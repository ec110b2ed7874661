//! Display helpers for sizes and timestamps.
use vstd::prelude::*;

use crate::text::{decimal, digit_char, push_decimal, push_str, string_from_chars};

verus! {

/// The spacing of `f64` values near `b`: `b` lies below 2^53 times it.
pub open spec fn f64_unit(b: nat) -> nat {
    if b < 0x20_0000_0000_0000 {
        1
    } else if b < 0x40_0000_0000_0000 {
        2
    } else if b < 0x80_0000_0000_0000 {
        4
    } else if b < 0x100_0000_0000_0000 {
        8
    } else if b < 0x200_0000_0000_0000 {
        16
    } else if b < 0x400_0000_0000_0000 {
        32
    } else if b < 0x800_0000_0000_0000 {
        64
    } else if b < 0x1000_0000_0000_0000 {
        128
    } else if b < 0x2000_0000_0000_0000 {
        256
    } else if b < 0x4000_0000_0000_0000 {
        512
    } else if b < 0x8000_0000_0000_0000 {
        1024
    } else {
        2048
    }
}

/// `n / d` rounded to the nearest integer, ties to the even one.
pub open spec fn div_round_half_even(n: nat, d: nat) -> nat
    recommends
        d > 0,
{
    let q = n / d;
    let r = n % d;
    if 2 * r > d || (2 * r == d && q % 2 == 1) {
        q + 1
    } else {
        q
    }
}

/// `b as f64` for a `u64`: the nearest multiple of the local spacing, ties to even.
pub open spec fn u64_as_f64(b: nat) -> nat {
    let p = f64_unit(b);
    div_round_half_even(b, p) * p
}

/// Tenths of `b / 2^shift` rounded half to even, which `{:.1}` prints for that `f64`
/// (the division by a power of two is exact).
pub open spec fn size_tenths(b: nat) -> nat {
    if b >= 0x4000_0000 {
        div_round_half_even(u64_as_f64(b) * 10, 0x4000_0000)
    } else {
        div_round_half_even(b * 10, 0x10_0000)
    }
}

/// `format_size`: `"{:.1} GB"` of `bytes / 2^30` from one GiB on, else `"{:.1} MB"` of
/// `bytes / 2^20`.
pub open spec fn size_text(b: nat) -> Seq<char> {
    let t = size_tenths(b);
    decimal(t / 10) + seq!['.', digit_char(t % 10)] + if b >= 0x4000_0000 {
        " GB"@
    } else {
        " MB"@
    }
}

fn f64_unit_exec(b: u64) -> (p: u128)
    ensures
        p == f64_unit(b as nat),
        1 <= p <= 2048,
{
    if b < 0x20_0000_0000_0000 {
        1
    } else if b < 0x40_0000_0000_0000 {
        2
    } else if b < 0x80_0000_0000_0000 {
        4
    } else if b < 0x100_0000_0000_0000 {
        8
    } else if b < 0x200_0000_0000_0000 {
        16
    } else if b < 0x400_0000_0000_0000 {
        32
    } else if b < 0x800_0000_0000_0000 {
        64
    } else if b < 0x1000_0000_0000_0000 {
        128
    } else if b < 0x2000_0000_0000_0000 {
        256
    } else if b < 0x4000_0000_0000_0000 {
        512
    } else if b < 0x8000_0000_0000_0000 {
        1024
    } else {
        2048
    }
}

fn div_round_half_even_exec(n: u128, d: u128) -> (res: u128)
    requires
        d > 0,
        n < 0x1_0000_0000_0000_0000_0000_0000,
        d < 0x1_0000_0000_0000_0000,
    ensures
        res == div_round_half_even(n as nat, d as nat),
        res <= n / d + 1,
{
    let q = n / d;
    let r = n % d;
    assert(r < d);
    if 2 * r > d || (2 * r == d && q % 2 == 1) {
        assert(q <= n) by (nonlinear_arith)
            requires
                d > 0,
                q == n / d,
        ;
        q + 1
    } else {
        q
    }
}

/// `format_size`: a byte count in MB or GB with one decimal.
pub fn format_size(bytes: u64) -> (res: String)
    ensures
        res@ == size_text(bytes as nat),
{
    let b = bytes as u128;
    let t: u128 = if bytes >= 0x4000_0000 {
        let p = f64_unit_exec(bytes);
        let q = div_round_half_even_exec(b, p);
        assert(q * p <= 0x1_0000_0000_0000_0800) by (nonlinear_arith)
            requires
                q <= b / p + 1,
                b < 0x1_0000_0000_0000_0000,
                1 <= p <= 2048,
        ;
        let f = q * p;
        div_round_half_even_exec(f * 10, 0x4000_0000)
    } else {
        div_round_half_even_exec(b * 10, 0x10_0000)
    };
    assert(t == size_tenths(bytes as nat));
    assert(t <= 0x1_0000_0000_0000_0000) by (nonlinear_arith)
        requires
            t <= size_tenths(bytes as nat),
    {
    }
    let whole = (t / 10) as u64;
    let frac = (t % 10) as u64;
    let mut v: Vec<char> = Vec::new();
    push_decimal(&mut v, whole);
    v.push('.');
    v.push(crate::text::digit_char_of(frac));
    if bytes >= 0x4000_0000 {
        push_str(&mut v, " GB");
    } else {
        push_str(&mut v, " MB");
    }
    assert(v@ =~= size_text(bytes as nat));
    string_from_chars(&v)
}

/// The text that chrono formats, with the format string `fmt`, for a Unix time in UTC.
pub uninterp spec fn utc_format_text(secs: int, fmt: Seq<char>) -> Seq<char>;

/// A format string made of plain characters and the specifiers `%Y`, `%m`, `%d`, `%H`
/// and `%M` only (chrono formats such a string without error).
pub open spec fn plain_date_format(fmt: Seq<char>) -> bool
    decreases fmt.len(),
{
    if fmt.len() == 0 {
        true
    } else if fmt[0] == '%' {
        fmt.len() >= 2 && (fmt[1] == 'Y' || fmt[1] == 'm' || fmt[1] == 'd' || fmt[1] == 'H' || fmt[1] == 'M')
            && plain_date_format(fmt.skip(2))
    } else {
        plain_date_format(fmt.skip(1))
    }
}

/// The format `format_timestamp` uses: date and time to the minute.
pub open spec fn minute_format() -> Seq<char> {
    seq!['%', 'Y', '-', '%', 'm', '-', '%', 'd', ' ', '%', 'H', ':', '%', 'M']
}

/// The `YYYY-MM-DD HH:MM` text (UTC) of a Unix time.
pub open spec fn utc_minute_text(secs: int) -> Seq<char> {
    utc_format_text(secs, minute_format())
}

/// The Unix times that chrono can represent: from January 1 of 262144 BCE, 00:00:00,
/// to December 31 of 262142 CE, 23:59:59 (`NaiveDate::MIN` and `NaiveDate::MAX`).
pub open spec fn chrono_in_range(secs: int) -> bool {
    -8334601228800 <= secs <= 8210266876799
}

/// `chrono::DateTime::<chrono::Utc>::from_timestamp(secs, 0)` formatted with `fmt`. Claimed:
/// `None` exactly outside chrono's range ([`chrono_in_range`]: `from_timestamp` turns the
/// seconds into a day number and a time of day, and fails only when the day falls outside
/// `NaiveDate::MIN..=NaiveDate::MAX`), and otherwise the text depends on `secs` and `fmt`
/// alone. The format is limited to plain specifiers, for `to_string` panics on a format
/// that chrono cannot render.
#[verifier::external_body]
fn utc_format(secs: i64, fmt: &str) -> (res: Option<String>)
    requires
        plain_date_format(fmt@),
    ensures
        res is Some <==> chrono_in_range(secs as int),
        res matches Some(s) ==> s@ == utc_format_text(secs as int, fmt@),
{
    chrono::DateTime::<chrono::Utc>::from_timestamp(secs, 0).map(|dt| dt.format(fmt).to_string())
}

proof fn lemma_minute_format_plain()
    ensures
        plain_date_format(minute_format()),
{
    let f = minute_format();
    assert(plain_date_format(f.skip(14)));
    assert(f.skip(12).skip(2) =~= f.skip(14));
    assert(plain_date_format(f.skip(12)));
    assert(f.skip(11).skip(1) =~= f.skip(12));
    assert(plain_date_format(f.skip(11)));
    assert(f.skip(9).skip(2) =~= f.skip(11));
    assert(plain_date_format(f.skip(9)));
    assert(f.skip(8).skip(1) =~= f.skip(9));
    assert(plain_date_format(f.skip(8)));
    assert(f.skip(6).skip(2) =~= f.skip(8));
    assert(plain_date_format(f.skip(6)));
    assert(f.skip(5).skip(1) =~= f.skip(6));
    assert(plain_date_format(f.skip(5)));
    assert(f.skip(3).skip(2) =~= f.skip(5));
    assert(plain_date_format(f.skip(3)));
    assert(f.skip(2).skip(1) =~= f.skip(3));
    assert(plain_date_format(f.skip(2)));
    assert(f.skip(2) =~= f.skip(2));
    assert(f.skip(0) =~= f);
}

/// `secs` formatted with [`minute_format`].
fn utc_minute_text_of(secs: i64) -> (res: Option<String>)
    ensures
        res is Some <==> chrono_in_range(secs as int),
        res matches Some(s) ==> s@ == utc_minute_text(secs as int),
{
    proof {
        reveal_strlit("%Y-%m-%d %H:%M");
        assert("%Y-%m-%d %H:%M"@ =~= minute_format());
        lemma_minute_format_plain();
    }
    utc_format(secs, "%Y-%m-%d %H:%M")
}

/// What `format_timestamp` shows for `ts`: `Unknown` for none; the time of the seconds
/// taken as an `i64` where chrono has that time; otherwise the epoch (`unwrap_or_default`).
pub open spec fn timestamp_text(ts: Option<u64>) -> Seq<char> {
    match ts {
        None => "Unknown"@,
        Some(secs) => if chrono_in_range(secs as i64 as int) {
            utc_minute_text(secs as i64 as int)
        } else {
            utc_minute_text(0)
        },
    }
}

/// `format_timestamp`: `Unknown`, or the UTC date and time to the minute (out-of-range
/// times show the Unix epoch, as `unwrap_or_default` does).
pub fn format_timestamp(ts: Option<u64>) -> (res: String)
    ensures
        res@ == timestamp_text(ts),
{
    match ts {
        None => String::from_str("Unknown"),
        Some(secs) => match utc_minute_text_of(secs as i64) {
            Some(s) => s,
            None => {
                let epoch = utc_minute_text_of(0);
                match epoch {
                    Some(s) => s,
                    None => String::new(),
                }
            },
        },
    }
}

/// The newer of two optional timestamps, as `newest_file_timestamp` folds them: a
/// missing one is passed over.
pub fn later_timestamp(a: Option<u64>, b: Option<u64>) -> (res: Option<u64>)
    ensures
        res == match (a, b) {
            (None, b) => b,
            (Some(x), None) => Some(x),
            (Some(x), Some(y)) => Some(if x >= y { x } else { y }),
        },
{
    match (a, b) {
        (None, b) => b,
        (Some(x), None) => Some(x),
        (Some(x), Some(y)) => Some(if x >= y { x } else { y }),
    }
}

} // verus!
