use steam_workshop_utility::general::{format_size, format_timestamp};

fn float_reference(bytes: u64) -> String {
    const MB: u64 = 1024 * 1024;
    const GB: u64 = 1024 * MB;
    if bytes >= GB {
        format!("{:.1} GB", bytes as f64 / GB as f64)
    } else {
        format!("{:.1} MB", bytes as f64 / MB as f64)
    }
}

#[test]
fn format_size_examples() {
    assert_eq!(format_size(0), "0.0 MB");
    assert_eq!(format_size(1024 * 1024), "1.0 MB");
    assert_eq!(format_size(1536 * 1024), "1.5 MB");
    assert_eq!(format_size(1024 * 1024 * 1024), "1.0 GB");
    assert_eq!(format_size(5 * 1024 * 1024 * 1024 / 2), "2.5 GB");
    assert_eq!(format_size(u64::MAX), "17179869184.0 GB");
}

#[test]
fn format_size_matches_float_formatting() {
    let mut samples: Vec<u64> = vec![0, 1, 52428, 52429, 104857, 104858, 157286, 1048575, 1048576];
    // values whose tenths lie exactly halfway between two digits
    for k in 0..200u64 {
        let tie_mb = (2 * k + 1) * (1 << 20) / 20;
        if tie_mb * 20 == (2 * k + 1) * (1 << 20) {
            samples.push(tie_mb);
        }
        samples.push(k * 104857 + 3);
        samples.push((1u64 << 30) + k * 53687091);
        samples.push(u64::MAX - k * 1_000_003);
        samples.push((1u64 << 53) + k);
        samples.push((1u64 << 62) + 3 * k + 1);
    }
    let mut x: u64 = 0x9E37_79B9_7F4A_7C15;
    for _ in 0..20000 {
        x ^= x << 13;
        x ^= x >> 7;
        x ^= x << 17;
        samples.push(x >> (x % 64));
        samples.push(x % (1 << 31));
    }
    for b in samples {
        assert_eq!(format_size(b), float_reference(b), "bytes = {}", b);
    }
}

#[test]
fn format_timestamp_examples() {
    assert_eq!(format_timestamp(None), "Unknown");
    assert_eq!(format_timestamp(Some(0)), "1970-01-01 00:00");
    assert_eq!(format_timestamp(Some(1_700_000_000)), "2023-11-14 22:13");
    // beyond chrono's range the epoch is shown
    assert_eq!(format_timestamp(Some(u64::MAX / 2)), "1970-01-01 00:00");
}

#[test]
fn format_timestamp_at_the_edges_of_chronos_range() {
    assert_eq!(format_timestamp(Some(253_402_300_800)), "+10000-01-01 00:00");
    assert_eq!(format_timestamp(Some(8_210_266_876_799)), "+262142-12-31 23:59");
    assert_eq!(format_timestamp(Some(8_210_266_876_800)), "1970-01-01 00:00");
    // seconds above i64::MAX wrap to negative times, which chrono has
    assert_eq!(format_timestamp(Some(u64::MAX)), "1969-12-31 23:59");
}
