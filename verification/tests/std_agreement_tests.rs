use std::path::Path;

use steam_workshop_utility::acf::split_lines;
use steam_workshop_utility::appinfo::parse_u32;
use steam_workshop_utility::library::is_version_tag;
use steam_workshop_utility::paths::{join_path, parent_of};
use steam_workshop_utility::text::{contains_chars, split_chars, trim_chars};

const PATHS: &[&str] = &[
    "", "/", "//", "a", "a/", "a/b", "a/b/", "/a", "/a/", "/a/b", "/a/b/", "/a//b", "/a/./b",
    "/a/b/.", "./a", ".", "./", "a/.", "a/..", "/..", "../a", "a//", "/a/b//./", "./.", "/./",
];

#[test]
fn parent_agrees_with_std_path() {
    for p in PATHS {
        let expected = Path::new(p).parent().map(|q| q.to_str().unwrap().to_string());
        assert_eq!(parent_of(p), expected, "parent of {p:?}");
    }
}

#[test]
fn join_agrees_with_std_path() {
    for base in PATHS {
        for part in ["b", "b/c", "/abs", "", "./x", ".."] {
            let expected = Path::new(base).join(part).to_str().unwrap().to_string();
            assert_eq!(join_path(base, part), expected, "{base:?} join {part:?}");
        }
    }
}

const TEXTS: &[&str] = &[
    "", " ", "a", " a ", "\t\"x\"\t", "\u{3000}wide\u{2003}", "\r\n", "a\r\nb", "a\nb\n", "a\n\nb",
    "\n", "a\r", "a\r\r\n", "\u{85}x\u{a0}", "x\u{200b}", "line1\r\nline2\r\n", "  \"k\"\t\t\"v\"  ",
];

#[test]
fn trim_agrees_with_str_trim() {
    for t in TEXTS {
        let cs: Vec<char> = t.chars().collect();
        let got: String = trim_chars(&cs).into_iter().collect();
        assert_eq!(got, t.trim(), "trim of {t:?}");
    }
}

#[test]
fn lines_agree_with_str_lines() {
    for t in TEXTS {
        let cs: Vec<char> = t.chars().collect();
        let got: Vec<String> = split_lines(&cs).into_iter().map(|l| l.into_iter().collect()).collect();
        let expected: Vec<String> = t.lines().map(|l| l.to_string()).collect();
        assert_eq!(got, expected, "lines of {t:?}");
    }
}

#[test]
fn split_agrees_with_str_split() {
    for t in TEXTS.iter().chain(["\"a\"\"b\"", "\"", "x\"y\"z\"", "\"\""].iter()) {
        let cs: Vec<char> = t.chars().collect();
        let got: Vec<String> = split_chars(&cs, '"').into_iter().map(|l| l.into_iter().collect()).collect();
        let expected: Vec<String> = t.split('"').map(|l| l.to_string()).collect();
        assert_eq!(got, expected, "split of {t:?}");
    }
}

#[test]
fn contains_agrees_with_str_contains() {
    for t in TEXTS {
        for needle in ["", "a", "\r\n", "x", "k\"", "wide", " "] {
            let cs: Vec<char> = t.chars().collect();
            let ns: Vec<char> = needle.chars().collect();
            assert_eq!(contains_chars(&cs, &ns), t.contains(needle), "{t:?} contains {needle:?}");
        }
    }
}

#[test]
fn parse_u32_agrees_with_str_parse() {
    for s in ["0", "1", "+1", "-0", "+", "", " 1", "1 ", "4294967295", "4294967296", "00000000004294967295", "99999999999", "1_000", "٣"] {
        assert_eq!(parse_u32(s), s.parse::<u32>().ok(), "parse of {s:?}");
    }
}

#[test]
fn version_tags_agree_with_the_tag_filter() {
    let filter = |t: &str| {
        let starts_with_digit = t.chars().next().map(|c| c.is_ascii_digit()).unwrap_or(false);
        starts_with_digit && t.contains('.') && t.len() <= 12
    };
    for t in ["1.4", "1.4.5.6.7.8", "1.2345678901", "1.23456789012", "1.é", "1.éééééé", "1.éééééééé", "9", ".1", "1.", "٣.1", "0.0.0"] {
        assert_eq!(is_version_tag(&t.to_string()), filter(t), "tag {t:?}");
    }
}
