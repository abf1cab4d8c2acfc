//! Texts, numbers as text, and escapes.

use ai_bid::escape::normalize_regex;
use ai_bid::number::{decimal, float_literal, parse_i32, parse_unsigned};
use ai_bid::text::{
    contains, drop_leading, drop_trailing, find, has_all, has_any, join, listed, precedes,
    same_text, split, starts_with, take_chars, trim, white_space,
};

fn owned(list: &[&str]) -> Vec<String> {
    list.iter().map(|s| s.to_string()).collect()
}

#[test]
fn white_space_is_that_of_unicode() {
    for c in '\0'..=char::MAX {
        assert_eq!(white_space(c), c.is_whitespace(), "{c:?}");
    }
}

#[test]
fn searching_goes_by_characters() {
    assert_eq!(find("招标文件", "文"), Some(2));
    assert_eq!(find("招标文件", ""), Some(0));
    assert_eq!(find("招标文件", "合同"), None);
    assert!(contains("aab", "ab"));
    assert!(!contains("ab", "abc"));
    assert!(starts_with("招标", "招"));
    assert!(same_text("招", "招") && !same_text("招", "招标"));
}

#[test]
fn searching_agrees_with_the_standard_library() {
    let texts = ["", "a", "aa", "aba", "abab", "招标a招标", "a b"];
    for t in texts {
        for w in texts {
            assert_eq!(contains(t, w), t.contains(w));
            assert_eq!(starts_with(t, w), t.starts_with(w));
            assert_eq!(precedes(t, w), t < w);
            let place = t.find(w).map(|i| t[..i].chars().count());
            assert_eq!(find(t, w), place);
        }
    }
}

#[test]
fn words_are_looked_for_together() {
    let words = owned(&["甲", "乙"]);
    assert!(has_any("甲丙", &words) && !has_all("甲丙", &words));
    assert!(has_all("乙甲", &words));
    assert!(!has_any("丙", &words));
    assert!(!has_any("丙", &Vec::new()) && !has_all("丙", &Vec::new()));
    assert!(listed(&words, "乙") && !listed(&words, "丙"));
}

#[test]
fn cutting_and_trimming() {
    assert_eq!(take_chars("招标文件", 2), "招标");
    assert_eq!(take_chars("招标", 5), "招标");
    assert_eq!(trim(" \u{3000}招 标\t\n"), "招 标");
    assert_eq!(trim(" \n "), "");
    assert_eq!(drop_leading("第第一", '第'), "一");
    assert_eq!(drop_trailing("一条条", '条'), "一");
}

#[test]
fn splitting_and_joining_are_inverse() {
    for t in ["", "a", ",", "a,b", ",a,,b,"] {
        let parts = split(t, ',');
        let expected: Vec<&str> = t.split(',').collect();
        assert_eq!(parts, expected);
        assert_eq!(join(&parts, ","), t);
    }
    assert_eq!(join(&Vec::new(), ","), "");
}

#[test]
fn decimals_print_as_numbers_do() {
    for n in [0, 7, 10, 99, 100, 12345, u64::MAX] {
        assert_eq!(decimal(n), n.to_string());
        assert_eq!(parse_unsigned(&decimal(n), u64::MAX), Some(n));
    }
}

#[test]
fn integers_read_as_the_standard_library_reads_them() {
    for t in [
        "", "+", "-", "0", "007", "+5", "-5", "--5", "4294967295", "4294967296", "2147483647",
        "2147483648", "-2147483648", "-2147483649", "1 ", " 1", "１", "1a",
    ] {
        assert_eq!(
            parse_unsigned(t, u32::MAX as u64),
            t.parse::<u32>().ok().map(|n| n as u64),
            "{t:?}"
        );
        assert_eq!(parse_i32(t), t.parse::<i32>().ok(), "{t:?}");
    }
}

#[test]
fn float_literals_are_those_of_the_standard_library() {
    for t in [
        "", ".", "1", "1.", ".5", "1.5", "+1.5", "-1.5e3", "1e", "1e+", "1e+7", "1E-7", "e7",
        "inf", "-Infinity", "NaN", "nan", "infinit", "1_000", "0x10", " 1", "1 ", "1.5.2", "+",
        "--1", "1e5.0", "٣",
    ] {
        assert_eq!(float_literal(t), t.parse::<f64>().is_ok(), "{t:?}");
    }
}

#[test]
fn escapes_are_rewritten() {
    assert_eq!(normalize_regex(r"[\u4e00-\u9fa5]"), r"[\x{4e00}-\x{9fa5}]");
    assert_eq!(normalize_regex("甲.*乙"), "甲.*乙");
    assert_eq!(normalize_regex(r"\u4e0"), r"\u4e0");
    assert_eq!(normalize_regex(r"\u4E00a"), r"\x{4E00}a");
}

#[test]
fn escapes_are_rewritten_as_by_replacement() {
    let re = regex::Regex::new(r"\\u([0-9A-Fa-f]{4})").unwrap();
    for t in [
        r"\u4e00\u9fa5", r"\\u4e00", r"\\\u4e00", r"\uu4e00", r"u4e00", r"\u", r"\u12",
        r"\u12g4", r"\u1234567", r"x\u00e9y\u00e9z", r"\u\u1234",
    ] {
        assert_eq!(normalize_regex(t), re.replace_all(t, r"\x{$1}"), "{t}");
    }
}

#[test]
fn rewriting_twice_is_rewriting_once() {
    let once = normalize_regex(r"[\u4e00-\u9fa5]");
    assert_eq!(normalize_regex(&once), once);
}
