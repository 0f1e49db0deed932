use annessaia::names::{add_name, has_name, names_without, remove_name};
use annessaia::numerals::{format_u64, parse_u32, parse_u64, parse_u8};
use annessaia::text::{
    char_is_space, comma_list, contains, ends_with, first_chars, join, lines_of, replace_once, split_once,
    split_str, split_str_n, starts_with, strip_prefix, strip_suffix, trim, trim_trailing, words_of,
};

#[test]
fn white_space_is_that_of_unicode() {
    for c in '\0'..=char::MAX {
        assert_eq!(char_is_space(c), c.is_whitespace());
    }
}

#[test]
fn splitting_and_trimming() {
    assert_eq!(split_str_n("a\tb\tc", '\t', 2), vec!["a".to_string(), "b\tc".to_string()]);
    assert_eq!(split_str(",a,", ','), vec!["".to_string(), "a".to_string(), "".to_string()]);
    assert_eq!(trim(" \t a b \n"), "a b");
    assert_eq!(lines_of("a\r\n\nb\r"), "a\r\n\nb\r".lines().map(|l| l.to_string()).collect::<Vec<_>>());
    assert_eq!(words_of("  how to\tuse "), vec!["how".to_string(), "to".to_string(), "use".to_string()]);
}

#[test]
fn parts_of_texts() {
    assert!(contains("abcb", "cb") && contains("x", "") && !contains("ab", "abc"));
    assert_eq!(replace_once("a-b-c", "-", "+"), "a-b-c".replacen("-", "+", 1));
    assert!(starts_with("abc", "ab") && ends_with("abc", "bc") && !ends_with("c", "bc"));
    assert_eq!(strip_prefix("abc", "ab"), Some("c".to_string()));
    assert_eq!(strip_suffix("abc", "x"), None);
    assert_eq!(split_once("a=b=c", '='), Some(("a".to_string(), "b=c".to_string())));
    assert_eq!(join(&vec!["a".to_string(), "b".to_string()], ", "), "a, b");
    assert_eq!(comma_list(" a, ,b,"), vec!["a".to_string(), "b".to_string()]);
    assert_eq!(first_chars("äöü", 2), "äö");
    assert_eq!(trim_trailing("a//", '/'), "a");
}

#[test]
fn numbers_in_texts() {
    for s in ["0", "7", "+7", "-1", "", "+", "007", "255", "256", "4294967295", "4294967296", " 1", "1 ",
        "18446744073709551615", "18446744073709551616", "1_000", "１"] {
        assert_eq!(parse_u8(s), s.parse::<u8>().ok());
        assert_eq!(parse_u32(s), s.parse::<u32>().ok());
        assert_eq!(parse_u64(s), s.parse::<u64>().ok());
    }
    for n in [0u64, 9, 10, 12345, u64::MAX] {
        assert_eq!(format_u64(n), n.to_string());
    }
}

#[test]
fn names_occur_once() {
    let mut v = Vec::new();
    assert!(add_name(&mut v, "a".to_string()));
    assert!(add_name(&mut v, "b".to_string()));
    assert!(!add_name(&mut v, "a".to_string()));
    assert_eq!(v.len(), 2);
    assert!(has_name(&v, "b"));
    assert_eq!(names_without(&v, "a"), vec!["b".to_string()]);
    remove_name(&mut v, "b");
    assert_eq!(v, vec!["a".to_string()]);
}
