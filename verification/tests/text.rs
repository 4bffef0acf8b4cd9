//! Characters, numerals and the cutting of text.

use sub_merger::cut::{
    contains, find, head, lines, rsplit_once, split, split_once, starts_with, tail, trim,
};
use sub_merger::decimal::{decimal_text, signed_decimal_text};
use sub_merger::order::sort_texts;
use sub_merger::text::{
    chars_of, is_alphanumeric, is_digit, is_hex_digit, is_white_space, same, same_text, spells,
    text_of,
};

fn strings(v: Vec<&[char]>) -> Vec<String> {
    v.into_iter().map(|s| s.iter().collect()).collect()
}

#[test]
fn classes_agree_with_std() {
    for c in '\0'..=char::MAX {
        assert_eq!(is_white_space(c), c.is_whitespace(), "{:?}", c);
        assert_eq!(is_digit(c), c.is_ascii_digit(), "{:?}", c);
        assert_eq!(is_hex_digit(c), c.is_ascii_hexdigit(), "{:?}", c);
        assert_eq!(is_alphanumeric(c), c.is_ascii_alphanumeric(), "{:?}", c);
    }
}

#[test]
fn characters_and_back() {
    for s in ["", "abc", "Привет", "🇩🇪"] {
        assert_eq!(text_of(&chars_of(s)), s);
    }
}

#[test]
fn comparing() {
    let a = chars_of("abc");
    assert!(same(&a, &chars_of("abc")));
    assert!(!same(&a, &chars_of("abd")));
    assert!(!same(&a, &chars_of("ab")));
    assert!(spells(&a, "abc"));
    assert!(!spells(&a, "abcd"));
    assert!(same_text("é", "é"));
    assert!(!same_text("é", "e"));
}

#[test]
fn cutting_agrees_with_std() {
    for s in ["", ",", "a", "a,b", ",a,,b,", "один,два"] {
        let c = chars_of(s);
        let expected: Vec<String> = s.split(',').map(|p| p.to_string()).collect();
        assert_eq!(strings(split(&c, ',')), expected);
        assert_eq!(strings(split(&c, ',')).join(","), s);
        assert_eq!(
            split_once(&c, ',').map(|(a, b)| (text_of(a), text_of(b))),
            s.split_once(',').map(|(a, b)| (a.to_string(), b.to_string()))
        );
        assert_eq!(
            rsplit_once(&c, ',').map(|(a, b)| (text_of(a), text_of(b))),
            s.rsplit_once(',').map(|(a, b)| (a.to_string(), b.to_string()))
        );
        assert_eq!(text_of(head(&c, ',')), s.split(',').next().unwrap());
        assert_eq!(text_of(tail(&c, ',')), s.split(',').next_back().unwrap());
    }
}

#[test]
fn lines_agree_with_std() {
    for s in ["", "\n", "a", "a\n", "a\nb", "a\r\nb\r", "\r\n\r\n", "a\n\nb\n", "a\r\r\n"] {
        let expected: Vec<String> = s.lines().map(|p| p.to_string()).collect();
        assert_eq!(strings(lines(&chars_of(s))), expected, "{:?}", s);
    }
}

#[test]
fn trimming_agrees_with_std() {
    for s in ["", " ", " a b ", "\t\u{a0}x\u{3000}\r\n", "x", "\u{200b}x"] {
        let c = chars_of(s);
        assert_eq!(text_of(trim(&c)), s.trim());
        assert_eq!(text_of(trim(trim(&c))), s.trim());
    }
}

#[test]
fn finding() {
    let s = chars_of("ab://c://");
    let mark = chars_of("://");
    assert_eq!(find(&s, &mark), Some(2));
    assert_eq!(find(&s, &chars_of("")), Some(0));
    assert_eq!(find(&mark, &s), None);
    assert!(contains(&s, &chars_of("c:")));
    assert!(!contains(&s, &chars_of("cc")));
    assert!(starts_with(&s, &chars_of("ab:")));
    assert!(!starts_with(&s, &chars_of("b")));
}

#[test]
fn numerals_agree_with_std() {
    for n in [0u64, 1, 9, 10, 99, 100, 1234567890, u64::MAX] {
        assert_eq!(decimal_text(n), n.to_string());
    }
    for n in [0i64, -1, 5, -10, i64::MAX, i64::MIN] {
        assert_eq!(signed_decimal_text(n), n.to_string());
    }
}

#[test]
fn sorting_agrees_with_std() {
    let v: Vec<String> = ["b", "", "a", "b", "ab", "é", "🇩🇪", "\u{ffff}", "z"]
        .iter()
        .map(|s| s.to_string())
        .collect();
    let mut expected = v.clone();
    expected.sort();
    assert_eq!(sort_texts(&v), expected);
}
