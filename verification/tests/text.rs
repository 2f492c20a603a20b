use supaa::text::{
    chars_of, contains_text, decimal_string, ends_with, fields, find_text, lines, parse_u32,
    parse_u64, position_of, push_padded, push_repeated, same_str, starts_with, string_of, trim,
    words,
};

fn texts(parts: Vec<&[char]>) -> Vec<String> {
    parts.into_iter().map(string_of).collect()
}

fn trimmed(s: &str) -> String {
    string_of(trim(&chars_of(s)))
}

#[test]
fn characters_make_the_string_again() {
    for s in ["", "a", "héllo", "● supaad ❄"] {
        assert_eq!(string_of(&chars_of(s)), s);
    }
}

#[test]
fn comparisons_match_those_of_str() {
    let samples = ["", "a", "ab", "abc", "b", "bc", "aab", "aaab"];
    for s in samples {
        for p in samples {
            let (a, b) = (chars_of(s), chars_of(p));
            assert_eq!(same_str(s, p), s == p);
            assert_eq!(starts_with(&a, &b), s.starts_with(p), "{s:?} {p:?}");
            assert_eq!(ends_with(&a, &b), s.ends_with(p), "{s:?} {p:?}");
            assert_eq!(contains_text(&a, &b), s.contains(p), "{s:?} {p:?}");
            assert_eq!(find_text(&a, &b), s.find(p), "{s:?} {p:?}");
        }
    }
}

#[test]
fn position_is_that_of_the_first() {
    assert_eq!(position_of(&chars_of("a:b:c"), ':'), 1);
    assert_eq!(position_of(&chars_of("abc"), ':'), 3);
    assert_eq!(position_of(&[], ':'), 0);
}

#[test]
fn trimming_matches_that_of_str() {
    for s in ["", " ", "\n", " a ", "\t a b\n", "a", "\u{a0}a\u{2003}", "\u{85}x\u{3000}", "\u{200b}x"] {
        assert_eq!(trimmed(s), s.trim(), "{s:?}");
    }
}

#[test]
fn every_space_is_trimmed_and_nothing_else() {
    for code in 0..=0x10ffffu32 {
        if let Some(c) = char::from_u32(code) {
            assert_eq!(trim(&[c]).is_empty(), c.is_whitespace(), "{code:x}");
        }
    }
}

#[test]
fn lines_match_those_of_str() {
    for s in ["", "\n", "a", "a\n", "a\nb", "a\r\nb\r\n", "a\r", "\r\n", "\n\na", "a\r\r\nb"] {
        let expected: Vec<String> = s.lines().map(|l| l.to_owned()).collect();
        assert_eq!(texts(lines(&chars_of(s))), expected, "{s:?}");
    }
}

#[test]
fn fields_match_those_of_str() {
    for s in ["", ":", "a", "a:b", "a:b:c", "a:b:c:d", "::", "a::b:"] {
        for n in 0..5 {
            let expected: Vec<String> = s.splitn(n, ':').map(|l| l.to_owned()).collect();
            assert_eq!(texts(fields(&chars_of(s), ':', n)), expected, "{s:?} {n}");
        }
    }
}

#[test]
fn words_match_those_of_str() {
    for s in ["", " ", "a", " a  b ", "MemTotal:  16 kB", "\ta\nb\u{2003}c"] {
        let expected: Vec<String> = s.split_whitespace().map(|l| l.to_owned()).collect();
        assert_eq!(texts(words(&chars_of(s))), expected, "{s:?}");
    }
}

#[test]
fn numbers_read_as_with_str() {
    let samples = [
        "", "0", "7", "007", "+5", "-5", "+", "-", "4294967295", "4294967296", "18446744073709551615",
        "18446744073709551616", "99999999999999999999999", "1a", "a1", " 1", "1 ", "++1", "٣",
    ];
    for s in samples {
        assert_eq!(parse_u32(&chars_of(s)), s.parse::<u32>().ok(), "{s:?}");
        assert_eq!(parse_u64(&chars_of(s)), s.parse::<u64>().ok(), "{s:?}");
    }
}

#[test]
fn a_decimal_reads_back() {
    for n in [0u64, 1, 9, 10, 100, 101, 4294967295, 4294967296, u64::MAX] {
        assert_eq!(decimal_string(n), n.to_string());
        assert_eq!(parse_u64(&chars_of(&decimal_string(n))), Some(n));
    }
}

#[test]
fn different_numbers_have_different_decimals() {
    let all: Vec<String> = (0..300).map(decimal_string).collect();
    for i in 0..all.len() {
        for j in 0..i {
            assert_ne!(all[i], all[j]);
        }
    }
}

#[test]
fn padding_counts_characters() {
    let mut out = String::new();
    push_padded(&mut out, "✓", 6);
    assert_eq!(out, format!("{:<6}", "✓"));
    push_padded(&mut out, "toolong", 3);
    assert_eq!(out, "✓     toolong");
    push_repeated(&mut out, '─', 3);
    assert_eq!(out, "✓     toolong───");
}
