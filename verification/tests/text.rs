use batch_translator::text::{
    find_in, occurs_at, slice, split, split_lines, split_once, starts_with, to_chars, to_string,
    trim,
};

fn chars(s: &str) -> Vec<char> {
    s.chars().collect()
}

fn rows(v: &[&str]) -> Vec<Vec<char>> {
    v.iter().map(|s| chars(s)).collect()
}

#[test]
fn to_chars_gives_the_characters_in_order() {
    assert_eq!(to_chars("héllo"), vec!['h', 'é', 'l', 'l', 'o']);
    assert_eq!(to_chars(""), Vec::<char>::new());
}

#[test]
fn to_string_builds_the_requested_range() {
    let v = chars("0123456789");
    assert_eq!(to_string(&v, 2, 5), "234");
    assert_eq!(to_string(&v, 0, 10), "0123456789");
    assert_eq!(to_string(&v, 4, 4), "");
    assert_eq!(to_string(&chars("äöü"), 1, 3), "öü");
}

#[test]
fn slice_copies_the_requested_range() {
    let v = chars("abcdef");
    assert_eq!(slice(&v, 1, 4), chars("bcd"));
    assert_eq!(slice(&v, 6, 6), chars(""));
}

#[test]
fn occurs_at_checks_one_position() {
    let s = chars("ab:::cd");
    let pat = chars(":::");
    assert!(occurs_at(&s, &pat, 2));
    assert!(!occurs_at(&s, &pat, 1));
    assert!(!occurs_at(&s, &pat, 5));
    assert!(!occurs_at(&s, &pat, 100));
    assert!(occurs_at(&s, &chars(""), 7));
    assert!(!occurs_at(&s, &chars(""), 8));
}

#[test]
fn find_in_returns_the_first_occurrence() {
    let s = chars("a:::b:::c");
    let pat = chars(":::");
    assert_eq!(find_in(&s, &pat, 0), Some(1));
    assert_eq!(find_in(&s, &pat, 2), Some(5));
    assert_eq!(find_in(&s, &pat, 6), None);
    assert_eq!(find_in(&chars("a::b"), &pat, 0), None);
    assert_eq!(find_in(&chars(""), &pat, 0), None);
    assert_eq!(find_in(&chars("abc"), &chars(""), 0), Some(0));
    assert_eq!(find_in(&chars("abc"), &chars(""), 3), Some(3));
}

#[test]
fn find_in_agrees_with_std_on_overlapping_colons() {
    for s in ["::::", "a::::b", ":::", "x:::", ":::x", "::", "a:b::c:::d"] {
        let expected = s.find(":::").map(|byte| s[..byte].chars().count());
        assert_eq!(find_in(&chars(s), &chars(":::"), 0), expected, "{}", s);
    }
}

#[test]
fn split_once_cuts_at_the_first_delimiter() {
    let pat = chars(":::");
    assert_eq!(
        split_once(&chars("1:::Hello:::World"), &pat),
        Some((chars("1"), chars("Hello:::World")))
    );
    assert_eq!(split_once(&chars(":::"), &pat), Some((chars(""), chars(""))));
    assert_eq!(split_once(&chars("no delimiter"), &pat), None);
    assert_eq!(split_once(&chars("::::"), &pat), Some((chars(""), chars(":"))));
}

#[test]
fn starts_with_tests_the_prefix() {
    assert!(starts_with(&chars("0:::header"), &chars("0:::")));
    assert!(!starts_with(&chars("10:::x"), &chars("0:::")));
    assert!(!starts_with(&chars("0::"), &chars("0:::")));
    assert!(starts_with(&chars("abc"), &chars("")));
}

#[test]
fn trim_removes_white_space_at_both_ends_only() {
    assert_eq!(trim(&chars("  a b \t\r\n")), chars("a b"));
    assert_eq!(trim(&chars("abc")), chars("abc"));
    assert_eq!(trim(&chars("   ")), chars(""));
    assert_eq!(trim(&chars("")), chars(""));
    assert_eq!(trim(&chars("\u{3000}x\u{a0}")), chars("x"));
}

#[test]
fn trim_agrees_with_std() {
    for s in [" 1 ", "\n\n1:::a\n", "x", "", " \u{2003}é \u{85}", "\u{200b}a\u{200b}", "_ _"] {
        assert_eq!(trim(&chars(s)), chars(s.trim()), "{:?}", s);
    }
}

#[test]
fn split_keeps_empty_pieces() {
    assert_eq!(split(&chars("a\nb"), '\n'), rows(&["a", "b"]));
    assert_eq!(split(&chars(""), '\n'), rows(&[""]));
    assert_eq!(split(&chars("\n"), '\n'), rows(&["", ""]));
    assert_eq!(split(&chars("a\n\nb\n"), '\n'), rows(&["a", "", "b", ""]));
    assert_eq!(split(&chars("abc"), '\n'), rows(&["abc"]));
}

#[test]
fn split_agrees_with_std() {
    for s in ["", "\n", "a", "a\nb\nc", "\n\na\n", "1:::x\r\n2:::y"] {
        let expected: Vec<Vec<char>> = s.split('\n').map(chars).collect();
        assert_eq!(split(&chars(s), '\n'), expected, "{:?}", s);
    }
}

#[test]
fn split_lines_drops_line_endings() {
    assert_eq!(split_lines(&chars("a\nb")), rows(&["a", "b"]));
    assert_eq!(split_lines(&chars("a\nb\n")), rows(&["a", "b"]));
    assert_eq!(split_lines(&chars("a\r\nb\r\n")), rows(&["a", "b"]));
    assert_eq!(split_lines(&chars("")), rows(&[]));
    assert_eq!(split_lines(&chars("\n")), rows(&[""]));
    assert_eq!(split_lines(&chars("a\n\nb")), rows(&["a", "", "b"]));
}

#[test]
fn split_lines_keeps_a_carriage_return_that_no_line_feed_follows() {
    assert_eq!(split_lines(&chars("a\r")), rows(&["a\r"]));
    assert_eq!(split_lines(&chars("a\rb\n")), rows(&["a\rb"]));
    assert_eq!(split_lines(&chars("a\r\r\n")), rows(&["a\r"]));
}

#[test]
fn split_lines_agrees_with_std() {
    for s in [
        "", "\n", "\r\n", "\r", "a", "a\n", "a\r\n", "a\r", "a\n\n", "\n\na", "a\r\n\r\nb",
        "0:::h\n1:::x\n2:::y\n", "x\r\ny\rz\n\r", "é\nü\r\n",
    ] {
        let expected: Vec<Vec<char>> = s.lines().map(chars).collect();
        assert_eq!(split_lines(&chars(s)), expected, "{:?}", s);
    }
}
