use honeybear::text::{
    eq_ignore_ascii_case, same_text, text_contains, text_ends_with, text_lt, text_starts_with,
    to_chars, trim,
};

#[test]
fn characters_of_a_text() {
    assert_eq!(to_chars("aé😀"), vec!['a', 'é', '😀']);
    assert_eq!(to_chars(""), Vec::<char>::new());
}

#[test]
fn trimming_removes_white_space_at_both_ends_only() {
    assert_eq!(trim("  a b  "), "a b");
    assert_eq!(trim("\t\n x\r\n"), "x");
    assert_eq!(trim("\u{a0}\u{2003}x\u{3000}"), "x");
    assert_eq!(trim(""), "");
    assert_eq!(trim("   "), "");
    assert_eq!(trim("x"), "x");
    assert_eq!(trim("\u{200b}x"), "\u{200b}x");
    for s in ["  a b  ", " é ", "\u{85}q\u{2028}", "no"] {
        assert_eq!(trim(s), s.trim());
    }
}

#[test]
fn ascii_case_is_ignored_and_nothing_else() {
    assert!(eq_ignore_ascii_case("Foo", "fOO"));
    assert!(eq_ignore_ascii_case("", ""));
    assert!(eq_ignore_ascii_case("a1-@Z", "A1-@z"));
    assert!(!eq_ignore_ascii_case("Foo", "Fo"));
    assert!(!eq_ignore_ascii_case("É", "é"));
    assert!(!eq_ignore_ascii_case("@", "`"));
    assert!(!eq_ignore_ascii_case("[", "{"));
    assert!(!eq_ignore_ascii_case("ab", "ba"));
}

#[test]
fn equal_texts() {
    assert!(same_text("abc", "abc"));
    assert!(!same_text("abc", "abd"));
    assert!(!same_text("abc", "ab"));
    assert!(same_text("", ""));
}

#[test]
fn prefix_suffix_infix() {
    assert!(text_starts_with("Starbucks", "Star"));
    assert!(text_starts_with("Starbucks", ""));
    assert!(text_starts_with("", ""));
    assert!(!text_starts_with("Star", "Starbucks"));
    assert!(!text_starts_with("Starbucks", "bucks"));
    assert!(text_ends_with("Starbucks", "bucks"));
    assert!(text_ends_with("Starbucks", ""));
    assert!(!text_ends_with("bucks", "Starbucks"));
    assert!(!text_ends_with("Starbucks", "Star"));
    assert!(text_contains("Starbucks", "arb"));
    assert!(text_contains("Starbucks", "Starbucks"));
    assert!(text_contains("Starbucks", ""));
    assert!(text_contains("", ""));
    assert!(text_contains("aab", "ab"));
    assert!(text_contains("xé😀y", "😀y"));
    assert!(!text_contains("Starbucks", "bucksx"));
    assert!(!text_contains("", "a"));
    assert!(!text_contains("abc", "ac"));
}

#[test]
fn order_of_texts() {
    assert!(text_lt("a", "b"));
    assert!(text_lt("", "a"));
    assert!(text_lt("a", "ab"));
    assert!(text_lt("B", "a"));
    assert!(text_lt("2023-01-31", "2023-02-01"));
    assert!(text_lt("z", "é"));
    assert!(!text_lt("a", "a"));
    assert!(!text_lt("", ""));
    assert!(!text_lt("ab", "a"));
    assert!(!text_lt("b", "a"));
    for (a, b) in [("abc", "abd"), ("é", "z"), ("", ""), ("x", "xy"), ("😀", "é")] {
        assert_eq!(text_lt(a, b), a < b);
    }
}
