use anistream::text::{contains_chars, replace_all_chars, trim_chars};

fn chars(s: &str) -> Vec<char> {
    s.chars().collect()
}

#[test]
fn replacement_scans_from_the_left_without_overlap() {
    assert_eq!(replace_all_chars(&chars("aaaa"), &chars("aa"), &chars("b")), chars("bb"));
    assert_eq!(replace_all_chars(&chars("aaa"), &chars("aa"), &chars("b")), chars("ba"));
    assert_eq!(replace_all_chars(&chars("xclock"), &chars("clock"), &chars("clock.json")), chars("xclock.json"));
    assert_eq!(replace_all_chars(&chars(""), &chars("a"), &chars("b")), chars(""));
}

#[test]
fn search_finds_patterns() {
    assert!(contains_chars(&chars("a//b"), &chars("//")));
    assert!(!contains_chars(&chars("a/b/"), &chars("//")));
    assert!(contains_chars(&chars("x"), &chars("")));
    assert!(!contains_chars(&chars(""), &chars("x")));
}

#[test]
fn trimming_removes_unicode_white_space_at_both_ends() {
    assert_eq!(trim_chars(&chars("\t a b \u{2028}")), chars("a b"));
    assert_eq!(trim_chars(&chars("   ")), chars(""));
    assert_eq!(trim_chars(&chars("\u{200b}x")), chars("\u{200b}x"));
}
