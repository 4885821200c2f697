use minigrep::text::contains_str;

#[test]
fn contains_finds_an_interior_substring() {
    assert!(contains_str("safe, fast, productive.", "duct"));
}

#[test]
fn contains_is_case_sensitive() {
    assert!(!contains_str("Duct tape.", "duct"));
}

#[test]
fn the_empty_string_is_contained_everywhere() {
    assert!(contains_str("", ""));
    assert!(contains_str("abc", ""));
}

#[test]
fn a_needle_longer_than_the_hay_is_never_contained() {
    assert!(!contains_str("ab", "abc"));
}

#[test]
fn overlapping_prefixes_do_not_confuse_the_scan() {
    assert!(contains_str("aaab", "aab"));
    assert!(!contains_str("aacab", "aab"));
}
