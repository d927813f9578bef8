use history_engine::text::{chars_of, extract_host, like_match, str_le, usize_to_string};

#[test]
fn host_from_https_url_with_path() {
    assert_eq!(extract_host("https://a.example.com/x/y"), "a.example.com");
}

#[test]
fn host_from_http_url_without_path() {
    assert_eq!(extract_host("http://b.example.com"), "b.example.com");
}

#[test]
fn unrecognized_scheme_keeps_whole_string() {
    assert_eq!(extract_host("ftp://c.example.com/z"), "ftp://c.example.com/z");
}

#[test]
fn host_edge_cases() {
    assert_eq!(extract_host(""), "");
    assert_eq!(extract_host("https://"), "");
    assert_eq!(extract_host("https://x"), "x");
    assert_eq!(extract_host("plainhost"), "plainhost");
}

#[test]
fn host_scheme_is_case_folded() {
    assert_eq!(extract_host("HTTP://Y.example/z"), "Y.example");
    assert_eq!(extract_host("HtTpS://q.example"), "q.example");
}

#[test]
fn like_is_substring_with_wildcards() {
    let p = chars_of("%abc%");
    assert!(like_match(&p, &chars_of("xxabcyy")));
    assert!(like_match(&p, &chars_of("abc")));
    assert!(!like_match(&p, &chars_of("ab")));
}

#[test]
fn like_folds_ascii_case_only() {
    let p = chars_of("%AbC%");
    assert!(like_match(&p, &chars_of("zzaBcdd")));
    assert!(!like_match(&p, &chars_of("zzacdd")));
}

#[test]
fn like_underscore_matches_one_character() {
    let p = chars_of("%a_c%");
    assert!(like_match(&p, &chars_of("xxayczz")));
    assert!(!like_match(&p, &chars_of("xxaczz")));
}

#[test]
fn like_percent_in_keyword_matches_any_run() {
    let p = chars_of("%a%c%");
    assert!(like_match(&p, &chars_of("a123c")));
    assert!(like_match(&p, &chars_of("ac")));
    assert!(!like_match(&p, &chars_of("ca")));
}

#[test]
fn like_empty_pattern_and_text() {
    assert!(like_match(&chars_of("%%"), &chars_of("")));
    assert!(like_match(&chars_of("%%"), &chars_of("anything")));
    assert!(!like_match(&chars_of("a"), &chars_of("")));
}

#[test]
fn string_order_is_lexicographic() {
    assert!(str_le("abc", "abd"));
    assert!(str_le("ab", "abc"));
    assert!(!str_le("abd", "abc"));
    assert!(str_le("", "a"));
    assert!(str_le("abc", "abc"));
    // binary order: upper case sorts before lower case
    assert!(str_le("Z", "a"));
}

#[test]
fn decimal_rendering() {
    assert_eq!(usize_to_string(0), "0");
    assert_eq!(usize_to_string(7), "7");
    assert_eq!(usize_to_string(10), "10");
    assert_eq!(usize_to_string(987654), "987654");
}
