use rub_login::scan::find_str;
use rub_login::scan::str_contains;

#[test]
fn finds_first_occurrence() {
    assert_eq!(find_str("hello world", "world"), Some(6));
    assert_eq!(find_str("hello world", "hello"), Some(0));
    assert_eq!(find_str("aaa", "aa"), Some(0));
    assert_eq!(find_str("abcabc", "bc"), Some(1));
}

#[test]
fn reports_absent_needles() {
    assert_eq!(find_str("hello world", "worlds"), None);
    assert_eq!(find_str("", "a"), None);
    assert_eq!(find_str("short", "much longer needle"), None);
}

#[test]
fn empty_needle_matches_at_start() {
    assert_eq!(find_str("anything", ""), Some(0));
    assert_eq!(find_str("", ""), Some(0));
}

#[test]
fn positions_count_characters_not_bytes() {
    assert_eq!(find_str("Grüße aus Bochum", "aus"), Some(6));
}

#[test]
fn containment_mirrors_find() {
    assert!(str_contains("Authentisierung gelungen!", "gelungen"));
    assert!(!str_contains("Authentisierung gelungen!", "fehlgeschlagen"));
    assert!(str_contains("", ""));
}
