use git_export::text::{decode_text, match_folded, match_str, str_eq};

#[test]
fn match_str_accepts_equal_texts() {
    assert!(match_str("alice", "alice"));
    assert!(match_str("", ""));
}

#[test]
fn match_str_accepts_a_substring() {
    assert!(match_str("alice@example.com", "alice"));
    assert!(match_str("fix: handle empty input", "empty"));
    assert!(match_str("alice@example.com", "@example.com"));
    assert!(match_str("abc", "c"));
}

#[test]
fn match_str_accepts_equal_texts_of_other_case() {
    assert!(match_str("Alice", "ALICE"));
    assert!(match_str("ALICE", "alice"));
    assert!(match_str("Fix Bug", "fix bug"));
}

#[test]
fn match_str_case_folding_needs_the_whole_text() {
    // Without regard to case only equality counts, not containment.
    assert!(!match_str("Hello World", "hello"));
    assert!(!match_str("Alice Smith", "ALICE"));
}

#[test]
fn match_str_is_case_sensitive_for_substrings() {
    assert!(match_str("Hello World", "World"));
    assert!(!match_str("Hello World", "world"));
}

#[test]
fn match_str_rejects_unrelated_texts() {
    assert!(!match_str("bob@example.com", "alice"));
    assert!(!match_str("", "alice"));
    assert!(!match_str("ali", "alice"));
}

#[test]
fn match_str_empty_needle_matches_everything() {
    assert!(match_str("anything at all", ""));
    assert!(match_str("", ""));
    assert!(match_str("ÄÖÜ", ""));
}

#[test]
fn match_str_is_not_symmetric() {
    assert!(match_str("alice@example.com", "alice"));
    assert!(!match_str("alice", "alice@example.com"));
}

#[test]
fn match_str_folds_beyond_ascii() {
    assert!(match_str("ÄRGER", "ärger"));
    assert!(match_str("提交", "提交"));
    assert!(match_str("修复提交记录", "提交"));
}

#[test]
fn match_folded_uses_the_lowercase_forms_it_is_given() {
    // Equal lowercase forms decide even where the texts differ.
    assert!(match_folded("Alice", "ALICE", "alice", "alice"));
    // Different lowercase forms do not, unless the texts are equal or contained.
    assert!(!match_folded("Alice", "ALICE", "alice", "bob"));
    assert!(match_folded("Alice", "lic", "x", "y"));
    assert!(match_folded("same", "same", "x", "y"));
    assert!(!match_folded("abc", "abd", "abc", "abd"));
}

#[test]
fn str_eq_compares_whole_texts() {
    assert!(str_eq("", ""));
    assert!(str_eq("abc", "abc"));
    assert!(!str_eq("abc", "abd"));
    assert!(!str_eq("abc", "ab"));
    assert!(!str_eq("ab", "abc"));
    assert!(str_eq("héllo", "héllo"));
    assert!(!str_eq("héllo", "hello"));
}

#[test]
fn decode_text_reads_well_formed_utf8() {
    assert_eq!(decode_text(b"hello"), Some(String::from("hello")));
    assert_eq!(decode_text("héllo ✓".as_bytes()), Some(String::from("héllo ✓")));
    assert_eq!(decode_text(b""), Some(String::new()));
    assert_eq!(decode_text(b"bin\x00data"), Some(String::from("bin\u{0}data")));
}

#[test]
fn decode_text_refuses_malformed_utf8() {
    assert_eq!(decode_text(&[0xff, 0xfe, 0x00]), None);
    assert_eq!(decode_text(&[0xc3]), None);
    assert_eq!(decode_text(&[b'a', 0x80, b'b']), None);
    // An encoded surrogate and an overlong form are not UTF-8.
    assert_eq!(decode_text(&[0xed, 0xa0, 0x80]), None);
    assert_eq!(decode_text(&[0xc0, 0xaf]), None);
}
