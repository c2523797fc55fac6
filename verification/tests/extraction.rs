use git_export::extract::{
    classify, destination_path, extract_commit, extract_entries, final_content, plan_entry,
    ChangeEntry, Content, FileWrite,
};
use git_export::path::normalize_path;

fn entry(path: &str, content: &[u8]) -> ChangeEntry {
    ChangeEntry { path: Some(path.to_string()), content: Some(content.to_vec()) }
}

fn deleted(path: &str) -> ChangeEntry {
    ChangeEntry { path: Some(path.to_string()), content: None }
}

fn text(path: &str, content: &str) -> FileWrite {
    FileWrite { path: path.to_string(), content: Content::Text(content.to_string()) }
}

#[test]
fn classify_valid_utf8_is_text() {
    assert_eq!(classify(b"v1"), Content::Text("v1".to_string()));
    assert_eq!(classify("naïve ✓".as_bytes()), Content::Text("naïve ✓".to_string()));
}

#[test]
fn classify_empty_content_is_empty_text() {
    assert_eq!(classify(b""), Content::Text(String::new()));
    assert_eq!(classify(b"").as_bytes(), b"");
}

#[test]
fn classify_invalid_utf8_is_binary() {
    let bytes = vec![0x89, b'P', b'N', b'G', 0x0d, 0x0a, 0x1a, 0x0a, 0xff];
    assert_eq!(classify(&bytes), Content::Binary(bytes.clone()));
}

#[test]
fn a_zero_byte_alone_does_not_make_content_binary() {
    // A NUL is a character of its own in UTF-8.
    assert_eq!(classify(b"bin\x00data"), Content::Text("bin\u{0}data".to_string()));
}

#[test]
fn written_bytes_are_the_bytes_of_the_blob() {
    let samples: Vec<Vec<u8>> = vec![
        b"plain".to_vec(),
        "ünïcödé".as_bytes().to_vec(),
        vec![],
        vec![0xff],
        vec![0x00, 0x01, 0x02, 0xfe, 0xff],
        b"bin\x00data".to_vec(),
        vec![b'a', 0xc3],
    ];
    for bytes in samples {
        assert_eq!(classify(&bytes).as_bytes(), &bytes[..]);
    }
}

#[test]
fn text_content_decodes_to_the_text() {
    let t = "line one\nline two — done\n";
    match classify(t.as_bytes()) {
        Content::Text(s) => assert_eq!(s, t),
        Content::Binary(_) => panic!("text was classified as binary"),
    }
}

#[test]
fn normalize_path_puts_the_separator_between_parts() {
    assert_eq!(normalize_path("x/y/z.ext", '/'), "x/y/z.ext");
    assert_eq!(normalize_path("x/y/z.ext", '\\'), "x\\y\\z.ext");
    assert_eq!(normalize_path("x\\y/z.ext", '/'), "x/y/z.ext");
    assert_eq!(normalize_path("x\\y/z.ext", '\\'), "x\\y\\z.ext");
    assert_eq!(normalize_path("readme.md", '\\'), "readme.md");
    assert_eq!(normalize_path("", '/'), "");
    assert_eq!(normalize_path("dir/ünï.txt", '\\'), "dir\\ünï.txt");
}

#[test]
fn destination_of_an_entry_without_path_is_empty() {
    assert_eq!(destination_path(&None, '/'), "");
    assert_eq!(destination_path(&Some("a/b".to_string()), '\\'), "a\\b");
}

#[test]
fn entry_without_content_is_skipped() {
    assert_eq!(plan_entry(&deleted("gone.txt"), '/'), None);
    assert_eq!(plan_entry(&ChangeEntry { path: None, content: None }, '/'), None);
}

#[test]
fn entry_with_content_becomes_a_write() {
    assert_eq!(plan_entry(&entry("src/x.txt", b"hello"), '/'), Some(text("src/x.txt", "hello")));
    assert_eq!(
        plan_entry(&entry("src/x.bin", &[0xff, 0x00]), '\\'),
        Some(FileWrite { path: "src\\x.bin".to_string(), content: Content::Binary(vec![0xff, 0x00]) })
    );
    assert_eq!(
        plan_entry(&ChangeEntry { path: None, content: Some(b"x".to_vec()) }, '/'),
        Some(text("", "x"))
    );
}

#[test]
fn extract_entries_keeps_the_order_of_the_diff() {
    let entries = vec![entry("b.txt", b"2"), deleted("gone.txt"), entry("a.txt", b"1")];
    let mut writes = vec![text("first.txt", "0")];
    extract_entries(&entries, '/', &mut writes);
    assert_eq!(writes, vec![text("first.txt", "0"), text("b.txt", "2"), text("a.txt", "1")]);
}

#[test]
fn commit_without_parents_asks_for_no_writes() {
    assert_eq!(extract_commit(&Vec::new(), '/'), Vec::new());
}

#[test]
fn commit_with_one_parent_writes_its_diff() {
    let parents = vec![vec![entry("readme.md", b"v2")]];
    assert_eq!(extract_commit(&parents, '/'), vec![text("readme.md", "v2")]);
}

#[test]
fn merge_commit_writes_the_diff_against_every_parent_in_turn() {
    let parents = vec![
        vec![entry("a.txt", b"from first"), entry("b.txt", b"b")],
        vec![],
        vec![entry("a.txt", b"from third"), deleted("c.txt")],
    ];
    let writes = extract_commit(&parents, '/');
    assert_eq!(
        writes,
        vec![text("a.txt", "from first"), text("b.txt", "b"), text("a.txt", "from third")]
    );
    assert_eq!(final_content(&writes, "a.txt"), Some(&Content::Text("from third".to_string())));
}

#[test]
fn last_write_to_a_path_wins() {
    let writes = vec![
        text("a/b.txt", "from the oldest"),
        text("other.txt", "x"),
        text("a/b.txt", "from the newest"),
    ];
    assert_eq!(
        final_content(&writes, "a/b.txt"),
        Some(&Content::Text("from the newest".to_string()))
    );
    assert_eq!(final_content(&writes, "other.txt"), Some(&Content::Text("x".to_string())));
    assert_eq!(final_content(&writes, "missing.txt"), None);
    assert_eq!(final_content(&Vec::new(), "a/b.txt"), None);
}

#[test]
fn later_commits_overwrite_earlier_ones() {
    let c1 = extract_commit(&vec![vec![entry("a/b.txt", b"one"), entry("keep.txt", b"k")]], '/');
    let c2 = extract_commit(&vec![vec![entry("new.txt", b"n")]], '/');
    let c3 = extract_commit(&vec![vec![entry("a/b.txt", b"three")]], '/');
    let mut all = Vec::new();
    all.extend(c1);
    all.extend(c2);
    all.extend(c3);
    assert_eq!(final_content(&all, "a/b.txt").map(|c| c.as_bytes().to_vec()), Some(b"three".to_vec()));
    assert_eq!(final_content(&all, "keep.txt").map(|c| c.as_bytes().to_vec()), Some(b"k".to_vec()));
    assert_eq!(final_content(&all, "new.txt").map(|c| c.as_bytes().to_vec()), Some(b"n".to_vec()));
}
