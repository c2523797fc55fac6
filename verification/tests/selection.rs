use git_export::select::{
    commit_matches, decode_commit, has_id, is_selected, select_commits, CommitRecord, RawCommit,
};
use git_export::ExportError;

fn raw(id: &str, message: &str, name: &str, email: &str) -> RawCommit {
    RawCommit {
        id: id.to_string(),
        message: message.as_bytes().to_vec(),
        author_name: name.as_bytes().to_vec(),
        author_email: email.as_bytes().to_vec(),
    }
}

fn record(id: &str, message: &str, name: &str, email: &str) -> CommitRecord {
    CommitRecord {
        id: id.to_string(),
        message: message.to_string(),
        author_name: name.to_string(),
        author_email: email.to_string(),
    }
}

const A: &str = "a1a1a1a1a1a1a1a1a1a1a1a1a1a1a1a1a1a1a1a1";
const B: &str = "b2b2b2b2b2b2b2b2b2b2b2b2b2b2b2b2b2b2b2b2";
const C: &str = "c3c3c3c3c3c3c3c3c3c3c3c3c3c3c3c3c3c3c3c3";

fn history() -> Vec<RawCommit> {
    vec![
        raw(A, "add readme", "Carol", "carol@example.com"),
        raw(B, "update readme", "Alice", "alice@example.com"),
        raw(C, "add binary", "Bob", "bob@example.com"),
    ]
}

fn strings(items: &[&str]) -> Vec<String> {
    items.iter().map(|s| s.to_string()).collect()
}

#[test]
fn filter_selects_the_commit_of_one_author() {
    let chosen = select_commits(&history(), "alice", &Vec::new());
    assert_eq!(chosen, Ok(strings(&[B])));
}

#[test]
fn empty_filter_selects_every_commit_in_walk_order() {
    let chosen = select_commits(&history(), "", &Vec::new());
    assert_eq!(chosen, Ok(strings(&[A, B, C])));
}

#[test]
fn identifiers_take_precedence_over_the_filter() {
    let ids = strings(&[C]);
    let chosen = select_commits(&history(), "alice", &ids);
    assert_eq!(chosen, Ok(strings(&[C])));
}

#[test]
fn with_identifiers_the_filter_does_not_matter() {
    let ids = strings(&[C, A]);
    let with_alice = select_commits(&history(), "alice", &ids);
    let with_nothing = select_commits(&history(), "matches no commit", &ids);
    let with_empty = select_commits(&history(), "", &ids);
    assert_eq!(with_alice, Ok(strings(&[A, C])));
    assert_eq!(with_nothing, with_alice);
    assert_eq!(with_empty, with_alice);
}

#[test]
fn selection_keeps_the_order_of_the_walk() {
    // All three match; the order of the identifiers given does not matter.
    let all = select_commits(&history(), "example.com", &Vec::new());
    assert_eq!(all, Ok(strings(&[A, B, C])));
    let ids = strings(&[C, B, A]);
    assert_eq!(select_commits(&history(), "", &ids), Ok(strings(&[A, B, C])));
    let mut reversed = history();
    reversed.reverse();
    assert_eq!(select_commits(&reversed, "example.com", &Vec::new()), Ok(strings(&[C, B, A])));
}

#[test]
fn filter_matches_message_name_or_email() {
    let commits = vec![
        raw(A, "fix parser", "Dave", "dave@example.org"),
        raw(B, "docs", "Parser Pete", "pete@example.org"),
        raw(C, "docs", "Erin", "erin@parser.example"),
    ];
    assert_eq!(select_commits(&commits, "parser", &Vec::new()), Ok(strings(&[A, C])));
    assert_eq!(select_commits(&commits, "Parser", &Vec::new()), Ok(strings(&[B])));
    assert_eq!(select_commits(&commits, "docs", &Vec::new()), Ok(strings(&[B, C])));
    assert_eq!(select_commits(&commits, "DAVE", &Vec::new()), Ok(strings(&[A])));
    assert_eq!(select_commits(&commits, "nobody", &Vec::new()), Ok(Vec::new()));
}

#[test]
fn identifiers_must_match_the_full_hash() {
    let ids = strings(&["b2b2b2b"]);
    assert_eq!(select_commits(&history(), "", &ids), Ok(Vec::new()));
    let ids = strings(&[&B.to_uppercase()]);
    assert_eq!(select_commits(&history(), "", &ids), Ok(Vec::new()));
}

#[test]
fn empty_walk_selects_nothing() {
    assert_eq!(select_commits(&Vec::new(), "", &Vec::new()), Ok(Vec::new()));
    assert_eq!(select_commits(&Vec::new(), "x", &strings(&[A])), Ok(Vec::new()));
}

#[test]
fn malformed_commit_fails_the_selection() {
    let mut commits = history();
    commits[1].message = vec![0xff, 0xfe];
    assert_eq!(select_commits(&commits, "carol", &Vec::new()), Err(ExportError::MalformedCommit));
    // Even where the malformed commit would not have been selected.
    assert_eq!(select_commits(&commits, "", &strings(&[A])), Err(ExportError::MalformedCommit));
}

#[test]
fn malformed_author_fields_fail_the_selection() {
    let mut commits = history();
    commits[2].author_name = vec![0xc3];
    assert_eq!(select_commits(&commits, "", &Vec::new()), Err(ExportError::MalformedCommit));
    let mut commits = history();
    commits[0].author_email = vec![b'a', 0x80];
    assert_eq!(select_commits(&commits, "", &Vec::new()), Err(ExportError::MalformedCommit));
}

#[test]
fn decode_commit_reads_the_three_fields() {
    let decoded = decode_commit(&raw(A, "héllo", "Zoë", "zoe@example.com"));
    assert_eq!(decoded, Ok(record(A, "héllo", "Zoë", "zoe@example.com")));
    let empty = decode_commit(&raw(B, "", "", ""));
    assert_eq!(empty, Ok(record(B, "", "", "")));
}

#[test]
fn decode_commit_refuses_bytes_that_are_not_text() {
    let mut commit = raw(A, "ok", "ok", "ok");
    commit.message = vec![0x80];
    assert_eq!(decode_commit(&commit), Err(ExportError::MalformedCommit));
}

#[test]
fn commit_matches_any_of_the_three_fields() {
    let commit = record(A, "initial import", "Alice", "alice@example.com");
    assert!(commit_matches(&commit, "import"));
    assert!(commit_matches(&commit, "Alice"));
    assert!(commit_matches(&commit, "ALICE"));
    assert!(commit_matches(&commit, "@example"));
    assert!(commit_matches(&commit, ""));
    assert!(!commit_matches(&commit, "bob"));
    // The identifier is not one of the fields.
    assert!(!commit_matches(&commit, A));
}

#[test]
fn has_id_finds_only_listed_identifiers() {
    let ids = strings(&[A, C]);
    assert!(has_id(&ids, A));
    assert!(has_id(&ids, C));
    assert!(!has_id(&ids, B));
    assert!(!has_id(&Vec::new(), A));
}

#[test]
fn is_selected_follows_the_rule() {
    let commit = record(B, "update readme", "Alice", "alice@example.com");
    assert!(is_selected(&commit, "alice", &Vec::new()));
    assert!(!is_selected(&commit, "bob", &Vec::new()));
    assert!(is_selected(&commit, "bob", &strings(&[B])));
    assert!(!is_selected(&commit, "alice", &strings(&[C])));
}
