use dufs_browser::models::{DufsItem, PathType};
use dufs_browser::state::BrowserState;

fn dir(name: &str) -> DufsItem {
    DufsItem { name: name.to_string(), path_type: PathType::Dir, size: None, mtime: 0 }
}

fn file(name: &str, size: u64) -> DufsItem {
    DufsItem { name: name.to_string(), path_type: PathType::File, size: Some(size), mtime: 0 }
}

#[test]
fn initial_state_is_idle_at_root() {
    let s = BrowserState::new();
    assert!(s.current_path.is_empty());
    assert!(s.entries.is_empty());
    assert!(!s.loading);
    assert_eq!(s.latest_req, 0);
}

#[test]
fn successful_load_replaces_entries() {
    let mut s = BrowserState::new();
    let req = s.start_load();
    assert!(s.loading);
    s.finish_load(req, Some(vec![dir("docs"), file("readme.txt", 1048576)]));
    assert!(!s.loading);
    assert_eq!(s.entries, vec![dir("docs"), file("readme.txt", 1048576)]);
}

#[test]
fn failed_load_keeps_old_entries_and_clears_loading() {
    let mut s = BrowserState::new();
    let req = s.start_load();
    s.finish_load(req, Some(vec![dir("docs")]));
    s.enter_directory(&b"docs".to_vec());
    let req = s.start_load();
    assert!(s.loading);
    s.finish_load(req, None);
    assert_eq!(s.entries, vec![dir("docs")]);
    assert!(!s.loading);
}

#[test]
fn stale_response_changes_nothing() {
    let mut s = BrowserState::new();
    let old_req = s.start_load();
    s.enter_directory(&b"a".to_vec());
    let new_req = s.start_load();
    s.finish_load(old_req, Some(vec![dir("stale")]));
    assert!(s.entries.is_empty());
    assert!(s.loading);
    s.finish_load(new_req, Some(vec![dir("fresh")]));
    assert_eq!(s.entries, vec![dir("fresh")]);
    assert!(!s.loading);
}

#[test]
fn rapid_navigation_shows_the_latest_listing() {
    // enter "a", then "b" before the first listing resolves
    let mut s = BrowserState::new();
    s.enter_directory(&b"a".to_vec());
    let r1 = s.start_load();
    s.enter_directory(&b"b".to_vec());
    let r2 = s.start_load();
    assert_eq!(s.current_path, b"a/b/".to_vec());
    // responses arrive in order: the first is stale and ignored
    s.finish_load(r1, Some(vec![dir("inside-a")]));
    s.finish_load(r2, Some(vec![dir("inside-b")]));
    assert_eq!(s.entries, vec![dir("inside-b")]);

    // responses arrive out of order: the late stale one is ignored too
    let mut s = BrowserState::new();
    s.enter_directory(&b"a".to_vec());
    let r1 = s.start_load();
    s.enter_directory(&b"b".to_vec());
    let r2 = s.start_load();
    s.finish_load(r2, Some(vec![dir("inside-b")]));
    s.finish_load(r1, Some(vec![dir("inside-a")]));
    assert_eq!(s.entries, vec![dir("inside-b")]);
    assert!(!s.loading);
}

#[test]
fn navigation_mutates_only_the_path() {
    let mut s = BrowserState::new();
    let req = s.start_load();
    s.finish_load(req, Some(vec![dir("docs")]));
    s.enter_directory(&b"docs".to_vec());
    assert_eq!(s.current_path, b"docs/".to_vec());
    assert_eq!(s.entries, vec![dir("docs")]);
    s.go_back();
    assert!(s.current_path.is_empty());
    s.enter_directory(&b"a".to_vec());
    s.enter_directory(&b"b".to_vec());
    s.go_to_root();
    assert!(s.current_path.is_empty());
}

#[test]
fn mocked_listing_ends_up_on_display() {
    // the round trip a real load makes: body bytes -> parser -> state
    let body = br#"[{"name":"docs","path_type":"Dir","size":null,"mtime":0},{"name":"readme.txt","path_type":"File","size":1048576,"mtime":0}]"#;
    let mut s = BrowserState::new();
    let req = s.start_load();
    let outcome = dufs_browser::listing::parse_listing(&body.to_vec());
    s.finish_load(req, outcome);
    assert_eq!(s.entries, vec![dir("docs"), file("readme.txt", 1048576)]);
    assert!(!s.loading);
}
