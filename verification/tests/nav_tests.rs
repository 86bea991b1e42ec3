use dufs_browser::nav::{breadcrumb_segments, enter_directory, go_back};

#[test]
fn enter_then_back_returns_to_root() {
    let root: Vec<u8> = Vec::new();
    let entered = enter_directory(&root, &b"a".to_vec());
    assert_eq!(entered, b"a/".to_vec());
    assert_eq!(go_back(&entered), root);

    let entered = enter_directory(&root, &b"photos".to_vec());
    assert_eq!(go_back(&entered), root);
}

#[test]
fn enter_then_back_returns_to_start_deeper() {
    let path = b"a/b/".to_vec();
    let entered = enter_directory(&path, &b"c".to_vec());
    assert_eq!(entered, b"a/b/c/".to_vec());
    assert_eq!(go_back(&entered), path);
}

#[test]
fn go_back_at_root_is_a_noop() {
    let root: Vec<u8> = Vec::new();
    assert_eq!(go_back(&root), root);
    assert_eq!(go_back(&go_back(&root)), root);
}

#[test]
fn go_back_collapses_single_segment() {
    assert_eq!(go_back(&b"a/".to_vec()), b"".to_vec());
    assert_eq!(go_back(&b"a/b/".to_vec()), b"a/".to_vec());
}

#[test]
fn breadcrumbs_of_root_are_empty() {
    let segs = breadcrumb_segments(&Vec::new());
    assert!(segs.is_empty());
}

#[test]
fn breadcrumbs_split_on_slashes() {
    let segs = breadcrumb_segments(&b"a/b/".to_vec());
    assert_eq!(segs, vec![b"a".to_vec(), b"b".to_vec()]);
}

#[test]
fn breadcrumbs_discard_empty_pieces() {
    let segs = breadcrumb_segments(&b"/a//b/".to_vec());
    assert_eq!(segs, vec![b"a".to_vec(), b"b".to_vec()]);
}

#[test]
fn enter_makes_exactly_one_separator() {
    assert_eq!(enter_directory(&Vec::new(), &b"x".to_vec()), b"x/".to_vec());
    assert_eq!(enter_directory(&b"a/".to_vec(), &b"x".to_vec()), b"a/x/".to_vec());
    // a path missing its trailing slash still gets exactly one
    assert_eq!(enter_directory(&b"a".to_vec(), &b"x".to_vec()), b"a/x/".to_vec());
}

#[test]
fn repeated_enter_never_doubles_slashes() {
    let mut path: Vec<u8> = Vec::new();
    for name in [&b"one"[..], b"two", b"three"] {
        path = enter_directory(&path, &name.to_vec());
        assert!(!path.windows(2).any(|w| w == b"//"));
    }
    assert_eq!(path, b"one/two/three/".to_vec());
}
