use dufs_browser::url::{list_url, media_url, percent_encode};

#[test]
fn unreserved_bytes_stay_as_they_are() {
    let input = b"AZaz09-_.!~*'()".to_vec();
    assert_eq!(percent_encode(&input), input);
}

#[test]
fn reserved_bytes_become_hex_escapes() {
    assert_eq!(percent_encode(&b"a b/c".to_vec()), b"a%20b%2Fc".to_vec());
    assert_eq!(percent_encode(&vec![0xFFu8]), b"%FF".to_vec());
    assert_eq!(percent_encode(&b"a+b=c&d".to_vec()), b"a%2Bb%3Dc%26d".to_vec());
}

#[test]
fn list_url_of_root() {
    assert_eq!(list_url(&Vec::new()), b"/api/list?prefix=".to_vec());
}

#[test]
fn list_url_encodes_the_path() {
    assert_eq!(list_url(&b"docs/".to_vec()), b"/api/list?prefix=docs%2F".to_vec());
    assert_eq!(
        list_url(&b"my files/".to_vec()),
        b"/api/list?prefix=my%20files%2F".to_vec()
    );
}

#[test]
fn media_url_joins_path_and_name() {
    assert_eq!(
        media_url(&b"a/".to_vec(), &b"x.txt".to_vec()),
        b"/media/a/x.txt".to_vec()
    );
    assert_eq!(media_url(&Vec::new(), &b"x.txt".to_vec()), b"/media/x.txt".to_vec());
}
