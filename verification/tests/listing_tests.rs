use dufs_browser::listing::parse_listing;
use dufs_browser::models::{DufsItem, PathType};

fn parse(s: &str) -> Option<Vec<DufsItem>> {
    parse_listing(&s.as_bytes().to_vec())
}

#[test]
fn two_record_listing() {
    let body = r#"[{"name":"docs","path_type":"Dir","size":null,"mtime":0},{"name":"readme.txt","path_type":"File","size":1048576,"mtime":0}]"#;
    let items = parse(body).unwrap();
    assert_eq!(items.len(), 2);
    assert_eq!(items[0].name, "docs");
    assert_eq!(items[0].path_type, PathType::Dir);
    assert_eq!(items[0].size, None);
    assert_eq!(items[0].mtime, 0);
    assert_eq!(items[1].name, "readme.txt");
    assert_eq!(items[1].path_type, PathType::File);
    assert_eq!(items[1].size, Some(1048576));
    assert_eq!(items[1].mtime, 0);
    // the size renders as exactly one megabyte
    let size = items[1].size.unwrap();
    assert_eq!(format!("{:.2} MB", size as f64 / 1024.0 / 1024.0), "1.00 MB");
}

#[test]
fn empty_listing() {
    assert_eq!(parse("[]"), Some(Vec::new()));
    assert_eq!(parse("  [ ]  "), Some(Vec::new()));
}

#[test]
fn whitespace_between_tokens_is_fine() {
    let body = "\n[ {\t\"name\" : \"a\" ,\r\n\"path_type\" : \"File\" , \"size\" : 7 , \"mtime\" : 5 } ]\n";
    let items = parse(body).unwrap();
    assert_eq!(items.len(), 1);
    assert_eq!(items[0].name, "a");
    assert_eq!(items[0].size, Some(7));
    assert_eq!(items[0].mtime, 5);
}

#[test]
fn keys_in_any_order() {
    let body = r#"[{"mtime":3,"size":null,"path_type":"Dir","name":"d"}]"#;
    let items = parse(body).unwrap();
    assert_eq!(items[0].name, "d");
    assert_eq!(items[0].path_type, PathType::Dir);
    assert_eq!(items[0].mtime, 3);
}

#[test]
fn order_of_entries_is_kept() {
    let body = r#"[{"name":"b","path_type":"Dir","size":null,"mtime":0},{"name":"a","path_type":"Dir","size":null,"mtime":0},{"name":"c","path_type":"Dir","size":null,"mtime":0}]"#;
    let items = parse(body).unwrap();
    let names: Vec<&str> = items.iter().map(|i| i.name.as_str()).collect();
    assert_eq!(names, vec!["b", "a", "c"]);
}

#[test]
fn escapes_in_names() {
    let body = r#"[{"name":"a\"b\\c\/d\te","path_type":"File","size":1,"mtime":0}]"#;
    let items = parse(body).unwrap();
    assert_eq!(items[0].name, "a\"b\\c/d\te");
}

#[test]
fn non_ascii_names_come_through() {
    let body = "[{\"name\":\"héllo…\",\"path_type\":\"File\",\"size\":1,\"mtime\":0}]";
    let items = parse(body).unwrap();
    assert_eq!(items[0].name, "héllo…");
}

#[test]
fn invalid_utf8_name_is_malformed() {
    let mut body = b"[{\"name\":\"".to_vec();
    body.push(0xFF);
    body.extend_from_slice(b"\",\"path_type\":\"File\",\"size\":1,\"mtime\":0}]");
    assert_eq!(parse_listing(&body), None);
}

#[test]
fn largest_size_fits() {
    let body = r#"[{"name":"a","path_type":"File","size":18446744073709551615,"mtime":0}]"#;
    let items = parse(body).unwrap();
    assert_eq!(items[0].size, Some(u64::MAX));
}

#[test]
fn oversized_number_is_malformed() {
    let body = r#"[{"name":"a","path_type":"File","size":18446744073709551616,"mtime":0}]"#;
    assert_eq!(parse(body), None);
}

#[test]
fn malformed_bodies_are_rejected() {
    // not an array
    assert_eq!(parse(r#"{"name":"a"}"#), None);
    // truncated
    assert_eq!(parse(r#"[{"name":"a","path_type":"File","size":1,"mtime":0}"#), None);
    // a field missing
    assert_eq!(parse(r#"[{"name":"a","path_type":"File","mtime":0}]"#), None);
    // a field twice
    assert_eq!(parse(r#"[{"name":"a","name":"b","path_type":"File","size":1,"mtime":0}]"#), None);
    // an unknown field
    assert_eq!(
        parse(r#"[{"name":"a","path_type":"File","size":1,"mtime":0,"owner":"x"}]"#),
        None,
    );
    // an unknown kind
    assert_eq!(parse(r#"[{"name":"a","path_type":"Link","size":1,"mtime":0}]"#), None);
    // a negative size
    assert_eq!(parse(r#"[{"name":"a","path_type":"File","size":-1,"mtime":0}]"#), None);
    // an unknown escape
    assert_eq!(parse(r#"[{"name":"\u0041","path_type":"File","size":1,"mtime":0}]"#), None);
    // a raw control byte inside a string
    assert_eq!(parse("[{\"name\":\"a\nb\",\"path_type\":\"File\",\"size\":1,\"mtime\":0}]"), None);
    // trailing garbage
    assert_eq!(parse(r#"[] extra"#), None);
    // empty body
    assert_eq!(parse(""), None);
    // an empty object
    assert_eq!(parse("[{}]"), None);
}
