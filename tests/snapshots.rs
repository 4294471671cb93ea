use docker_logs::snapshot::{parse_snapshot, snapshot_from_entries, FetchError};

fn digest(c: char) -> String {
    std::iter::repeat(c).take(64).collect()
}

#[test]
fn empty_list_is_empty_snapshot() {
    assert_eq!(parse_snapshot(b"[]").unwrap().len(), 0);
}

#[test]
fn reads_ids_of_entries() {
    let body = format!("[{{\"Id\":\"{}\",\"Names\":[\"/x\"]}},{{\"Id\":\"{}\"}}]", digest('a'), digest('b'));
    let ids = parse_snapshot(body.as_bytes()).unwrap();
    assert_eq!(ids.len(), 2);
    assert_eq!(ids[0].digest(), digest('a'));
    assert_eq!(ids[1].short_hex(), "bbbbbbbbbbbbbbbbbbbbbbbb");
}

#[test]
fn malformed_json_is_rejected() {
    assert!(matches!(parse_snapshot(b"[{\"Id\":"), Err(FetchError::Malformed)));
    assert!(matches!(parse_snapshot(b"not json"), Err(FetchError::Malformed)));
}

#[test]
fn non_array_is_rejected() {
    assert!(matches!(parse_snapshot(b"{\"Id\":\"aa\"}"), Err(FetchError::Malformed)));
}

#[test]
fn missing_or_bad_id_is_rejected() {
    let missing = format!("[{{\"Id\":\"{}\"}},{{\"Name\":\"x\"}}]", digest('a'));
    assert!(matches!(parse_snapshot(missing.as_bytes()), Err(FetchError::Malformed)));
    assert!(matches!(parse_snapshot(b"[{\"Id\":42}]"), Err(FetchError::Malformed)));
    assert!(matches!(parse_snapshot(b"[{\"Id\":\"abc\"}]"), Err(FetchError::Malformed)));
}

#[test]
fn entries_build_snapshot_in_order() {
    let ids = snapshot_from_entries(Some(vec![Some(digest('c')), Some(digest('d'))])).unwrap();
    assert_eq!(ids.len(), 2);
    assert_eq!(ids[0].digest(), digest('c'));
    assert_eq!(ids[1].digest(), digest('d'));
}

#[test]
fn entries_errors() {
    assert_eq!(snapshot_from_entries(None).err(), Some(FetchError::Malformed));
    assert_eq!(snapshot_from_entries(Some(vec![Some(digest('c')), None])).err(), Some(FetchError::Malformed));
    assert_eq!(snapshot_from_entries(Some(vec![Some("xyz".to_string())])).err(), Some(FetchError::Malformed));
    assert_eq!(snapshot_from_entries(Some(vec![])).unwrap().len(), 0);
}
