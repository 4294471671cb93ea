use docker_logs::container_id::ContainerId;

fn digest(c: char) -> String {
    std::iter::repeat(c).take(64).collect()
}

#[test]
fn short_form_is_first_twelve_bytes() {
    let id = ContainerId::from_digest(digest('a')).unwrap();
    assert_eq!(id.short_hex(), "aaaaaaaaaaaaaaaaaaaaaaaa");
    assert_eq!(id.digest(), digest('a'));
}

#[test]
fn short_form_is_lowercase() {
    let text = format!("{}{}", "0123456789ABCDEFabcdef01", "f".repeat(40));
    let id = ContainerId::from_digest(text.clone()).unwrap();
    assert_eq!(id.short_hex(), "0123456789abcdefabcdef01");
    assert_eq!(id.digest(), text);
}

#[test]
fn shared_prefix_is_same_container() {
    let a = ContainerId::from_digest(format!("{}{}", "ab".repeat(12), "0".repeat(40))).unwrap();
    let b = ContainerId::from_digest(format!("{}{}", "ab".repeat(12), "1".repeat(40))).unwrap();
    assert!(a.same_container(&b));
    assert_eq!(a.short_hex(), b.short_hex());
    assert_ne!(a.digest(), b.digest());
}

#[test]
fn different_prefix_is_other_container() {
    let a = ContainerId::from_digest(digest('a')).unwrap();
    let b = ContainerId::from_digest(format!("{}{}", "a".repeat(23), "b".repeat(41))).unwrap();
    assert!(!a.same_container(&b));
}

#[test]
fn rejects_bad_digests() {
    assert!(ContainerId::from_digest("a".repeat(22)).is_none());
    assert!(ContainerId::from_digest("a".repeat(25)).is_none());
    assert!(ContainerId::from_digest(format!("{}{}", "g", "a".repeat(63))).is_none());
    assert!(ContainerId::from_digest(String::new()).is_none());
    assert!(ContainerId::from_digest("a".repeat(24)).is_some());
}

#[test]
fn duplicate_keeps_digest() {
    let a = ContainerId::from_digest(digest('7')).unwrap();
    let b = a.duplicate();
    assert_eq!(a.digest(), b.digest());
    assert!(a.same_container(&b));
}

#[test]
fn short_form_is_digest_prefix() {
    let text = "4f1c2b9e8d7a6053c1e2f3a4b5c6d7e8f90a1b2c3d4e5f60718293a4b5c6d7e8".to_string();
    let id = ContainerId::from_digest(text.clone()).unwrap();
    assert_eq!(id.short_hex(), text[..24].to_string());
    assert_eq!(id.digest(), text);
}
