use docker_logs::container_id::ContainerId;
use docker_logs::reconcile::{DockerSystem, Watched};
use docker_logs::snapshot::FetchError;

fn digest(c: char) -> String {
    std::iter::repeat(c).take(64).collect()
}

fn body(ids: &[char]) -> String {
    let entries: Vec<String> = ids.iter().map(|c| format!("{{\"Id\":\"{}\"}}", digest(*c))).collect();
    format!("[{}]", entries.join(","))
}

/// One refresh cycle in which every added container gets a session numbered
/// from `next`; returns the short ids added and removed.
fn refresh(sys: &mut DockerSystem<u32>, body: &str, next: &mut u32) -> (Vec<String>, Vec<String>) {
    let plan = sys.prepare_refresh(body.as_bytes()).unwrap();
    let added: Vec<String> = plan.delta.added.iter().map(|i| i.short_hex()).collect();
    let removed: Vec<String> = plan.delta.removed.iter().map(|i| i.short_hex()).collect();
    let mut opened = Vec::new();
    for id in plan.delta.added {
        opened.push(Watched { id, session: *next });
        *next += 1;
    }
    let discarded = sys.apply(&plan.snapshot, opened);
    let mut gone: Vec<String> = discarded.iter().map(|w| w.id.short_hex()).collect();
    gone.sort();
    let mut removed = removed;
    removed.sort();
    assert_eq!(gone, removed);
    (added, removed)
}

fn sessions(sys: &DockerSystem<u32>) -> Vec<(String, u32)> {
    let mut v: Vec<(String, u32)> =
        (0..sys.len()).map(|i| (sys.entry(i).id.short_hex(), sys.entry(i).session)).collect();
    v.sort();
    v
}

fn short(c: char) -> String {
    std::iter::repeat(c).take(24).collect()
}

#[test]
fn set_difference_keeps_untouched_session() {
    let mut sys = DockerSystem::<u32>::empty();
    let mut next = 1;
    refresh(&mut sys, &body(&['a', 'b']), &mut next);
    let b_before = sessions(&sys).into_iter().find(|(s, _)| *s == short('b')).unwrap();
    let (added, removed) = refresh(&mut sys, &body(&['b', 'c']), &mut next);
    assert_eq!(added, vec![short('c')]);
    assert_eq!(removed, vec![short('a')]);
    let after = sessions(&sys);
    assert_eq!(after.len(), 2);
    assert!(after.contains(&b_before));
    assert!(after.contains(&(short('c'), 3)));
}

#[test]
fn refresh_twice_is_idempotent() {
    let mut sys = DockerSystem::<u32>::empty();
    let mut next = 1;
    refresh(&mut sys, &body(&['a', 'b']), &mut next);
    let before = sessions(&sys);
    let (added, removed) = refresh(&mut sys, &body(&['b', 'a']), &mut next);
    assert!(added.is_empty());
    assert!(removed.is_empty());
    assert_eq!(sessions(&sys), before);
}

#[test]
fn end_to_end_scenario() {
    let mut sys = DockerSystem::<u32>::empty();
    let mut next = 1;
    refresh(&mut sys, "[]", &mut next);
    assert!(sys.running_containers().is_empty());
    refresh(&mut sys, &body(&['a']), &mut next);
    assert_eq!(sys.running_containers(), vec!["aaaaaaaaaaaaaaaaaaaaaaaa".to_string()]);
    assert_eq!(sys.len(), 1);
    let (_, removed) = refresh(&mut sys, "[]", &mut next);
    assert_eq!(removed, vec![short('a')]);
    assert!(sys.running_containers().is_empty());
    assert_eq!(sys.len(), 0);
}

#[test]
fn malformed_snapshot_changes_nothing() {
    let mut sys = DockerSystem::<u32>::empty();
    let mut next = 1;
    refresh(&mut sys, &body(&['a', 'b']), &mut next);
    let before = sessions(&sys);
    assert!(matches!(sys.prepare_refresh(b"[{\"Id\""), Err(FetchError::Malformed)));
    assert!(matches!(sys.prepare_refresh(b"[{}]"), Err(FetchError::Malformed)));
    assert_eq!(sessions(&sys), before);
}

#[test]
fn shared_prefix_counts_once() {
    let mut sys = DockerSystem::<u32>::empty();
    let mut next = 1;
    let one = format!("{}{}", "ab".repeat(12), "0".repeat(40));
    let two = format!("{}{}", "ab".repeat(12), "1".repeat(40));
    let text = format!("[{{\"Id\":\"{}\"}},{{\"Id\":\"{}\"}}]", one, two);
    let (added, _) = refresh(&mut sys, &text, &mut next);
    assert_eq!(added, vec!["ab".repeat(12)]);
    assert_eq!(sys.running_containers(), vec!["ab".repeat(12)]);
    assert_eq!(sys.entry(0).id.digest(), one);
}

#[test]
fn failed_open_is_retried_next_cycle() {
    let mut sys = DockerSystem::<u32>::empty();
    let plan = sys.prepare_refresh(body(&['a', 'b']).as_bytes()).unwrap();
    let mut opened = Vec::new();
    for id in plan.delta.added {
        if id.short_hex() == short('a') {
            opened.push(Watched { id, session: 7 });
        }
    }
    let discarded = sys.apply(&plan.snapshot, opened);
    assert!(discarded.is_empty());
    assert_eq!(sys.running_containers(), vec![short('a')]);
    let plan = sys.prepare_refresh(body(&['a', 'b']).as_bytes()).unwrap();
    assert_eq!(plan.delta.added.len(), 1);
    assert_eq!(plan.delta.added[0].short_hex(), short('b'));
    assert!(plan.delta.removed.is_empty());
}

#[test]
fn contains_key_by_prefix() {
    let a = ContainerId::from_digest(digest('a')).unwrap();
    let ids = vec![ContainerId::from_digest(digest('b')).unwrap(), a.duplicate()];
    assert!(docker_logs::reconcile::contains_key(&ids, &a));
    let c = ContainerId::from_digest(digest('c')).unwrap();
    assert!(!docker_logs::reconcile::contains_key(&ids, &c));
    assert!(!docker_logs::reconcile::contains_key(&Vec::new(), &c));
}
