use docker_logs::container_id::ContainerId;
use docker_logs::session::{LogQuery, Phase, SessionState, Stream, StreamIoError, StreamState};

fn digest(c: char) -> String {
    std::iter::repeat(c).take(64).collect()
}

#[test]
fn stdout_query_path() {
    let id = ContainerId::from_digest(digest('a')).unwrap();
    let q = LogQuery::stdout();
    assert_eq!(q.since, None);
    assert_eq!(q.path(&id), format!("/containers/{}/logs?stdout=1&follow=1", digest('a')));
}

#[test]
fn stderr_query_path_carries_since() {
    let id = ContainerId::from_digest(digest('b')).unwrap();
    let q = LogQuery::stderr_since(1_700_000_000, 1_700_000_002);
    assert_eq!(q.stream, Stream::Stderr);
    assert_eq!(q.since, Some(1_700_000_002));
    assert_eq!(
        q.path(&id),
        format!("/containers/{}/logs?stderr=1&follow=1&since=1700000002", digest('b'))
    );
    assert_eq!(LogQuery::stderr_since(0, 0).path(&id), format!("/containers/{}/logs?stderr=1&follow=1&since=0", digest('b')));
}

#[test]
fn stderr_since_never_before_stdout_request() {
    let q = LogQuery::stderr_since(500, 490);
    assert_eq!(q.since, Some(500));
    let q = LogQuery::stderr_since(500, 500);
    assert_eq!(q.since, Some(500));
    let q = LogQuery::stderr_since(0, u64::MAX);
    assert_eq!(q.since, Some(u64::MAX));
}

#[test]
fn session_phases() {
    let s = SessionState::opened();
    assert_eq!(s.phase(), Phase::Active);
    assert_eq!(s.outcome(), None);
    let s = s.on_stream_stopped(Stream::Stdout, false);
    assert_eq!(s.stdout, StreamState::Ended);
    assert_eq!(s.stderr, StreamState::Open);
    assert_eq!(s.phase(), Phase::Draining);
    assert_eq!(s.outcome(), None);
    let s = s.on_stream_stopped(Stream::Stderr, false);
    assert_eq!(s.phase(), Phase::Closed);
    assert_eq!(s.outcome(), Some(Ok(())));
}

#[test]
fn stream_failure_is_reported_at_close() {
    let s = SessionState::opened().on_stream_stopped(Stream::Stderr, true);
    assert_eq!(s.phase(), Phase::Draining);
    let s = s.on_stream_stopped(Stream::Stdout, false);
    assert_eq!(s.outcome(), Some(Err(StreamIoError { stream: Stream::Stderr })));
    let s = SessionState::opened()
        .on_stream_stopped(Stream::Stdout, true)
        .on_stream_stopped(Stream::Stderr, true);
    assert_eq!(s.outcome(), Some(Err(StreamIoError { stream: Stream::Stdout })));
}

#[test]
fn stopped_stream_stays_stopped() {
    let s = SessionState::opened().on_stream_stopped(Stream::Stdout, false);
    let s = s.on_stream_stopped(Stream::Stdout, true);
    assert_eq!(s.stdout, StreamState::Ended);
    assert_eq!(s.phase(), Phase::Draining);
}
