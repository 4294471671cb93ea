//! Log sessions: the two log queries a session opens, and the state machine
//! that follows its two streaming workers until both have ended.
//!
//! The stderr query is bounded to entries written since the session opened,
//! while stdout replays the container's whole history. The bound is read
//! from the clock once the stdout connection is established, so stderr lines
//! written between the stdout request and that moment are not replayed; the
//! bound is never set earlier than the stdout request's issue time.
use vstd::prelude::*;
use crate::container_id::ContainerId;
use crate::hex_text::lower_digit;

verus! {

/// One of a container's two log streams.
#[derive(Debug, PartialEq, Eq, Structural, Clone, Copy)]
pub enum Stream {
    Stdout,
    Stderr,
}

/// A follow-mode query on a container's log endpoint.
#[derive(Debug, PartialEq, Eq, Structural, Clone, Copy)]
pub struct LogQuery {
    pub stream: Stream,
    /// Only entries written at or after these epoch seconds.
    pub since: Option<u64>,
}

/// The decimal digits of a number, without leading zeros.
pub open spec fn decimal(n: nat) -> Seq<char>
    decreases n,
{
    if n < 10 {
        seq![lower_digit(n as int)]
    } else {
        decimal(n / 10) + seq![lower_digit((n % 10) as int)]
    }
}

/// The request path of a log query for the container with this digest.
pub open spec fn log_path(digest: Seq<char>, q: LogQuery) -> Seq<char> {
    "/containers/"@ + digest + match q.stream {
        Stream::Stdout => "/logs?stdout=1&follow=1"@,
        Stream::Stderr => "/logs?stderr=1&follow=1"@,
    } + match q.since {
        Some(t) => "&since="@ + decimal(t as nat),
        None => Seq::<char>::empty(),
    }
}

/// The text of one decimal digit.
fn digit_text(d: u64) -> (r: &'static str)
    requires
        d < 10,
    ensures
        r@ == seq![lower_digit(d as int)],
{
    proof {
        reveal_strlit("0");
        reveal_strlit("1");
        reveal_strlit("2");
        reveal_strlit("3");
        reveal_strlit("4");
        reveal_strlit("5");
        reveal_strlit("6");
        reveal_strlit("7");
        reveal_strlit("8");
        reveal_strlit("9");
    }
    if d == 0 { "0" } else if d == 1 { "1" } else if d == 2 { "2" } else if d == 3 { "3" }
    else if d == 4 { "4" } else if d == 5 { "5" } else if d == 6 { "6" } else if d == 7 { "7" }
    else if d == 8 { "8" } else { "9" }
}

/// Appends the decimal digits of `n`.
fn append_decimal(p: &mut String, n: u64)
    ensures
        final(p)@ == old(p)@ + decimal(n as nat),
    decreases n,
{
    if n >= 10 {
        append_decimal(p, n / 10);
    }
    p.append(digit_text(n % 10));
    proof {
        if n >= 10 {
            assert(decimal(n as nat) == decimal((n / 10) as nat) + seq![lower_digit((n % 10) as int)]);
        }
    }
}

impl LogQuery {
    /// The stdout query: the whole history, then follow.
    pub fn stdout() -> (q: LogQuery)
        ensures
            q.stream == Stream::Stdout,
            q.since is None,
    {
        LogQuery { stream: Stream::Stdout, since: None }
    }

    /// The stderr query of a session whose stdout request was issued at
    /// `stdout_issued_at` and whose clock read `now` once that connection
    /// was established: entries since the later of the two.
    pub fn stderr_since(stdout_issued_at: u64, now: u64) -> (q: LogQuery)
        ensures
            q.stream == Stream::Stderr,
            q.since == Some(if now >= stdout_issued_at { now } else { stdout_issued_at }),
            q.since matches Some(t) && t >= stdout_issued_at && t >= now,
    {
        let t: u64 = if now >= stdout_issued_at { now } else { stdout_issued_at };
        LogQuery { stream: Stream::Stderr, since: Some(t) }
    }

    /// The request path of this query for a container.
    pub fn path(&self, id: &ContainerId) -> (r: String)
        ensures
            r@ == log_path(id@, *self),
    {
        let mut p = String::from_str("/containers/");
        p.append(id.digest());
        match self.stream {
            Stream::Stdout => p.append("/logs?stdout=1&follow=1"),
            Stream::Stderr => p.append("/logs?stderr=1&follow=1"),
        }
        match self.since {
            Some(t) => {
                p.append("&since=");
                append_decimal(&mut p, t);
            },
            None => {},
        }
        p
    }
}

/// Where one streaming worker stands.
#[derive(Debug, PartialEq, Eq, Structural, Clone, Copy)]
pub enum StreamState {
    /// Still reading chunks.
    Open,
    /// The runtime closed the stream.
    Ended,
    /// A read failed; the worker stopped.
    Failed,
}

/// The phase of a session as a whole.
#[derive(Debug, PartialEq, Eq, Structural, Clone, Copy)]
pub enum Phase {
    /// Both workers are reading.
    Active,
    /// One worker has stopped; the other still reads.
    Draining,
    /// Both workers have stopped.
    Closed,
}

/// A read on a log stream failed; the session ends with it.
#[derive(Debug, PartialEq, Eq, Structural, Clone, Copy)]
pub struct StreamIoError {
    pub stream: Stream,
}

/// The supervised state of a session's two workers.
#[derive(Debug, PartialEq, Eq, Structural, Clone, Copy)]
pub struct SessionState {
    pub stdout: StreamState,
    pub stderr: StreamState,
}

/// The phase that the two workers' states make.
pub open spec fn phase_of(s: SessionState) -> Phase {
    if s.stdout == StreamState::Open && s.stderr == StreamState::Open {
        Phase::Active
    } else if s.stdout == StreamState::Open || s.stderr == StreamState::Open {
        Phase::Draining
    } else {
        Phase::Closed
    }
}

/// What a session's completion reports: nothing before it is closed; then
/// the first failed stream (stdout before stderr), or success.
pub open spec fn outcome_of(s: SessionState) -> Option<Result<(), StreamIoError>> {
    if phase_of(s) != Phase::Closed {
        None
    } else if s.stdout == StreamState::Failed {
        Some(Err(StreamIoError { stream: Stream::Stdout }))
    } else if s.stderr == StreamState::Failed {
        Some(Err(StreamIoError { stream: Stream::Stderr }))
    } else {
        Some(Ok(()))
    }
}

/// A worker's state after it stops: a stopped worker stays as it was.
pub open spec fn stopped(st: StreamState, failed: bool) -> StreamState {
    if st != StreamState::Open {
        st
    } else if failed {
        StreamState::Failed
    } else {
        StreamState::Ended
    }
}

fn stop_worker(st: StreamState, failed: bool) -> (r: StreamState)
    ensures
        r == stopped(st, failed),
{
    if st != StreamState::Open {
        st
    } else if failed {
        StreamState::Failed
    } else {
        StreamState::Ended
    }
}

impl SessionState {
    /// A session whose two workers have just started.
    pub fn opened() -> (r: SessionState)
        ensures
            r.stdout == StreamState::Open,
            r.stderr == StreamState::Open,
            phase_of(r) == Phase::Active,
    {
        SessionState { stdout: StreamState::Open, stderr: StreamState::Open }
    }

    /// The session's phase.
    pub fn phase(&self) -> (r: Phase)
        ensures
            r == phase_of(*self),
    {
        let out_open = self.stdout == StreamState::Open;
        let err_open = self.stderr == StreamState::Open;
        if out_open && err_open {
            Phase::Active
        } else if out_open || err_open {
            Phase::Draining
        } else {
            Phase::Closed
        }
    }

    /// Records that the worker of `stream` stopped, through a read failure
    /// when `failed`; the other worker is untouched.
    pub fn on_stream_stopped(self, stream: Stream, failed: bool) -> (r: SessionState)
        ensures
            stream == Stream::Stdout ==> r == (SessionState {
                stdout: stopped(self.stdout, failed),
                stderr: self.stderr,
            }),
            stream == Stream::Stderr ==> r == (SessionState {
                stdout: self.stdout,
                stderr: stopped(self.stderr, failed),
            }),
    {
        match stream {
            Stream::Stdout => SessionState {
                stdout: stop_worker(self.stdout, failed),
                stderr: self.stderr,
            },
            Stream::Stderr => SessionState {
                stdout: self.stdout,
                stderr: stop_worker(self.stderr, failed),
            },
        }
    }

    /// What the session's completion reports.
    pub fn outcome(&self) -> (r: Option<Result<(), StreamIoError>>)
        ensures
            r == outcome_of(*self),
    {
        match self.phase() {
            Phase::Closed => {
                if self.stdout == StreamState::Failed {
                    Some(Err(StreamIoError { stream: Stream::Stdout }))
                } else if self.stderr == StreamState::Failed {
                    Some(Err(StreamIoError { stream: Stream::Stderr }))
                } else {
                    Some(Ok(()))
                }
            },
            _ => None,
        }
    }
}

} // verus!
