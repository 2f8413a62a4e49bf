//! The warm-worker daemon: one per rootdir. Clients collect locally and ship
//! chunks over. What is said on the wire, what the daemon does with a request,
//! and how a client gets hold of a daemon.

use vstd::prelude::*;

use crate::collector::FileTests;
use crate::runner::{Counts, Outcome, OutcomeView, Totals};
use crate::text::{self, concat3, same};

verus! {

broadcast use crate::text::group_deep;

// ---------------------------------------------------------------------------
// The socket
// ---------------------------------------------------------------------------

/// The hexadecimal digit of a number below sixteen.
pub open spec fn hex_digit(n: nat) -> char {
    if n < 10 {
        text::digit_of(n)
    } else if n == 10 {
        'a'
    } else if n == 11 {
        'b'
    } else if n == 12 {
        'c'
    } else if n == 13 {
        'd'
    } else if n == 14 {
        'e'
    } else {
        'f'
    }
}

/// The last `k` hexadecimal digits of a number.
pub open spec fn hex_of(n: nat, k: nat) -> Seq<char>
    decreases k,
{
    if k == 0 {
        Seq::empty()
    } else {
        hex_of(n / 16, (k - 1) as nat).push(hex_digit(n % 16))
    }
}

fn to_hex_digit(n: u64) -> (r: char)
    requires
        n < 16,
    ensures
        r == hex_digit(n as nat),
{
    if n < 10 {
        text::to_digit(n as usize)
    } else if n == 10 {
        'a'
    } else if n == 11 {
        'b'
    } else if n == 12 {
        'c'
    } else if n == 13 {
        'd'
    } else if n == 14 {
        'e'
    } else {
        'f'
    }
}

fn to_hex(n: u64, k: u32) -> (r: String)
    ensures
        r@ == hex_of(n as nat, k as nat),
    decreases k,
{
    if k == 0 {
        String::new()
    } else {
        let mut out: String = to_hex(n / 16, k - 1);
        out.push(to_hex_digit(n % 16));
        out
    }
}

/// The file name of the socket of a rootdir with the given hash: the path of a
/// rootdir may be longer than a socket address can be.
pub fn socket_name(hash: u64) -> (r: String)
    ensures
        r@ == "cito-"@ + hex_of(hash as nat, 16) + ".sock"@,
{
    let digits: String = to_hex(hash, 16);
    concat3("cito-", digits.as_str(), ".sock")
}

// ---------------------------------------------------------------------------
// The wire
// ---------------------------------------------------------------------------

/// What a client asks of the daemon.
#[derive(Debug)]
pub struct Request {
    pub version: String,
    /// `ping`, `shutdown` or `run`.
    pub cmd: String,
    pub python: String,
    pub workers: usize,
    pub chunk: usize,
    pub maxfail: usize,
    pub extra_args: Vec<String>,
    pub coverage_base: Option<String>,
    pub files: Vec<FileTests>,
}

impl Request {
    /// A request that runs nothing.
    pub fn control(version: &str, cmd: &str) -> (r: Request)
        ensures
            r.version@ == version@,
            r.cmd@ == cmd@,
            r.python@.len() == 0,
            r.workers == 0,
            r.chunk == 0,
            r.maxfail == 0,
            r.extra_args@.len() == 0,
            r.coverage_base is None,
            r.files@.len() == 0,
    {
        Request {
            version: version.to_owned(),
            cmd: cmd.to_owned(),
            python: String::new(),
            workers: 0,
            chunk: 0,
            maxfail: 0,
            extra_args: Vec::new(),
            coverage_base: None,
            files: Vec::new(),
        }
    }
}

/// What the daemon answers.
#[derive(Debug)]
pub struct Response {
    pub version: String,
    pub chunks: usize,
    pub failed: usize,
    pub skipped_chunks: usize,
    pub passed: u32,
    pub failed_tests: u32,
    pub skipped: u32,
    pub failed_ids: Vec<String>,
    pub failure_output: Vec<String>,
    pub failure_errors: Vec<String>,
}

/// What the daemon answers.
pub struct ResponseView {
    pub version: Seq<char>,
    pub outcome: OutcomeView,
}

impl View for Response {
    type V = ResponseView;

    open spec fn view(&self) -> ResponseView {
        ResponseView {
            version: self.version@,
            outcome: OutcomeView {
                chunks: self.chunks as nat,
                failed: self.failed as nat,
                skipped_chunks: self.skipped_chunks as nat,
                counts: Totals {
                    passed: self.passed as nat,
                    failed: self.failed_tests as nat,
                    skipped: self.skipped as nat,
                },
                failed_ids: text::deep(self.failed_ids@),
                failure_output: text::deep(self.failure_output@),
                failure_errors: text::deep(self.failure_errors@),
            },
        }
    }
}

/// What a run that ran nothing came to.
pub open spec fn nothing_ran() -> OutcomeView {
    OutcomeView {
        chunks: 0,
        failed: 0,
        skipped_chunks: 0,
        counts: crate::runner::no_tests(),
        failed_ids: Seq::empty(),
        failure_output: Seq::empty(),
        failure_errors: Seq::empty(),
    }
}

impl Response {
    /// The answer to a request that ran nothing.
    pub fn plain(version: &str) -> (r: Response)
        ensures
            r@ == (ResponseView { version: version@, outcome: nothing_ran() }),
    {
        Response {
            version: version.to_owned(),
            chunks: 0,
            failed: 0,
            skipped_chunks: 0,
            passed: 0,
            failed_tests: 0,
            skipped: 0,
            failed_ids: Vec::new(),
            failure_output: Vec::new(),
            failure_errors: Vec::new(),
        }
    }

    /// The answer that tells what a run came to.
    pub fn tell(version: &str, o: Outcome) -> (r: Response)
        ensures
            r@ == (ResponseView { version: version@, outcome: o@ }),
    {
        Response {
            version: version.to_owned(),
            chunks: o.chunks,
            failed: o.failed,
            skipped_chunks: o.skipped_chunks,
            passed: o.counts.passed,
            failed_tests: o.counts.failed,
            skipped: o.counts.skipped,
            failed_ids: o.failed_ids,
            failure_output: o.failure_output,
            failure_errors: o.failure_errors,
        }
    }

    /// What the run that an answer tells of came to: the client learns exactly
    /// what the daemon told.
    pub fn outcome(self) -> (r: Outcome)
        ensures
            r@ == self@.outcome,
    {
        Outcome {
            chunks: self.chunks,
            failed: self.failed,
            skipped_chunks: self.skipped_chunks,
            counts: Counts {
                passed: self.passed,
                failed: self.failed_tests,
                skipped: self.skipped,
            },
            failed_ids: self.failed_ids,
            failure_output: self.failure_output,
            failure_errors: self.failure_errors,
        }
    }
}

// ---------------------------------------------------------------------------
// The server
// ---------------------------------------------------------------------------

/// What a pool of workers was made for.
#[derive(Debug)]
pub struct PoolKey {
    pub python: String,
    pub workers: usize,
}

/// What the daemon does with a line that it was sent.
#[derive(Debug, Clone, Copy, PartialEq, Eq, Structural)]
pub enum Action {
    /// It hangs up without an answer.
    Ignore,
    /// It answers.
    Answer,
    /// It answers and ends.
    Quit,
    /// It runs tests on the pool that it has, and answers.
    Run,
    /// It makes a new pool, runs tests on it, and answers.
    RunAnew,
}

/// What the daemon does with a request: a pool is made anew when the client
/// asks for another interpreter or another number of workers.
pub open spec fn action_for(
    cmd: Seq<char>,
    python: Seq<char>,
    workers: usize,
    pool: Option<(Seq<char>, usize)>,
) -> Action {
    if cmd == "shutdown"@ {
        Action::Quit
    } else if cmd == "run"@ {
        if pool == Some((python, workers)) {
            Action::Run
        } else {
            Action::RunAnew
        }
    } else {
        Action::Answer
    }
}

/// What the daemon does with a request; one that could not be read is ignored.
pub fn decide(request: Option<&Request>, pool: Option<&PoolKey>) -> (r: Action)
    ensures
        r == match request {
            Some(q) => action_for(
                q.cmd@,
                q.python@,
                q.workers,
                match pool {
                    Some(k) => Some((k.python@, k.workers)),
                    None => None,
                },
            ),
            None => Action::Ignore,
        },
{
    match request {
        None => Action::Ignore,
        Some(q) => {
            if same(q.cmd.as_str(), "shutdown") {
                Action::Quit
            } else if same(q.cmd.as_str(), "run") {
                match pool {
                    Some(k) => {
                        if same(k.python.as_str(), q.python.as_str()) && k.workers == q.workers {
                            Action::Run
                        } else {
                            Action::RunAnew
                        }
                    },
                    None => Action::RunAnew,
                }
            } else {
                Action::Answer
            }
        },
    }
}

/// The number of workers in a pool of the given size: at least one.
pub fn pool_size(size: usize) -> (r: usize)
    ensures
        r == (if size == 0 {
            1
        } else {
            size as int
        }),
{
    if size == 0 {
        1
    } else {
        size
    }
}

// ---------------------------------------------------------------------------
// The client
// ---------------------------------------------------------------------------

/// Was the daemon told to stop? It was if it answered.
pub fn stop(reply: Option<&Response>) -> (r: bool)
    ensures
        r == (reply is Some),
{
    reply.is_some()
}

/// The version of the daemon that answered.
pub fn status(reply: Option<&Response>) -> (r: Option<String>)
    ensures
        text::opt(r) == (match reply {
            Some(a) => Some(a@.version),
            None => None,
        }),
{
    match reply {
        Some(a) => Some(a.version.clone()),
        None => None,
    }
}

/// How often a daemon that was just launched is asked whether it is there.
pub const ATTEMPTS: u32 = 60;

/// How far a client has come in getting hold of a daemon.
#[derive(Debug, Clone, Copy, PartialEq, Eq, Structural)]
pub enum Phase {
    /// A daemon that may run already is pinged.
    Asking,
    /// One of another version is told to end.
    Retiring,
    /// A new one is launched.
    Launching,
    /// The new one is pinged; so many pings are left.
    Waiting(u32),
    /// A daemon of the same version runs.
    Ready,
    /// None can be had.
    Unreachable,
}

/// What came of the last step.
#[derive(Debug)]
pub enum Event {
    /// The version that a ping was answered with, if it was.
    Pong(Option<String>),
    /// The old daemon was told to end, whether it heard or not.
    Told,
    /// The new daemon was launched, or could not be.
    Launched(bool),
}

/// What came of the last step.
pub enum EventView {
    Pong(Option<Seq<char>>),
    Told,
    Launched(bool),
}

impl View for Event {
    type V = EventView;

    open spec fn view(&self) -> EventView {
        match self {
            Event::Pong(v) => EventView::Pong(text::opt(*v)),
            Event::Told => EventView::Told,
            Event::Launched(b) => EventView::Launched(*b),
        }
    }
}

/// The phase that follows. A version-matched daemon is taken; one of another
/// version is retired and replaced; none is launched. An event that does not
/// belong to the phase changes nothing.
pub open spec fn next_phase(phase: Phase, event: EventView, version: Seq<char>) -> Phase {
    match (phase, event) {
        (Phase::Asking, EventView::Pong(None)) => Phase::Launching,
        (Phase::Asking, EventView::Pong(Some(v))) => if v == version {
            Phase::Ready
        } else {
            Phase::Retiring
        },
        (Phase::Retiring, EventView::Told) => Phase::Launching,
        (Phase::Launching, EventView::Launched(ok)) => if ok {
            Phase::Waiting(ATTEMPTS)
        } else {
            Phase::Unreachable
        },
        (Phase::Waiting(left), EventView::Pong(answer)) => if answer == Some(version) {
            Phase::Ready
        } else if left <= 1 {
            Phase::Unreachable
        } else {
            Phase::Waiting((left - 1) as u32)
        },
        _ => phase,
    }
}

/// The phase that follows.
pub fn advance(phase: Phase, event: &Event, version: &str) -> (r: Phase)
    ensures
        r == next_phase(phase, event@, version@),
{
    match (phase, event) {
        (Phase::Asking, Event::Pong(None)) => Phase::Launching,
        (Phase::Asking, Event::Pong(Some(v))) => if same(v.as_str(), version) {
            Phase::Ready
        } else {
            Phase::Retiring
        },
        (Phase::Retiring, Event::Told) => Phase::Launching,
        (Phase::Launching, Event::Launched(ok)) => if *ok {
            Phase::Waiting(ATTEMPTS)
        } else {
            Phase::Unreachable
        },
        (Phase::Waiting(left), Event::Pong(answer)) => {
            let here: bool = match answer {
                Some(v) => same(v.as_str(), version),
                None => false,
            };
            if here {
                Phase::Ready
            } else if left <= 1 {
                Phase::Unreachable
            } else {
                Phase::Waiting(left - 1)
            }
        },
        _ => phase,
    }
}

/// What `cito daemon` is asked to do.
#[derive(Debug, Clone, Copy, PartialEq, Eq, Structural)]
pub enum DaemonCommand {
    Start,
    Stop,
    Status,
    Serve,
}

/// What `cito daemon <action>` is asked to do; `None` where the action is not
/// known.
pub fn daemon_command(action: &str) -> (r: Option<DaemonCommand>)
    ensures
        r == (if action@ == "start"@ {
            Some(DaemonCommand::Start)
        } else if action@ == "stop"@ {
            Some(DaemonCommand::Stop)
        } else if action@ == "status"@ {
            Some(DaemonCommand::Status)
        } else if action@ == "serve"@ {
            Some(DaemonCommand::Serve)
        } else {
            None
        }),
{
    if same(action, "start") {
        Some(DaemonCommand::Start)
    } else if same(action, "stop") {
        Some(DaemonCommand::Stop)
    } else if same(action, "status") {
        Some(DaemonCommand::Status)
    } else if same(action, "serve") {
        Some(DaemonCommand::Serve)
    } else {
        None
    }
}

// ---------------------------------------------------------------------------
// Laws
// ---------------------------------------------------------------------------

/// How many steps are left at most.
pub open spec fn steps_left(phase: Phase) -> nat {
    match phase {
        Phase::Asking => (ATTEMPTS + 4) as nat,
        Phase::Retiring => (ATTEMPTS + 3) as nat,
        Phase::Launching => (ATTEMPTS + 2) as nat,
        Phase::Waiting(left) => (left + 1) as nat,
        Phase::Ready => 0,
        Phase::Unreachable => 0,
    }
}

/// Does the event belong to the phase?
pub open spec fn belongs(phase: Phase, event: EventView) -> bool {
    match phase {
        Phase::Asking => event is Pong,
        Phase::Retiring => event is Told,
        Phase::Launching => event is Launched,
        Phase::Waiting(_) => event is Pong,
        Phase::Ready => false,
        Phase::Unreachable => false,
    }
}

/// Getting hold of a daemon ends, whatever the answers are: every step leaves
/// fewer.
pub proof fn law_ensuring_ends(phase: Phase, event: EventView, version: Seq<char>)
    requires
        belongs(phase, event),
    ensures
        steps_left(next_phase(phase, event, version)) < steps_left(phase),
{
}

/// A daemon is taken exactly when it answered a ping with the client's own
/// version.
pub proof fn law_version_matches(phase: Phase, event: EventView, version: Seq<char>)
    requires
        !(phase is Ready),
    ensures
        next_phase(phase, event, version) is Ready <==> (phase is Asking || phase is Waiting)
            && event == EventView::Pong(Some(version)),
{
}

/// A daemon that answers with another version is retired before a new one is
/// launched; where none answers, one is launched at once, and where it cannot be,
/// none can be had.
pub proof fn law_other_versions_are_retired(v: Seq<char>, version: Seq<char>)
    requires
        v != version,
    ensures
        ({
            let retiring = next_phase(Phase::Asking, EventView::Pong(Some(v)), version);
            &&& retiring is Retiring
            &&& next_phase(retiring, EventView::Told, version) is Launching
        }),
        next_phase(Phase::Asking, EventView::Pong(None), version) is Launching,
        next_phase(Phase::Launching, EventView::Launched(false), version) is Unreachable,
        next_phase(Phase::Launching, EventView::Launched(true), version) is Waiting,
{
}

/// The phase after so many pings that were not answered.
pub open spec fn after_silence(phase: Phase, pings: nat, version: Seq<char>) -> Phase
    decreases pings,
{
    if pings == 0 {
        phase
    } else {
        after_silence(
            next_phase(phase, EventView::Pong(None), version),
            (pings - 1) as nat,
            version,
        )
    }
}

/// A daemon that was launched is waited for over all attempts: as long as one is
/// left it is asked again, and with the last one it is given up.
pub proof fn law_launched_daemons_are_waited_for(left: u32, pings: nat, version: Seq<char>)
    requires
        0 < left,
        pings <= left,
    ensures
        pings < left ==> after_silence(Phase::Waiting(left), pings, version) == Phase::Waiting(
            (left - pings) as u32,
        ),
        pings == left ==> after_silence(Phase::Waiting(left), pings, version) is Unreachable,
        next_phase(Phase::Launching, EventView::Launched(true), version) == Phase::Waiting(60),
    decreases pings,
{
    if pings > 0 {
        if left > 1 {
            law_launched_daemons_are_waited_for(
                (left - 1) as u32,
                (pings - 1) as nat,
                version,
            );
        } else {
            assert(after_silence(Phase::Unreachable, 0, version) is Unreachable);
        }
    }
}

/// Tests run on the pool that is there exactly where it was made for the same
/// interpreter and the same number of workers; only `shutdown` ends the daemon,
/// and only `run` runs tests.
pub proof fn law_requests_are_served(
    cmd: Seq<char>,
    python: Seq<char>,
    workers: usize,
    pool: Option<(Seq<char>, usize)>,
)
    ensures
        ({
            let a = action_for(cmd, python, workers, pool);
            &&& a is Quit <==> cmd == "shutdown"@
            &&& a is Run || a is RunAnew <==> cmd == "run"@
            &&& a is Run ==> (pool matches Some(k) && k.0 == python && k.1 == workers)
            &&& a is RunAnew ==> !(pool matches Some(k) && k.0 == python && k.1 == workers)
            &&& !(a is Ignore)
        }),
{
    reveal_strlit("shutdown");
    reveal_strlit("run");
    assert("shutdown"@.len() == 8 && "run"@.len() == 3);
}

/// Two numbers below sixteen to the power of `k` have the same `k` hexadecimal
/// digits only where they are the same, so two hashes have two sockets.
pub proof fn law_sockets_tell_apart(a: nat, b: nat, k: nat)
    requires
        hex_of(a, k) == hex_of(b, k),
        a < vstd::arithmetic::power::pow(16, k),
        b < vstd::arithmetic::power::pow(16, k),
    ensures
        a == b,
    decreases k,
{
    if k == 0 {
        vstd::arithmetic::power::lemma_pow0(16);
    } else {
        let m = (k - 1) as nat;
        vstd::arithmetic::power::lemma_pow_adds(16, 1, m);
        vstd::arithmetic::power::lemma_pow1(16);
        let p = vstd::arithmetic::power::pow(16, m);
        let x = hex_of(a / 16, m);
        let y = hex_of(b / 16, m);
        assert(x.push(hex_digit(a % 16)).last() == y.push(hex_digit(b % 16)).last());
        assert(x.push(hex_digit(a % 16)).drop_last() =~= x);
        assert(y.push(hex_digit(b % 16)).drop_last() =~= y);
        digits_tell_apart(a % 16, b % 16);
        assert(a / 16 < p && b / 16 < p) by (nonlinear_arith)
            requires
                a < 16 * p,
                b < 16 * p,
        ;
        law_sockets_tell_apart(a / 16, b / 16, m);
    }
}

proof fn digits_tell_apart(a: nat, b: nat)
    requires
        a < 16,
        b < 16,
        hex_digit(a) == hex_digit(b),
    ensures
        a == b,
{
}

} // verus!
