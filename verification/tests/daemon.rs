//! The daemon's protocol and its client.

use cito::daemon::{
    advance, daemon_command, decide, pool_size, socket_name, status, stop, Action, DaemonCommand,
    Event, Phase, PoolKey, Request, Response, ATTEMPTS,
};
use cito::runner::{Counts, Outcome};

#[test]
fn sockets_are_named_by_hash() {
    assert_eq!(socket_name(0), "cito-0000000000000000.sock");
    assert_eq!(socket_name(0x0123_4567_89ab_cdef), "cito-0123456789abcdef.sock");
    assert_eq!(socket_name(u64::MAX), "cito-ffffffffffffffff.sock");
}

fn run_request(python: &str, workers: usize) -> Request {
    let mut request = Request::control("1.0", "run");
    request.python = python.to_string();
    request.workers = workers;
    request
}

#[test]
fn requests_decide_what_the_daemon_does() {
    let key = PoolKey { python: "py".to_string(), workers: 4 };
    assert_eq!(decide(None, None), Action::Ignore);
    assert_eq!(decide(Some(&Request::control("1.0", "ping")), Some(&key)), Action::Answer);
    assert_eq!(decide(Some(&Request::control("1.0", "shutdown")), None), Action::Quit);
    assert_eq!(decide(Some(&Request::control("1.0", "dance")), None), Action::Answer);
    assert_eq!(decide(Some(&run_request("py", 4)), None), Action::RunAnew);
    assert_eq!(decide(Some(&run_request("py", 4)), Some(&key)), Action::Run);
    assert_eq!(decide(Some(&run_request("py", 2)), Some(&key)), Action::RunAnew);
    assert_eq!(decide(Some(&run_request("pypy", 4)), Some(&key)), Action::RunAnew);
    assert_eq!(pool_size(0), 1);
    assert_eq!(pool_size(7), 7);
}

#[test]
fn control_requests_run_nothing() {
    let request = Request::control("1.0", "ping");
    assert_eq!((request.version.as_str(), request.cmd.as_str()), ("1.0", "ping"));
    assert!(request.files.is_empty() && request.extra_args.is_empty());
    assert_eq!((request.workers, request.chunk, request.maxfail), (0, 0, 0));
    assert_eq!(request.coverage_base, None);
}

#[test]
fn outcomes_travel_unchanged() {
    let told = Response::tell(
        "1.0",
        Outcome {
            chunks: 3,
            failed: 1,
            skipped_chunks: 2,
            counts: Counts { passed: 4, failed: 5, skipped: 6 },
            failed_ids: vec!["a::x".to_string()],
            failure_output: vec!["boom".to_string()],
            failure_errors: vec!["bang".to_string()],
        },
    );
    assert_eq!(told.version, "1.0");
    let outcome = told.outcome();
    assert_eq!((outcome.chunks, outcome.failed, outcome.skipped_chunks), (3, 1, 2));
    assert_eq!(outcome.counts, Counts { passed: 4, failed: 5, skipped: 6 });
    assert_eq!(outcome.failed_ids, vec!["a::x"]);
    assert_eq!(outcome.failure_output, vec!["boom"]);
    assert_eq!(outcome.failure_errors, vec!["bang"]);
}

#[test]
fn stop_and_status_tell_of_the_answer() {
    let answer = Response::plain("2.0");
    assert!(stop(Some(&answer)));
    assert!(!stop(None));
    assert_eq!(status(Some(&answer)), Some("2.0".to_string()));
    assert_eq!(status(None), None);
    assert_eq!(answer.outcome().chunks, 0);
}

fn pong(version: &str) -> Event {
    Event::Pong(Some(version.to_string()))
}

#[test]
fn a_matching_daemon_is_taken_at_once() {
    assert_eq!(advance(Phase::Asking, &pong("1.0"), "1.0"), Phase::Ready);
}

#[test]
fn a_daemon_of_another_version_is_replaced() {
    let phase = advance(Phase::Asking, &pong("0.9"), "1.0");
    assert_eq!(phase, Phase::Retiring);
    let phase = advance(phase, &Event::Told, "1.0");
    assert_eq!(phase, Phase::Launching);
    let phase = advance(phase, &Event::Launched(true), "1.0");
    assert_eq!(phase, Phase::Waiting(ATTEMPTS));
    let phase = advance(phase, &Event::Pong(None), "1.0");
    assert_eq!(phase, Phase::Waiting(ATTEMPTS - 1));
    assert_eq!(advance(phase, &pong("1.0"), "1.0"), Phase::Ready);
}

#[test]
fn waiting_for_a_daemon_ends() {
    assert_eq!(advance(Phase::Launching, &Event::Launched(false), "1.0"), Phase::Unreachable);
    let mut phase = advance(Phase::Asking, &Event::Pong(None), "1.0");
    phase = advance(phase, &Event::Launched(true), "1.0");
    let mut pings = 0;
    while phase != Phase::Unreachable {
        phase = advance(phase, &Event::Pong(None), "1.0");
        pings += 1;
    }
    assert_eq!(pings, ATTEMPTS);
}

#[test]
fn daemon_commands_are_known_by_name() {
    assert_eq!(daemon_command("start"), Some(DaemonCommand::Start));
    assert_eq!(daemon_command("stop"), Some(DaemonCommand::Stop));
    assert_eq!(daemon_command("status"), Some(DaemonCommand::Status));
    assert_eq!(daemon_command("serve"), Some(DaemonCommand::Serve));
    assert_eq!(daemon_command("restart"), None);
}
