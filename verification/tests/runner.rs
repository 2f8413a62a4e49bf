//! Chunks, reports, and runs.

use cito::collector::FileTests;
use cito::path::FilePath;
use cito::runner::{
    chunk_args, coverage_file, failed_ids, make_chunks, parse_number, report_chunk,
    summary_counts, try_summary, worker_died, Counts, Run,
};

fn owned(items: &[&str]) -> Vec<String> {
    items.iter().map(|s| s.to_string()).collect()
}

fn file(path: &str, tests: &[&str]) -> FileTests {
    FileTests {
        path: path.to_string(),
        abs_path: FilePath::parse("/w").join(&FilePath::parse(path)),
        tests: owned(tests),
    }
}

#[test]
fn parses_pytest_summary_lines() {
    let pass = summary_counts("....\n11000 passed in 1.79s\n");
    assert_eq!((pass.passed, pass.failed, pass.skipped), (11000, 0, 0));
    let mixed = summary_counts("1 failed, 10 passed, 2 skipped in 0.21s\n");
    assert_eq!((mixed.passed, mixed.failed, mixed.skipped), (10, 1, 2));
    let errors = summary_counts("3 errors in 0.10s");
    assert_eq!(errors.failed, 3);
    assert_eq!(summary_counts(""), Counts::default());
}

#[test]
fn only_the_last_line_counts() {
    let c = summary_counts("9 failed\n\n2 passed, 1 error in 1.0s\n  \n");
    assert_eq!((c.passed, c.failed, c.skipped), (2, 1, 0));
}

#[test]
fn numbers_that_do_not_fit_are_no_numbers() {
    assert_eq!(parse_number("4294967295"), Some(u32::MAX));
    assert_eq!(parse_number("4294967296"), None);
    assert_eq!(parse_number("007"), Some(7));
    assert_eq!(parse_number(""), None);
    assert_eq!(parse_number("1s"), None);
    assert_eq!(try_summary("4294967295 failed, 1 error"), None);
    assert_eq!(try_summary("4294967295 failed").unwrap().failed, u32::MAX);
}

#[test]
fn failures_come_from_the_short_summary() {
    let out = "FAILED tests/a.py::test_x - assert 1 == 2\nERROR tests/b.py::test_y\nFAILED\npassed\n";
    assert_eq!(failed_ids(out), owned(&["tests/a.py::test_x", "tests/b.py::test_y"]));
}

#[test]
fn chunks_keep_files_whole() {
    let files = vec![
        file("a.py", &["1", "2"]),
        file("empty.py", &[]),
        file("b.py", &["3"]),
        file("c.py", &["4", "5", "6", "7"]),
        file("d.py", &["8"]),
    ];
    let chunks: Vec<Vec<String>> = make_chunks(&files, 3).into_iter().map(|c| c.items).collect();
    assert_eq!(
        chunks,
        vec![
            owned(&["/w/a.py::1", "/w/a.py::2", "/w/b.py::3"]),
            owned(&["/w/c.py::4", "/w/c.py::5", "/w/c.py::6", "/w/c.py::7"]),
            owned(&["/w/d.py::8"]),
        ]
    );
    assert!(make_chunks(&Vec::new(), 3).is_empty());
}

#[test]
fn reports_are_quiet_on_success() {
    let ok = report_chunk(Some(0), "1 passed\n", "warning");
    assert!(!ok.failed);
    assert_eq!((ok.output, ok.errors), (None, None));
    assert!(!report_chunk(Some(5), "no tests ran\n", "").failed);
    let bad = report_chunk(Some(1), "FAILED a.py::x\n1 failed\n", "boom");
    assert!(bad.failed);
    assert_eq!(bad.counts.failed, 1);
    assert_eq!(bad.failed_ids, owned(&["a.py::x"]));
    assert_eq!(bad.output, Some("FAILED a.py::x\n1 failed\n".to_string()));
    assert_eq!(bad.errors, Some("boom".to_string()));
    assert!(report_chunk(None, "", "").failed);
}

#[test]
fn arguments_and_coverage_files() {
    assert_eq!(
        chunk_args(&owned(&["--tb=short"]), &owned(&["a::x"])),
        owned(&["-q", "--no-header", "-rfE", "--tb=short", "a::x"])
    );
    assert_eq!(coverage_file("/w/.coverage.cito", 12), "/w/.coverage.cito.12");
}

fn passed(n: u32) -> cito::runner::ChunkReport {
    report_chunk(Some(0), &format!("{n} passed\n"), "")
}

fn failed() -> cito::runner::ChunkReport {
    report_chunk(Some(1), "FAILED a.py::x\n1 failed\n", "a warning\n")
}

#[test]
fn every_chunk_is_accounted_for() {
    let files = vec![file("a.py", &["1"]), file("b.py", &["2"]), file("c.py", &["3"])];
    let mut run = Run::start(&files, 1);
    assert_eq!(run.take().unwrap().items, owned(&["/w/a.py::1"]));
    let report = passed(1);
    assert!(run.can_report(&report));
    run.report(report, 0);
    assert!(run.take().is_some());
    run.report(worker_died(), 0);
    assert!(run.take().is_some());
    run.lose();
    assert!(run.take().is_none());
    let outcome = run.outcome();
    assert_eq!((outcome.chunks, outcome.failed, outcome.skipped_chunks), (3, 2, 0));
    assert_eq!(outcome.counts.passed, 1);
    assert_eq!(
        outcome.failure_output,
        owned(&["cito: pytest worker died; its chunk is marked failed\n"])
    );
}

#[test]
fn maxfail_skips_what_waits() {
    let files = vec![file("a.py", &["1"]), file("b.py", &["2"]), file("c.py", &["3"])];
    let mut run = Run::start(&files, 1);
    run.take();
    run.report(failed(), 1);
    assert!(run.take().is_none());
    let outcome = run.outcome();
    assert_eq!((outcome.failed, outcome.skipped_chunks), (1, 2));
    assert_eq!(outcome.failed_ids, owned(&["a.py::x"]));
    assert_eq!(outcome.failure_output, owned(&["FAILED a.py::x\n1 failed\n"]));
    assert_eq!(outcome.failure_errors, owned(&["a warning\n"]));
}

#[test]
fn chunks_left_behind_count_as_failures() {
    let files = vec![file("a.py", &["1"]), file("b.py", &["2"])];
    let run = Run::start(&files, 1);
    let outcome = run.outcome();
    assert_eq!((outcome.chunks, outcome.failed), (2, 2));
}

#[test]
fn counts_add_up() {
    let mut c = Counts::none();
    let more = Counts { passed: 1, failed: 2, skipped: 3 };
    assert!(c.fits_with(more));
    c.add(more);
    c.add(more);
    assert_eq!(c, Counts { passed: 2, failed: 4, skipped: 6 });
    assert!(!c.fits_with(Counts { passed: u32::MAX, failed: 0, skipped: 0 }));
}

#[test]
fn only_the_last_line_that_is_not_blank_counts() {
    let line = "2 passed, 1 failed in 0.1s";
    let alone = summary_counts(line);
    assert_eq!((alone.passed, alone.failed, alone.skipped), (2, 1, 0));
    assert_eq!(summary_counts(&format!("7 passed\n9 failed\n{line}\r\n \t\n\n")), alone);
    assert_eq!(summary_counts(&format!("7 passed\n{line}")), alone);
    assert_eq!(summary_counts(" \n\t\r\n\n"), Counts::default());
}
