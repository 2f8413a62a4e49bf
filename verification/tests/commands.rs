//! Selections, filters, the cache of failures, and the schedule.

use cito::changes::{changed_files, hashes_path, hashes_text, parse_hashes, record};
use cito::collector::FileTests;
use cito::commands::{
    apply_keyword, apply_selectors, file_has_failure, filter_lastfailed, last_failures,
    lastfailed_path, lastfailed_text, matches_failure, merge_lastfailed, parse_lastfailed, parse_selections,
    resolve_roots, selector_matches,
};
use cito::config::Config;
use cito::facts::{Disk, Entry, PathMap};
use cito::keyword::parse;
use cito::options::ini_section;
use cito::path::FilePath;
use cito::schedule::{count_tests, exit_code, order_files, react, running_files};
use cito::table::Table;

fn owned(items: &[&str]) -> Vec<String> {
    items.iter().map(|s| s.to_string()).collect()
}

fn file(path: &str, tests: &[&str]) -> FileTests {
    FileTests {
        path: path.to_string(),
        abs_path: FilePath::parse("/w").join(&FilePath::parse(path)),
        tests: owned(tests),
    }
}

fn plain_config() -> Config {
    Config::build(FilePath::parse("/w"), None, &Table::new())
}

#[test]
fn selector_prefix_rules() {
    assert!(selector_matches("test_x", "test_x"));
    assert!(selector_matches("test_x[1]", "test_x"));
    assert!(selector_matches("TestA::test_y", "TestA"));
    assert!(!selector_matches("test_xy", "test_x"));
    assert!(!selector_matches("TestAB::test_y", "TestA"));
}

#[test]
fn failure_matching_rules() {
    assert!(matches_failure("tests/a.py::test_x", "tests/a.py::test_x"));
    // Bare collected id covers its bracketed failures.
    assert!(matches_failure(
        "tests/a.py::test_x",
        "tests/a.py::test_x[1]"
    ));
    // Rootdir mismatch tolerated by suffix matching.
    assert!(matches_failure(
        "pkg/tests/a.py::test_x",
        "tests/a.py::test_x"
    ));
    assert!(!matches_failure("tests/a.py::test_y", "tests/a.py::test_x"));
}

#[test]
fn arguments_are_paths_or_selectors() {
    let (roots, selectors) = parse_selections(
        &owned(&["tests", "a.py::TestX::test_y", "b.py::", "/abs/c.py::test_z"]),
        &FilePath::parse("/w"),
    );
    assert_eq!(roots, owned(&["tests", "a.py", "b.py::", "/abs/c.py"]));
    assert_eq!(selectors.len(), 2);
    assert_eq!(selectors[0].file.display(), "/w/a.py");
    assert_eq!(selectors[0].test, "TestX::test_y");
    assert_eq!(selectors[1].file.display(), "/abs/c.py");
    assert_eq!(selectors[1].test, "test_z");
}

#[test]
fn selectors_restrict_only_their_file() {
    let files = vec![file("a.py", &["test_x[1]", "test_y", "TestX::test_z"]), file("b.py", &["test_x"])];
    let (_, selectors) =
        parse_selections(&owned(&["a.py::test_x", "a.py::TestX"]), &FilePath::parse("/w"));
    let kept = apply_selectors(&files, &selectors);
    assert_eq!(kept[0].tests, owned(&["test_x[1]", "TestX::test_z"]));
    assert_eq!(kept[1].tests, owned(&["test_x"]));
    let all = apply_selectors(&files, &Vec::new());
    assert_eq!(all[0].tests, files[0].tests);
}

#[test]
fn keywords_see_the_file_name_and_the_test() {
    let files = vec![file("sub/test_Api.py", &["test_get", "TestHttp::test_put"]), file("sub/test_b.py", &["test_get"])];
    let kept = apply_keyword(&files, &parse("api and not put").unwrap());
    assert_eq!(kept[0].tests, owned(&["test_get"]));
    assert!(kept[1].tests.is_empty());
    let kept = apply_keyword(&files, &parse("sub").unwrap());
    assert!(kept[0].tests.is_empty());
}

#[test]
fn roots_fall_back_to_testpaths_and_the_working_directory() {
    let options = ini_section("[pytest]\ntestpaths = missing suite\n", "pytest").unwrap();
    let config = Config::build(FilePath::parse("/w"), None, &options);
    let mut known: PathMap<Entry> = PathMap::new();
    let cwd = FilePath::parse("/w/here");
    let empty = Disk { known: PathMap::new(), complete: true };
    let roots = resolve_roots(&empty, Vec::new(), &config, &cwd).unwrap();
    assert_eq!(roots.len(), 1);
    assert_eq!(roots[0].display(), "/w/here");
    known.add(FilePath::parse("/w/suite"), Entry::Folder);
    let disk = Disk { known, complete: true };
    let roots = resolve_roots(&disk, Vec::new(), &config, &cwd).unwrap();
    assert_eq!(roots.len(), 1);
    assert_eq!(roots[0].display(), "/w/suite");
    let roots = resolve_roots(&disk, vec![FilePath::parse("x")], &config, &cwd).unwrap();
    assert_eq!(roots[0].display(), "x");
    let unknown = Disk { known: PathMap::new(), complete: false };
    assert_eq!(
        resolve_roots(&unknown, Vec::new(), &config, &cwd).unwrap_err().display(),
        "/w/missing"
    );
}

#[test]
fn the_cache_gives_back_what_was_written() {
    let entries = owned(&["a.py::test_x", "b.py::test_y[a b]"]);
    let text = lastfailed_text(&entries);
    assert_eq!(text, "a.py::test_x\nb.py::test_y[a b]\n");
    assert_eq!(parse_lastfailed(&text), entries);
    assert_eq!(lastfailed_text(&Vec::new()), "");
    assert!(parse_lastfailed("").is_empty());
    assert_eq!(parse_lastfailed("a\r\n \n\nb"), owned(&["a", "b"]));
    assert_eq!(lastfailed_path(&plain_config()).display(), "/w/.cito/lastfailed");
}

#[test]
fn the_cache_clears_as_tests_pass() {
    let previous = owned(&["a.py::test_x", "ab.py::test_x", "c.py::test_y"]);
    assert_eq!(
        merge_lastfailed(&previous, &owned(&["a.py", "c.py"]), &owned(&["c.py::test_z", "ab.py::test_x"])),
        owned(&["ab.py::test_x", "c.py::test_z"])
    );
}

#[test]
fn only_last_failures_are_kept() {
    let files = vec![file("a.py", &["test_x", "test_y"]), file("b.py", &["test_x"])];
    let previous = owned(&["a.py::test_y[1]"]);
    assert!(file_has_failure(&files[0], &previous));
    assert!(!file_has_failure(&files[1], &previous));
    let kept = filter_lastfailed(&files, &previous);
    assert_eq!(kept[0].tests, owned(&["test_y"]));
    assert!(kept[1].tests.is_empty());
    let kept = filter_lastfailed(&files, &Vec::new());
    assert_eq!(kept.len(), 2);
    assert_eq!((kept[0].path.as_str(), kept[1].path.as_str()), ("a.py", "b.py"));
    assert!(kept[0].tests.is_empty() && kept[1].tests.is_empty());
    assert!(last_failures(&files, &Vec::new()).is_none());
    let kept = last_failures(&files, &previous).unwrap();
    assert_eq!(kept[0].tests, owned(&["test_y"]));
    assert!(kept[1].tests.is_empty());
}

#[test]
fn failed_files_run_first_then_changed_then_recent_ones() {
    let files = vec![
        file("old.py", &["t"]),
        file("new.py", &["t"]),
        file("changed.py", &["t"]),
        file("failed.py", &["t"]),
        file("also_old.py", &["t"]),
    ];
    let ordered = order_files(
        &files,
        &owned(&["failed.py::t"]),
        &owned(&["changed.py"]),
        &vec![1, 9, 1, 1, 1],
    );
    let names: Vec<String> = ordered.iter().map(|f| f.path.clone()).collect();
    assert_eq!(names, owned(&["failed.py", "changed.py", "new.py", "old.py", "also_old.py"]));
}

#[test]
fn exit_codes_follow_pytest() {
    assert_eq!(exit_code(0, 0), 5);
    assert_eq!(exit_code(3, 0), 0);
    assert_eq!(exit_code(3, 2), 1);
}

#[test]
fn counts_and_running_files() {
    let files = vec![file("a.py", &["x", "y"]), file("b.py", &[]), file("c.py", &["z"])];
    assert_eq!(count_tests(&files), 3);
    assert_eq!(running_files(&files), owned(&["a.py", "c.py"]));
}

#[test]
fn watched_changes_rerun_test_files_and_purge_sources() {
    let config = plain_config();
    let changed: Vec<FilePath> = ["/w/test_b.py", "/w/lib.py", "/w/.git/test_x.py", "/w/notes.txt"]
        .iter()
        .map(|p| FilePath::parse(p))
        .collect();
    let reaction = react(&owned(&["/w/zed.py", "/w/lib.py"]), &changed, &config);
    assert_eq!(reaction.purge, owned(&["/w/lib.py", "/w/test_b.py", "/w/zed.py"]));
    assert_eq!(reaction.tests.len(), 1);
    assert_eq!(reaction.tests[0].display(), "/w/test_b.py");
    let quiet = react(&Vec::new(), &vec![FilePath::parse("/w/lib.py")], &config);
    assert!(quiet.tests.is_empty());
    assert_eq!(quiet.purge, owned(&["/w/lib.py"]));
}

#[test]
fn changed_contents_are_found_and_recorded() {
    let mut kept = parse_hashes("00ff a.py\n0abc my file.py\n");
    assert_eq!(kept.get("my file.py"), Some(&"0abc".to_string()));
    assert_eq!(hashes_text(&kept), "00ff a.py\n0abc my file.py\n");
    let current = parse_hashes("00fe a.py\n1111 new.py\n");
    let none = Vec::new();
    assert_eq!(changed_files(&kept, &current, &none), owned(&["a.py", "new.py"]));
    record(&mut kept, &current, &none);
    assert!(changed_files(&kept, &current, &none).is_empty());
    assert_eq!(hashes_text(&kept), "00fe a.py\n0abc my file.py\n1111 new.py\n");
    assert!(parse_hashes("nospace\n\n").entries.is_empty());
    assert_eq!(hashes_path(&plain_config()).display(), "/w/.cito/hashes");
}

#[test]
fn files_that_vanish_have_changed_once() {
    let mut kept = parse_hashes("00ff a.py\n0abc gone.py\n");
    let current = parse_hashes("00ff a.py\n");
    let missing = owned(&["gone.py", "never.py"]);
    assert_eq!(changed_files(&kept, &current, &missing), owned(&["gone.py"]));
    record(&mut kept, &current, &missing);
    assert_eq!(hashes_text(&kept), "00ff a.py\n");
    assert!(changed_files(&kept, &current, &missing).is_empty());
}
