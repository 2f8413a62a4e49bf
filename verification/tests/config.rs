//! Configuration files, discovery, and patterns.

use cito::config::{Config, Options};
use cito::discover::discovery_anchor;
use cito::facts::{Disk, Entry, PathMap};
use cito::options::{ini_section, load_config_file, pyproject_options, shell_split};
use cito::path::FilePath;
use cito::table::Table;
use cito::text::Strings;

fn values(options: &Options, key: &str) -> Vec<String> {
    options.get(key).unwrap().items.clone()
}

fn strings(items: &[&str]) -> Strings {
    Strings { items: items.iter().map(|s| s.to_string()).collect() }
}

#[test]
fn ini_parsing_with_continuations() {
    let text = "[pytest]\npython_files = check_*.py\nnorecursedirs =\n    skipme\n    other\n";
    let options = ini_section(text, "pytest").unwrap();
    assert_eq!(values(&options, "python_files"), vec!["check_*.py"]);
    assert_eq!(values(&options, "norecursedirs"), vec!["skipme", "other"]);
}

#[test]
fn missing_section_is_none() {
    assert!(ini_section("[other]\nx = 1\n", "pytest").is_none());
}

#[test]
fn pyproject_arrays_and_strings() {
    let text = "[tool.pytest.ini_options]\npython_files = [\"check_*.py\", \"spec_*.py\"]\ntestpaths = \"suite lib\"\n";
    let options = pyproject_options(text).unwrap();
    assert_eq!(values(&options, "python_files"), vec!["check_*.py", "spec_*.py"]);
    assert_eq!(values(&options, "testpaths"), vec!["suite", "lib"]);
}

#[test]
fn pyproject_tool_pytest_table() {
    let text = "[tool.pytest]\npython_classes = [\"Test\", \"Acceptance\"]\ntestpaths = [\"testing\"]\n";
    let options = pyproject_options(text).unwrap();
    assert_eq!(values(&options, "python_classes"), vec!["Test", "Acceptance"]);
    assert_eq!(values(&options, "testpaths"), vec!["testing"]);
}

#[test]
fn default_patterns() {
    let config = Config::build(FilePath::parse("."), None, &Table::new());
    assert!(config.is_test_file("test_x.py", None));
    assert!(config.is_test_file("x_test.py", None));
    assert!(!config.is_test_file("x.py", None));
    assert!(config.class_matches("TestFoo"));
    assert!(!config.class_matches("Foo"));
    assert!(config.function_matches("testfoo"));
    assert!(config.function_matches("test_foo"));
    assert!(!config.function_matches("foo_test"));
}

#[test]
fn prefix_and_path_patterns() {
    let mut options: Options = Table::new();
    options.insert(
        "python_files".to_string(),
        strings(&["test_*.py", "testing/python/*.py"]),
    );
    options.insert("python_classes".to_string(), strings(&["Test", "Acceptance"]));
    options.insert(
        "norecursedirs".to_string(),
        strings(&[".*", "testing/example_scripts"]),
    );
    let config = Config::build(FilePath::parse("/r"), None, &options);
    assert!(config.is_test_file("approx.py", Some(&FilePath::parse("testing/python/approx.py"))));
    assert!(!config.is_test_file("approx.py", Some(&FilePath::parse("other/approx.py"))));
    assert!(config.class_matches("AcceptanceThing"));
    assert!(config.skip_dir(
        &FilePath::parse("/r/testing/example_scripts"),
        Some(&FilePath::parse("testing/example_scripts")),
        false
    ));
    assert!(!config.skip_dir(
        &FilePath::parse("/r/testing/other"),
        Some(&FilePath::parse("testing/other")),
        false
    ));
}

#[test]
fn virtual_environments_are_skipped_whatever_their_name() {
    let config = Config::build(FilePath::parse("/r"), None, &Table::new());
    let dir = FilePath::parse("/r/tools");
    assert!(config.skip_dir(&dir, None, true));
    assert!(!config.skip_dir(&dir, None, false));
    assert!(!config.enters_dir(&dir, false, true));
    assert!(config.enters_dir(&dir, true, true));
    assert!(config.enters_dir(&dir, false, false));
    assert!(!config.enters_dir(&FilePath::parse("/r/__pycache__"), false, false));
}

#[test]
fn walked_files_are_taken_by_name_and_path() {
    let mut options: Options = Table::new();
    options.insert("python_files".to_string(), strings(&["testing/python/*.py"]));
    let config = Config::build(FilePath::parse("/r"), None, &options);
    assert!(config.takes_file(&FilePath::parse("/r/testing/python/approx.py")));
    assert!(!config.takes_file(&FilePath::parse("/r/other/approx.py")));
    assert!(!config.takes_file(&FilePath::parse("/else/approx.py")));
    assert!(!config.takes_file(&FilePath::parse("/r/testing/python/approx.txt")));
}

#[test]
fn paths_relative_to_the_rootdir() {
    let config = Config::build(FilePath::parse("/r"), None, &Table::new());
    let rel = config.relative_to_root(&FilePath::parse("/r/a/b.py")).unwrap();
    assert_eq!(rel.display(), "a/b.py");
    assert!(config.relative_to_root(&FilePath::parse("/q/a/b.py")).is_none());
}

#[test]
fn addopts_are_split_like_a_shell_does() {
    assert_eq!(
        shell_split("-m 'not slow' -k \"a or b\" --x"),
        vec!["-m", "not slow", "-k", "a or b", "--x"]
    );
    assert!(shell_split("   ").is_empty());
}

#[test]
fn flags_inside_addopts() {
    let options = ini_section("[pytest]\naddopts = -m 'not slow' -k=http -m unit\n", "pytest").unwrap();
    let config = Config::build(FilePath::parse("/r"), None, &options);
    assert_eq!(config.addopts_flag("-m"), Some("unit".to_string()));
    assert_eq!(config.addopts_flag("-k"), Some("http".to_string()));
    assert_eq!(config.addopts_flag("-x"), None);
    assert_eq!(
        cito::schedule::effective_flag(Some("cli".to_string()), &config, "-m"),
        Some("cli".to_string())
    );
    assert_eq!(cito::schedule::effective_flag(None, &config, "-m"), Some("unit".to_string()));
    assert!(!cito::schedule::uses_xdist(&config));
    let nested = ini_section("[pytest]\naddopts = -n auto\n", "pytest").unwrap();
    let config = Config::build(FilePath::parse("/r"), None, &nested);
    assert!(cito::schedule::uses_xdist(&config));
}

#[test]
fn each_kind_of_file_is_read_its_own_way() {
    assert!(load_config_file("pytest.ini", "").is_some());
    assert!(load_config_file("setup.cfg", "[pytest]\nx = 1\n").is_none());
    assert!(load_config_file("setup.cfg", "[tool:pytest]\nx = 1\n").is_some());
    assert!(load_config_file("tox.ini", "[tox]\n").is_none());
    assert!(load_config_file("tox.ini", "[pytest]\n").is_some());
    assert!(load_config_file("pyproject.toml", "[project]\n").is_none());
    assert!(load_config_file("pyproject.toml", "not toml").is_none());
    assert!(load_config_file("pyproject.toml", "[tool.pytest]\n").is_none());
    assert!(load_config_file("pyproject.toml", "[tool.pytest]\nx = 1\n").is_some());
    assert!(load_config_file("pytest.toml", "").is_some());
    assert!(load_config_file("pytest.toml", "= no").is_none());
    assert!(load_config_file("other.ini", "[pytest]\n").is_none());
    let native = load_config_file(".pytest.toml", "[pytest]\ntestpaths = [\"a\"]\n").unwrap();
    assert_eq!(values(&native, "testpaths"), vec!["a"]);
}

fn disk(files: &[(&str, &str)]) -> Disk {
    let mut known: PathMap<Entry> = PathMap::new();
    for (path, text) in files {
        let path = FilePath::parse(path);
        let mut dir = path.parent();
        while let Some(d) = dir {
            known.add(d.copy(), Entry::Folder);
            dir = d.parent();
        }
        known.add(path, Entry::File(text.to_string()));
    }
    Disk { known, complete: true }
}

fn discover(files: &[(&str, &str)], cwd: &str, args: &[&str]) -> Config {
    let args: Vec<FilePath> = args.iter().map(|a| FilePath::parse(a)).collect();
    Config::discover_for(&disk(files), &FilePath::parse(cwd), &args).unwrap()
}

#[test]
fn discovery_finds_the_nearest_configuration_above() {
    let files = [
        ("/w/pytest.ini", "[pytest]\ntestpaths = a\n"),
        ("/w/sub/deep/test_a.py", ""),
        ("/w/sub/setup.cfg", "[metadata]\n"),
    ];
    let config = discover(&files, "/w/sub/deep", &[]);
    assert_eq!(config.rootdir.display(), "/w");
    assert_eq!(config.source.unwrap().display(), "/w/pytest.ini");
    assert_eq!(config.testpaths, vec!["a"]);
}

#[test]
fn a_sectionless_pyproject_is_a_last_resort() {
    let files = [
        ("/w/tox.ini", "[pytest]\n"),
        ("/w/sub/pyproject.toml", "[project]\nname = \"x\"\n"),
        ("/w/sub/test_a.py", ""),
    ];
    assert_eq!(discover(&files, "/w/sub", &[]).rootdir.display(), "/w");
    assert_eq!(discover(&files[1..], "/w/sub", &[]).rootdir.display(), "/w/sub");
}

#[test]
fn setup_py_and_arguments_decide_without_a_configuration() {
    let files = [("/w/p/setup.py", ""), ("/w/p/tests/test_a.py", "")];
    let config = discover(&files, "/w", &["/w/p/tests/test_a.py"]);
    assert_eq!(config.rootdir.display(), "/w/p");
    assert!(config.source.is_none());
    let files = [
        ("/w/a/pytest.ini", "[pytest]\n"),
        ("/w/a/test_a.py", ""),
        ("/w/b/test_b.py", ""),
    ];
    let config = discover(&files, "/w", &["/w/a", "/w/b"]);
    assert_eq!(config.rootdir.display(), "/w/a");
}

#[test]
fn discovery_asks_for_what_it_does_not_know() {
    let empty = Disk { known: PathMap::new(), complete: false };
    let asked = Config::discover(&empty, &FilePath::parse("/w")).unwrap_err();
    assert_eq!(asked.display(), "/w");
}

#[test]
fn ini_sections_need_their_header() {
    assert!(ini_section("", "pytest").is_none());
    assert!(ini_section("testpaths = a\n", "pytest").is_none());
    assert!(ini_section("# [pytest]\n", "pytest").is_none());
    assert!(ini_section("[pytest\n", "pytest").is_none());
    let empty = ini_section("  [ pytest ]  \n", "pytest").unwrap();
    assert!(empty.entries.is_empty());
}

fn ini_values(text: &str, key: &str) -> Option<Vec<String>> {
    ini_section(text, "pytest").unwrap().get(key).map(|v| v.items.clone())
}

#[test]
fn ini_lines_of_other_sections_say_nothing() {
    let text = "testpaths = top\n[a]\nx = 1\n  more\n[pytest]\nx = 2\n[b]\nx = 3\n  y\n[pytest]\ny = 4\n";
    assert_eq!(ini_values(text, "x"), Some(vec!["2".to_string()]));
    assert_eq!(ini_values(text, "y"), Some(vec!["4".to_string()]));
    assert_eq!(ini_values(text, "testpaths"), None);
}

#[test]
fn ini_settings_that_come_later_count_alone() {
    let text = "[pytest]\ntestpaths = a\n  b\n  c\ntestpaths = d\n  e\n";
    assert_eq!(ini_values(text, "testpaths"), Some(vec!["d".to_string(), "e".to_string()]));
    let text = "[pytest]\ntestpaths = a\n[x]\n[pytest]\ntestpaths = b\n";
    assert_eq!(ini_values(text, "testpaths"), Some(vec!["b".to_string()]));
}

#[test]
fn ini_comments_and_blank_lines_say_nothing() {
    let bare = "[pytest]\ntestpaths = a\n  b\n";
    let full = "; one\n\n[pytest]\n  # two\ntestpaths = a\n\n \t\n  ; three = 3\n  b\n# x = 1\n";
    assert_eq!(ini_values(full, "testpaths"), ini_values(bare, "testpaths"));
    assert_eq!(
        ini_section(full, "pytest").unwrap().entries.len(),
        ini_section(bare, "pytest").unwrap().entries.len()
    );
}

#[test]
fn the_search_is_anchored_at_the_common_ancestor() {
    let files = disk(&[("/w/a/b/test_x.py", ""), ("/w/a/c/test_y.py", "")]);
    let cwd = FilePath::parse("/elsewhere");
    let anchor = |paths: &[&str]| {
        let paths = paths.iter().map(|p| FilePath::parse(p)).collect();
        discovery_anchor(&files, &paths, &cwd).unwrap().display()
    };
    assert_eq!(anchor(&[]), "/elsewhere");
    assert_eq!(anchor(&["/w/a/b/test_x.py"]), "/w/a/b");
    assert_eq!(anchor(&["/w/a/b/test_x.py", "/w/a/c/test_y.py"]), "/w/a");
    assert_eq!(anchor(&["/w/a/b", "/w/missing"]), "/w");
}
