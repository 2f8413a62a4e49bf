//! Which tests a change can reach.

use cito::collector::{collect, FileTests};
use cito::config::Config;
use cito::facts::{Disk, Entry, PathMap};
use cito::impact::{filter_impacted, impact_closures, is_impacted, Impact};
use cito::path::FilePath;
use cito::resolve::{Knowledge, Loaded, Query};
use cito::scan::parse_source;

const FILES: [(&str, &str); 8] = [
    ("pytest.ini", "[pytest]\n"),
    ("conftest.py", "import pytest\n"),
    ("pkg/__init__.py", ""),
    ("pkg/core.py", "def run():\n    return 1\n"),
    ("pkg/util.py", "from pkg import core\n\ndef use():\n    return core.run()\n"),
    ("test_core.py", "from pkg.core import run\n\ndef test_run():\n    assert run() == 1\n"),
    ("test_util.py", "import pkg.util\n\ndef test_use():\n    pass\n"),
    ("test_free.py", "import json\n\ndef test_free():\n    pass\n"),
];

fn closures() -> Vec<Impact> {
    closures_in(&FILES)
}

/// The closures of the test files of a project. A file that is no Python is
/// there and has no module.
fn closures_in(project: &[(&str, &str)]) -> Vec<Impact> {
    let (k, config, files) = project_of(project);
    impact_closures(&k, &config, &files).unwrap()
}

fn project_of(project: &[(&str, &str)]) -> (Knowledge, Config, Vec<FileTests>) {
    let root = FilePath::parse("/work/impact");
    let mut known: PathMap<Entry> = PathMap::new();
    known.add(root.copy(), Entry::Folder);
    let mut k = Knowledge::new(&root, Vec::new(), false);
    let mut tests = Vec::new();
    for (name, text) in project.iter() {
        let path = root.join(&FilePath::parse(name));
        known.add(path.copy(), Entry::File(text.to_string()));
        k.files.add(path.copy(), true);
        if path.has_extension("py") {
            let module = match parse_source(&path, text, "linux") {
                Ok(module) => Loaded::Parsed(module),
                Err(_) => Loaded::Nothing,
            };
            k.modules.add(path.copy(), module);
        }
        if name.starts_with("test_") {
            tests.push(path);
        }
    }
    k.complete = true;
    let config = Config::discover(&Disk { known, complete: true }, &root).unwrap();
    let files: Vec<FileTests> = collect(&k, &config, &tests, None).unwrap();
    (k, config, files)
}

fn closure_of(file: &str) -> Vec<String> {
    closure_in(closures(), file)
}

fn closure_in(impacts: Vec<Impact>, file: &str) -> Vec<String> {
    for impact in impacts {
        if impact.file == file {
            return impact.closure;
        }
    }
    panic!("{file} has no closure")
}

fn holds(closure: &[String], name: &str) -> bool {
    closure.iter().any(|n| n == name)
}

#[test]
fn closure_contains_direct_project_import() {
    let core = closure_of("test_core.py");
    assert!(holds(&core, "test_core.py"));
    assert!(holds(&core, "pkg/core.py"));
}

#[test]
fn closure_is_transitive_through_project_modules() {
    let util = closure_of("test_util.py");
    assert!(holds(&util, "pkg/util.py"));
    assert!(
        holds(&util, "pkg/core.py"),
        "test_util imports pkg.util which imports pkg.core"
    );
}

#[test]
fn unrelated_test_is_not_impacted_by_package_files() {
    let free = closure_of("test_free.py");
    assert!(holds(&free, "test_free.py"));
    assert!(!holds(&free, "pkg/core.py"));
    assert!(!holds(&free, "pkg/util.py"));
}

#[test]
fn conftest_and_config_join_every_closure() {
    let all = closures();
    assert_eq!(all.len(), 3);
    for impact in &all {
        let file = &impact.file;
        assert!(holds(&impact.closure, "conftest.py"), "{file} misses conftest");
        assert!(holds(&impact.closure, "pytest.ini"), "{file} misses config");
    }
}

#[test]
fn a_change_runs_the_tests_it_reaches_and_no_others() {
    let changed = vec!["pkg/core.py".to_string()];
    let hit: Vec<String> = closures()
        .into_iter()
        .filter(|impact| is_impacted(&impact.closure, &changed))
        .map(|impact| impact.file)
        .collect();
    assert_eq!(hit, vec!["test_core.py", "test_util.py"]);
    let all = closures();
    let files: Vec<FileTests> = all
        .iter()
        .map(|impact| FileTests {
            path: impact.file.clone(),
            abs_path: FilePath::parse("/work/impact").child(&impact.file),
            tests: vec!["test".to_string()],
        })
        .collect();
    let kept: Vec<String> =
        filter_impacted(&files, &all, &changed).into_iter().map(|f| f.path).collect();
    assert_eq!(kept, vec!["test_core.py", "test_util.py"]);
    assert!(filter_impacted(&files, &all, &Vec::new()).is_empty());
    assert!(!closures().iter().any(|impact| is_impacted(&impact.closure, &Vec::new())));
}

#[test]
fn imports_in_functions_classes_and_loops_count() {
    let project = [
        ("a.py", ""),
        ("b.py", ""),
        ("c.py", ""),
        ("d.py", ""),
        ("e.py", ""),
        ("f.py", ""),
        (
            "test_x.py",
            "def test_x():\n    import a\n    for i in range(3):\n        import b\n\nclass TestY:\n    import c\n\n    def test_y(self):\n        if True:\n            from d import thing\n        else:\n            pass\n\nwhile False:\n    import e\n\nmatch 1:\n    case 1:\n        import f\n",
        ),
    ];
    let x = closure_in(closures_in(&project), "test_x.py");
    for name in ["a.py", "b.py", "c.py", "d.py", "e.py", "f.py"] {
        assert!(holds(&x, name), "{name}");
    }
    let module = parse_source(&FilePath::parse("/w/test_x.py"), project[6].1, "linux").unwrap();
    assert!(module.imports.get("a").is_none());
}

#[test]
fn relative_imports_load_the_packages_on_the_way() {
    let project = [
        ("tests/__init__.py", ""),
        ("tests/sub/__init__.py", ""),
        ("tests/sub/mod.py", ""),
        ("tests/test_x.py", "from .sub.mod import thing\n\ndef test_x():\n    pass\n"),
        ("tests/in/__init__.py", ""),
        ("tests/in/test_y.py", "from ..sub import mod\n\ndef test_y():\n    pass\n"),
    ];
    let mut named = project.to_vec();
    named.push(("test_root.py", "def test_root():\n    pass\n"));
    let (k, config, _) = project_of(&named);
    let tests: Vec<FileTests> = ["tests/test_x.py", "tests/in/test_y.py"]
        .iter()
        .map(|name| FileTests {
            path: name.to_string(),
            abs_path: FilePath::parse("/work/impact").join(&FilePath::parse(name)),
            tests: Vec::new(),
        })
        .collect();
    for impact in impact_closures(&k, &config, &tests).unwrap() {
        for name in ["tests/__init__.py", "tests/sub/__init__.py", "tests/sub/mod.py"] {
            assert!(holds(&impact.closure, name), "{} misses {name}", impact.file);
        }
    }
}

#[test]
fn the_packages_around_a_file_reach_its_tests() {
    let project = [
        ("pkg/__init__.py", ""),
        ("pkg/sub/__init__.py", ""),
        ("pkg/sub/test_x.py", "def test_x():\n    pass\n"),
        ("test_y.py", "def test_y():\n    pass\n"),
    ];
    let (k, config, mut files) = project_of(&project);
    files.push(FileTests {
        path: "pkg/sub/test_x.py".to_string(),
        abs_path: FilePath::parse("/work/impact/pkg/sub/test_x.py"),
        tests: Vec::new(),
    });
    let impacts = impact_closures(&k, &config, &files).unwrap();
    assert_eq!(impacts[0].closure, vec!["test_y.py"]);
    assert!(holds(&impacts[1].closure, "pkg/sub/__init__.py"));
    assert!(holds(&impacts[1].closure, "pkg/__init__.py"));
}

#[test]
fn files_that_do_not_parse_still_reach_tests() {
    let project = [
        ("conftest.py", "def broken(:\n"),
        ("pkg/__init__.py", ""),
        ("pkg/core.py", "def broken(:\n"),
        ("test_x.py", "from pkg.core import run\n\ndef test_x():\n    pass\n"),
    ];
    let x = closure_in(closures_in(&project), "test_x.py");
    assert!(holds(&x, "pkg/core.py"));
    assert!(holds(&x, "conftest.py"));
}

#[test]
fn files_that_are_gone_still_reach_the_tests_that_import_them() {
    let project = [
        ("pkg/__init__.py", ""),
        ("test_x.py", "from pkg import core\n\ndef test_x():\n    pass\n"),
        ("test_y.py", "def test_y():\n    pass\n"),
    ];
    let (mut k, config, files) = project_of(&project);
    for name in ["pkg/core.py", "conftest.py"] {
        k.gone.add(FilePath::parse("/work/impact").join(&FilePath::parse(name)), true);
    }
    let impacts = impact_closures(&k, &config, &files).unwrap();
    assert!(holds(&impacts[0].closure, "pkg/core.py"));
    assert!(!holds(&impacts[1].closure, "pkg/core.py"));
    assert!(holds(&impacts[1].closure, "conftest.py"));
}

#[test]
fn installed_packages_are_stable() {
    let project = [
        (".venv/lib/site-packages/dep.py", ""),
        ("test_x.py", "import dep\n\ndef test_x():\n    pass\n"),
    ];
    let (mut k, config, files) = project_of(&project);
    k.sys_paths.push(FilePath::parse("/work/impact/.venv/lib/site-packages"));
    let impacts = impact_closures(&k, &config, &files).unwrap();
    assert_eq!(impacts[0].closure, vec!["test_x.py"]);
}

#[test]
fn what_is_not_known_of_a_test_file_is_asked_for() {
    let root = FilePath::parse("/work/impact");
    let (_, config, files) = project_of(&[("test_x.py", "import a\n\ndef test_x():\n    pass\n")]);
    let mut k = Knowledge::new(&root, Vec::new(), false);
    let path = root.child("test_x.py");
    match impact_closures(&k, &config, &files) {
        Err(Query::Module(asked)) => assert!(asked.equals(&path)),
        other => panic!("{other:?}"),
    }
    let module = parse_source(&path, "import a\n", "linux").unwrap();
    k.modules.add(path, Loaded::Parsed(module));
    let mut asked = Vec::new();
    loop {
        match impact_closures(&k, &config, &files) {
            Ok(impacts) => {
                assert!(holds(&impacts[0].closure, "a.py"));
                break;
            }
            Err(Query::IsFile(p)) => {
                let name = p.display();
                k.files.add(p, name == "/work/impact/a.py");
                asked.push(name);
            }
            Err(Query::Module(p)) => {
                assert_eq!(p.display(), "/work/impact/a.py");
                k.modules.add(p, Loaded::Nothing);
            }
            Err(Query::Probe(name)) => panic!("{name}"),
        }
    }
    assert!(asked.iter().any(|name| name == "/work/impact/src/a.py"));
}
