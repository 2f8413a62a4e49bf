//! Whole trees, from configuration discovery to node IDs.

use cito::collector::{collect, collect_source, demanded_modules, is_left_out, FileTests};
use cito::config::Config;
use cito::facts::{Disk, Entry, PathMap};
use cito::keyword::{parse, KExpr};
use cito::path::{sort_paths, FilePath};
use cito::resolve::{Knowledge, Loaded, Query};
use cito::scan::parse_source;

const OS: &str = "linux";

struct Tree {
    root: FilePath,
    disk: Disk,
    texts: Vec<(FilePath, String)>,
}

fn tree(root: &str, files: &[(&str, &str)]) -> Tree {
    let root = FilePath::parse(root);
    let mut known: PathMap<Entry> = PathMap::new();
    let mut texts = Vec::new();
    known.add(root.copy(), Entry::Folder);
    for (name, text) in files {
        let path = root.join(&FilePath::parse(name));
        let mut dir = path.parent().unwrap();
        while !dir.equals(&root) {
            known.add(dir.copy(), Entry::Folder);
            dir = dir.parent().unwrap();
        }
        known.add(path.copy(), Entry::File(text.to_string()));
        texts.push((path, text.to_string()));
    }
    Tree { root, disk: Disk { known, complete: true }, texts }
}

impl Tree {
    fn config(&self) -> Config {
        Config::discover(&self.disk, &self.root).unwrap()
    }

    fn knowledge(&self, probes: Option<&[(&str, bool)]>) -> Knowledge {
        let mut k = Knowledge::new(&self.root, Vec::new(), probes.is_some());
        for (path, text) in &self.texts {
            k.files.add(path.copy(), true);
            if path.has_extension("py") {
                let loaded = match parse_source(path, text, OS) {
                    Ok(module) => Loaded::Parsed(module),
                    Err(_) => Loaded::Nothing,
                };
                k.modules.add(path.copy(), loaded);
            }
        }
        for (name, ok) in probes.unwrap_or(&[]) {
            k.probes.insert(name.to_string(), *ok);
        }
        k.complete = true;
        k
    }

    fn test_files(&self, config: &Config, below: &FilePath) -> Vec<FilePath> {
        let mut out = Vec::new();
        for (path, _) in &self.texts {
            let mut entered = path.starts_with(below);
            let mut dir = path.parent().unwrap();
            while entered && !dir.equals(below) {
                entered = config.enters_dir(&dir, false, false);
                dir = dir.parent().unwrap();
            }
            if entered && config.takes_file(path) {
                out.push(path.copy());
            }
        }
        sort_paths(out)
    }

    fn files(&self, marker: Option<&KExpr>, probes: Option<&[(&str, bool)]>) -> Vec<FileTests> {
        let config = self.config();
        let files = self.test_files(&config, &self.root);
        collect(&self.knowledge(probes), &config, &files, marker).unwrap()
    }
}

fn ids(files: &[FileTests]) -> Vec<String> {
    let mut out = Vec::new();
    for file in files {
        for test in &file.tests {
            out.push(format!("{}::{}", file.path, test));
        }
    }
    out
}

fn sorted(names: &[&str]) -> Vec<String> {
    let mut out: Vec<String> = names.iter().map(|s| s.to_string()).collect();
    out.sort();
    out
}

fn sorted_ids(files: &[FileTests]) -> Vec<String> {
    let mut out = ids(files);
    out.sort();
    out
}

fn inline(source: &str) -> Vec<String> {
    let t = tree("/nonexistent-cito-root", &[]);
    collect_source(source, &t.config(), &t.knowledge(None), OS).unwrap()
}

#[test]
fn collects_functions_classes_and_nesting() {
    let source = r#"
def test_one():
    pass

async def test_async():
    pass

def helper():
    pass

class TestThing:
    def test_method(self):
        pass

    class TestNested:
        def test_inner(self):
            pass

class TestWithInit:
    def __init__(self):
        pass

    def test_skipped(self):
        pass

class Plain:
    def test_not_collected(self):
        pass
"#;
    let tests = inline(source);
    assert_eq!(
        tests,
        vec![
            "test_one",
            "test_async",
            "TestThing::test_method",
            "TestThing::TestNested::test_inner",
        ]
    );
}

#[test]
fn same_module_inheritance_and_unittest() {
    let source = r#"
import unittest

class Base:
    def test_from_base(self):
        pass

    def helper(self):
        pass

class TestChild(Base):
    def test_own(self):
        pass

class LegacySuite(unittest.TestCase):
    def test_unittest_style(self):
        pass

    def not_a_test(self):
        pass
"#;
    let tests = inline(source);
    assert_eq!(
        tests,
        vec![
            "TestChild::test_own",
            "TestChild::test_from_base",
            "LegacySuite::test_unittest_style",
        ]
    );
}

#[test]
fn parametrize_literals_expand() {
    let source = r#"
import pytest

@pytest.mark.parametrize("x", [1, 2])
def test_ints(x):
    pass

@pytest.mark.parametrize("f", [1.5])
def test_floats_fall_back(f):
    pass
"#;
    let tests = inline(source);
    assert_eq!(
        tests,
        vec!["test_ints[1]", "test_ints[2]", "test_floats_fall_back"]
    );
}

const INHERIT: &str = r#"
import unittest
from support.mixins import Mixin

class Middle(Mixin):
    def test_second_level(self):
        pass

class TestInherited(Middle):
    def test_own(self):
        pass

class TestOverride(Mixin):
    def test_from_mixin(self):
        pass

class LegacySuite(unittest.TestCase):
    def test_unittest_style(self):
        pass
"#;

const MARKS: &str = r#"
import pytest

@pytest.mark.slow
def test_marked_slow():
    pass

@pytest.mark.network
class TestMarkedClass:
    def test_net_call(self):
        pass
"#;

const PARAMS: &str = r#"
import pytest

@pytest.mark.parametrize("x", [1, 2, 3])
def test_ints(x):
    pass

@pytest.mark.parametrize("s", ["red", "blue"])
def test_strs(s):
    pass

@pytest.mark.parametrize("v", [None, True, False])
def test_specials(v):
    pass

@pytest.mark.parametrize("n,s", [(1, "a"), (2, "b")])
def test_pairs(n, s):
    pass

@pytest.mark.parametrize("n", [1, 2])
@pytest.mark.parametrize("s", ["x", "y"])
def test_stacked(n, s):
    pass

@pytest.mark.parametrize("f", [0.5, 1.5])
def test_floats(f):
    pass

@pytest.mark.parametrize("n", [1, 2], ids=["one", "two"])
def test_ids(n):
    pass

@pytest.mark.parametrize("c", [object(), object()])
def test_complex(c):
    pass

@pytest.mark.parametrize("p", [pytest.param(1), pytest.param(2, id="two"), 3])
def test_param_objects(p):
    pass

@pytest.mark.parametrize("ext", [pytest.param(".xlsx"), pytest.param(".ods")])
class TestClassParamObjects:
    def test_with_ext(self, ext):
        pass

class TestClsParams:
    @pytest.mark.parametrize("n", [1, 2])
    def test_m(self, n):
        pass

@pytest.mark.parametrize("c", ["p", "q"])
class TestClassLevel:
    def test_via_class(self, c):
        pass

    @pytest.mark.parametrize("n", [1, 2])
    def test_combined(self, c, n):
        pass
"#;

const SAMPLE: &str = r#"
def test_addition():
    assert 1 + 1 == 2

async def test_async_thing():
    pass

def testnounderscore():
    pass

def helper():
    pass

class TestWidget:
    def test_render(self):
        pass

    class TestNested:
        def test_inner(self):
            pass

class TestHasInit:
    def __init__(self):
        pass

    def test_never(self):
        pass
"#;

const CONDEPS: &str = r#"
import pytest

missing = pytest.importorskip("surely_missing_dep")

def test_needs_missing_dep():
    pass
"#;

fn basic() -> Tree {
    tree(
        "/work/basic",
        &[
            ("pytest.ini", "[pytest]\n"),
            ("helpers_test.py", "def test_suffix_pattern():\n    pass\n"),
            ("helpers.py", "def test_not_here():\n    pass\n"),
            ("sub/test_inner.py", "def test_in_subdir():\n    pass\n"),
            (
                "support/mixins.py",
                "class Mixin:\n    def test_from_mixin(self):\n        pass\n",
            ),
            ("support/__init__.py", ""),
            ("test_inherit.py", INHERIT),
            ("test_marks.py", MARKS),
            ("test_params.py", PARAMS),
            ("test_condeps.py", CONDEPS),
            ("test_sample.py", SAMPLE),
            ("build/test_artifact.py", "def test_artifact():\n    pass\n"),
            (".hidden/test_hidden.py", "def test_hidden():\n    pass\n"),
            ("__pycache__/test_cached.py", "def test_cached():\n    pass\n"),
        ],
    )
}

#[test]
fn basic_tree_matches_pytest() {
    let expected = sorted(&[
        "helpers_test.py::test_suffix_pattern",
        "sub/test_inner.py::test_in_subdir",
        "test_inherit.py::LegacySuite::test_unittest_style",
        "test_marks.py::test_marked_slow",
        "test_marks.py::TestMarkedClass::test_net_call",
        "test_inherit.py::TestInherited::test_own",
        "test_inherit.py::TestInherited::test_second_level",
        "test_inherit.py::TestInherited::test_from_mixin",
        "test_inherit.py::TestOverride::test_from_mixin",
        "test_params.py::test_ints[1]",
        "test_params.py::test_ints[2]",
        "test_params.py::test_ints[3]",
        "test_params.py::test_strs[red]",
        "test_params.py::test_strs[blue]",
        "test_params.py::test_specials[None]",
        "test_params.py::test_specials[True]",
        "test_params.py::test_specials[False]",
        "test_params.py::test_pairs[1-a]",
        "test_params.py::test_pairs[2-b]",
        "test_params.py::test_stacked[x-1]",
        "test_params.py::test_stacked[x-2]",
        "test_params.py::test_stacked[y-1]",
        "test_params.py::test_stacked[y-2]",
        "test_params.py::test_floats",
        "test_params.py::test_ids[one]",
        "test_params.py::test_ids[two]",
        "test_params.py::test_complex",
        "test_params.py::test_param_objects[1]",
        "test_params.py::test_param_objects[two]",
        "test_params.py::test_param_objects[3]",
        "test_params.py::TestClassParamObjects::test_with_ext[.xlsx]",
        "test_params.py::TestClassParamObjects::test_with_ext[.ods]",
        "test_params.py::TestClsParams::test_m[1]",
        "test_params.py::TestClsParams::test_m[2]",
        "test_params.py::TestClassLevel::test_via_class[p]",
        "test_params.py::TestClassLevel::test_via_class[q]",
        "test_params.py::TestClassLevel::test_combined[1-p]",
        "test_params.py::TestClassLevel::test_combined[2-p]",
        "test_params.py::TestClassLevel::test_combined[1-q]",
        "test_params.py::TestClassLevel::test_combined[2-q]",
        "test_condeps.py::test_needs_missing_dep",
        "test_sample.py::test_addition",
        "test_sample.py::test_async_thing",
        "test_sample.py::testnounderscore",
        "test_sample.py::TestWidget::test_render",
        "test_sample.py::TestWidget::TestNested::test_inner",
    ]);
    assert_eq!(sorted_ids(&basic().files(None, None)), expected);
}

#[test]
fn plugins_tree_matches_pytest() {
    let source = r#"
import pytest
from unittest import mock
from hypothesis import given, strategies as st

@pytest.mark.asyncio
async def test_asyncio_auto():
    pass

@given(st.integers())
def test_hypothesis_given(n):
    pass

@mock.patch("os.getcwd")
def test_mock_patch(getcwd):
    pass

@mock.patch("os.getcwd")
@pytest.mark.parametrize("n", [1, 2])
def test_mock_plus_params(getcwd, n):
    pass
"#;
    let t = tree("/work/plugins", &[("pytest.ini", "[pytest]\n"), ("test_plugins.py", source)]);
    let expected = sorted(&[
        "test_plugins.py::test_asyncio_auto",
        "test_plugins.py::test_hypothesis_given",
        "test_plugins.py::test_mock_patch",
        "test_plugins.py::test_mock_plus_params[1]",
        "test_plugins.py::test_mock_plus_params[2]",
    ]);
    assert_eq!(sorted_ids(&t.files(None, None)), expected);
}

#[test]
fn configured_tree_honors_pytest_ini() {
    let ini = "[pytest]\ntestpaths = suite\npython_files = check_*.py\npython_classes = Suite\n\
               python_functions = check_* spec_*\nnorecursedirs = skipme\n";
    let source = r#"
def check_one():
    pass

def spec_two():
    pass

def test_three():
    pass

class SuiteAlpha:
    def check_method(self):
        pass

class TestBeta:
    def check_never(self):
        pass
"#;
    let t = tree(
        "/work/configured",
        &[
            ("pytest.ini", ini),
            ("suite/check_alpha.py", source),
            ("suite/test_other.py", "def check_other():\n    pass\n"),
            ("suite/skipme/check_skipped.py", "def check_skipped():\n    pass\n"),
        ],
    );
    let config = t.config();
    let suite = t.root.child("suite");
    let roots =
        cito::commands::resolve_roots(&t.disk, Vec::new(), &config, &FilePath::parse("/else"))
            .unwrap();
    assert_eq!(roots.len(), 1);
    assert!(roots[0].equals(&suite));
    let files = t.test_files(&config, &suite);
    let found = collect(&t.knowledge(None), &config, &files, None).unwrap();
    let expected = sorted(&[
        "suite/check_alpha.py::check_one",
        "suite/check_alpha.py::spec_two",
        "suite/check_alpha.py::SuiteAlpha::check_method",
    ]);
    assert_eq!(sorted_ids(&found), expected);
}

// ---------------------------------------------------------------------------
// What is promised of collection
// ---------------------------------------------------------------------------

#[test]
fn probing_drops_modules_with_missing_dependencies() {
    let t = basic();
    let config = t.config();
    let files = t.test_files(&config, &t.root);
    let k = t.knowledge(Some(&[("surely_missing_dep", false)]));
    assert_eq!(demanded_modules(&k, &files).unwrap(), vec!["surely_missing_dep"]);
    let found = ids(&collect(&k, &config, &files, None).unwrap());
    assert!(!found.iter().any(|id| id.starts_with("test_condeps.py")));
    assert!(found.iter().any(|id| id == "test_sample.py::test_addition"));
    let k = t.knowledge(Some(&[("surely_missing_dep", true)]));
    let found = ids(&collect(&k, &config, &files, None).unwrap());
    assert!(found.iter().any(|id| id == "test_condeps.py::test_needs_missing_dep"));
}

#[test]
fn mark_expressions_deselect_at_collection_time() {
    let t = basic();
    let marker = parse("not slow").unwrap();
    let found = ids(&t.files(Some(&marker), None));
    assert!(!found.iter().any(|id| id == "test_marks.py::test_marked_slow"));
    assert!(found.iter().any(|id| id == "test_marks.py::TestMarkedClass::test_net_call"));
    let marker = parse("network").unwrap();
    assert_eq!(
        ids(&t.files(Some(&marker), None)),
        vec!["test_marks.py::TestMarkedClass::test_net_call"]
    );
}

#[test]
fn module_marks_and_mark_aliases_count() {
    let t = tree(
        "/w",
        &[
            ("marks.py", "import pytest\nslow = pytest.mark.slow\n"),
            (
                "test_m.py",
                "import pytest\nfrom marks import slow\npytestmark = pytest.mark.unit\n\n\
                 @slow\ndef test_a():\n    pass\n\ndef test_b():\n    pass\n",
            ),
        ],
    );
    let slow = parse("slow").unwrap();
    assert_eq!(ids(&t.files(Some(&slow), None)), vec!["test_m.py::test_a"]);
    let both = parse("unit and not slow").unwrap();
    assert_eq!(ids(&t.files(Some(&both), None)), vec!["test_m.py::test_b"]);
}

#[test]
fn later_definitions_shadow_earlier_ones() {
    assert_eq!(
        inline("def test_a():\n    pass\n\ndef test_b():\n    pass\n\ndef test_a():\n    pass\n"),
        vec!["test_b", "test_a"]
    );
}

#[test]
fn deleted_names_are_gone() {
    assert_eq!(
        inline("def test_a():\n    pass\n\ndef test_b():\n    pass\n\ndel test_a\n"),
        vec!["test_b"]
    );
}

#[test]
fn class_body_factories_are_fallback_methods() {
    assert_eq!(inline("class TestV:\n    test_x = make(1)\n"), vec!["TestV::test_x"]);
}

#[test]
fn hooks_in_scope_keep_tests_bare() {
    let source = "import pytest\n\ndef pytest_generate_tests(metafunc):\n    pass\n\n\
                  @pytest.mark.parametrize(\"x\", [1, 2])\ndef test_x(x):\n    pass\n\n\
                  @pytest.mark.parametrize(\"c\", [1])\nclass TestC:\n    \
                  def test_m(self, c):\n        pass\n";
    assert_eq!(inline(source), vec!["test_x", "TestC::test_m"]);
}

#[test]
fn parametrized_fixtures_keep_tests_bare() {
    let t = tree(
        "/w",
        &[
            (
                "conftest.py",
                "import pytest\n\n@pytest.fixture(params=[1, 2], name=\"db\")\n\
                 def make_db(request):\n    pass\n\n@pytest.fixture\ndef client(db):\n    pass\n",
            ),
            (
                "test_f.py",
                "import pytest\n\n@pytest.mark.parametrize(\"x\", [1])\n\
                 def test_direct(db, x):\n    pass\n\n\
                 @pytest.mark.parametrize(\"x\", [1])\ndef test_through(client, x):\n    pass\n\n\
                 @pytest.mark.parametrize(\"x\", [1])\ndef test_free(x):\n    pass\n",
            ),
        ],
    );
    assert_eq!(
        ids(&t.files(None, None)),
        vec!["test_f.py::test_direct", "test_f.py::test_through", "test_f.py::test_free[1]"]
    );
}

#[test]
fn unresolvable_ids_fall_back() {
    let source = "import pytest\n\n@pytest.mark.parametrize(\"x\", [1], ids=str)\n\
                  def test_x(x):\n    pass\n\n\
                  @pytest.mark.parametrize(\"x\", [\"a=b\"])\ndef test_y(x):\n    pass\n";
    assert_eq!(inline(source), vec!["test_x", "test_y[a=b]"]);
}

#[test]
fn imported_tests_are_collected_where_they_are_imported() {
    let t = tree(
        "/w",
        &[
            ("base.py", "def test_shared():\n    pass\n\nclass TestBase:\n    def test_m(self):\n        pass\n"),
            ("test_i.py", "from base import TestBase, test_shared\n\ndef test_own():\n    pass\n"),
        ],
    );
    assert_eq!(
        sorted_ids(&t.files(None, None)),
        sorted(&["test_i.py::TestBase::test_m", "test_i.py::test_own", "test_i.py::test_shared"])
    );
}

#[test]
fn bases_resolve_through_package_reexports() {
    let t = tree(
        "/w",
        &[
            ("tests/__init__.py", "import unittest\n"),
            ("tests/base/__init__.py", "from .ops import OpsTests\n"),
            ("tests/base/ops.py", "class OpsTests:\n    def test_op(self):\n        pass\n"),
            (
                "tests/test_ext.py",
                "from tests import base\nfrom tests import unittest\n\n\
                 class TestExt(base.OpsTests):\n    pass\n\n\
                 class Legacy(unittest.TestCase):\n    def test_u(self):\n        pass\n",
            ),
        ],
    );
    assert_eq!(
        ids(&t.files(None, None)),
        vec!["tests/test_ext.py::TestExt::test_op", "tests/test_ext.py::Legacy::test_u"]
    );
}

#[test]
fn collect_ignore_lists_are_honored() {
    let t = tree(
        "/w",
        &[
            (
                "conftest.py",
                "collect_ignore = [\"test_a.py\"]\ncollect_ignore_glob = [\"legacy/*\"]\n",
            ),
            ("test_a.py", "def test_a():\n    pass\n"),
            ("test_b.py", "def test_b():\n    pass\n"),
            ("legacy/test_c.py", "def test_c():\n    pass\n"),
        ],
    );
    assert_eq!(ids(&t.files(None, None)), vec!["test_b.py::test_b"]);
}

#[test]
fn platform_guards_are_evaluated() {
    let source = "import sys\n\nif sys.platform == \"win32\":\n    def test_win():\n        pass\n\
                  else:\n    def test_posix():\n        pass\n";
    assert_eq!(inline(source), vec!["test_posix"]);
}

#[test]
fn availability_flags_follow_the_probe() {
    let source = "try:\n    import umf\n    has_umf = True\nexcept ImportError:\n    \
                  has_umf = False\n\nif has_umf:\n    class TestUmf:\n        \
                  def test_x(self):\n            pass\n\ndef test_always():\n    pass\n";
    let t = tree("/w", &[("test_s.py", source)]);
    assert_eq!(
        ids(&t.files(None, Some(&[("umf", false)]))),
        vec!["test_s.py::test_always"]
    );
    assert_eq!(
        sorted_ids(&t.files(None, Some(&[("umf", true)]))),
        sorted(&["test_s.py::TestUmf::test_x", "test_s.py::test_always"])
    );
}

#[test]
fn broken_sources_have_no_tests() {
    let t = tree("/w", &[("test_bad.py", "def test_(:\n"), ("test_ok.py", "def test_ok():\n    pass\n")]);
    let files = t.files(None, None);
    assert_eq!(files.len(), 2);
    assert_eq!(files[0].path, "test_bad.py");
    assert!(files[0].tests.is_empty());
    assert_eq!(files[1].tests, vec!["test_ok"]);
    assert!(inline("def (").is_empty());
}

#[test]
fn ignored_paths_are_left_out() {
    let ignore = vec![FilePath::parse("/w/slow"), FilePath::parse("/w/test_x.py")];
    assert!(is_left_out(&FilePath::parse("/w/slow/test_a.py"), &ignore));
    assert!(is_left_out(&FilePath::parse("/w/test_x.py"), &ignore));
    assert!(!is_left_out(&FilePath::parse("/w/slower/test_a.py"), &ignore));
}

#[test]
fn unknown_modules_are_asked_for() {
    let t = tree("/w", &[]);
    let config = t.config();
    let mut k = Knowledge::new(&t.root, Vec::new(), false);
    let file = FilePath::parse("/w/test_a.py");
    match collect(&k, &config, &vec![file.copy()], None) {
        Err(Query::Module(path)) => assert!(path.equals(&file)),
        other => panic!("{other:?}"),
    }
    let module = parse_source(&file, "def test_a():\n    pass\n", OS).unwrap();
    k.modules.add(file.copy(), Loaded::Parsed(module));
    match collect(&k, &config, &vec![file.copy()], None) {
        Err(Query::Module(path)) => assert_eq!(path.display(), "/w/conftest.py"),
        other => panic!("{other:?}"),
    }
    k.modules.add(FilePath::parse("/w/conftest.py"), Loaded::Nothing);
    assert_eq!(ids(&collect(&k, &config, &vec![file], None).unwrap()), vec!["test_a.py::test_a"]);
}

#[test]
fn parse_errors_are_told() {
    let path = FilePath::parse("/w/test_a.py");
    let message = parse_source(&path, "def (\n", OS).unwrap_err();
    assert!(!message.is_empty());
}

#[test]
fn repeated_values_fall_back() {
    let source = "import pytest\n\n@pytest.mark.parametrize(\"x\", [True, True])\n\
                  def test_x(x):\n    pass\n\n\
                  @pytest.mark.parametrize(\"x\", [1, 2], ids=[\"a\", \"a\"])\n\
                  def test_y(x):\n    pass\n";
    assert_eq!(inline(source), vec!["test_x", "test_y"]);
}

#[test]
fn only_hypothesis_given_is_neutral() {
    let source = "import pytest\nimport hypothesis\nfrom hypothesis import given\n\n\
                  @hypothesis.given(1)\n@pytest.mark.parametrize(\"x\", [1])\n\
                  def test_a(x):\n    pass\n\n\
                  @given(1)\n@pytest.mark.parametrize(\"x\", [1])\n\
                  def test_b(x):\n    pass\n\n\
                  @x.given.y(1)\n@pytest.mark.parametrize(\"x\", [1])\n\
                  def test_c(x):\n    pass\n\n\
                  @other.given(1)\n@pytest.mark.parametrize(\"x\", [1])\n\
                  def test_d(x):\n    pass\n";
    assert_eq!(inline(source), vec!["test_a[1]", "test_b[1]", "test_c", "test_d"]);
}

#[test]
fn deleted_fixtures_hooks_and_marks_are_gone() {
    let params = "@pytest.mark.parametrize(\"x\", [1])\ndef test_x(x, db):\n    pass\n";
    let fixture = "import pytest\n\n@pytest.fixture(params=[1, 2], name=\"db\")\n\
                   def make_db(request):\n    pass\n\n";
    assert_eq!(inline(&format!("{fixture}{params}")), vec!["test_x"]);
    assert_eq!(inline(&format!("{fixture}{params}\ndel db\n")), vec!["test_x"]);
    assert_eq!(inline(&format!("{fixture}{params}\ndel make_db\n")), vec!["test_x[1]"]);
    // A branch that may not run leaves the doubt.
    assert_eq!(
        inline(&format!("{fixture}{params}\nif unknown:\n    del make_db\n")),
        vec!["test_x"]
    );
    let hook = "import pytest\n\ndef pytest_generate_tests(metafunc):\n    pass\n\n";
    assert_eq!(inline(&format!("{hook}{params}")), vec!["test_x"]);
    assert_eq!(
        inline(&format!("{hook}{params}\ndel pytest_generate_tests\n")),
        vec!["test_x[1]"]
    );
    let slow = parse("slow").unwrap();
    let marked = "import pytest\npytestmark = pytest.mark.slow\n\ndef test_a():\n    pass\n";
    let t = tree("/w", &[("test_m.py", marked)]);
    assert_eq!(ids(&t.files(Some(&slow), None)), vec!["test_m.py::test_a"]);
    let unmarked = format!("{marked}\ndel pytestmark\n");
    let t = tree("/w", &[("test_m.py", &unmarked)]);
    assert!(ids(&t.files(Some(&slow), None)).is_empty());
    let ignoring = "collect_ignore = [\"test_m.py\"]\n";
    let t = tree("/w", &[("conftest.py", ignoring), ("test_m.py", marked)]);
    assert!(ids(&t.files(None, None)).is_empty());
    let listed = format!("{ignoring}del collect_ignore\n");
    let t = tree("/w", &[("conftest.py", &listed), ("test_m.py", marked)]);
    assert_eq!(ids(&t.files(None, None)), vec!["test_m.py::test_a"]);
}

#[test]
fn hooks_of_a_conftest_keep_a_whole_module_bare() {
    let t = tree(
        "/w",
        &[
            ("conftest.py", "def pytest_generate_tests(metafunc):\n    pass\n"),
            (
                "base.py",
                "import pytest\n\n@pytest.mark.parametrize(\"x\", [1])\nclass TestB:\n    \
                 def test_m(self, x):\n        pass\n\n    class TestN:\n        \
                 @pytest.mark.parametrize(\"y\", [1])\n        \
                 def test_n(self, y):\n            pass\n",
            ),
            (
                "test_i.py",
                "import pytest\nfrom base import TestB\n\n\
                 @pytest.mark.parametrize(\"x\", [1])\ndef test_own(x):\n    pass\n\n\
                 TestState = Machine.TestCase\n",
            ),
        ],
    );
    assert_eq!(
        ids(&t.files(None, None)),
        vec![
            "test_i.py::test_own",
            "test_i.py::TestState::runTest",
            "test_i.py::TestB::test_m",
            "test_i.py::TestB::TestN::test_n",
        ]
    );
}
