//! Texts, paths, tables, patterns, expansions, and graphs.

use cito::facts::PathMap;
use cito::glob::Pattern;
use cito::graph::closure;
use cito::impact::ImportGraph;
use cito::params::Expansion;
use cito::path::{sort_paths, FilePath};
use cito::python::parse;
use cito::syntax::{Expr, Stmt};
use cito::table::Table;
use cito::text::{
    contains, decimal, is_less, join, lines, split, split_once, trim, Separator, Strings,
};

fn owned(items: &[&str]) -> Vec<String> {
    items.iter().map(|s| s.to_string()).collect()
}

#[test]
fn lines_and_fields() {
    assert_eq!(lines("a\r\nb\n\nc"), owned(&["a", "b", "", "c"]));
    assert!(lines("").is_empty());
    assert_eq!(split("a//b", Separator::Char('/'), true), owned(&["a", "", "b"]));
    assert_eq!(split("  a \t b\n", Separator::White, false), owned(&["a", "b"]));
    assert_eq!(split("1 failed, 2", Separator::NotAlnum, false), owned(&["1", "failed", "2"]));
    assert_eq!(split_once("a::b::c", "::"), Some(("a".to_string(), "b::c".to_string())));
    assert_eq!(split_once("abc", "::"), None);
    assert_eq!(trim(" \u{3000}x y\t"), "x y");
    assert_eq!(join(&owned(&["a", "b"]), "::"), "a::b");
    assert_eq!(decimal(0), "0");
    assert_eq!(decimal(1203), "1203");
    assert!(contains("abc", "bc") && contains("abc", "") && !contains("abc", "cb"));
}

#[test]
fn texts_are_ordered_like_dictionaries() {
    assert!(is_less("a", "b"));
    assert!(is_less("a", "aa"));
    assert!(!is_less("b", "aa"));
    assert!(!is_less("a", "a"));
}

#[test]
fn paths_join_and_part() {
    let root = FilePath::parse("/w");
    let file = root.join(&FilePath::parse("a/./b.py"));
    assert_eq!(file.display(), "/w/a/b.py");
    assert_eq!(file.file_name(), Some("b.py"));
    assert_eq!(file.parent().unwrap().display(), "/w/a");
    assert_eq!(file.strip(&root).unwrap().display(), "a/b.py");
    assert!(file.strip(&FilePath::parse("/v")).is_none());
    assert!(file.has_extension("py") && !file.has_extension("pyc"));
    assert!(!FilePath::parse("/w/.py").has_extension("py"));
    assert_eq!(root.child("m").with_py().display(), "/w/m.py");
    assert!(root.is_absolute() && !FilePath::parse("a").is_absolute());
    assert_eq!(root.join(&FilePath::parse("/x/y")).display(), "/x/y");
    assert!(FilePath::parse("/").parent().is_none());
    assert!(root.join(&FilePath::empty()).equals(&root));
}

#[test]
fn paths_are_sorted_by_component() {
    let given = ["/w/a.py", "/w/a/z.py", "/w/a-b.py", "/w/a.py", "/w/a"];
    let sorted = sort_paths(given.iter().map(|p| FilePath::parse(p)).collect());
    let shown: Vec<String> = sorted.iter().map(|p| p.display()).collect();
    assert_eq!(shown, owned(&["/w/a", "/w/a/z.py", "/w/a-b.py", "/w/a.py"]));
}

#[test]
fn tables_find_what_was_put_last() {
    let mut t: Table<String> = Table::new();
    t.insert("b".to_string(), "1".to_string());
    t.insert("a".to_string(), "2".to_string());
    t.insert("b".to_string(), "3".to_string());
    assert_eq!(t.get("b"), Some(&"3".to_string()));
    assert!(t.has("a") && !t.has("c"));
    let keys: Vec<String> = t.entries.iter().map(|e| e.0.clone()).collect();
    assert_eq!(keys, owned(&["a", "b"]));
    t.remove("a");
    assert!(!t.has("a") && t.has("b"));
}

#[test]
fn the_first_fact_about_a_path_counts() {
    let mut facts: PathMap<bool> = PathMap::new();
    facts.add(FilePath::parse("/a"), true);
    facts.add(FilePath::parse("/a"), false);
    assert_eq!(facts.get(&FilePath::parse("/a")), Some(&true));
    assert_eq!(facts.get(&FilePath::parse("/b")), None);
}

#[test]
fn glob_patterns() {
    let p = Pattern::new("test_*.py").unwrap();
    assert!(p.matches("test_a.py"));
    assert!(!p.matches("a_test.py"));
    assert!(Pattern::new("[a").is_none());
}

#[test]
fn expansions_apply_and_combine() {
    let class = Expansion::Params(owned(&["p", "q"]));
    let method = Expansion::Params(owned(&["1", "2"]));
    let both = Expansion::combine(&class, &method);
    assert_eq!(both, Expansion::Params(owned(&["1-p", "2-p", "1-q", "2-q"])));
    assert_eq!(both.apply("t"), owned(&["t[1-p]", "t[2-p]", "t[1-q]", "t[2-q]"]));
    assert_eq!(Expansion::combine(&class, &Expansion::Fallback), Expansion::Fallback);
    assert_eq!(Expansion::combine(&Expansion::Plain, &method), method);
    assert_eq!(Expansion::combine(&class, &Expansion::Plain), class);
    assert_eq!(Expansion::Fallback.apply("t"), owned(&["t"]));
    assert_eq!(Expansion::Plain.apply("t"), owned(&["t"]));
    assert!(Expansion::Plain.is_plain() && both.is_exact() && !Expansion::Fallback.is_exact());
}

fn value_of(source: &str) -> Expr {
    match parse(source).unwrap().remove(0) {
        Stmt::Expr(e) => e,
        other => panic!("{other:?}"),
    }
}

#[test]
fn scalars_render_like_pytest() {
    use_scalar("1", Some("1"));
    use_scalar("-3", Some("-3"));
    use_scalar("-0", Some("0"));
    use_scalar("00", Some("0"));
    use_scalar("-1_0", Some("-10"));
    use_scalar("0x10", Some("16"));
    use_scalar("-0x10", Some("-16"));
    use_scalar("18446744073709551616", Some("18446744073709551616"));
    use_scalar("0x10000000000000000", None);
    use_scalar("-0o2000000000000000000000", None);
    use_scalar("True", Some("True"));
    use_scalar("None", Some("None"));
    use_scalar("'a-b_c.d+e=f'", Some("a-b_c.d+e=f"));
    use_scalar("'a b'", None);
    use_scalar("''", None);
    use_scalar("1.5", None);
    use_scalar("x", None);
    use_scalar("'\u{e9}'", None);
}

fn use_scalar(source: &str, expected: Option<&str>) {
    assert_eq!(cito::params::render_scalar(&value_of(source)).as_deref(), expected, "{source}");
}

#[test]
fn conditions_are_evaluated_where_they_are_constant() {
    use_condition("sys.platform == 'linux'", Some(true));
    use_condition("sys.platform != 'linux'", Some(false));
    use_condition("sys.platform.startswith('win')", Some(false));
    use_condition("os.name == 'nt' or sys.platform == 'linux'", Some(true));
    use_condition("os.name == 'nt' or True", None);
    use_condition("not os.name == 'nt'", Some(true));
    use_condition("'--flag' in sys.argv", Some(false));
    use_condition("unknown", None);
}

fn use_condition(source: &str, expected: Option<bool>) {
    assert_eq!(cito::guards::eval_condition(&value_of(source), "linux"), expected, "{source}");
}

#[test]
fn parse_errors_have_a_message() {
    assert!(!parse("def (").unwrap_err().is_empty());
    assert!(parse("").unwrap().is_empty());
}

#[test]
fn closures_follow_edges_and_end_on_cycles() {
    let mut imports: Table<Strings> = Table::new();
    imports.insert("a".to_string(), Strings { items: owned(&["b"]) });
    imports.insert("b".to_string(), Strings { items: owned(&["c", "a"]) });
    imports.insert("d".to_string(), Strings { items: owned(&["a"]) });
    let g = ImportGraph { imports };
    let mut reached = closure(&g, &owned(&["a"]));
    reached.sort();
    reached.dedup();
    assert_eq!(reached, owned(&["a", "b", "c"]));
}
