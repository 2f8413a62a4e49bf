//! Keyword and mark expressions.

use cito::keyword::{parse, KExpr};

fn m(expr: &str, candidate: &str) -> bool {
    parse(expr).unwrap().matches(&candidate.to_lowercase())
}

#[test]
fn fragments_and_booleans() {
    assert!(m("http", "test_api.py::TestHttp::test_get"));
    assert!(!m("grpc", "test_api.py::TestHttp::test_get"));
    assert!(m("http and get", "test_api.py::TestHttp::test_get"));
    assert!(!m("http and not get", "test_api.py::TestHttp::test_get"));
    assert!(m("grpc or http", "test_api.py::TestHttp::test_get"));
    assert!(m("not (grpc or ftp)", "test_api.py::TestHttp::test_get"));
    assert!(m("TESTHTTP", "test_api.py::testhttp::test_get"));
}

#[test]
fn errors() {
    assert!(parse("and http").is_err());
    assert!(parse("(http").is_err());
    assert!(parse("http)").is_err());
    assert!(parse("").is_err());
}

fn frag(s: &str) -> Box<KExpr> {
    Box::new(KExpr::Frag(s.to_string()))
}

#[test]
fn and_binds_tighter_than_or() {
    assert_eq!(
        parse("a or b and not C").unwrap(),
        KExpr::Or(
            frag("a"),
            Box::new(KExpr::And(frag("b"), Box::new(KExpr::Not(frag("c")))))
        )
    );
}

#[test]
fn operators_group_to_the_left() {
    assert_eq!(
        parse("a or b or c").unwrap(),
        KExpr::Or(Box::new(KExpr::Or(frag("a"), frag("b"))), frag("c"))
    );
    assert_eq!(
        parse("a and b and c").unwrap(),
        KExpr::And(Box::new(KExpr::And(frag("a"), frag("b"))), frag("c"))
    );
}

#[test]
fn messages_say_what_is_wrong() {
    assert_eq!(parse("").unwrap_err(), "unexpected end of expression");
    assert_eq!(parse("not").unwrap_err(), "unexpected end of expression");
    assert_eq!(parse("and http").unwrap_err(), "unexpected keyword \"and\"");
    assert_eq!(parse("(http").unwrap_err(), "expected ')'");
    assert_eq!(parse(")").unwrap_err(), "unexpected ')'");
    assert_eq!(parse("http)").unwrap_err(), "unexpected trailing token \")\"");
}

#[test]
fn marks_match_as_whole_names() {
    let names = vec!["Slow".to_string(), "network".to_string()];
    assert!(parse("slow and network").unwrap().matches_names(&names));
    assert!(!parse("net").unwrap().matches_names(&names));
    assert!(parse("not net").unwrap().matches_names(&names));
}

#[test]
fn fragments_are_lowered() {
    assert_eq!(parse("ÀB").unwrap(), KExpr::Frag("àb".to_string()));
}
