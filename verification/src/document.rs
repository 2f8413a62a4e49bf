//! TOML documents, parsed by `toml`.

use vstd::prelude::*;

use toml::map::Map as TomlMap;
use toml::Value;

use crate::text;

verus! {

/// A TOML value.
#[verifier::external_type_specification]
#[verifier::external_body]
pub struct ExValue(toml::Value);

/// A TOML table.
#[verifier::external_type_specification]
#[verifier::external_body]
#[verifier::reject_recursive_types(K)]
#[verifier::reject_recursive_types(V)]
pub struct ExTomlMap<K, V>(toml::map::Map<K, V>);

/// A TOML value, as far as configuration reads it.
#[derive(Debug)]
pub enum Toml {
    Text(String),
    List(Vec<Toml>),
    Table(Vec<(String, Toml)>),
    /// A number, a boolean or a date.
    Other,
}

/// What a TOML value holds.
pub enum TomlView {
    Text(Seq<char>),
    List(Seq<TomlView>),
    Table(Seq<(Seq<char>, TomlView)>),
    Other,
}

pub open spec fn toml_view(v: Toml) -> TomlView
    decreases v,
{
    match v {
        Toml::Text(s) => TomlView::Text(s@),
        Toml::List(items) => TomlView::List(
            Seq::new(
                items@.len(),
                |i: int|
                    if 0 <= i < items@.len() {
                        toml_view(items@[i])
                    } else {
                        arbitrary()
                    },
            ),
        ),
        Toml::Table(entries) => TomlView::Table(
            Seq::new(
                entries@.len(),
                |i: int|
                    if 0 <= i < entries@.len() {
                        (entries@[i].0@, toml_view(entries@[i].1))
                    } else {
                        arbitrary()
                    },
            ),
        ),
        Toml::Other => TomlView::Other,
    }
}

impl View for Toml {
    type V = TomlView;

    open spec fn view(&self) -> TomlView {
        toml_view(*self)
    }
}

/// What a TOML value holds, in terms of the views of its parts.
pub proof fn toml_parts(v: Toml)
    ensures
        match v {
            Toml::Text(s) => v@ == TomlView::Text(s@),
            Toml::List(items) => v@ == TomlView::List(text::deep(items@)),
            Toml::Table(entries) => v@ == TomlView::Table(text::deep(entries@)),
            Toml::Other => v@ == TomlView::Other,
        },
{
    match v {
        Toml::List(items) => {
            assert(v@->List_0 =~= text::deep(items@));
        },
        Toml::Table(entries) => {
            assert(v@->Table_0 =~= text::deep(entries@));
        },
        _ => {},
    }
}

// ---------------------------------------------------------------------------
// Parsing
// ---------------------------------------------------------------------------

/// What a value of `toml` holds.
pub uninterp spec fn value_tree(v: Value) -> TomlView;

/// The entries of a table of `toml`, by key.
pub uninterp spec fn table_tree(t: TomlMap<String, Value>) -> Seq<(Seq<char>, TomlView)>;

/// The entries of the document that a text is; none where it is not TOML.
pub uninterp spec fn toml_source(text: Seq<char>) -> Option<Seq<(Seq<char>, TomlView)>>;

/// `toml::Table::from_str` parses a document; an error says that the text is
/// not TOML.
#[verifier::external_body]
fn parse_table(text: &str) -> (r: Option<TomlMap<String, Value>>)
    ensures
        match r {
            Some(t) => toml_source(text@) == Some(table_tree(t)),
            None => toml_source(text@) is None,
        },
{
    text.parse::<toml::Table>().ok()
}

/// A value by the kind that it is of.
enum Shape<'a> {
    Text(String),
    List(Vec<&'a Value>),
    Table(&'a TomlMap<String, Value>),
    Other,
}

/// The trees of some values.
spec fn value_trees(v: Seq<&Value>) -> Seq<TomlView> {
    Seq::new(v.len(), |i: int| value_tree(*v[i]))
}

/// The variants of `toml::Value` that configuration reads; all others are one.
#[verifier::external_body]
fn value_shape<'a>(v: &'a Value) -> (r: Shape<'a>)
    ensures
        match r {
            Shape::Text(s) => value_tree(*v) == TomlView::Text(s@),
            Shape::List(items) => value_tree(*v) == TomlView::List(value_trees(items@)),
            Shape::Table(t) => value_tree(*v) == TomlView::Table(table_tree(*t)),
            Shape::Other => value_tree(*v) == TomlView::Other,
        },
{
    match v {
        Value::String(s) => Shape::Text(s.clone()),
        Value::Array(items) => Shape::List(items.iter().collect()),
        Value::Table(t) => Shape::Table(t),
        _ => Shape::Other,
    }
}

/// The keys and trees of some entries.
spec fn entry_trees(v: Seq<(String, &Value)>) -> Seq<(Seq<char>, TomlView)> {
    Seq::new(v.len(), |i: int| (v[i].0@, value_tree(*v[i].1)))
}

/// `toml::Table::iter` gives the entries of a table.
#[verifier::external_body]
fn table_entries<'a>(t: &'a TomlMap<String, Value>) -> (r: Vec<(String, &'a Value)>)
    ensures
        entry_trees(r@) == table_tree(*t),
{
    t.iter().map(|(k, v)| (k.clone(), v)).collect()
}

/// The parts of a value are smaller than the value.
proof fn toml_descends(t: TomlView)
    ensures
        match t {
            TomlView::List(items) => decreases_to!(t => items),
            TomlView::Table(entries) => decreases_to!(t => entries),
            _ => true,
        },
{
}

fn copy_value(v: &Value) -> (r: Toml)
    ensures
        r@ == value_tree(*v),
    decreases value_tree(*v), 0int,
{
    proof {
        toml_descends(value_tree(*v));
    }
    let out: Toml = match value_shape(v) {
        Shape::Text(s) => Toml::Text(s),
        Shape::List(items) => {
            let ghost trees = value_trees(items@);
            let mut copies: Vec<Toml> = Vec::new();
            let mut i: usize = 0;
            while i < items.len()
                invariant
                    i <= items.len(),
                    trees == value_trees(items@),
                    value_tree(*v) == TomlView::List(trees),
                    copies.len() == i,
                    forall|j: int| 0 <= j < i ==> copies@[j]@ == trees[j],
                decreases items.len() - i,
            {
                proof {
                    toml_descends(value_tree(*v));
                    assert(trees[i as int] == value_tree(*items@[i as int]));
                    assert(decreases_to!(trees => trees[i as int]));
                }
                copies.push(copy_value(items[i]));
                i += 1;
            }
            proof {
                assert(text::deep(copies@) =~= trees);
            }
            Toml::List(copies)
        },
        Shape::Table(t) => Toml::Table(copy_table(t)),
        Shape::Other => Toml::Other,
    };
    proof {
        toml_parts(out);
    }
    out
}

fn copy_table(t: &TomlMap<String, Value>) -> (r: Vec<(String, Toml)>)
    ensures
        text::deep(r@) == table_tree(*t),
    decreases table_tree(*t), 1int,
{
    let entries: Vec<(String, &Value)> = table_entries(t);
    let ghost trees = table_tree(*t);
    let mut copies: Vec<(String, Toml)> = Vec::new();
    let mut i: usize = 0;
    while i < entries.len()
        invariant
            i <= entries.len(),
            trees == table_tree(*t),
            trees == entry_trees(entries@),
            copies.len() == i,
            forall|j: int| 0 <= j < i ==> copies@[j]@ == trees[j],
        decreases entries.len() - i,
    {
        proof {
            assert(trees[i as int] == (
                entries@[i as int].0@,
                value_tree(*entries@[i as int].1),
            ));
            assert(decreases_to!(trees => trees[i as int]));
            assert(decreases_to!(trees[i as int] => trees[i as int].1));
        }
        copies.push((entries[i].0.clone(), copy_value(entries[i].1)));
        i += 1;
    }
    proof {
        assert(text::deep(copies@) =~= trees);
    }
    copies
}

/// Parses a TOML document into the entries of its root table; `None` where the
/// text is not TOML.
pub fn parse_toml(text: &str) -> (r: Option<Vec<(String, Toml)>>)
    ensures
        match r {
            Some(doc) => toml_source(text@) == Some(text::deep(doc@)),
            None => toml_source(text@) is None,
        },
{
    match parse_table(text) {
        Some(t) => Some(copy_table(&t)),
        None => None,
    }
}

/// The table under a key.
pub open spec fn table_under(
    t: Seq<(Seq<char>, TomlView)>,
    key: Seq<char>,
) -> Option<Seq<(Seq<char>, TomlView)>> {
    match crate::table::find(t, key) {
        Some(TomlView::Table(inner)) => Some(inner),
        _ => None,
    }
}

/// The table under a key.
pub fn inner_table<'a>(t: &'a Vec<(String, Toml)>, key: &str) -> (r: Option<
    &'a Vec<(String, Toml)>,
>)
    ensures
        match r {
            Some(inner) => table_under(text::deep(t@), key@) == Some(text::deep(inner@)),
            None => table_under(text::deep(t@), key@) is None,
        },
{
    let ghost tree = text::deep(t@);
    let mut i: usize = 0;
    while i < t.len()
        invariant
            i <= t.len(),
            tree == text::deep(t@),
            crate::table::find_from(tree, key@, i as int) == crate::table::find(tree, key@),
        decreases t.len() - i,
    {
        if text::same(t[i].0.as_str(), key) {
            proof {
                toml_parts(t@[i as int].1);
            }
            match &t[i].1 {
                Toml::Table(inner) => {
                    return Some(inner);
                },
                _ => {
                    return None;
                },
            }
        }
        i += 1;
    }
    None
}

} // verus!
