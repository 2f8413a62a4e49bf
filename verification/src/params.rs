//! What the decorators of a test say about its node IDs.

use vstd::prelude::*;

use crate::syntax::{Expr, ExprView, Keyword, KeywordView};
use crate::table::Table;
use crate::text::{self, concat, concat3, is_alnum, same, split, to_chars, Separator, Strings};

verus! {

broadcast use crate::text::group_deep;

/// Static expansion of `@pytest.mark.parametrize` into pytest's `[...]` ID
/// suffixes. Only literal scalars that can be rendered exactly like pytest
/// does are expanded; anything else yields `Fallback`: the bare test name,
/// which pytest expands at run time.
#[derive(Debug, PartialEq)]
pub enum Expansion {
    /// Not parametrized.
    Plain,
    /// Parametrized with fully-resolved suffixes, e.g. `["1-x", "2-x"]`.
    Params(Vec<String>),
    /// Parametrized in a way that cannot be resolved statically.
    Fallback,
}

/// What an expansion holds.
pub enum ExpansionView {
    Plain,
    Params(Seq<Seq<char>>),
    Fallback,
}

impl View for Expansion {
    type V = ExpansionView;

    open spec fn view(&self) -> ExpansionView {
        match self {
            Expansion::Plain => ExpansionView::Plain,
            Expansion::Params(v) => ExpansionView::Params(text::deep(v@)),
            Expansion::Fallback => ExpansionView::Fallback,
        }
    }
}

/// The node IDs of a test named `name`.
pub open spec fn applied(e: ExpansionView, name: Seq<char>) -> Seq<Seq<char>> {
    match e {
        ExpansionView::Params(v) => Seq::new(v.len(), |i: int| name + "["@ + v[i] + "]"@),
        _ => seq![name],
    }
}

/// Two pieces of a suffix with a dash between them. With `bare` an empty first
/// piece leaves no dash.
pub open spec fn dashed(a: Seq<char>, b: Seq<char>, bare: bool) -> Seq<char> {
    if bare && a.len() == 0 {
        b
    } else {
        a + "-"@ + b
    }
}

/// Every suffix of `fast` with every suffix of `slow` behind it; those of
/// `fast` vary fastest.
pub open spec fn crossed(
    fast: Seq<Seq<char>>,
    slow: Seq<Seq<char>>,
    bare: bool,
) -> Seq<Seq<char>> {
    Seq::new(
        (slow.len() * fast.len()) as nat,
        |k: int| dashed(fast[k % (fast.len() as int)], slow[k / (fast.len() as int)], bare),
    )
}

/// The expansion of a method in a class that is expanded too.
pub open spec fn combined(class: ExpansionView, method: ExpansionView) -> ExpansionView {
    match (class, method) {
        (ExpansionView::Plain, other) => other,
        (other, ExpansionView::Plain) => other,
        (ExpansionView::Params(outer), ExpansionView::Params(inner)) => ExpansionView::Params(
            crossed(inner, outer, false),
        ),
        _ => ExpansionView::Fallback,
    }
}

/// Every string of `fast` with every string of `slow` behind it.
fn cross(fast: &Vec<String>, slow: &Vec<String>, bare: bool) -> (r: Vec<String>)
    ensures
        text::deep(r@) == crossed(text::deep(fast@), text::deep(slow@), bare),
{
    let ghost f = text::deep(fast@);
    let ghost s = text::deep(slow@);
    let ghost n = f.len() as int;
    let mut out: Vec<String> = Vec::new();
    let mut j: usize = 0;
    proof {
        assert(0 * n == 0) by (nonlinear_arith);
    }
    while j < slow.len()
        invariant
            j <= slow.len(),
            f == text::deep(fast@),
            s == text::deep(slow@),
            n == f.len(),
            out@.len() == j * n,
            forall|k: int|
                0 <= k < out@.len() ==> (#[trigger] out@[k])@ == dashed(f[k % n], s[k / n], bare),
        decreases slow.len() - j,
    {
        let mut i: usize = 0;
        while i < fast.len()
            invariant
                i <= fast.len(),
                j < slow.len(),
                f == text::deep(fast@),
                s == text::deep(slow@),
                n == f.len(),
                out@.len() == j * n + i,
                forall|k: int|
                    0 <= k < out@.len() ==> (#[trigger] out@[k])@ == dashed(
                        f[k % n],
                        s[k / n],
                        bare,
                    ),
            decreases fast.len() - i,
        {
            let next: String = if bare && fast[i].as_str().is_empty() {
                slow[j].clone()
            } else {
                concat3(fast[i].as_str(), "-", slow[j].as_str())
            };
            proof {
                let k = out@.len() as int;
                vstd::arithmetic::div_mod::lemma_fundamental_div_mod_converse(
                    k,
                    n,
                    j as int,
                    i as int,
                );
                assert(f[i as int] == fast@[i as int]@);
                assert(s[j as int] == slow@[j as int]@);
                assert(next@ == dashed(f[k % n], s[k / n], bare));
            }
            out.push(next);
            i += 1;
        }
        j += 1;
        proof {
            assert(j * n == (j - 1) * n + n) by (nonlinear_arith);
        }
    }
    proof {
        assert(text::deep(out@) =~= crossed(f, s, bare));
    }
    out
}

impl Expansion {
    /// The same expansion once more.
    pub fn copy(&self) -> (r: Expansion)
        ensures
            r@ == self@,
    {
        match self {
            Expansion::Plain => Expansion::Plain,
            Expansion::Params(v) => Expansion::Params(text::copy_list(v)),
            Expansion::Fallback => Expansion::Fallback,
        }
    }

    /// Is the test not parametrized?
    pub fn is_plain(&self) -> (r: bool)
        ensures
            r == (self@ is Plain),
    {
        matches!(self, Expansion::Plain)
    }

    /// Is the test parametrized with resolved suffixes?
    pub fn is_exact(&self) -> (r: bool)
        ensures
            r == (self@ is Params),
    {
        matches!(self, Expansion::Params(_))
    }

    /// Apply this expansion to a bare test name.
    pub fn apply(&self, name: &str) -> (r: Vec<String>)
        ensures
            text::deep(r@) == applied(self@, name@),
    {
        let mut out: Vec<String> = Vec::new();
        match self {
            Expansion::Params(suffixes) => {
                let mut i: usize = 0;
                while i < suffixes.len()
                    invariant
                        i <= suffixes.len(),
                        out.len() == i,
                        forall|j: int|
                            0 <= j < i ==> (#[trigger] out@[j])@ == name@ + "["@ + suffixes@[j]@
                                + "]"@,
                    decreases suffixes.len() - i,
                {
                    let open: String = concat3(name, "[", suffixes[i].as_str());
                    out.push(concat(open.as_str(), "]"));
                    i += 1;
                }
            },
            _ => {
                out.push(name.to_owned());
            },
        }
        proof {
            assert(text::deep(out@) =~= applied(self@, name@));
        }
        out
    }

    /// Combine a class-level expansion with a method-level one. pytest merges
    /// all parameter sets into a single bracket: the pieces of the method
    /// first, and those vary fastest. Any `Fallback` poisons the result.
    pub fn combine(class: &Expansion, method: &Expansion) -> (r: Expansion)
        ensures
            r@ == combined(class@, method@),
    {
        match class {
            Expansion::Plain => method.copy(),
            Expansion::Fallback => match method {
                Expansion::Plain => Expansion::Fallback,
                _ => Expansion::Fallback,
            },
            Expansion::Params(outer) => match method {
                Expansion::Plain => class.copy(),
                Expansion::Fallback => Expansion::Fallback,
                Expansion::Params(inner) => Expansion::Params(cross(inner, outer, false)),
            },
        }
    }
}

/// The suffixes that a list of `parametrize` arguments stands for; none where
/// they cannot be resolved statically.
#[derive(Debug)]
pub struct Pieces {
    pub known: Option<Vec<String>>,
}

impl View for Pieces {
    type V = Option<Seq<Seq<char>>>;

    open spec fn view(&self) -> Option<Seq<Seq<char>>> {
        match self.known {
            Some(v) => Some(text::deep(v@)),
            None => None,
        }
    }
}

/// Module-level parametrize aliases: `NAME = pytest.mark.parametrize(...)`.
pub type ParamAliases = Table<Pieces>;

/// Everything the decorator list says about a test.
#[derive(Debug)]
pub struct DecoratorInfo {
    pub expansion: Expansion,
    /// Fixture names pulled in via `@pytest.mark.usefixtures(...)`.
    pub extra_fixture_requests: Vec<String>,
    /// The names of the marks that the decorators put on the test.
    pub marks: Vec<String>,
    /// Decorators that are a bare name: each may stand for a mark.
    pub unresolved: Vec<String>,
}

/// What a decorator list says.
pub struct DecoratorInfoView {
    pub expansion: ExpansionView,
    pub extra_fixture_requests: Seq<Seq<char>>,
    pub marks: Seq<Seq<char>>,
    pub unresolved: Seq<Seq<char>>,
}

impl View for DecoratorInfo {
    type V = DecoratorInfoView;

    open spec fn view(&self) -> DecoratorInfoView {
        DecoratorInfoView {
            expansion: self.expansion@,
            extra_fixture_requests: text::deep(self.extra_fixture_requests@),
            marks: text::deep(self.marks@),
            unresolved: text::deep(self.unresolved@),
        }
    }
}

// ---------------------------------------------------------------------------
// Names of expressions
// ---------------------------------------------------------------------------

/// The last name of a name or an attribute: `c` of `a.b.c`.
pub open spec fn tail_name(e: ExprView) -> Option<Seq<char>> {
    match e {
        ExprView::Attribute(_, a) => Some(a),
        ExprView::Name(n) => Some(n),
        _ => None,
    }
}

/// The last name of a name or an attribute.
pub fn tail_of(e: &Expr) -> (r: Option<&str>)
    ensures
        text::opt(r) == tail_name(e@),
{
    proof {
        crate::syntax::expr_parts(*e);
    }
    match e {
        Expr::Attribute(_, a) => Some(a.as_str()),
        Expr::Name(n) => Some(n.as_str()),
        _ => None,
    }
}

/// Is `name` the last name of `e`?
pub fn tail_is(e: &Expr, name: &str) -> (r: bool)
    ensures
        r == (tail_name(e@) == Some(name@)),
{
    match tail_of(e) {
        Some(t) => same(t, name),
        None => false,
    }
}

/// A name or a chain of attributes as text: `a.b.c`.
pub open spec fn dotted_name(e: ExprView) -> Option<Seq<char>>
    decreases e,
{
    match e {
        ExprView::Name(n) => Some(n),
        ExprView::Attribute(b, a) => match dotted_name(*b) {
            Some(base) => Some(base + "."@ + a),
            None => None,
        },
        _ => None,
    }
}

/// A name or a chain of attributes as text.
pub fn dotted(e: &Expr) -> (r: Option<String>)
    ensures
        text::opt(r) == dotted_name(e@),
    decreases e,
{
    proof {
        crate::syntax::expr_parts(*e);
    }
    match e {
        Expr::Name(n) => Some(n.clone()),
        Expr::Attribute(b, a) => match dotted(b) {
            Some(base) => Some(concat3(base.as_str(), ".", a.as_str())),
            None => None,
        },
        _ => None,
    }
}

/// The text of a string literal.
pub open spec fn string_of(e: ExprView) -> Option<Seq<char>> {
    match e {
        ExprView::Str(s) => Some(s),
        _ => None,
    }
}

/// The text of a string literal.
pub fn string_value(e: &Expr) -> (r: Option<String>)
    ensures
        text::opt(r) == string_of(e@),
{
    proof {
        crate::syntax::expr_parts(*e);
    }
    match e {
        Expr::Str(s) => Some(s.clone()),
        _ => None,
    }
}

/// The texts of the string literals in a list from position `i` on, behind
/// those in `out`.
pub open spec fn strings_from(
    v: Seq<ExprView>,
    i: int,
    out: Seq<Seq<char>>,
) -> Seq<Seq<char>>
    decreases v.len() - i,
{
    if i < 0 || i >= v.len() {
        out
    } else {
        strings_from(
            v,
            i + 1,
            match string_of(v[i]) {
                Some(s) => out.push(s),
                None => out,
            },
        )
    }
}

/// The texts of the string literals in a list.
pub open spec fn strings_in(v: Seq<ExprView>) -> Seq<Seq<char>> {
    strings_from(v, 0, Seq::empty())
}

/// The texts of the string literals in a list.
pub fn string_values(v: &Vec<Expr>) -> (r: Vec<String>)
    ensures
        text::deep(r@) == strings_in(text::deep(v@)),
{
    let mut out: Vec<String> = Vec::new();
    let mut i: usize = 0;
    while i < v.len()
        invariant
            i <= v.len(),
            strings_from(text::deep(v@), i as int, text::deep(out@)) == strings_in(text::deep(v@)),
        decreases v.len() - i,
    {
        match string_value(&v[i]) {
            Some(s) => {
                out.push(s);
            },
            None => {},
        }
        i += 1;
    }
    out
}

/// The elements of a list or tuple display.
pub open spec fn elements_of(e: ExprView) -> Option<Seq<ExprView>> {
    match e {
        ExprView::List(v) => Some(v),
        ExprView::Tuple(v) => Some(v),
        _ => None,
    }
}

/// The elements of a list or tuple display.
pub fn elements(e: &Expr) -> (r: Option<&Vec<Expr>>)
    ensures
        match r {
            Some(v) => elements_of(e@) == Some(text::deep(v@)),
            None => elements_of(e@) is None,
        },
{
    proof {
        crate::syntax::expr_parts(*e);
    }
    match e {
        Expr::List(v) => Some(v),
        Expr::Tuple(v) => Some(v),
        _ => None,
    }
}

/// The value of the first keyword argument named `name`, from position `i` on.
pub open spec fn keyword_from(v: Seq<KeywordView>, name: Seq<char>, i: int) -> Option<ExprView>
    decreases v.len() - i,
{
    if i < 0 || i >= v.len() {
        None
    } else if v[i].arg == Some(name) {
        Some(v[i].value)
    } else {
        keyword_from(v, name, i + 1)
    }
}

/// The value of the first keyword argument named `name`.
pub open spec fn keyword_named(v: Seq<KeywordView>, name: Seq<char>) -> Option<ExprView> {
    keyword_from(v, name, 0)
}

/// Is the keyword argument named `name`?
fn keyword_is(k: &Keyword, name: &str) -> (r: bool)
    ensures
        r == (k@.arg == Some(name@)),
{
    match &k.arg {
        Some(a) => same(a.as_str(), name),
        None => false,
    }
}

/// The value of the first keyword argument named `name`.
pub fn keyword<'a>(v: &'a Vec<Keyword>, name: &str) -> (r: Option<&'a Expr>)
    ensures
        text::opt(r) == keyword_named(text::deep(v@), name@),
{
    let mut i: usize = 0;
    while i < v.len()
        invariant
            i <= v.len(),
            keyword_from(text::deep(v@), name@, i as int) == keyword_named(
                text::deep(v@),
                name@,
            ),
        decreases v.len() - i,
    {
        if keyword_is(&v[i], name) {
            return Some(&v[i].value);
        }
        i += 1;
    }
    None
}

// ---------------------------------------------------------------------------
// Rendering of parameter values
// ---------------------------------------------------------------------------

/// A character that pytest leaves as it is in an ID.
pub open spec fn safe_char(c: char) -> bool {
    text::alnum(c) || c == '_' || c == '-' || c == '.' || c == '+' || c == '='
}

/// A string that pytest leaves as it is in an ID.
pub open spec fn safe_text(s: Seq<char>) -> bool {
    s.len() > 0 && forall|i: int| 0 <= i < s.len() ==> safe_char(#[trigger] s[i])
}

/// The string itself, where pytest leaves it as it is.
pub open spec fn safe_of(s: Seq<char>) -> Option<Seq<char>> {
    if safe_text(s) {
        Some(s)
    } else {
        None
    }
}

/// pytest escapes non-ascii and unprintable characters in string IDs; only
/// strings that pass through unchanged are accepted.
pub fn safe_string(s: &str) -> (r: Option<String>)
    ensures
        text::opt(r) == safe_of(s@),
{
    let chars: Vec<char> = to_chars(s);
    let mut i: usize = 0;
    while i < chars.len()
        invariant
            i <= chars.len(),
            chars@ == s@,
            forall|j: int| 0 <= j < i ==> safe_char(#[trigger] s@[j]),
        decreases chars.len() - i,
    {
        let c: char = chars[i];
        if !(is_alnum(c) || c == '_' || c == '-' || c == '.' || c == '+' || c == '=') {
            proof {
                assert(!safe_char(s@[i as int]));
            }
            return None;
        }
        i += 1;
    }
    if chars.len() == 0 {
        None
    } else {
        Some(s.to_owned())
    }
}

/// Is it an integer written in decimal digits?
pub open spec fn decimal(s: Seq<char>) -> bool {
    s.len() > 0 && forall|j: int| 0 <= j < s.len() ==> text::digit(#[trigger] s[j])
}

/// How pytest renders an integer: in decimal. There is no negative zero.
pub open spec fn integer_of(s: Seq<char>, negative: bool) -> Option<Seq<char>> {
    if !decimal(s) {
        None
    } else if !negative {
        Some(s)
    } else if forall|j: int| 0 <= j < s.len() ==> #[trigger] s[j] == '0' {
        Some("0"@)
    } else {
        Some("-"@ + s)
    }
}

/// Render an integer, or `None` where its digits are not known to be decimal.
fn render_integer(s: &str, negative: bool) -> (r: Option<String>)
    ensures
        text::opt(r) == integer_of(s@, negative),
{
    let chars: Vec<char> = to_chars(s);
    if chars.len() == 0 {
        return None;
    }
    let mut zero: bool = true;
    let mut i: usize = 0;
    while i < chars.len()
        invariant
            i <= chars.len(),
            chars@ == s@,
            forall|j: int| 0 <= j < i ==> text::digit(#[trigger] s@[j]),
            zero == (forall|j: int| 0 <= j < i ==> #[trigger] s@[j] == '0'),
        decreases chars.len() - i,
    {
        let c: char = chars[i];
        if !('0' <= c && c <= '9') {
            proof {
                assert(!text::digit(s@[i as int]));
            }
            return None;
        }
        if c != '0' {
            zero = false;
        }
        i += 1;
    }
    if !negative {
        Some(s.to_owned())
    } else if zero {
        Some("0".to_owned())
    } else {
        Some(concat("-", s))
    }
}

/// How pytest renders one literal; none where it is not certain.
pub open spec fn scalar_of(e: ExprView) -> Option<Seq<char>> {
    match e {
        ExprView::Str(s) => safe_of(s),
        ExprView::Int(s) => integer_of(s, false),
        ExprView::Bool(b) => Some(if b {
            "True"@
        } else {
            "False"@
        }),
        ExprView::NoneValue => Some("None"@),
        ExprView::Minus(b) => match *b {
            ExprView::Int(s) => integer_of(s, true),
            _ => None,
        },
        _ => None,
    }
}

/// Render one literal the way pytest's idmaker does, or `None` when unsure.
/// Floats are deliberately excluded, and so are integers whose digits are not
/// at hand in decimal.
pub fn render_scalar(e: &Expr) -> (r: Option<String>)
    ensures
        text::opt(r) == scalar_of(e@),
{
    proof {
        crate::syntax::expr_parts(*e);
    }
    match e {
        Expr::Str(s) => safe_string(s.as_str()),
        Expr::Int(s) => render_integer(s.as_str(), false),
        Expr::Bool(b) => if *b {
            Some("True".to_owned())
        } else {
            Some("False".to_owned())
        },
        Expr::NoneValue => Some("None".to_owned()),
        Expr::Minus(b) => {
            proof {
                crate::syntax::expr_parts(**b);
            }
            match &**b {
                Expr::Int(s) => render_integer(s.as_str(), true),
                _ => None,
            }
        },
        _ => None,
    }
}

/// The renderings of the literals from position `i` on, behind those in
/// `out`; none if one of them is not certain.
pub open spec fn scalars_from(
    v: Seq<ExprView>,
    i: int,
    out: Seq<Seq<char>>,
) -> Option<Seq<Seq<char>>>
    decreases v.len() - i,
{
    if i < 0 || i >= v.len() {
        Some(out)
    } else {
        match scalar_of(v[i]) {
            Some(s) => scalars_from(v, i + 1, out.push(s)),
            None => None,
        }
    }
}

/// The renderings of a list of literals with dashes between them.
pub open spec fn row_of(v: Seq<ExprView>) -> Option<Seq<char>> {
    match scalars_from(v, 0, Seq::empty()) {
        Some(parts) => Some(text::joined(parts, "-"@)),
        None => None,
    }
}

/// The renderings of a list of literals with dashes between them.
fn render_row(v: &Vec<Expr>) -> (r: Option<String>)
    ensures
        text::opt(r) == row_of(text::deep(v@)),
{
    let mut out: Vec<String> = Vec::new();
    let mut i: usize = 0;
    while i < v.len()
        invariant
            i <= v.len(),
            scalars_from(text::deep(v@), i as int, text::deep(out@)) == scalars_from(
                text::deep(v@),
                0,
                Seq::empty(),
            ),
        decreases v.len() - i,
    {
        match render_scalar(&v[i]) {
            Some(s) => {
                out.push(s);
            },
            None => {
                return None;
            },
        }
        i += 1;
    }
    Some(text::join(&out, "-"))
}

/// Are all keyword arguments from position `i` on named `id` or `marks`?
pub open spec fn only_id_and_marks(v: Seq<KeywordView>, i: int) -> bool
    decreases v.len() - i,
{
    i < 0 || i >= v.len() || ((v[i].arg == Some("id"@) || v[i].arg == Some("marks"@))
        && only_id_and_marks(v, i + 1))
}

/// The value of the last keyword argument before position `i` that is named
/// `name`.
pub open spec fn last_keyword(v: Seq<KeywordView>, name: Seq<char>, i: int) -> Option<ExprView>
    decreases i,
{
    if i <= 0 || i > v.len() {
        None
    } else if v[i - 1].arg == Some(name) {
        Some(v[i - 1].value)
    } else {
        last_keyword(v, name, i - 1)
    }
}

/// The ID piece of one element of the argument values of `parametrize`, where
/// there are `n` argument names. A `pytest.param(...)` may hold the element:
/// its `id=` wins, `marks=` changes nothing, any other keyword is unknown.
pub open spec fn piece_of(e: ExprView, n: nat) -> Option<Seq<char>> {
    match e {
        ExprView::Call(f, args, keywords) if tail_name(*f) == Some("param"@) => {
            if !only_id_and_marks(keywords, 0) {
                None
            } else {
                match last_keyword(keywords, "id"@, keywords.len() as int) {
                    Some(ExprView::Str(s)) => safe_of(s),
                    Some(_) => None,
                    None => if args.len() != n {
                        None
                    } else {
                        row_of(args)
                    },
                }
            }
        },
        _ => if n == 1 {
            scalar_of(e)
        } else {
            match elements_of(e) {
                Some(parts) => if parts.len() != n {
                    None
                } else {
                    row_of(parts)
                },
                None => None,
            }
        },
    }
}

/// Render one element of the argument values, including `pytest.param(...)`
/// wrappers.
#[verifier::loop_isolation(false)]
pub fn piece_for_element(e: &Expr, n: usize) -> (r: Option<String>)
    ensures
        text::opt(r) == piece_of(e@, n as nat),
{
    proof {
        crate::syntax::expr_parts(*e);
    }
    match e {
        Expr::Call(f, args, keywords) if tail_is(f, "param") => {
            let ghost ks = text::deep(keywords@);
            let mut explicit: Option<&Expr> = None;
            let mut i: usize = 0;
            while i < keywords.len()
                invariant
                    i <= keywords.len(),
                    ks == text::deep(keywords@),
                    only_id_and_marks(ks, i as int) == only_id_and_marks(ks, 0),
                    text::opt(explicit) == last_keyword(ks, "id"@, i as int),
                decreases keywords.len() - i,
            {
                if keyword_is(&keywords[i], "id") {
                    explicit = Some(&keywords[i].value);
                } else if !keyword_is(&keywords[i], "marks") {
                    return None;
                }
                i += 1;
            }
            match explicit {
                Some(value) => {
                    proof {
                        crate::syntax::expr_parts(*value);
                    }
                    match value {
                        Expr::Str(s) => safe_string(s.as_str()),
                        _ => None,
                    }
                },
                None => if args.len() != n {
                    None
                } else {
                    render_row(args)
                },
            }
        },
        _ => if n == 1 {
            render_scalar(e)
        } else {
            match elements(e) {
                Some(parts) => if parts.len() != n {
                    None
                } else {
                    render_row(parts)
                },
                None => None,
            }
        },
    }
}

/// The number of argument names that `parametrize` is given.
pub open spec fn names_given(e: ExprView) -> Option<nat> {
    match e {
        ExprView::Str(s) => Some(text::fields(s, Separator::Char(','), true).len()),
        ExprView::Tuple(v) => Some(v.len()),
        ExprView::List(v) => Some(v.len()),
        _ => None,
    }
}

/// The number of argument names that `parametrize` is given.
pub fn argnames_count(e: &Expr) -> (r: Option<usize>)
    ensures
        match r {
            Some(n) => names_given(e@) == Some(n as nat),
            None => names_given(e@) is None,
        },
{
    proof {
        crate::syntax::expr_parts(*e);
    }
    match e {
        Expr::Str(s) => {
            let parts: Vec<String> = split(s.as_str(), Separator::Char(','), true);
            proof {
                assert(text::deep(parts@).len() == parts@.len());
            }
            Some(parts.len())
        },
        Expr::Tuple(v) => Some(v.len()),
        Expr::List(v) => Some(v.len()),
        _ => None,
    }
}

/// The safe strings of a list from position `i` on, behind those in `out`;
/// none if an element is no safe string.
pub open spec fn ids_from(
    v: Seq<ExprView>,
    i: int,
    out: Seq<Seq<char>>,
) -> Option<Seq<Seq<char>>>
    decreases v.len() - i,
{
    if i < 0 || i >= v.len() {
        Some(out)
    } else {
        match v[i] {
            ExprView::Str(s) => match safe_of(s) {
                Some(t) => ids_from(v, i + 1, out.push(t)),
                None => None,
            },
            _ => None,
        }
    }
}

/// The explicit IDs that `ids=` gives, where each is a safe string.
pub open spec fn explicit_of(e: ExprView) -> Option<Seq<Seq<char>>> {
    match elements_of(e) {
        Some(v) => ids_from(v, 0, Seq::empty()),
        None => None,
    }
}

/// The explicit IDs that `ids=` gives, where each is a safe string.
#[verifier::loop_isolation(false)]
pub fn explicit_ids(e: &Expr) -> (r: Option<Vec<String>>)
    ensures
        match r {
            Some(v) => explicit_of(e@) == Some(text::deep(v@)),
            None => explicit_of(e@) is None,
        },
{
    match elements(e) {
        None => None,
        Some(v) => {
            let mut out: Vec<String> = Vec::new();
            let mut i: usize = 0;
            while i < v.len()
                invariant
                    i <= v.len(),
                    ids_from(text::deep(v@), i as int, text::deep(out@)) == ids_from(
                        text::deep(v@),
                        0,
                        Seq::empty(),
                    ),
                decreases v.len() - i,
            {
                proof {
                    crate::syntax::expr_parts(v@[i as int]);
                }
                let next: Option<String> = match &v[i] {
                    Expr::Str(s) => safe_string(s.as_str()),
                    _ => None,
                };
                match next {
                    Some(s) => {
                        out.push(s);
                    },
                    None => {
                        return None;
                    },
                }
                i += 1;
            }
            Some(out)
        },
    }
}

/// The pieces of the elements from position `i` on, behind those in `out`;
/// none if one of them is not certain.
pub open spec fn pieces_from(
    v: Seq<ExprView>,
    n: nat,
    i: int,
    out: Seq<Seq<char>>,
) -> Option<Seq<Seq<char>>>
    decreases v.len() - i,
{
    if i < 0 || i >= v.len() {
        Some(out)
    } else {
        match piece_of(v[i], n) {
            Some(p) => pieces_from(v, n, i + 1, out.push(p)),
            None => None,
        }
    }
}

/// Are all keyword arguments from position `i` on named `ids`?
pub open spec fn only_ids(v: Seq<KeywordView>, i: int) -> bool
    decreases v.len() - i,
{
    i < 0 || i >= v.len() || (v[i].arg == Some("ids"@) && only_ids(v, i + 1))
}

/// The ID pieces that one `parametrize` call gives; none where they cannot be
/// resolved statically: fewer than two arguments, a keyword other than `ids`,
/// no list of values or an empty one, a value that is not certain, `ids=` of
/// another length or shape, and a piece that occurs twice.
pub open spec fn pieces_of(
    args: Seq<ExprView>,
    keywords: Seq<KeywordView>,
) -> Option<Seq<Seq<char>>> {
    if args.len() < 2 || !only_ids(keywords, 0) {
        None
    } else {
        match (names_given(args[0]), elements_of(args[1])) {
            (Some(n), Some(values)) => {
                let found = match keyword_named(keywords, "ids"@) {
                    Some(e) => explicit_of(e),
                    None => pieces_from(values, n, 0, Seq::empty()),
                };
                match found {
                    Some(p) => if values.len() > 0 && p.len() == values.len()
                        && p.no_duplicates() {
                        Some(p)
                    } else {
                        None
                    },
                    None => None,
                }
            },
            _ => None,
        }
    }
}

/// Does no string stand twice in the list?
fn all_distinct(v: &Vec<String>) -> (r: bool)
    ensures
        r == text::deep(v@).no_duplicates(),
{
    let ghost d = text::deep(v@);
    let mut i: usize = 0;
    while i < v.len()
        invariant
            i <= v.len(),
            d == text::deep(v@),
            forall|a: int, b: int| 0 <= a < b < v.len() && a < i ==> d[a] != d[b],
        decreases v.len() - i,
    {
        let mut j: usize = i + 1;
        while j < v.len()
            invariant
                i < j <= v.len(),
                d == text::deep(v@),
                forall|b: int| i < b < j ==> d[i as int] != d[b],
            decreases v.len() - j,
        {
            if same(v[i].as_str(), v[j].as_str()) {
                proof {
                    assert(d[i as int] == d[j as int]);
                }
                return false;
            }
            j += 1;
        }
        i += 1;
    }
    true
}

/// One decorator's worth of ID pieces, or none if not statically resolvable.
#[verifier::loop_isolation(false)]
pub fn parametrize_pieces(args: &Vec<Expr>, keywords: &Vec<Keyword>) -> (r: Pieces)
    ensures
        r@ == pieces_of(text::deep(args@), text::deep(keywords@)),
{
    let ghost ks = text::deep(keywords@);
    let none: Pieces = Pieces { known: None };
    if args.len() < 2 {
        return none;
    }
    let mut i: usize = 0;
    while i < keywords.len()
        invariant
            i <= keywords.len(),
            only_ids(ks, i as int) == only_ids(ks, 0),
        decreases keywords.len() - i,
    {
        if !keyword_is(&keywords[i], "ids") {
            return none;
        }
        i += 1;
    }
    let n: usize = match argnames_count(&args[0]) {
        Some(n) => n,
        None => {
            return none;
        },
    };
    let values: &Vec<Expr> = match elements(&args[1]) {
        Some(v) => v,
        None => {
            return none;
        },
    };
    let ghost vs = text::deep(values@);
    let found: Vec<String> = match keyword(keywords, "ids") {
        Some(e) => match explicit_ids(e) {
            Some(v) => v,
            None => {
                return none;
            },
        },
        None => {
            let mut pieces: Vec<String> = Vec::new();
            let mut k: usize = 0;
            while k < values.len()
                invariant
                    k <= values.len(),
                    pieces_from(vs, n as nat, k as int, text::deep(pieces@)) == pieces_from(
                        vs,
                        n as nat,
                        0,
                        Seq::empty(),
                    ),
                decreases values.len() - k,
            {
                match piece_for_element(&values[k], n) {
                    Some(p) => {
                        pieces.push(p);
                    },
                    None => {
                        return none;
                    },
                }
                k += 1;
            }
            pieces
        },
    };
    proof {
        assert(text::deep(found@).len() == found@.len());
        assert(vs.len() == values@.len());
    }
    if values.len() > 0 && found.len() == values.len() && all_distinct(&found) {
        Pieces { known: Some(found) }
    } else {
        none
    }
}

// ---------------------------------------------------------------------------
// Decorator lists
// ---------------------------------------------------------------------------

/// What the decorators of a test have said so far.
pub struct Findings {
    pub sets: Seq<Seq<Seq<char>>>,
    pub extra: Seq<Seq<char>>,
    pub poisoned: bool,
    pub parametrized: bool,
    pub marks: Seq<Seq<char>>,
    pub unresolved: Seq<Seq<char>>,
}

/// A decorator without its call.
pub open spec fn decorator_target(e: ExprView) -> ExprView {
    match e {
        ExprView::Call(f, _, _) => *f,
        other => other,
    }
}

/// A decorator without its call.
fn target_of(e: &Expr) -> (r: &Expr)
    ensures
        r@ == decorator_target(e@),
{
    proof {
        crate::syntax::expr_parts(*e);
    }
    match e {
        Expr::Call(f, _, _) => f,
        other => other,
    }
}

/// The name of the mark that a decorator puts on its function: `x` of
/// `mark.x`, `pytest.mark.x` and their calls.
pub open spec fn mark_of(e: ExprView) -> Option<Seq<char>> {
    match decorator_target(e) {
        ExprView::Attribute(base, name) => if tail_name(*base) == Some("mark"@) {
            Some(name)
        } else {
            None
        },
        _ => None,
    }
}

/// The name of the mark that a decorator puts on its function.
pub fn mark_name(e: &Expr) -> (r: Option<String>)
    ensures
        text::opt(r) == mark_of(e@),
{
    let target: &Expr = target_of(e);
    proof {
        crate::syntax::expr_parts(*target);
    }
    match target {
        Expr::Attribute(base, name) => if tail_is(base, "mark") {
            Some(name.clone())
        } else {
            None
        },
        _ => None,
    }
}

/// A decorator known not to alter node IDs: any pytest mark (`parametrize` and
/// `usefixtures` are looked at first), `mock.patch` and friends, hypothesis's
/// `given`, and plain function wrappers.
pub open spec fn id_neutral(e: ExprView) -> bool {
    let target = decorator_target(e);
    match target {
        ExprView::Name(n) => n == "staticmethod"@ || n == "classmethod"@ || n == "property"@ || n
            == "abstractmethod"@ || n == "patch"@ || n == "given"@,
        ExprView::Attribute(_, _) => match dotted_name(target) {
            Some(chain) => {
                let segments = text::fields(chain, Separator::Char('.'), true);
                segments.contains("mark"@) || "mock."@.is_prefix_of(chain)
                    || "unittest.mock."@.is_prefix_of(chain) || segments.contains("patch"@)
                    || chain == "hypothesis.given"@
            },
            None => false,
        },
        _ => false,
    }
}

/// Is the decorator known not to alter node IDs?
fn is_id_neutral(e: &Expr) -> (r: bool)
    ensures
        r == id_neutral(e@),
{
    let target: &Expr = target_of(e);
    proof {
        crate::syntax::expr_parts(*target);
    }
    match target {
        Expr::Name(name) => {
            let n: &str = name.as_str();
            same(n, "staticmethod") || same(n, "classmethod") || same(n, "property") || same(
                n,
                "abstractmethod",
            ) || same(n, "patch") || same(n, "given")
        },
        Expr::Attribute(_, _) => match dotted(target) {
            Some(chain) => {
                let segments: Vec<String> = split(chain.as_str(), Separator::Char('.'), true);
                text::is_in(&segments, "mark") || text::starts_with(chain.as_str(), "mock.")
                    || text::starts_with(chain.as_str(), "unittest.mock.") || text::is_in(
                    &segments,
                    "patch",
                ) || same(chain.as_str(), "hypothesis.given")
            },
            None => false,
        },
        _ => false,
    }
}

/// Take up the ID pieces of one `parametrize`.
pub open spec fn with_pieces(f: Findings, p: Option<Seq<Seq<char>>>) -> Findings {
    match p {
        Some(v) => Findings { parametrized: true, sets: f.sets.push(v), ..f },
        None => Findings { parametrized: true, poisoned: true, ..f },
    }
}

/// Take up the fixtures that `usefixtures` names; an argument that is no
/// string literal poisons.
pub open spec fn with_fixtures(f: Findings, args: Seq<ExprView>) -> Findings {
    Findings {
        extra: f.extra + strings_in(args),
        poisoned: f.poisoned || strings_in(args).len() != args.len(),
        ..f
    }
}

/// Take up what a decorator says of the node IDs.
pub open spec fn with_ids(
    f: Findings,
    e: ExprView,
    aliases: Seq<(Seq<char>, Option<Seq<Seq<char>>>)>,
) -> Findings {
    match e {
        ExprView::Call(func, args, keywords) if tail_name(*func) == Some("parametrize"@) => {
            with_pieces(f, pieces_of(args, keywords))
        },
        ExprView::Call(func, args, keywords) if tail_name(*func) == Some("usefixtures"@) => {
            with_fixtures(f, args)
        },
        ExprView::Name(n) if crate::table::find(aliases, n) is Some => {
            with_pieces(f, crate::table::find(aliases, n)->0)
        },
        _ => Findings { poisoned: f.poisoned || !id_neutral(e), ..f },
    }
}

/// Take up the mark that a decorator is or may be.
pub open spec fn with_mark(
    f: Findings,
    e: ExprView,
    aliases: Seq<(Seq<char>, Option<Seq<Seq<char>>>)>,
) -> Findings {
    Findings {
        marks: match mark_of(e) {
            Some(m) => f.marks.push(m),
            None => f.marks,
        },
        unresolved: match e {
            ExprView::Name(n) if crate::table::find(aliases, n) is None => f.unresolved.push(n),
            _ => f.unresolved,
        },
        ..f
    }
}

/// What the decorators from position `i` on say, on top of `f`.
pub open spec fn findings_from(
    v: Seq<ExprView>,
    aliases: Seq<(Seq<char>, Option<Seq<Seq<char>>>)>,
    i: int,
    f: Findings,
) -> Findings
    decreases v.len() - i,
{
    if i < 0 || i >= v.len() {
        f
    } else {
        findings_from(v, aliases, i + 1, with_mark(with_ids(f, v[i], aliases), v[i], aliases))
    }
}

/// Nothing said yet.
pub open spec fn no_findings() -> Findings {
    Findings {
        sets: Seq::empty(),
        extra: Seq::empty(),
        poisoned: false,
        parametrized: false,
        marks: Seq::empty(),
        unresolved: Seq::empty(),
    }
}

/// The product of the first `j` sets on top of `out`, the last of them first.
pub open spec fn stacked(sets: Seq<Seq<Seq<char>>>, j: int, out: Seq<Seq<char>>) -> Seq<Seq<char>>
    decreases j,
{
    if j <= 0 || j > sets.len() {
        out
    } else {
        stacked(sets, j - 1, crossed(out, sets[j - 1], true))
    }
}

/// The expansion that the decorators give. A test that is parametrized but
/// whose IDs are not all certain falls back to its bare name.
pub open spec fn expansion_of(f: Findings) -> ExpansionView {
    if f.poisoned && f.parametrized {
        ExpansionView::Fallback
    } else if f.sets.len() == 0 {
        ExpansionView::Plain
    } else {
        ExpansionView::Params(stacked(f.sets, f.sets.len() as int, seq![Seq::<char>::empty()]))
    }
}

/// What a decorator list says of a test.
pub open spec fn decorators_say(
    v: Seq<ExprView>,
    aliases: Seq<(Seq<char>, Option<Seq<Seq<char>>>)>,
) -> DecoratorInfoView {
    let f = findings_from(v, aliases, 0, no_findings());
    DecoratorInfoView {
        expansion: expansion_of(f),
        extra_fixture_requests: f.extra,
        marks: f.marks,
        unresolved: f.unresolved,
    }
}

/// What the decorators of a test have said so far.
struct FindingsBuf {
    sets: Vec<Strings>,
    extra: Vec<String>,
    poisoned: bool,
    parametrized: bool,
    marks: Vec<String>,
    unresolved: Vec<String>,
}

impl View for FindingsBuf {
    type V = Findings;

    closed spec fn view(&self) -> Findings {
        Findings {
            sets: text::deep(self.sets@),
            extra: text::deep(self.extra@),
            poisoned: self.poisoned,
            parametrized: self.parametrized,
            marks: text::deep(self.marks@),
            unresolved: text::deep(self.unresolved@),
        }
    }
}

/// Take up the ID pieces of one `parametrize`.
fn take_pieces(f: &mut FindingsBuf, p: &Pieces)
    ensures
        final(f)@ == with_pieces(old(f)@, p@),
{
    f.parametrized = true;
    match &p.known {
        Some(v) => {
            let set: Strings = Strings { items: text::copy_list(v) };
            f.sets.push(set);
        },
        None => {
            f.poisoned = true;
        },
    }
}

/// Take up what one decorator says.
fn take_decorator(f: &mut FindingsBuf, e: &Expr, aliases: &ParamAliases)
    ensures
        final(f)@ == with_mark(with_ids(old(f)@, e@, aliases@), e@, aliases@),
{
    proof {
        crate::syntax::expr_parts(*e);
    }
    let ghost before = f@;
    match e {
        Expr::Call(func, args, keywords) if tail_is(func, "parametrize") => {
            let p: Pieces = parametrize_pieces(args, keywords);
            take_pieces(f, &p);
        },
        Expr::Call(func, args, keywords) if tail_is(func, "usefixtures") => {
            let names: Vec<String> = string_values(args);
            if names.len() != args.len() {
                f.poisoned = true;
            }
            text::extend(&mut f.extra, &names);
        },
        Expr::Name(n) if aliases.has(n.as_str()) => {
            match aliases.get(n.as_str()) {
                Some(p) => {
                    take_pieces(f, p);
                },
                None => {},
            }
        },
        _ => {
            if !is_id_neutral(e) {
                f.poisoned = true;
            }
        },
    }
    proof {
        assert(f@ == with_ids(before, e@, aliases@));
    }
    match mark_name(e) {
        Some(m) => {
            f.marks.push(m);
        },
        None => {},
    }
    match e {
        Expr::Name(n) => {
            if !aliases.has(n.as_str()) {
                f.unresolved.push(n.clone());
            }
        },
        _ => {},
    }
}

/// Analyze a decorator list. Multiple stacked `parametrize` decorators produce
/// the cartesian product; pytest orders ID pieces bottom decorator first and
/// iterates the bottom decorator fastest. A decorator that is not known to be
/// ID-neutral poisons any expansion to `Fallback`: wrong bracket IDs are worse
/// than bare names.
pub fn from_decorators(decorators: &Vec<Expr>, aliases: &ParamAliases) -> (r: DecoratorInfo)
    ensures
        r@ == decorators_say(text::deep(decorators@), aliases@),
{
    let ghost ds = text::deep(decorators@);
    let mut f: FindingsBuf = FindingsBuf {
        sets: Vec::new(),
        extra: Vec::new(),
        poisoned: false,
        parametrized: false,
        marks: Vec::new(),
        unresolved: Vec::new(),
    };
    let mut i: usize = 0;
    while i < decorators.len()
        invariant
            i <= decorators.len(),
            ds == text::deep(decorators@),
            findings_from(ds, aliases@, i as int, f@) == findings_from(
                ds,
                aliases@,
                0,
                no_findings(),
            ),
        decreases decorators.len() - i,
    {
        take_decorator(&mut f, &decorators[i], aliases);
        i += 1;
    }
    let expansion: Expansion = if f.poisoned && f.parametrized {
        Expansion::Fallback
    } else if f.sets.len() == 0 {
        Expansion::Plain
    } else {
        let ghost sets = text::deep(f.sets@);
        let ghost start = seq![Seq::<char>::empty()];
        let mut suffixes: Vec<String> = Vec::new();
        suffixes.push(String::new());
        let mut j: usize = f.sets.len();
        proof {
            assert(text::deep(suffixes@) =~= start);
        }
        while j > 0
            invariant
                j <= f.sets.len(),
                sets == text::deep(f.sets@),
                stacked(sets, j as int, text::deep(suffixes@)) == stacked(
                    sets,
                    sets.len() as int,
                    start,
                ),
            decreases j,
        {
            suffixes = cross(&suffixes, &f.sets[j - 1].items, true);
            j -= 1;
        }
        Expansion::Params(suffixes)
    };
    DecoratorInfo {
        expansion,
        extra_fixture_requests: f.extra,
        marks: f.marks,
        unresolved: f.unresolved,
    }
}

/// The pieces of `NAME = pytest.mark.parametrize(...)`; none for any other
/// value.
pub open spec fn alias_of(e: ExprView) -> Option<Option<Seq<Seq<char>>>> {
    match e {
        ExprView::Call(f, args, keywords) if tail_name(*f) == Some("parametrize"@) => Some(
            pieces_of(args, keywords),
        ),
        _ => None,
    }
}

/// Recognize the value of a module-level `NAME = pytest.mark.parametrize(...)`.
pub fn parametrize_alias(value: &Expr) -> (r: Option<Pieces>)
    ensures
        text::opt(r) == alias_of(value@),
{
    proof {
        crate::syntax::expr_parts(*value);
    }
    match value {
        Expr::Call(f, args, keywords) if tail_is(f, "parametrize") => Some(
            parametrize_pieces(args, keywords),
        ),
        _ => None,
    }
}

/// The strings of a list without the white space around each, from position
/// `i` on, behind those in `out`.
pub open spec fn trimmed_from(v: Seq<Seq<char>>, i: int, out: Seq<Seq<char>>) -> Seq<Seq<char>>
    decreases v.len() - i,
{
    if i < 0 || i >= v.len() {
        out
    } else {
        trimmed_from(v, i + 1, out.push(text::trimmed(v[i])))
    }
}

/// The argument names that one `parametrize` claims.
pub open spec fn claimed_by(e: ExprView) -> Seq<Seq<char>> {
    match e {
        ExprView::Call(f, args, _) if tail_name(*f) == Some("parametrize"@) && args.len() > 0 => {
            match args[0] {
                ExprView::Str(s) => trimmed_from(
                    text::fields(s, Separator::Char(','), true),
                    0,
                    Seq::empty(),
                ),
                ExprView::Tuple(v) => strings_in(v),
                ExprView::List(v) => strings_in(v),
                _ => Seq::empty(),
            }
        },
        _ => Seq::empty(),
    }
}

/// The argument names that the decorators from position `i` on claim, behind
/// those in `out`.
pub open spec fn claimed_from(v: Seq<ExprView>, i: int, out: Seq<Seq<char>>) -> Seq<Seq<char>>
    decreases v.len() - i,
{
    if i < 0 || i >= v.len() {
        out
    } else {
        claimed_from(v, i + 1, out + claimed_by(v[i]))
    }
}

/// The argument names that one `parametrize` claims.
fn claimed_names(e: &Expr) -> (r: Vec<String>)
    ensures
        text::deep(r@) == claimed_by(e@),
{
    proof {
        crate::syntax::expr_parts(*e);
    }
    match e {
        Expr::Call(f, args, _) if tail_is(f, "parametrize") && args.len() > 0 => {
            proof {
                crate::syntax::expr_parts(args@[0]);
            }
            match &args[0] {
                Expr::Str(s) => {
                    let parts: Vec<String> = split(s.as_str(), Separator::Char(','), true);
                    let ghost ps = text::deep(parts@);
                    let mut out: Vec<String> = Vec::new();
                    let mut i: usize = 0;
                    while i < parts.len()
                        invariant
                            i <= parts.len(),
                            ps == text::deep(parts@),
                            trimmed_from(ps, i as int, text::deep(out@)) == trimmed_from(
                                ps,
                                0,
                                Seq::empty(),
                            ),
                        decreases parts.len() - i,
                    {
                        out.push(text::trim(parts[i].as_str()));
                        i += 1;
                    }
                    out
                },
                Expr::Tuple(v) => string_values(v),
                Expr::List(v) => string_values(v),
                _ => Vec::new(),
            }
        },
        _ => Vec::new(),
    }
}

/// All argument names claimed by `parametrize` decorators: these function
/// parameters are params, not fixture requests.
pub fn decorator_argnames(decorators: &Vec<Expr>) -> (r: Vec<String>)
    ensures
        text::deep(r@) == claimed_from(text::deep(decorators@), 0, Seq::empty()),
{
    let ghost ds = text::deep(decorators@);
    let mut out: Vec<String> = Vec::new();
    let mut i: usize = 0;
    while i < decorators.len()
        invariant
            i <= decorators.len(),
            ds == text::deep(decorators@),
            claimed_from(ds, i as int, text::deep(out@)) == claimed_from(ds, 0, Seq::empty()),
        decreases decorators.len() - i,
    {
        let names: Vec<String> = claimed_names(&decorators[i]);
        text::extend(&mut out, &names);
        i += 1;
    }
    out
}

/// What the arguments of `@pytest.fixture` say.
#[derive(Debug)]
pub struct FixtureFlags {
    /// `params=` of any shape counts as parametrized (conservative).
    pub parametrized: bool,
    /// `autouse=` fixtures apply to every test in scope; a parametrized
    /// autouse fixture invalidates all exact expansions in that scope.
    pub autouse: bool,
    /// The name that `name="..."` gives the fixture.
    pub name: Option<String>,
}

/// What the arguments of `@pytest.fixture` say.
pub struct FixtureFlagsView {
    pub parametrized: bool,
    pub autouse: bool,
    pub name: Option<Seq<char>>,
}

impl View for FixtureFlags {
    type V = FixtureFlagsView;

    open spec fn view(&self) -> FixtureFlagsView {
        FixtureFlagsView {
            parametrized: self.parametrized,
            autouse: self.autouse,
            name: text::opt(self.name),
        }
    }
}

/// The keyword arguments of a decorator.
pub open spec fn decorator_keywords(e: ExprView) -> Seq<KeywordView> {
    match e {
        ExprView::Call(_, _, keywords) => keywords,
        _ => Seq::empty(),
    }
}

/// What the first `@pytest.fixture` from position `i` on says.
pub open spec fn fixture_from(v: Seq<ExprView>, i: int) -> Option<FixtureFlagsView>
    decreases v.len() - i,
{
    if i < 0 || i >= v.len() {
        None
    } else if tail_name(decorator_target(v[i])) == Some("fixture"@) {
        let keywords = decorator_keywords(v[i]);
        Some(
            FixtureFlagsView {
                parametrized: keyword_named(keywords, "params"@) is Some,
                autouse: keyword_named(keywords, "autouse"@) is Some,
                name: match keyword_named(keywords, "name"@) {
                    Some(ExprView::Str(s)) => Some(s),
                    _ => None,
                },
            },
        )
    } else {
        fixture_from(v, i + 1)
    }
}

/// The flags of one `@pytest.fixture`.
fn fixture_flags(e: &Expr) -> (r: FixtureFlags)
    ensures
        ({
            let keywords = decorator_keywords(e@);
            r@ == FixtureFlagsView {
                parametrized: keyword_named(keywords, "params"@) is Some,
                autouse: keyword_named(keywords, "autouse"@) is Some,
                name: match keyword_named(keywords, "name"@) {
                    Some(ExprView::Str(s)) => Some(s),
                    _ => None,
                },
            }
        }),
{
    proof {
        crate::syntax::expr_parts(*e);
    }
    match e {
        Expr::Call(_, _, keywords) => FixtureFlags {
            parametrized: keyword(keywords, "params").is_some(),
            autouse: keyword(keywords, "autouse").is_some(),
            name: match keyword(keywords, "name") {
                Some(value) => string_value(value),
                None => None,
            },
        },
        _ => FixtureFlags { parametrized: false, autouse: false, name: None },
    }
}

/// Is this decorator list a `@pytest.fixture` (optionally with arguments)?
pub fn fixture_info(decorators: &Vec<Expr>) -> (r: Option<FixtureFlags>)
    ensures
        text::opt(r) == fixture_from(text::deep(decorators@), 0),
{
    let ghost ds = text::deep(decorators@);
    let mut i: usize = 0;
    while i < decorators.len()
        invariant
            i <= decorators.len(),
            ds == text::deep(decorators@),
            fixture_from(ds, i as int) == fixture_from(ds, 0),
        decreases decorators.len() - i,
    {
        if tail_is(target_of(&decorators[i]), "fixture") {
            return Some(fixture_flags(&decorators[i]));
        }
        i += 1;
    }
    None
}

// ---------------------------------------------------------------------------
// Laws
// ---------------------------------------------------------------------------

/// A test that is not expanded exactly has one ID: its bare name.
pub proof fn law_bare_name(e: ExpansionView, name: Seq<char>)
    requires
        !(e is Params),
    ensures
        applied(e, name) == seq![name],
{
}

/// A class expansion and a method expansion combine to `Fallback` exactly when
/// one of them is `Fallback`, and to a plain test exactly when both are plain.
pub proof fn law_fallback_poisons(class: ExpansionView, method: ExpansionView)
    ensures
        combined(class, method) is Fallback <==> class is Fallback || method is Fallback,
        combined(class, method) is Plain <==> class is Plain && method is Plain,
{
}

/// The combined expansion has one suffix for each pair of a class suffix and a
/// method suffix; the method suffix comes first and varies fastest.
pub proof fn law_combined_pairs(
    outer: Seq<Seq<char>>,
    inner: Seq<Seq<char>>,
    o: int,
    i: int,
)
    requires
        0 <= o < outer.len(),
        0 <= i < inner.len(),
    ensures
        combined(ExpansionView::Params(outer), ExpansionView::Params(inner)) matches
            ExpansionView::Params(v) && v.len() == outer.len() * inner.len() && 0 <= o
            * inner.len() + i < v.len() && v[o * inner.len() + i] == inner[i] + "-"@ + outer[o],
{
    let n = inner.len() as int;
    let k = o * n + i;
    assert(0 <= k < outer.len() * n) by (nonlinear_arith)
        requires
            0 <= o < outer.len(),
            0 <= i < n,
            k == o * n + i,
    ;
    vstd::arithmetic::div_mod::lemma_fundamental_div_mod_converse(k, n, o, i);
}

/// A decorator whose effect on node IDs is not certain: it is neither known to
/// be ID-neutral nor a `parametrize` or `usefixtures` that can be resolved.
pub open spec fn uncertain(
    e: ExprView,
    aliases: Seq<(Seq<char>, Option<Seq<Seq<char>>>)>,
) -> bool {
    with_ids(no_findings(), e, aliases).poisoned
}

/// One decorator that is not certain keeps a test from being expanded, wherever
/// in the list it stands: wrong bracket IDs are never made.
pub proof fn law_uncertain_never_expands(
    v: Seq<ExprView>,
    aliases: Seq<(Seq<char>, Option<Seq<Seq<char>>>)>,
    k: int,
)
    requires
        0 <= k < v.len(),
        uncertain(v[k], aliases),
    ensures
        !(decorators_say(v, aliases).expansion is Params),
{
    poison_stays(v, aliases, k, 0, no_findings());
}

proof fn poison_stays(
    v: Seq<ExprView>,
    aliases: Seq<(Seq<char>, Option<Seq<Seq<char>>>)>,
    k: int,
    i: int,
    f: Findings,
)
    requires
        0 <= i,
        k < v.len(),
        uncertain(v[k], aliases),
        i > k ==> f.poisoned,
        f.sets.len() > 0 ==> f.parametrized,
    ensures
        ({
            let g = findings_from(v, aliases, i, f);
            (i <= k || f.poisoned ==> g.poisoned) && (g.sets.len() > 0 ==> g.parametrized)
        }),
    decreases v.len() - i,
{
    if i < v.len() {
        poison_stays(
            v,
            aliases,
            k,
            i + 1,
            with_mark(with_ids(f, v[i], aliases), v[i], aliases),
        );
    }
}

/// A test with one `parametrize` call that is expanded has at least one ID, and
/// no ID twice: values that pytest would tell apart by suffixes of its own fall
/// back.
pub proof fn law_expanded_ids_are_distinct(
    args: Seq<ExprView>,
    keywords: Seq<KeywordView>,
    name: Seq<char>,
)
    requires
        pieces_of(args, keywords) is Some,
    ensures
        applied(ExpansionView::Params(pieces_of(args, keywords)->0), name).len() > 0,
        applied(ExpansionView::Params(pieces_of(args, keywords)->0), name).no_duplicates(),
{
    reveal_strlit("[");
    reveal_strlit("]");
    let p = pieces_of(args, keywords)->0;
    let ids = applied(ExpansionView::Params(p), name);
    assert forall|i: int, j: int| 0 <= i < ids.len() && 0 <= j < ids.len() && i != j implies ids[i]
        != ids[j] by {
        let n = name.len() as int + 1;
        assert(ids[i].subrange(n, ids[i].len() - 1) =~= p[i]);
        assert(ids[j].subrange(n, ids[j].len() - 1) =~= p[j]);
    }
}

// ---------------------------------------------------------------------------
// Laws of rendering
// ---------------------------------------------------------------------------

/// A string renders as itself, where it is not empty and holds nothing but ASCII
/// letters and digits and `_`, `-`, `.`, `+` and `=`; else it is not certain.
pub proof fn law_strings_render_as_they_are(s: Seq<char>)
    ensures
        scalar_of(ExprView::Str(s)) == (if s.len() > 0 && (forall|i: int|
            #![trigger s[i]]
            0 <= i < s.len() ==> ('a' <= s[i] <= 'z' || 'A' <= s[i] <= 'Z' || '0' <= s[i] <= '9'
                || s[i] == '_' || s[i] == '-' || s[i] == '.' || s[i] == '+' || s[i] == '=')) {
            Some(s)
        } else {
            None
        }),
{
    if forall|i: int|
        #![trigger s[i]]
        0 <= i < s.len() ==> ('a' <= s[i] <= 'z' || 'A' <= s[i] <= 'Z' || '0' <= s[i] <= '9'
            || s[i] == '_' || s[i] == '-' || s[i] == '.' || s[i] == '+' || s[i] == '=') {
        assert forall|i: int| 0 <= i < s.len() implies safe_char(#[trigger] s[i]) by {}
    } else {
        let i = choose|i: int|
            #![trigger s[i]]
            0 <= i < s.len() && !('a' <= s[i] <= 'z' || 'A' <= s[i] <= 'Z' || '0' <= s[i] <= '9'
                || s[i] == '_' || s[i] == '-' || s[i] == '.' || s[i] == '+' || s[i] == '=');
        assert(!safe_char(s[i]));
    }
}

/// A number renders as the decimal that it is, a negative one with a minus sign
/// in front; the other constants render as Python shows them; and nothing else is
/// certain.
pub proof fn law_constants_render_as_shown(e: ExprView, n: nat)
    requires
        n > 0,
    ensures
        scalar_of(ExprView::Int(text::decimal_of(n))) == Some(text::decimal_of(n)),
        scalar_of(ExprView::Minus(Box::new(ExprView::Int(text::decimal_of(n))))) == Some(
            "-"@ + text::decimal_of(n),
        ),
        scalar_of(ExprView::Int("0"@)) == Some("0"@),
        scalar_of(ExprView::Minus(Box::new(ExprView::Int("0"@)))) == Some("0"@),
        scalar_of(ExprView::Bool(true)) == Some("True"@),
        scalar_of(ExprView::Bool(false)) == Some("False"@),
        scalar_of(ExprView::NoneValue) == Some("None"@),
        scalar_of(e) is Some ==> e is Str || e is Int || e is Bool || e is NoneValue || (e is Minus
            && *e->Minus_0 is Int),
{
    reveal_strlit("0");
    text::law_decimal_is_digits(n);
    let d = text::decimal_of(n);
    assert forall|j: int| 0 <= j < d.len() implies text::digit(#[trigger] d[j]) by {}
    assert(decimal(d));
    assert(d[0] != '0');
    let zero = "0"@;
    assert(zero.len() == 1 && zero[0] == '0');
    assert(decimal(zero));
}

/// The renderings of some values.
pub open spec fn renderings(values: Seq<ExprView>) -> Seq<Seq<char>> {
    Seq::new(values.len(), |i: int| scalar_of(values[i])->0)
}

/// Do all of the values render?
pub open spec fn all_render(values: Seq<ExprView>) -> bool {
    forall|i: int| 0 <= i < values.len() ==> scalar_of(#[trigger] values[i]) is Some
}

/// The piece of several values has the renderings of all of them, in order, with
/// dashes between them; and it is the same however the values are written: as a
/// tuple, a list, or the arguments of `pytest.param`.
pub proof fn law_piece_holds_all_values(values: Seq<ExprView>, f: ExprView)
    requires
        values.len() > 1,
        tail_name(f) == Some("param"@),
    ensures
        ({
            let n = values.len();
            let piece = piece_of(
                ExprView::Call(Box::new(f), values, Seq::empty()),
                n,
            );
            &&& piece == (if all_render(values) {
                Some(text::joined(renderings(values), "-"@))
            } else {
                None
            })
            &&& piece_of(ExprView::Tuple(values), n) == piece
            &&& piece_of(ExprView::List(values), n) == piece
        }),
{
    row_is_joined(values, 0, Seq::empty());
    assert(values.skip(0) =~= values);
    assert(Seq::<Seq<char>>::empty() + renderings(values) =~= renderings(values));
}

/// The piece of a single value is its rendering, also where `pytest.param` holds
/// it.
pub proof fn law_piece_of_one_value(value: ExprView, f: ExprView)
    requires
        tail_name(f) == Some("param"@),
    ensures
        piece_of(ExprView::Call(Box::new(f), seq![value], Seq::empty()), 1) == scalar_of(value),
        !(value is Call) ==> piece_of(value, 1) == scalar_of(value),
{
    let values = seq![value];
    row_is_joined(values, 0, Seq::empty());
    assert(values.skip(0) =~= values);
    assert(values[0] == value);
    assert(all_render(values) <==> scalar_of(value) is Some);
    let parts = Seq::<Seq<char>>::empty() + renderings(values);
    assert(parts =~= seq![scalar_of(value)->0]);
    assert(text::joined(parts, "-"@) == parts[0]);
}

/// Values that are not as many as the argument names have no piece.
pub proof fn law_piece_needs_all_names(values: Seq<ExprView>, f: ExprView, n: nat)
    requires
        values.len() != n,
        tail_name(f) == Some("param"@),
    ensures
        piece_of(ExprView::Call(Box::new(f), values, Seq::empty()), n) is None,
        piece_of(ExprView::Tuple(values), n) is None,
        piece_of(ExprView::List(values), n) is None,
{
}

/// `marks=` of `pytest.param` says nothing of the piece, and `id=` says all of
/// it, whatever the values are: one that is no string, and any other keyword,
/// leaves it unknown.
pub proof fn law_param_keywords(
    values: Seq<ExprView>,
    f: ExprView,
    marks: ExprView,
    id: Seq<char>,
    n: nat,
)
    requires
        tail_name(f) == Some("param"@),
    ensures
        ({
            let marked = KeywordView { arg: Some("marks"@), value: marks };
            let named = KeywordView { arg: Some("id"@), value: ExprView::Str(id) };
            let plain = ExprView::Call(Box::new(f), values, Seq::empty());
            &&& piece_of(ExprView::Call(Box::new(f), values, seq![marked]), n) == piece_of(
                plain,
                n,
            )
            &&& piece_of(ExprView::Call(Box::new(f), values, seq![named]), n) == scalar_of(
                ExprView::Str(id),
            )
            &&& piece_of(ExprView::Call(Box::new(f), values, seq![named, marked]), n)
                == scalar_of(ExprView::Str(id))
            &&& piece_of(ExprView::Call(Box::new(f), values, seq![marked, named]), n)
                == scalar_of(ExprView::Str(id))
        }),
        !(marks is Str) ==> piece_of(
            ExprView::Call(
                Box::new(f),
                values,
                seq![KeywordView { arg: Some("id"@), value: marks }],
            ),
            n,
        ) is None,
        id != "id"@ && id != "marks"@ ==> piece_of(
            ExprView::Call(
                Box::new(f),
                values,
                seq![KeywordView { arg: Some(id), value: marks }],
            ),
            n,
        ) is None,
{
    reveal_strlit("marks");
    reveal_strlit("id");
    assert("marks"@.len() != "id"@.len());
    reveal_with_fuel(only_id_and_marks, 4);
    reveal_with_fuel(last_keyword, 4);
}

/// One `parametrize` without `ids=` gives the pieces of its values, one for each
/// and in order, where there is one at least, all are certain and no two are
/// alike; else it gives none.
pub proof fn law_values_give_their_pieces(
    names: ExprView,
    n: nat,
    values: Seq<ExprView>,
)
    requires
        names_given(names) == Some(n),
    ensures
        ({
            let found = pieces_of(seq![names, ExprView::List(values)], Seq::empty());
            &&& found == pieces_of(seq![names, ExprView::Tuple(values)], Seq::empty())
            &&& found is Some <==> values.len() > 0 && (forall|i: int|
                0 <= i < values.len() ==> piece_of(#[trigger] values[i], n) is Some) && (forall|
                i: int,
                j: int,
            |
                0 <= i < j < values.len() ==> piece_of(#[trigger] values[i], n) != piece_of(
                    #[trigger] values[j],
                    n,
                ))
            &&& found matches Some(p) ==> p.len() == values.len() && (forall|i: int|
                0 <= i < values.len() ==> Some(#[trigger] p[i]) == piece_of(values[i], n))
        }),
{
    pieces_hold(values, n, 0, Seq::empty());
    let all = pieces_from(values, n, 0, Seq::empty());
    if let Some(p) = all {
        assert(p.no_duplicates() <==> (forall|i: int, j: int|
            0 <= i < j < values.len() ==> piece_of(#[trigger] values[i], n) != piece_of(
                #[trigger] values[j],
                n,
            ))) by {
            assert forall|i: int| 0 <= i < values.len() implies Some(#[trigger] p[i]) == piece_of(
                values[i],
                n,
            ) by {}
            if p.no_duplicates() {
                assert forall|i: int, j: int| 0 <= i < j < values.len() implies piece_of(
                    #[trigger] values[i],
                    n,
                ) != piece_of(#[trigger] values[j], n) by {
                    assert(p[i] != p[j]);
                }
            }
            if forall|i: int, j: int|
                0 <= i < j < values.len() ==> piece_of(#[trigger] values[i], n) != piece_of(
                    #[trigger] values[j],
                    n,
                ) {
                assert forall|i: int, j: int| 0 <= i < p.len() && 0 <= j < p.len() && i
                    != j implies p[i] != p[j] by {
                    if i < j {
                        assert(piece_of(values[i], n) != piece_of(values[j], n));
                    } else {
                        assert(piece_of(values[j], n) != piece_of(values[i], n));
                    }
                }
            }
        }
    }
}

/// One `parametrize` with `ids=` gives these, in order, where they are as many as
/// the values, certain, and no two alike; else it gives none.
pub proof fn law_ids_give_the_pieces(
    names: ExprView,
    n: nat,
    values: Seq<ExprView>,
    ids: Seq<Seq<char>>,
)
    requires
        names_given(names) == Some(n),
    ensures
        ({
            let list = Seq::new(ids.len(), |i: int| ExprView::Str(ids[i]));
            let given = KeywordView { arg: Some("ids"@), value: ExprView::List(list) };
            pieces_of(seq![names, ExprView::List(values)], seq![given]) == (if values.len() > 0
                && ids.len() == values.len() && all_render(list) && ids.no_duplicates() {
                Some(ids)
            } else {
                None
            })
        }),
{
    let list = Seq::new(ids.len(), |i: int| ExprView::Str(ids[i]));
    let given = KeywordView { arg: Some("ids"@), value: ExprView::List(list) };
    reveal_with_fuel(only_ids, 3);
    assert(keyword_named(seq![given], "ids"@) == Some(given.value));
    assert(ids.take(0) =~= Seq::empty());
    ids_hold(list, ids, 0, Seq::empty());
}

/// A text names as many arguments as it has parts between commas, and a list or
/// tuple as many as it has elements.
pub proof fn law_names_are_counted(names: Seq<Seq<char>>, v: Seq<ExprView>)
    requires
        names.len() > 0,
        forall|i: int| 0 <= i < names.len() ==> !(#[trigger] names[i]).contains(','),
    ensures
        names_given(ExprView::Str(text::joined(names, seq![',']))) == Some(names.len()),
        names_given(ExprView::Tuple(v)) == Some(v.len()),
        names_given(ExprView::List(v)) == Some(v.len()),
{
    text::law_split_undoes_join(names, ',');
}

/// A test that is expanded has one ID for each suffix, in order: its name with
/// the suffix in brackets.
pub proof fn law_suffixes_go_in_brackets(suffixes: Seq<Seq<char>>, name: Seq<char>)
    ensures
        applied(ExpansionView::Params(suffixes), name).len() == suffixes.len(),
        forall|i: int|
            0 <= i < suffixes.len() ==> #[trigger] applied(ExpansionView::Params(suffixes), name)[i]
                == name + seq!['['] + suffixes[i] + seq![']'],
{
    reveal_strlit("[");
    reveal_strlit("]");
    assert("["@ =~= seq!['[']);
    assert("]"@ =~= seq![']']);
}

proof fn row_is_joined(values: Seq<ExprView>, i: int, out: Seq<Seq<char>>)
    requires
        0 <= i <= values.len(),
    ensures
        scalars_from(values, i, out) == (if all_render(values.skip(i)) {
            Some(out + renderings(values.skip(i)))
        } else {
            None
        }),
    decreases values.len() - i,
{
    let rest = values.skip(i);
    if i < values.len() {
        let tail = values.skip(i + 1);
        assert(rest[0] == values[i]);
        assert forall|j: int| 0 <= j < tail.len() implies #[trigger] tail[j] == rest[j + 1] by {}
        match scalar_of(values[i]) {
            Some(r) => {
                row_is_joined(values, i + 1, out.push(r));
                if all_render(tail) {
                    assert forall|j: int| 0 <= j < rest.len() implies scalar_of(
                        #[trigger] rest[j],
                    ) is Some by {
                        if j > 0 {
                            assert(rest[j] == tail[j - 1]);
                        }
                    }
                    assert(out.push(r) + renderings(tail) =~= out + renderings(rest));
                } else {
                    let j = choose|j: int|
                        0 <= j < tail.len() && scalar_of(#[trigger] tail[j]) is None;
                    assert(scalar_of(rest[j + 1]) is None);
                }
            },
            None => {
                assert(scalar_of(rest[0]) is None);
            },
        }
    } else {
        assert(out + renderings(rest) =~= out);
    }
}

proof fn pieces_hold(values: Seq<ExprView>, n: nat, i: int, out: Seq<Seq<char>>)
    requires
        0 <= i <= values.len(),
        out.len() == i,
        forall|j: int| 0 <= j < i ==> Some(#[trigger] out[j]) == piece_of(values[j], n),
    ensures
        ({
            let found = pieces_from(values, n, i, out);
            &&& found is Some <==> (forall|j: int|
                i <= j < values.len() ==> piece_of(#[trigger] values[j], n) is Some)
            &&& found matches Some(p) ==> p.len() == values.len() && (forall|j: int|
                0 <= j < values.len() ==> Some(#[trigger] p[j]) == piece_of(values[j], n))
        }),
    decreases values.len() - i,
{
    if i < values.len() {
        match piece_of(values[i], n) {
            Some(p) => {
                pieces_hold(values, n, i + 1, out.push(p));
            },
            None => {},
        }
    }
}

proof fn ids_hold(list: Seq<ExprView>, ids: Seq<Seq<char>>, i: int, out: Seq<Seq<char>>)
    requires
        0 <= i <= ids.len(),
        list.len() == ids.len(),
        forall|j: int| 0 <= j < list.len() ==> #[trigger] list[j] == ExprView::Str(ids[j]),
        out == ids.take(i),
        forall|j: int| 0 <= j < i ==> scalar_of(#[trigger] list[j]) is Some,
    ensures
        ids_from(list, i, out) == (if all_render(list) {
            Some(ids)
        } else {
            None
        }),
    decreases ids.len() - i,
{
    if i < ids.len() {
        assert(list[i] == ExprView::Str(ids[i]));
        match safe_of(ids[i]) {
            Some(s) => {
                assert(ids.take(i + 1) =~= ids.take(i).push(s));
                ids_hold(list, ids, i + 1, out.push(s));
            },
            None => {
                assert(scalar_of(list[i]) is None);
            },
        }
    } else {
        assert(ids.take(i) =~= ids);
    }
}

// ---------------------------------------------------------------------------
// Laws of decorator lists
// ---------------------------------------------------------------------------

/// Does a decorator list hold a decorator that is not certain?
pub open spec fn any_uncertain(
    v: Seq<ExprView>,
    aliases: Seq<(Seq<char>, Option<Seq<Seq<char>>>)>,
) -> bool {
    exists|i: int| 0 <= i < v.len() && uncertain(#[trigger] v[i], aliases)
}

/// The pieces that a decorator gives, where it is a `parametrize` or stands for
/// one.
pub open spec fn parametrizes(
    e: ExprView,
    aliases: Seq<(Seq<char>, Option<Seq<Seq<char>>>)>,
) -> Option<Option<Seq<Seq<char>>>> {
    match e {
        ExprView::Call(f, args, keywords) => if tail_name(*f) == Some("parametrize"@) {
            Some(pieces_of(args, keywords))
        } else {
            None
        },
        ExprView::Name(n) => crate::table::find(aliases, n),
        _ => None,
    }
}

/// Are these the suffixes `inner`, each with each of the pieces behind it, the
/// suffixes varying fastest?
pub open spec fn is_product(
    both: Seq<Seq<char>>,
    inner: Seq<Seq<char>>,
    pieces: Seq<Seq<char>>,
) -> bool {
    &&& both.len() == inner.len() * pieces.len()
    &&& forall|o: int, i: int|
        0 <= o < pieces.len() && 0 <= i < inner.len() && inner[i].len() > 0 ==> #[trigger]
        stands_at(both, o * inner.len() + i, inner[i] + "-"@ + pieces[o])
}

/// Does a suffix stand at a position of a list?
pub open spec fn stands_at(list: Seq<Seq<char>>, at: int, suffix: Seq<char>) -> bool {
    0 <= at < list.len() && list[at] == suffix
}

/// A `parametrize` on top of other decorators multiplies what they give: where
/// these leave a test as it is, its own pieces are the suffixes; where they
/// expand it, each of their suffixes stands in front of each of its pieces and
/// varies fastest; and where anything is not certain the test falls back.
pub proof fn law_parametrize_on_top(
    e: ExprView,
    v: Seq<ExprView>,
    aliases: Seq<(Seq<char>, Option<Seq<Seq<char>>>)>,
)
    requires
        parametrizes(e, aliases) is Some,
    ensures
        ({
            let rest = decorators_say(v, aliases).expansion;
            let all = decorators_say(seq![e] + v, aliases).expansion;
            match parametrizes(e, aliases)->0 {
                None => all is Fallback,
                Some(pieces) => if any_uncertain(v, aliases) {
                    all is Fallback
                } else {
                    match rest {
                        ExpansionView::Fallback => all is Fallback,
                        ExpansionView::Plain => all == ExpansionView::Params(pieces),
                        ExpansionView::Params(inner) => all matches ExpansionView::Params(both)
                            && is_product(both, inner, pieces),
                    }
                },
            }
        }),
{
    let whole = seq![e] + v;
    assert(whole[0] == e);
    let f = with_mark(with_ids(no_findings(), e, aliases), e, aliases);
    findings_of_rest(e, v, aliases, 0, f);
    findings_add_up(v, aliases, 0, f);
    let g = findings_from(v, aliases, 0, no_findings());
    let all = findings_from(whole, aliases, 0, no_findings());
    assert(all == findings_from(whole, aliases, 1, f));
    uncertain_is_found(v, aliases, 0, no_findings());
    sets_are_parametrized(v, aliases, 0, no_findings());
    let start = seq![Seq::<char>::empty()];
    if let Some(pieces) = parametrizes(e, aliases)->0 {
        assert(f.sets =~= seq![pieces]);
        if g.sets.len() == 0 {
            assert(all.sets =~= seq![pieces]);
            single_set(pieces);
        } else {
            assert(all.sets =~= seq![pieces] + g.sets);
            stacked_on_top(pieces, g.sets, g.sets.len() as int, start);
            let inner = stacked(g.sets, g.sets.len() as int, start);
            let both = crossed(inner, pieces, true);
            crossed_is_product(inner, pieces);
            assert(decorators_say(whole, aliases).expansion == ExpansionView::Params(both)
                || decorators_say(whole, aliases).expansion is Fallback);
        }
    }
}

proof fn crossed_is_product(inner: Seq<Seq<char>>, pieces: Seq<Seq<char>>)
    ensures
        is_product(crossed(inner, pieces, true), inner, pieces),
{
    let both = crossed(inner, pieces, true);
    let n = inner.len() as int;
    assert(both.len() == n * pieces.len()) by (nonlinear_arith)
        requires
            both.len() == pieces.len() * n,
    ;
    assert forall|o: int, i: int|
        0 <= o < pieces.len() && 0 <= i < inner.len() && inner[i].len() > 0 implies
        #[trigger] stands_at(both, o * inner.len() + i, inner[i] + "-"@ + pieces[o]) by {
        let q = o * n + i;
        assert(0 <= q < pieces.len() * n) by (nonlinear_arith)
            requires
                0 <= o < pieces.len(),
                0 <= i < n,
                q == o * n + i,
        ;
        vstd::arithmetic::div_mod::lemma_fundamental_div_mod_converse(q, n, o, i);
    }
}

/// A decorator that neither parametrizes nor is uncertain leaves the suffixes as
/// they are, one that does not parametrize puts its mark, if it is one, in front
/// of the others, and `usefixtures` adds the fixtures that it names.
pub proof fn law_other_decorator_on_top(
    e: ExprView,
    v: Seq<ExprView>,
    aliases: Seq<(Seq<char>, Option<Seq<Seq<char>>>)>,
)
    requires
        parametrizes(e, aliases) is None,
    ensures
        ({
            let rest = decorators_say(v, aliases);
            let all = decorators_say(seq![e] + v, aliases);
            &&& !uncertain(e, aliases) ==> all.expansion == rest.expansion
            &&& uncertain(e, aliases) ==> all.expansion == (if rest.expansion is Plain {
                ExpansionView::Plain
            } else {
                ExpansionView::Fallback
            })
            &&& all.marks == (match mark_of(e) {
                Some(m) => seq![m] + rest.marks,
                None => rest.marks,
            })
            &&& all.extra_fixture_requests == (match e {
                ExprView::Call(f, args, _) => if tail_name(*f) == Some("usefixtures"@) {
                    strings_in(args) + rest.extra_fixture_requests
                } else {
                    rest.extra_fixture_requests
                },
                _ => rest.extra_fixture_requests,
            })
        }),
{
    let whole = seq![e] + v;
    assert(whole[0] == e);
    let f = with_mark(with_ids(no_findings(), e, aliases), e, aliases);
    findings_of_rest(e, v, aliases, 0, f);
    findings_add_up(v, aliases, 0, f);
    let g = findings_from(v, aliases, 0, no_findings());
    let all = findings_from(whole, aliases, 0, no_findings());
    assert(all == findings_from(whole, aliases, 1, f));
    sets_are_parametrized(v, aliases, 0, no_findings());
    assert(all.sets =~= g.sets);
    match mark_of(e) {
        Some(m) => {
            assert(f.marks =~= seq![m]);
        },
        None => {
            assert(all.marks =~= g.marks);
        },
    }
    assert(f.extra + g.extra =~= decorators_say(whole, aliases).extra_fixture_requests);
    assert(Seq::<Seq<char>>::empty() + g.extra =~= g.extra);
    if let ExprView::Call(h, args, _) = e {
        if tail_name(*h) == Some("usefixtures"@) {
            assert(f.extra =~= strings_in(args));
        }
    }
}

/// A mark is certain, and it is the mark that its name says, called or not and
/// however `mark` is reached. A name that is neither a `parametrize` of the
/// module nor one of the decorators that are known to leave IDs alone is not
/// certain, called or not.
pub proof fn law_what_is_certain(
    base: ExprView,
    chain: Seq<char>,
    name: Seq<char>,
    args: Seq<ExprView>,
    keywords: Seq<KeywordView>,
    aliases: Seq<(Seq<char>, Option<Seq<Seq<char>>>)>,
)
    requires
        dotted_name(base) == Some(chain),
        tail_name(base) == Some("mark"@),
        name != "parametrize"@,
        name != "usefixtures"@,
        !name.contains('.'),
    ensures
        ({
            let mark = ExprView::Attribute(Box::new(base), name);
            let called = ExprView::Call(Box::new(mark), args, keywords);
            &&& mark_of(mark) == Some(name)
            &&& mark_of(called) == Some(name)
            &&& !uncertain(mark, aliases)
            &&& !uncertain(called, aliases)
        }),
        crate::table::find(aliases, name) is None && name != "staticmethod"@ && name
            != "classmethod"@ && name != "property"@ && name != "abstractmethod"@ && name
            != "patch"@ && name != "given"@ ==> uncertain(ExprView::Name(name), aliases)
            && uncertain(
            ExprView::Call(Box::new(ExprView::Name(name)), args, keywords),
            aliases,
        ),
{
    mark_is_a_segment(base, chain, name);
}

proof fn mark_is_a_segment(base: ExprView, chain: Seq<char>, name: Seq<char>)
    requires
        dotted_name(base) == Some(chain),
        tail_name(base) == Some("mark"@),
        !name.contains('.'),
    ensures
        text::fields(chain + "."@ + name, Separator::Char('.'), true).contains("mark"@),
{
    reveal_strlit(".");
    reveal_strlit("mark");
    let whole = chain + "."@ + name;
    assert(whole =~= chain.push('.') + name);
    text::law_fields_add_up(chain, '.', name, true);
    let head = text::fields(chain, Separator::Char('.'), true);
    match base {
        ExprView::Name(_) => {
            text::law_field_is_one("mark"@, '.');
            assert(head[0] == "mark"@);
        },
        ExprView::Attribute(b, a) => {
            let up = dotted_name(*b)->0;
            assert(chain =~= up.push('.') + "mark"@);
            text::law_fields_add_up(up, '.', "mark"@, true);
            text::law_field_is_one("mark"@, '.');
            let front = text::fields(up, Separator::Char('.'), true);
            assert(head == front + seq!["mark"@]);
            assert(head[front.len() as int] == "mark"@);
        },
        _ => {},
    }
    let all = text::fields(whole, Separator::Char('.'), true);
    let at = head.index_of("mark"@);
    assert(all[at] == "mark"@);
}

proof fn findings_of_rest(
    e: ExprView,
    v: Seq<ExprView>,
    aliases: Seq<(Seq<char>, Option<Seq<Seq<char>>>)>,
    i: int,
    f: Findings,
)
    requires
        0 <= i <= v.len(),
    ensures
        findings_from(seq![e] + v, aliases, i + 1, f) == findings_from(v, aliases, i, f),
    decreases v.len() - i,
{
    if i < v.len() {
        assert((seq![e] + v)[i + 1] == v[i]);
        findings_of_rest(
            e,
            v,
            aliases,
            i + 1,
            with_mark(with_ids(f, v[i], aliases), v[i], aliases),
        );
    }
}

/// Two findings, one behind the other.
spec fn both_found(f: Findings, g: Findings) -> Findings {
    Findings {
        sets: f.sets + g.sets,
        extra: f.extra + g.extra,
        poisoned: f.poisoned || g.poisoned,
        parametrized: f.parametrized || g.parametrized,
        marks: f.marks + g.marks,
        unresolved: f.unresolved + g.unresolved,
    }
}

proof fn findings_add_up(
    v: Seq<ExprView>,
    aliases: Seq<(Seq<char>, Option<Seq<Seq<char>>>)>,
    i: int,
    f: Findings,
)
    requires
        0 <= i <= v.len(),
    ensures
        findings_from(v, aliases, i, f) == both_found(
            f,
            findings_from(v, aliases, i, no_findings()),
        ),
    decreases v.len() - i,
{
    if i < v.len() {
        let one = with_mark(with_ids(no_findings(), v[i], aliases), v[i], aliases);
        let next = with_mark(with_ids(f, v[i], aliases), v[i], aliases);
        same_findings(next, both_found(f, one));
        findings_add_up(v, aliases, i + 1, next);
        findings_add_up(v, aliases, i + 1, one);
        let rest = findings_from(v, aliases, i + 1, no_findings());
        same_findings(both_found(next, rest), both_found(f, both_found(one, rest)));
    } else {
        same_findings(f, both_found(f, no_findings()));
    }
}

proof fn same_findings(f: Findings, g: Findings)
    requires
        f.sets =~= g.sets,
        f.extra =~= g.extra,
        f.poisoned == g.poisoned,
        f.parametrized == g.parametrized,
        f.marks =~= g.marks,
        f.unresolved =~= g.unresolved,
    ensures
        f == g,
{
}

proof fn uncertain_is_found(
    v: Seq<ExprView>,
    aliases: Seq<(Seq<char>, Option<Seq<Seq<char>>>)>,
    i: int,
    f: Findings,
)
    requires
        0 <= i <= v.len(),
    ensures
        findings_from(v, aliases, i, f).poisoned <==> f.poisoned || exists|j: int|
            i <= j < v.len() && uncertain(#[trigger] v[j], aliases),
    decreases v.len() - i,
{
    if i < v.len() {
        let next = with_mark(with_ids(f, v[i], aliases), v[i], aliases);
        assert(next.poisoned == (f.poisoned || uncertain(v[i], aliases)));
        uncertain_is_found(v, aliases, i + 1, next);
    }
}

proof fn sets_are_parametrized(
    v: Seq<ExprView>,
    aliases: Seq<(Seq<char>, Option<Seq<Seq<char>>>)>,
    i: int,
    f: Findings,
)
    requires
        0 <= i <= v.len(),
        f.sets.len() > 0 ==> f.parametrized,
        f.parametrized ==> f.sets.len() > 0 || f.poisoned,
    ensures
        ({
            let g = findings_from(v, aliases, i, f);
            &&& g.sets.len() > 0 ==> g.parametrized
            &&& g.parametrized ==> g.sets.len() > 0 || g.poisoned
        }),
    decreases v.len() - i,
{
    if i < v.len() {
        let next = with_mark(with_ids(f, v[i], aliases), v[i], aliases);
        sets_are_parametrized(v, aliases, i + 1, next);
    }
}

proof fn single_set(pieces: Seq<Seq<char>>)
    ensures
        stacked(seq![pieces], 1, seq![Seq::<char>::empty()]) == pieces,
{
    let start = seq![Seq::<char>::empty()];
    let out = crossed(start, pieces, true);
    assert(start.len() == 1);
    assert(out.len() == pieces.len()) by (nonlinear_arith)
        requires
            out.len() == pieces.len() * start.len(),
            start.len() == 1,
    ;
    assert forall|q: int| 0 <= q < pieces.len() implies out[q] == pieces[q] by {
        vstd::arithmetic::div_mod::lemma_fundamental_div_mod_converse(q, 1, q, 0);
        assert(start[0].len() == 0);
    }
    assert(out =~= pieces);
    assert(seq![pieces][0] == pieces);
    assert(stacked(seq![pieces], 0, out) == out);
}

proof fn stacked_on_top(
    pieces: Seq<Seq<char>>,
    sets: Seq<Seq<Seq<char>>>,
    j: int,
    out: Seq<Seq<char>>,
)
    requires
        0 <= j <= sets.len(),
    ensures
        stacked(seq![pieces] + sets, j + 1, out) == crossed(stacked(sets, j, out), pieces, true),
    decreases j,
{
    let all = seq![pieces] + sets;
    if j > 0 {
        assert(all[j] == sets[j - 1]);
        stacked_on_top(pieces, sets, j - 1, crossed(out, sets[j - 1], true));
    } else {
        assert(all[0] == pieces);
        let last = crossed(out, pieces, true);
        assert(stacked(all, 0, last) == last);
    }
}

/// A function is a fixture where one of its decorators is `fixture`, and the
/// first of these says what it is: with parameters where it has `params`, for
/// every test where it has `autouse`, and under another name where it has `name`.
pub proof fn law_fixture_decorators(v: Seq<ExprView>, at: int)
    requires
        0 <= at <= v.len(),
        forall|i: int|
            0 <= i < at ==> tail_name(decorator_target(#[trigger] v[i])) != Some("fixture"@),
    ensures
        at == v.len() ==> fixture_from(v, 0) is None,
        at < v.len() && tail_name(decorator_target(v[at])) == Some("fixture"@) ==> {
            &&& fixture_from(v, 0) matches Some(flags)
            &&& flags.parametrized <==> keyword_named(decorator_keywords(v[at]), "params"@) is Some
            &&& flags.autouse <==> keyword_named(decorator_keywords(v[at]), "autouse"@) is Some
            &&& keyword_named(decorator_keywords(v[at]), "name"@) matches Some(ExprView::Str(s))
                ==> flags.name == Some(s)
            &&& keyword_named(decorator_keywords(v[at]), "name"@) is None ==> flags.name is None
        },
{
    earlier_decorators(v, 0, at);
}

proof fn earlier_decorators(v: Seq<ExprView>, i: int, at: int)
    requires
        0 <= i <= at <= v.len(),
        forall|j: int|
            i <= j < at ==> tail_name(decorator_target(#[trigger] v[j])) != Some("fixture"@),
    ensures
        fixture_from(v, i) == fixture_from(v, at),
    decreases at - i,
{
    if i < at {
        assert(tail_name(decorator_target(v[i])) != Some("fixture"@));
        earlier_decorators(v, i + 1, at);
    }
}

/// A mark is what stands behind `mark.`, called or not.
pub proof fn law_marks_are_named(
    base: Box<ExprView>,
    name: Seq<char>,
    args: Seq<ExprView>,
    keywords: Seq<crate::syntax::KeywordView>,
)
    ensures
        ({
            let mark = Box::new(ExprView::Attribute(base, name));
            &&& tail_name(*base) == Some("mark"@) ==> mark_of(*mark) == Some(name) && mark_of(
                ExprView::Call(mark, args, keywords),
            ) == Some(name)
            &&& tail_name(*base) != Some("mark"@) ==> mark_of(*mark) is None && mark_of(
                ExprView::Call(mark, args, keywords),
            ) is None
        }),
{
}

/// The strings of a list are those of its elements that are strings, in order.
pub proof fn law_strings_are_kept(v: Seq<ExprView>, x: Seq<char>)
    ensures
        strings_in(v).contains(x) <==> exists|i: int|
            0 <= i < v.len() && string_of(#[trigger] v[i]) == Some(x),
        (forall|i: int| 0 <= i < v.len() ==> string_of(#[trigger] v[i]) is Some) ==> strings_in(v)
            == Seq::new(v.len(), |i: int| string_of(v[i])->0),
{
    strings_hold(v, 0, Seq::empty(), x);
}

proof fn strings_hold(v: Seq<ExprView>, i: int, out: Seq<Seq<char>>, x: Seq<char>)
    requires
        0 <= i <= v.len(),
    ensures
        strings_from(v, i, out).contains(x) <==> out.contains(x) || exists|j: int|
            i <= j < v.len() && string_of(#[trigger] v[j]) == Some(x),
        (forall|j: int| i <= j < v.len() ==> string_of(#[trigger] v[j]) is Some) ==> strings_from(
            v,
            i,
            out,
        ) == out + Seq::new((v.len() - i) as nat, |j: int| string_of(v[i + j])->0),
    decreases v.len() - i,
{
    if i < v.len() {
        match string_of(v[i]) {
            Some(s) => {
                strings_hold(v, i + 1, out.push(s), x);
                text::law_both_hold(out, seq![s], x);
                assert(out.push(s) =~= out + seq![s]);
                assert(seq![s].contains(s)) by {
                    assert(seq![s][0] == s);
                }
                assert(out.push(s) + Seq::new(
                    (v.len() - i - 1) as nat,
                    |j: int| string_of(v[i + 1 + j])->0,
                ) =~= out + Seq::new((v.len() - i) as nat, |j: int| string_of(v[i + j])->0));
            },
            None => {
                strings_hold(v, i + 1, out, x);
                assert(string_of(v[i]) is None);
            },
        }
    } else {
        assert(out + Seq::new(0nat, |j: int| string_of(v[i + j])->0) =~= out);
    }
}

/// A `parametrize` claims the names that it is given: those of a text, without
/// the white space around the commas, or those of a tuple or list. The names that
/// a test's own parameters claim are those that any of its decorators claims.
pub proof fn law_claimed_names(
    v: Seq<ExprView>,
    func: Box<ExprView>,
    names: Seq<ExprView>,
    s: Seq<char>,
    args: Seq<ExprView>,
    keywords: Seq<KeywordView>,
    x: Seq<char>,
)
    requires
        tail_name(*func) == Some("parametrize"@),
    ensures
        claimed_from(v, 0, Seq::empty()).contains(x) <==> exists|i: int|
            0 <= i < v.len() && claimed_by(#[trigger] v[i]).contains(x),
        claimed_by(ExprView::Call(func, seq![ExprView::Tuple(names)] + args, keywords)).contains(x)
            <==> exists|i: int| 0 <= i < names.len() && string_of(#[trigger] names[i]) == Some(x),
        claimed_by(ExprView::Call(func, seq![ExprView::List(names)] + args, keywords)).contains(x)
            <==> exists|i: int| 0 <= i < names.len() && string_of(#[trigger] names[i]) == Some(x),
        claimed_by(ExprView::Call(func, seq![ExprView::Str(s)] + args, keywords)).contains(x)
            <==> exists|i: int|
            0 <= i < text::fields(s, Separator::Char(','), true).len() && text::trimmed(
                #[trigger] text::fields(s, Separator::Char(','), true)[i],
            ) == x,
{
    claims_hold(v, 0, Seq::empty(), x);
    law_strings_are_kept(names, x);
    trims_hold(text::fields(s, Separator::Char(','), true), 0, Seq::empty(), x);
    assert((seq![ExprView::Tuple(names)] + args)[0] == ExprView::Tuple(names));
    assert((seq![ExprView::List(names)] + args)[0] == ExprView::List(names));
    assert((seq![ExprView::Str(s)] + args)[0] == ExprView::Str(s));
}

proof fn claims_hold(v: Seq<ExprView>, i: int, out: Seq<Seq<char>>, x: Seq<char>)
    requires
        0 <= i <= v.len(),
    ensures
        claimed_from(v, i, out).contains(x) <==> out.contains(x) || exists|j: int|
            i <= j < v.len() && claimed_by(#[trigger] v[j]).contains(x),
    decreases v.len() - i,
{
    if i < v.len() {
        claims_hold(v, i + 1, out + claimed_by(v[i]), x);
        text::law_both_hold(out, claimed_by(v[i]), x);
    }
}

proof fn trims_hold(v: Seq<Seq<char>>, i: int, out: Seq<Seq<char>>, x: Seq<char>)
    requires
        0 <= i <= v.len(),
    ensures
        trimmed_from(v, i, out).contains(x) <==> out.contains(x) || exists|j: int|
            i <= j < v.len() && text::trimmed(#[trigger] v[j]) == x,
    decreases v.len() - i,
{
    if i < v.len() {
        let one = text::trimmed(v[i]);
        trims_hold(v, i + 1, out.push(one), x);
        assert(out.push(one) =~= out + seq![one]);
        text::law_both_hold(out, seq![one], x);
        assert(seq![one].contains(one)) by {
            assert(seq![one][0] == one);
        }
    }
}

/// A name that stands for a `parametrize` call decorates a test as the call does.
pub proof fn law_aliases_stand_for_calls(
    n: Seq<char>,
    call: ExprView,
    v: Seq<ExprView>,
    aliases: Seq<(Seq<char>, Option<Seq<Seq<char>>>)>,
)
    requires
        alias_of(call) is Some,
        crate::table::find(aliases, n) == alias_of(call),
    ensures
        ({
            let named = decorators_say(seq![ExprView::Name(n)] + v, aliases);
            let written = decorators_say(seq![call] + v, aliases);
            &&& named.expansion == written.expansion
            &&& named.extra_fixture_requests == written.extra_fixture_requests
            &&& named.unresolved == written.unresolved
        }),
{
    let name = ExprView::Name(n);
    let none = no_findings();
    let f = with_mark(with_ids(none, name, aliases), name, aliases);
    let g = with_mark(with_ids(none, call, aliases), call, aliases);
    assert((seq![name] + v)[0] == name);
    assert((seq![call] + v)[0] == call);
    findings_of_rest(name, v, aliases, 0, f);
    findings_of_rest(call, v, aliases, 0, g);
    findings_add_up(v, aliases, 0, f);
    findings_add_up(v, aliases, 0, g);
    assert(findings_from(seq![name] + v, aliases, 0, none) == findings_from(
        seq![name] + v,
        aliases,
        1,
        f,
    ));
    assert(findings_from(seq![call] + v, aliases, 0, none) == findings_from(
        seq![call] + v,
        aliases,
        1,
        g,
    ));
}

/// A bare name that stands for no `parametrize` may be a mark: it is noted as
/// one.
pub proof fn law_bare_names_are_noted(
    n: Seq<char>,
    v: Seq<ExprView>,
    aliases: Seq<(Seq<char>, Option<Seq<Seq<char>>>)>,
)
    requires
        crate::table::find(aliases, n) is None,
    ensures
        decorators_say(seq![ExprView::Name(n)] + v, aliases).unresolved == seq![n]
            + decorators_say(v, aliases).unresolved,
{
    let name = ExprView::Name(n);
    let none = no_findings();
    let f = with_mark(with_ids(none, name, aliases), name, aliases);
    assert((seq![name] + v)[0] == name);
    findings_of_rest(name, v, aliases, 0, f);
    findings_add_up(v, aliases, 0, f);
    assert(findings_from(seq![name] + v, aliases, 0, none) == findings_from(
        seq![name] + v,
        aliases,
        1,
        f,
    ));
    assert(f.unresolved =~= seq![n]);
}

/// Decorators of `mock` and any `patch` leave IDs alone, called or not, and so do
/// those that are known by name and hypothesis's `given`; any other dotted name
/// that is no mark is not certain.
pub proof fn law_known_decorators(
    base: Box<ExprView>,
    name: Seq<char>,
    chain: Seq<char>,
    args: Seq<ExprView>,
    keywords: Seq<KeywordView>,
    aliases: Seq<(Seq<char>, Option<Seq<Seq<char>>>)>,
    n: Seq<char>,
)
    requires
        dotted_name(*base) == Some(chain),
        !name.contains('.'),
        name != "parametrize"@,
        name != "usefixtures"@,
    ensures
        ({
            let e = ExprView::Attribute(base, name);
            let called = ExprView::Call(Box::new(e), args, keywords);
            let segments = text::fields(chain, Separator::Char('.'), true);
            let patches = segments.contains("patch"@) || name == "patch"@;
            let marks = segments.contains("mark"@) || name == "mark"@;
            let mocks = "mock."@.is_prefix_of(chain + seq!['.'] + name) || "unittest.mock."@
                .is_prefix_of(chain + seq!['.'] + name);
            let given = chain + seq!['.'] + name == "hypothesis.given"@;
            &&& uncertain(e, aliases) <==> !(patches || marks || mocks || given)
            &&& uncertain(called, aliases) <==> !(patches || marks || mocks || given)
        }),
        crate::table::find(aliases, n) is None && (n == "staticmethod"@ || n == "classmethod"@ || n
            == "property"@ || n == "abstractmethod"@ || n == "patch"@ || n == "given"@)
            ==> !uncertain(ExprView::Name(n), aliases),
{
    reveal_strlit(".");
    assert("."@ =~= seq!['.']);
    let whole = chain + "."@ + name;
    assert(whole =~= chain.push('.') + name);
    text::law_fields_add_up(chain, '.', name, true);
    text::law_field_is_one(name, '.');
    let segments = text::fields(chain, Separator::Char('.'), true);
    text::law_both_hold(segments, seq![name], "patch"@);
    text::law_both_hold(segments, seq![name], "mark"@);
    assert(seq![name][0] == name);
    assert(seq![name].contains(name));
}

/// `usefixtures` with strings only is certain, and with anything else it is not.
pub proof fn law_fixtures_that_are_used(
    f: Box<ExprView>,
    args: Seq<ExprView>,
    keywords: Seq<KeywordView>,
    aliases: Seq<(Seq<char>, Option<Seq<Seq<char>>>)>,
    i: int,
)
    requires
        tail_name(*f) == Some("usefixtures"@),
        0 <= i < args.len(),
    ensures
        (forall|j: int| 0 <= j < args.len() ==> string_of(#[trigger] args[j]) is Some)
            ==> !uncertain(ExprView::Call(f, args, keywords), aliases),
        string_of(args[i]) is None ==> uncertain(ExprView::Call(f, args, keywords), aliases),
{
    reveal_strlit("usefixtures");
    reveal_strlit("parametrize");
    assert("usefixtures"@[0] == 'u' && "parametrize"@[0] == 'p');
    law_strings_are_kept(args, Seq::empty());
    if string_of(args[i]) is None {
        strings_are_fewer(args, 0, Seq::empty(), i);
    }
}

proof fn strings_are_fewer(v: Seq<ExprView>, i: int, out: Seq<Seq<char>>, at: int)
    requires
        0 <= i <= v.len(),
        0 <= at < v.len(),
        string_of(v[at]) is None,
    ensures
        strings_from(v, i, out).len() <= out.len() + v.len() - i,
        i <= at ==> strings_from(v, i, out).len() < out.len() + v.len() - i,
    decreases v.len() - i,
{
    if i < v.len() {
        match string_of(v[i]) {
            Some(s) => {
                strings_are_fewer(v, i + 1, out.push(s), at);
            },
            None => {
                strings_are_fewer(v, i + 1, out, at);
            },
        }
    }
}

} // verus!
