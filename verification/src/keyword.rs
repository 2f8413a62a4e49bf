//! pytest-style `-k` and `-m` expressions: fragments combined with `and`,
//! `or`, `not`, and parentheses. A keyword fragment matches if it is a
//! case-insensitive substring of the candidate (file basename and node ID, an
//! approximation of pytest's keyword set that covers names, classes, files, and
//! parametrize IDs). A mark fragment matches if it is one of the marks.

use vstd::prelude::*;

use crate::text::{self, concat, is_white, same, to_chars};

verus! {

broadcast use crate::text::group_deep;

/// An expression.
#[derive(Debug, PartialEq)]
pub enum KExpr {
    Or(Box<KExpr>, Box<KExpr>),
    And(Box<KExpr>, Box<KExpr>),
    Not(Box<KExpr>),
    Frag(String),
}

/// What an expression holds.
pub enum KExprView {
    Or(Box<KExprView>, Box<KExprView>),
    And(Box<KExprView>, Box<KExprView>),
    Not(Box<KExprView>),
    Frag(Seq<char>),
}

pub open spec fn kexpr_view(e: KExpr) -> KExprView
    decreases e,
{
    match e {
        KExpr::Or(a, b) => KExprView::Or(Box::new(kexpr_view(*a)), Box::new(kexpr_view(*b))),
        KExpr::And(a, b) => KExprView::And(Box::new(kexpr_view(*a)), Box::new(kexpr_view(*b))),
        KExpr::Not(a) => KExprView::Not(Box::new(kexpr_view(*a))),
        KExpr::Frag(s) => KExprView::Frag(s@),
    }
}

impl View for KExpr {
    type V = KExprView;

    open spec fn view(&self) -> KExprView {
        kexpr_view(*self)
    }
}

/// The lower-case form of a text, as Unicode gives it.
pub uninterp spec fn lower_of(s: Seq<char>) -> Seq<char>;

/// Is a text made of ASCII characters?
pub open spec fn is_ascii(s: Seq<char>) -> bool {
    forall|i: int| 0 <= i < s.len() ==> (#[trigger] s[i]) as u32 <= 127
}

/// The lower-case form of an ASCII character.
pub open spec fn ascii_lower(c: char) -> char {
    if 'A' <= c <= 'Z' {
        ((c as u32 + 32) as u32) as char
    } else {
        c
    }
}

/// `str::to_lowercase` of std gives the lower-case form of a text; that of an
/// ASCII text goes character by character.
#[verifier::external_body]
pub(crate) fn lower(s: &str) -> (r: String)
    ensures
        r@ == lower_of(s@),
        is_ascii(s@) ==> r@ == s@.map_values(|c: char| ascii_lower(c)),
{
    s.to_lowercase()
}

/// A text between quotes, with what cannot be shown plainly escaped.
pub uninterp spec fn quoted_of(s: Seq<char>) -> Seq<char>;

/// The `Debug` form of `str` of std puts a text between quotes and escapes what
/// cannot be shown plainly.
#[verifier::external_body]
fn quoted(s: &str) -> (r: String)
    ensures
        r@ == quoted_of(s@),
{
    format!("{s:?}")
}

// ---------------------------------------------------------------------------
// Matching
// ---------------------------------------------------------------------------

/// Does a candidate, in lower case, match an expression?
pub open spec fn matched(e: KExprView, candidate: Seq<char>) -> bool
    decreases e,
{
    match e {
        KExprView::Or(a, b) => matched(*a, candidate) || matched(*b, candidate),
        KExprView::And(a, b) => matched(*a, candidate) && matched(*b, candidate),
        KExprView::Not(a) => !matched(*a, candidate),
        KExprView::Frag(f) => text::occurs(candidate, f),
    }
}

/// Is one of the names, in lower case, the fragment?
pub open spec fn has_mark(names: Seq<Seq<char>>, fragment: Seq<char>) -> bool {
    exists|i: int| 0 <= i < names.len() && lower_of(#[trigger] names[i]) == fragment
}

/// Does a test with the given marks match an expression?
pub open spec fn marked(e: KExprView, names: Seq<Seq<char>>) -> bool
    decreases e,
{
    match e {
        KExprView::Or(a, b) => marked(*a, names) || marked(*b, names),
        KExprView::And(a, b) => marked(*a, names) && marked(*b, names),
        KExprView::Not(a) => !marked(*a, names),
        KExprView::Frag(f) => has_mark(names, f),
    }
}

fn holds_mark(names: &Vec<String>, fragment: &str) -> (r: bool)
    ensures
        r == has_mark(text::deep(names@), fragment@),
{
    let ghost ns = text::deep(names@);
    let mut i: usize = 0;
    while i < names.len()
        invariant
            i <= names.len(),
            ns == text::deep(names@),
            forall|j: int| 0 <= j < i ==> lower_of(#[trigger] ns[j]) != fragment@,
        decreases names.len() - i,
    {
        let name: String = lower(names[i].as_str());
        if same(name.as_str(), fragment) {
            proof {
                assert(lower_of(ns[i as int]) == fragment@);
            }
            return true;
        }
        i += 1;
    }
    false
}

impl KExpr {
    /// Does a candidate match? `candidate` must already be lowercased.
    pub fn matches(&self, candidate: &str) -> (r: bool)
        ensures
            r == matched(self@, candidate@),
        decreases self,
    {
        match self {
            KExpr::Or(a, b) => a.matches(candidate) || b.matches(candidate),
            KExpr::And(a, b) => a.matches(candidate) && b.matches(candidate),
            KExpr::Not(inner) => !inner.matches(candidate),
            KExpr::Frag(frag) => text::contains(candidate, frag.as_str()),
        }
    }

    /// Does a test with these marks match?
    pub fn matches_names(&self, names: &Vec<String>) -> (r: bool)
        ensures
            r == marked(self@, text::deep(names@)),
        decreases self,
    {
        match self {
            KExpr::Or(a, b) => a.matches_names(names) || b.matches_names(names),
            KExpr::And(a, b) => a.matches_names(names) && b.matches_names(names),
            KExpr::Not(inner) => !inner.matches_names(names),
            KExpr::Frag(frag) => holds_mark(names, frag.as_str()),
        }
    }
}

// ---------------------------------------------------------------------------
// Tokens
// ---------------------------------------------------------------------------

/// The tokens of a text from position `i` on, behind those in `out`, where
/// `word` has been read: words, and each parenthesis for itself.
pub open spec fn tokens_from(
    s: Seq<char>,
    i: int,
    out: Seq<Seq<char>>,
    word: Seq<char>,
) -> Seq<Seq<char>>
    decreases s.len() - i,
{
    if i < 0 || i >= s.len() {
        crate::options::with_word(out, word)
    } else if s[i] == '(' || s[i] == ')' {
        tokens_from(
            s,
            i + 1,
            crate::options::with_word(out, word).push(seq![s[i]]),
            Seq::empty(),
        )
    } else if text::white(s[i]) {
        tokens_from(s, i + 1, crate::options::with_word(out, word), Seq::empty())
    } else {
        tokens_from(s, i + 1, out, word.push(s[i]))
    }
}

/// The tokens of a text.
pub open spec fn tokens_of(s: Seq<char>) -> Seq<Seq<char>> {
    tokens_from(s, 0, Seq::empty(), Seq::empty())
}

/// The tokens of a text.
fn tokenize(input: &str) -> (r: Vec<String>)
    ensures
        text::deep(r@) == tokens_of(input@),
{
    let chars: Vec<char> = to_chars(input);
    let mut out: Vec<String> = Vec::new();
    let mut current: String = String::new();
    let mut i: usize = 0;
    while i < chars.len()
        invariant
            i <= chars.len(),
            chars@ == input@,
            tokens_from(input@, i as int, text::deep(out@), current@) == tokens_of(input@),
        decreases chars.len() - i,
    {
        let c: char = chars[i];
        if c == '(' || c == ')' {
            if !current.as_str().is_empty() {
                out.push(current);
            }
            current = String::new();
            let mut token: String = String::new();
            token.push(c);
            proof {
                assert(token@ =~= seq![c]);
            }
            out.push(token);
        } else if is_white(c) {
            if !current.as_str().is_empty() {
                out.push(current);
            }
            current = String::new();
        } else {
            current.push(c);
        }
        i += 1;
    }
    if !current.as_str().is_empty() {
        out.push(current);
    }
    out
}

// ---------------------------------------------------------------------------
// The grammar
// ---------------------------------------------------------------------------

/// What a part of the grammar gives: an expression and the position behind it,
/// or a message.
pub type Parsed = Result<(KExprView, int), Seq<char>>;

/// `not`, a parenthesis, or a fragment, at position `i`.
pub open spec fn not_expr(t: Seq<Seq<char>>, i: int) -> Parsed
    decreases t.len() - i, 0int,
{
    if i < 0 || i >= t.len() {
        Err("unexpected end of expression"@)
    } else if t[i] == "not"@ {
        match not_expr(t, i + 1) {
            Ok((e, j)) => Ok((KExprView::Not(Box::new(e)), j)),
            Err(m) => Err(m),
        }
    } else if t[i] == "("@ {
        match or_expr(t, i + 1) {
            Ok((e, j)) => if 0 <= j < t.len() && t[j] == ")"@ {
                Ok((e, j + 1))
            } else {
                Err("expected ')'"@)
            },
            Err(m) => Err(m),
        }
    } else if t[i] == ")"@ {
        Err("unexpected ')'"@)
    } else if t[i] == "and"@ || t[i] == "or"@ {
        Err("unexpected keyword "@ + quoted_of(t[i]))
    } else {
        Ok((KExprView::Frag(lower_of(t[i])), i + 1))
    }
}

/// One or more `not` expressions with `and` between them, at position `i`.
pub open spec fn and_expr(t: Seq<Seq<char>>, i: int) -> Parsed
    decreases t.len() - i, 1int,
{
    match not_expr(t, i) {
        Ok((e, j)) => if i < j <= t.len() {
            and_tail(t, j, e)
        } else {
            Ok((e, j))
        },
        Err(m) => Err(m),
    }
}

/// What follows the expression `left`, which ends at position `i`: more of the
/// conjunction. It groups to the left.
pub open spec fn and_tail(t: Seq<Seq<char>>, i: int, left: KExprView) -> Parsed
    decreases t.len() - i, 0int,
{
    if 0 <= i < t.len() && t[i] == "and"@ {
        match not_expr(t, i + 1) {
            Ok((right, j)) => if i < j <= t.len() {
                and_tail(t, j, KExprView::And(Box::new(left), Box::new(right)))
            } else {
                Ok((right, j))
            },
            Err(m) => Err(m),
        }
    } else {
        Ok((left, i))
    }
}

/// One or more conjunctions with `or` between them, at position `i`.
pub open spec fn or_expr(t: Seq<Seq<char>>, i: int) -> Parsed
    decreases t.len() - i, 2int,
{
    match and_expr(t, i) {
        Ok((e, j)) => if i < j <= t.len() {
            or_tail(t, j, e)
        } else {
            Ok((e, j))
        },
        Err(m) => Err(m),
    }
}

/// What follows the expression `left`, which ends at position `i`: more of the
/// disjunction. It groups to the left.
pub open spec fn or_tail(t: Seq<Seq<char>>, i: int, left: KExprView) -> Parsed
    decreases t.len() - i, 0int,
{
    if 0 <= i < t.len() && t[i] == "or"@ {
        match and_expr(t, i + 1) {
            Ok((right, j)) => if i < j <= t.len() {
                or_tail(t, j, KExprView::Or(Box::new(left), Box::new(right)))
            } else {
                Ok((right, j))
            },
            Err(m) => Err(m),
        }
    } else {
        Ok((left, i))
    }
}

/// The expression that some tokens are, or a message.
pub open spec fn parsed_tokens(t: Seq<Seq<char>>) -> Result<KExprView, Seq<char>> {
    match or_expr(t, 0) {
        Ok((e, j)) => if j == t.len() {
            Ok(e)
        } else {
            Err("unexpected trailing token "@ + quoted_of(t[j]))
        },
        Err(m) => Err(m),
    }
}

/// The expression that a text is, or a message.
pub open spec fn parsed(s: Seq<char>) -> Result<KExprView, Seq<char>> {
    parsed_tokens(tokens_of(s))
}

/// The view of what a part of the grammar gives.
spec fn told(r: Result<(KExpr, usize), String>) -> Parsed {
    match r {
        Ok((e, j)) => Ok((e@, j as int)),
        Err(m) => Err(m@),
    }
}

/// The position behind an expression lies behind its beginning.
spec fn moved(r: Result<(KExpr, usize), String>, pos: usize, len: usize) -> bool {
    r matches Ok((_, j)) ==> pos < j <= len
}

fn not_expression(tokens: &Vec<String>, pos: usize) -> (r: Result<(KExpr, usize), String>)
    requires
        pos <= tokens.len(),
    ensures
        told(r) == not_expr(text::deep(tokens@), pos as int),
        moved(r, pos, tokens.len()),
    decreases tokens.len() - pos, 0int,
{
    let ghost t = text::deep(tokens@);
    let n: usize = tokens.len();
    if pos >= n {
        return Err("unexpected end of expression".to_owned());
    }
    let token: &str = tokens[pos].as_str();
    if same(token, "not") {
        match not_expression(tokens, pos + 1) {
            Ok((e, j)) => Ok((KExpr::Not(Box::new(e)), j)),
            Err(m) => Err(m),
        }
    } else if same(token, "(") {
        match or_expression(tokens, pos + 1) {
            Ok((e, j)) => if j < n && same(tokens[j].as_str(), ")") {
                Ok((e, j + 1))
            } else {
                Err("expected ')'".to_owned())
            },
            Err(m) => Err(m),
        }
    } else if same(token, ")") {
        Err("unexpected ')'".to_owned())
    } else if same(token, "and") || same(token, "or") {
        let shown: String = quoted(token);
        Err(concat("unexpected keyword ", shown.as_str()))
    } else {
        Ok((KExpr::Frag(lower(token)), pos + 1))
    }
}

fn and_expression(tokens: &Vec<String>, pos: usize) -> (r: Result<(KExpr, usize), String>)
    requires
        pos <= tokens.len(),
    ensures
        told(r) == and_expr(text::deep(tokens@), pos as int),
        moved(r, pos, tokens.len()),
    decreases tokens.len() - pos, 1int,
{
    let ghost t = text::deep(tokens@);
    let n: usize = tokens.len();
    let (mut left, mut at): (KExpr, usize) = match not_expression(tokens, pos) {
        Ok((e, j)) => (e, j),
        Err(m) => {
            return Err(m);
        },
    };
    while at < n && same(tokens[at].as_str(), "and")
        invariant
            t == text::deep(tokens@),
            n == tokens.len(),
            pos < at <= n,
            and_tail(t, at as int, left@) == and_expr(t, pos as int),
        decreases n - at,
    {
        match not_expression(tokens, at + 1) {
            Ok((right, j)) => {
                left = KExpr::And(Box::new(left), Box::new(right));
                at = j;
            },
            Err(m) => {
                return Err(m);
            },
        }
    }
    Ok((left, at))
}

fn or_expression(tokens: &Vec<String>, pos: usize) -> (r: Result<(KExpr, usize), String>)
    requires
        pos <= tokens.len(),
    ensures
        told(r) == or_expr(text::deep(tokens@), pos as int),
        moved(r, pos, tokens.len()),
    decreases tokens.len() - pos, 2int,
{
    let ghost t = text::deep(tokens@);
    let n: usize = tokens.len();
    let (mut left, mut at): (KExpr, usize) = match and_expression(tokens, pos) {
        Ok((e, j)) => (e, j),
        Err(m) => {
            return Err(m);
        },
    };
    while at < n && same(tokens[at].as_str(), "or")
        invariant
            t == text::deep(tokens@),
            n == tokens.len(),
            pos < at <= n,
            or_tail(t, at as int, left@) == or_expr(t, pos as int),
        decreases n - at,
    {
        match and_expression(tokens, at + 1) {
            Ok((right, j)) => {
                left = KExpr::Or(Box::new(left), Box::new(right));
                at = j;
            },
            Err(m) => {
                return Err(m);
            },
        }
    }
    Ok((left, at))
}

/// Parses an expression; an error says what is wrong with it.
pub fn parse(input: &str) -> (r: Result<KExpr, String>)
    ensures
        match r {
            Ok(e) => parsed(input@) == Ok::<KExprView, Seq<char>>(e@),
            Err(m) => parsed(input@) == Err::<KExprView, Seq<char>>(m@),
        },
{
    let tokens: Vec<String> = tokenize(input);
    let ghost t = text::deep(tokens@);
    match or_expression(&tokens, 0) {
        Ok((e, j)) => if j == tokens.len() {
            Ok(e)
        } else {
            let shown: String = quoted(tokens[j].as_str());
            Err(concat("unexpected trailing token ", shown.as_str()))
        },
        Err(m) => Err(m),
    }
}

// ---------------------------------------------------------------------------
// Laws of matching
// ---------------------------------------------------------------------------

/// A test is selected by `a or b` exactly where one of the two selects it, by
/// `a and b` where both do, by `not a` where `a` does not, and by a name where
/// that is, in lower case, one of its marks.
pub proof fn law_marks_combine(
    a: KExprView,
    b: KExprView,
    name: Seq<char>,
    names: Seq<Seq<char>>,
)
    ensures
        marked(KExprView::Or(Box::new(a), Box::new(b)), names) <==> marked(a, names) || marked(
            b,
            names,
        ),
        marked(KExprView::And(Box::new(a), Box::new(b)), names) <==> marked(a, names) && marked(
            b,
            names,
        ),
        marked(KExprView::Not(Box::new(a)), names) <==> !marked(a, names),
        marked(KExprView::Frag(name), names) <==> exists|i: int|
            0 <= i < names.len() && lower_of(#[trigger] names[i]) == name,
{
}

/// A test with a mark is selected by the mark, by the mark `or` anything, and
/// never by `not` the mark; without marks nothing but a negation selects it.
pub proof fn law_mark_selects(
    mark: Seq<char>,
    other: KExprView,
    names: Seq<Seq<char>>,
)
    ensures
        names.contains(mark) ==> {
            let e = KExprView::Frag(lower_of(mark));
            &&& marked(e, names)
            &&& marked(KExprView::Or(Box::new(e), Box::new(other)), names)
            &&& marked(KExprView::Or(Box::new(other), Box::new(e)), names)
            &&& !marked(KExprView::Not(Box::new(e)), names)
            &&& marked(KExprView::And(Box::new(e), Box::new(other)), names) == marked(other, names)
        },
        names.len() == 0 ==> !marked(KExprView::Frag(mark), names),
{
    if names.contains(mark) {
        let i = names.index_of(mark);
        assert(lower_of(names[i]) == lower_of(mark));
        let e = KExprView::Frag(lower_of(mark));
        law_marks_combine(e, other, lower_of(mark), names);
        law_marks_combine(other, e, lower_of(mark), names);
    }
}

/// De Morgan: to select neither is to select by the negation of both, and not to
/// select both is to select by the negation of one, for marks and for keywords.
pub proof fn law_negation_distributes(
    a: KExprView,
    b: KExprView,
    names: Seq<Seq<char>>,
    candidate: Seq<char>,
)
    ensures
        ({
            let na = KExprView::Not(Box::new(a));
            let nb = KExprView::Not(Box::new(b));
            let either = KExprView::Or(Box::new(a), Box::new(b));
            let both = KExprView::And(Box::new(a), Box::new(b));
            &&& marked(KExprView::Not(Box::new(either)), names) == marked(
                KExprView::And(Box::new(na), Box::new(nb)),
                names,
            )
            &&& marked(KExprView::Not(Box::new(both)), names) == marked(
                KExprView::Or(Box::new(na), Box::new(nb)),
                names,
            )
            &&& matched(KExprView::Not(Box::new(either)), candidate) == matched(
                KExprView::And(Box::new(na), Box::new(nb)),
                candidate,
            )
            &&& matched(KExprView::Not(Box::new(both)), candidate) == matched(
                KExprView::Or(Box::new(na), Box::new(nb)),
                candidate,
            )
        }),
{
    let na = KExprView::Not(Box::new(a));
    let nb = KExprView::Not(Box::new(b));
    let either = KExprView::Or(Box::new(a), Box::new(b));
    let both = KExprView::And(Box::new(a), Box::new(b));
    law_marks_combine(a, b, candidate, names);
    law_marks_combine(b, a, candidate, names);
    law_marks_combine(na, nb, candidate, names);
    law_marks_combine(either, both, candidate, names);
    law_marks_combine(both, either, candidate, names);
    law_keywords_combine(a, b, candidate, candidate);
    law_keywords_combine(b, a, candidate, candidate);
    law_keywords_combine(na, nb, candidate, candidate);
    law_keywords_combine(either, both, candidate, candidate);
    law_keywords_combine(both, either, candidate, candidate);
}

/// A candidate is selected by `a or b` exactly where one of the two selects it,
/// by `a and b` where both do, by `not a` where `a` does not, and by a fragment
/// where that stands somewhere in it.
pub proof fn law_keywords_combine(
    a: KExprView,
    b: KExprView,
    fragment: Seq<char>,
    candidate: Seq<char>,
)
    ensures
        matched(KExprView::Or(Box::new(a), Box::new(b)), candidate) <==> matched(a, candidate)
            || matched(b, candidate),
        matched(KExprView::And(Box::new(a), Box::new(b)), candidate) <==> matched(a, candidate)
            && matched(b, candidate),
        matched(KExprView::Not(Box::new(a)), candidate) <==> !matched(a, candidate),
        matched(KExprView::Frag(fragment), candidate) <==> exists|before: Seq<char>, after: Seq<char>|
            candidate == #[trigger] (before + fragment + after),
{
    if matched(KExprView::Frag(fragment), candidate) {
        let i = choose|i: int| text::occurs_at(candidate, fragment, i);
        let before = candidate.subrange(0, i);
        let after = candidate.subrange(i + fragment.len(), candidate.len() as int);
        assert(candidate =~= before + fragment + after);
    }
    if exists|before: Seq<char>, after: Seq<char>|
        candidate == #[trigger] (before + fragment + after) {
        let (before, after) = choose|before: Seq<char>, after: Seq<char>|
            candidate == #[trigger] (before + fragment + after);
        let i = before.len() as int;
        assert(candidate.subrange(i, i + fragment.len()) =~= fragment);
        assert(text::occurs_at(candidate, fragment, i));
    }
}

// ---------------------------------------------------------------------------
// Laws of the grammar
// ---------------------------------------------------------------------------

/// Is a token a word that stands for itself?
pub open spec fn is_word(token: Seq<char>) -> bool {
    token != "not"@ && token != "and"@ && token != "or"@ && token != "("@ && token != ")"@
}

/// Do some tokens hold together: a word, an expression between parentheses, or
/// `not` in front of such tokens?
pub open spec fn is_unit(t: Seq<Seq<char>>, e: KExprView) -> bool
    decreases t.len(),
{
    ||| t.len() == 1 && is_word(t[0]) && e == KExprView::Frag(lower_of(t[0]))
    ||| t.len() >= 2 && t[0] == "("@ && t.last() == ")"@ && parsed_tokens(
        t.subrange(1, t.len() - 1),
    ) == Ok::<KExprView, Seq<char>>(e)
    ||| t.len() >= 2 && t[0] == "not"@ && e is Not && is_unit(t.skip(1), *e->Not_0)
}

/// The tokens of two expressions with a word between them.
pub open spec fn with_between(
    x: Seq<Seq<char>>,
    word: Seq<char>,
    y: Seq<Seq<char>>,
) -> Seq<Seq<char>> {
    x + seq![word] + y
}

/// Some tokens between parentheses.
pub open spec fn in_parentheses(x: Seq<Seq<char>>) -> Seq<Seq<char>> {
    seq!["("@] + x + seq![")"@]
}

/// `not` binds tighter than `and`, which binds tighter than `or`, and both of
/// them group to the left.
pub proof fn law_precedence(
    x: Seq<Seq<char>>,
    a: KExprView,
    y: Seq<Seq<char>>,
    b: KExprView,
    z: Seq<Seq<char>>,
    c: KExprView,
)
    requires
        is_unit(x, a),
        is_unit(y, b),
        is_unit(z, c),
    ensures
        parsed_tokens(x) == Ok::<KExprView, Seq<char>>(a),
        parsed_tokens(seq!["not"@] + x) == Ok::<KExprView, Seq<char>>(KExprView::Not(Box::new(a))),
        parsed_tokens(with_between(x, "and"@, y)) == Ok::<KExprView, Seq<char>>(
            KExprView::And(Box::new(a), Box::new(b)),
        ),
        parsed_tokens(with_between(x, "or"@, y)) == Ok::<KExprView, Seq<char>>(
            KExprView::Or(Box::new(a), Box::new(b)),
        ),
        parsed_tokens(with_between(with_between(x, "and"@, y), "and"@, z)) == Ok::<
            KExprView,
            Seq<char>,
        >(KExprView::And(Box::new(KExprView::And(Box::new(a), Box::new(b))), Box::new(c))),
        parsed_tokens(with_between(with_between(x, "or"@, y), "or"@, z)) == Ok::<
            KExprView,
            Seq<char>,
        >(KExprView::Or(Box::new(KExprView::Or(Box::new(a), Box::new(b))), Box::new(c))),
        parsed_tokens(with_between(with_between(x, "or"@, y), "and"@, z)) == Ok::<
            KExprView,
            Seq<char>,
        >(KExprView::Or(Box::new(a), Box::new(KExprView::And(Box::new(b), Box::new(c))))),
        parsed_tokens(with_between(with_between(x, "and"@, y), "or"@, z)) == Ok::<
            KExprView,
            Seq<char>,
        >(KExprView::Or(Box::new(KExprView::And(Box::new(a), Box::new(b))), Box::new(c))),
{
    words_differ();
    one_unit(x, a);
    let n = seq!["not"@] + x;
    assert(n.skip(1) =~= x);
    unit_is_not_empty(x, a);
    one_unit(n, KExprView::Not(Box::new(a)));
    two_units(x, a, "and"@, y, b);
    two_units(x, a, "or"@, y, b);
    three_units(x, a, "and"@, y, b, "and"@, z, c);
    three_units(x, a, "or"@, y, b, "or"@, z, c);
    three_units(x, a, "or"@, y, b, "and"@, z, c);
    three_units(x, a, "and"@, y, b, "or"@, z, c);
}

/// However long an expression is, `or` behind it makes it one side of a
/// disjunction. The other side is all that follows, unless that is itself a
/// disjunction without parentheses.
pub proof fn law_or_goes_behind(
    x: Seq<Seq<char>>,
    a: KExprView,
    y: Seq<Seq<char>>,
    b: KExprView,
)
    requires
        parsed_tokens(x) == Ok::<KExprView, Seq<char>>(a),
        parsed_tokens(y) == Ok::<KExprView, Seq<char>>(b),
        !(b is Or) || is_unit(y, b),
    ensures
        parsed_tokens(with_between(x, "or"@, y)) == Ok::<KExprView, Seq<char>>(
            KExprView::Or(Box::new(a), Box::new(b)),
        ),
{
    words_differ();
    let s = with_between(x, "or"@, y);
    let p = x.len() as int;
    let n = s.len() as int;
    let e = KExprView::Or(Box::new(a), Box::new(b));
    assert(s[p] == "or"@);
    assert(stands(x, s, 0));
    assert(stands(y, s, p + 1));
    and_moves(x, 0);
    let (first, j) = and_expr(x, 0)->Ok_0;
    and_shifts(x, s, 0, 0);
    or_extends(x, s, j, first, a);
    or_moves(y, 0);
    if is_unit(y, b) {
        unit_is_read(y, b, s, p + 1);
        assert(and_tail(s, n, b) == Ok::<(KExprView, int), Seq<char>>((b, n)));
    } else {
        and_moves(y, 0);
        let (second, m) = and_expr(y, 0)->Ok_0;
        if m < y.len() && y[m] == "or"@ {
            disjunction_stays(y, m, second);
        }
        assert(and_expr(y, 0) == Ok::<(KExprView, int), Seq<char>>((b, y.len() as int)));
        and_shifts(y, s, p + 1, 0);
    }
    assert(and_expr(s, p + 1) == Ok::<(KExprView, int), Seq<char>>((b, n)));
    assert(or_tail(s, n, e) == Ok::<(KExprView, int), Seq<char>>((e, n)));
    assert(or_tail(s, p, a) == Ok::<(KExprView, int), Seq<char>>((e, n)));
}

/// However long a conjunction is, `and` with a unit behind it makes it one side
/// of a longer one.
pub proof fn law_and_goes_behind(
    x: Seq<Seq<char>>,
    a: KExprView,
    y: Seq<Seq<char>>,
    b: KExprView,
)
    requires
        parsed_tokens(x) == Ok::<KExprView, Seq<char>>(a),
        !(a is Or),
        is_unit(y, b),
    ensures
        parsed_tokens(with_between(x, "and"@, y)) == Ok::<KExprView, Seq<char>>(
            KExprView::And(Box::new(a), Box::new(b)),
        ),
{
    words_differ();
    let s = with_between(x, "and"@, y);
    let p = x.len() as int;
    let n = s.len() as int;
    let e = KExprView::And(Box::new(a), Box::new(b));
    assert(s[p] == "and"@);
    assert(stands(x, s, 0));
    and_moves(x, 0);
    let (whole, m) = and_expr(x, 0)->Ok_0;
    if m < x.len() && x[m] == "or"@ {
        disjunction_stays(x, m, whole);
    }
    assert(and_expr(x, 0) == Ok::<(KExprView, int), Seq<char>>((a, p)));
    not_moves(x, 0);
    not_shifts(x, s, 0, 0);
    let (first, j) = not_expr(x, 0)->Ok_0;
    and_extends(x, s, j, first, a);
    unit_is_not_empty(y, b);
    unit_is_read(y, b, s, p + 1);
    assert(and_tail(s, n, e) == Ok::<(KExprView, int), Seq<char>>((e, n)));
    assert(and_tail(s, p, a) == Ok::<(KExprView, int), Seq<char>>((e, n)));
    assert(or_tail(s, n, e) == Ok::<(KExprView, int), Seq<char>>((e, n)));
}

proof fn disjunction_stays(t: Seq<Seq<char>>, i: int, left: KExprView)
    requires
        0 <= i <= t.len(),
        left is Or || (i < t.len() && t[i] == "or"@),
    ensures
        or_tail(t, i, left) matches Ok((e, _)) ==> e is Or,
    decreases t.len() - i,
{
    if i < t.len() && t[i] == "or"@ {
        and_moves(t, i + 1);
        if let Ok((right, j)) = and_expr(t, i + 1) {
            disjunction_stays(t, j, KExprView::Or(Box::new(left), Box::new(right)));
        }
    }
}

proof fn or_extends(
    x: Seq<Seq<char>>,
    s: Seq<Seq<char>>,
    i: int,
    left: KExprView,
    a: KExprView,
)
    requires
        stands(x, s, 0),
        x.len() < s.len(),
        s[x.len() as int] == "or"@,
        0 <= i <= x.len(),
        or_tail(x, i, left) == Ok::<(KExprView, int), Seq<char>>((a, x.len() as int)),
    ensures
        or_tail(s, i, left) == or_tail(s, x.len() as int, a),
    decreases x.len() - i,
{
    if i < x.len() {
        assert(x[i] == s[0 + i]);
        and_moves(x, i + 1);
        let (right, j) = and_expr(x, i + 1)->Ok_0;
        let both = KExprView::Or(Box::new(left), Box::new(right));
        or_tail_moves(x, j, both);
        and_shifts(x, s, 0, i + 1);
        or_extends(x, s, j, both, a);
    }
}

proof fn and_extends(
    x: Seq<Seq<char>>,
    s: Seq<Seq<char>>,
    i: int,
    left: KExprView,
    a: KExprView,
)
    requires
        stands(x, s, 0),
        x.len() < s.len(),
        s[x.len() as int] == "and"@,
        0 <= i <= x.len(),
        and_tail(x, i, left) == Ok::<(KExprView, int), Seq<char>>((a, x.len() as int)),
    ensures
        and_tail(s, i, left) == and_tail(s, x.len() as int, a),
    decreases x.len() - i,
{
    if i < x.len() {
        assert(x[i] == s[0 + i]);
        not_moves(x, i + 1);
        not_shifts(x, s, 0, i + 1);
        let (right, j) = not_expr(x, i + 1)->Ok_0;
        let both = KExprView::And(Box::new(left), Box::new(right));
        and_tail_moves(x, j, both);
        and_extends(x, s, j, both, a);
    }
}

/// Parentheses keep an expression together: `( x ) and ( y )` is the conjunction
/// of what `x` and `y` are, `( x ) or ( y )` the disjunction, `not ( x )` the
/// negation, and `( x )` is what `x` is.
pub proof fn law_parentheses_group(
    x: Seq<Seq<char>>,
    a: KExprView,
    y: Seq<Seq<char>>,
    b: KExprView,
)
    requires
        parsed_tokens(x) == Ok::<KExprView, Seq<char>>(a),
        parsed_tokens(y) == Ok::<KExprView, Seq<char>>(b),
    ensures
        parsed_tokens(in_parentheses(x)) == Ok::<KExprView, Seq<char>>(a),
        parsed_tokens(seq!["not"@] + in_parentheses(x)) == Ok::<KExprView, Seq<char>>(
            KExprView::Not(Box::new(a)),
        ),
        parsed_tokens(with_between(in_parentheses(x), "and"@, in_parentheses(y))) == Ok::<
            KExprView,
            Seq<char>,
        >(KExprView::And(Box::new(a), Box::new(b))),
        parsed_tokens(with_between(in_parentheses(x), "or"@, in_parentheses(y))) == Ok::<
            KExprView,
            Seq<char>,
        >(KExprView::Or(Box::new(a), Box::new(b))),
{
    parentheses_are_a_unit(x, a);
    parentheses_are_a_unit(y, b);
    law_precedence(in_parentheses(x), a, in_parentheses(y), b, in_parentheses(x), a);
}

/// An expression, spelled with all parentheses.
pub open spec fn spelled(e: KExprView) -> Seq<Seq<char>>
    decreases e,
{
    match e {
        KExprView::Or(a, b) => with_between(
            in_parentheses(spelled(*a)),
            "or"@,
            in_parentheses(spelled(*b)),
        ),
        KExprView::And(a, b) => with_between(
            in_parentheses(spelled(*a)),
            "and"@,
            in_parentheses(spelled(*b)),
        ),
        KExprView::Not(a) => seq!["not"@] + in_parentheses(spelled(*a)),
        KExprView::Frag(f) => seq![f],
    }
}

/// Are the fragments of an expression words in lower case?
pub open spec fn in_words(e: KExprView) -> bool
    decreases e,
{
    match e {
        KExprView::Or(a, b) => in_words(*a) && in_words(*b),
        KExprView::And(a, b) => in_words(*a) && in_words(*b),
        KExprView::Not(a) => in_words(*a),
        KExprView::Frag(f) => is_word(f) && lower_of(f) == f,
    }
}

/// Spelling an expression with all parentheses and parsing it again gives the
/// expression back.
pub proof fn law_spelling_round_trip(e: KExprView)
    requires
        in_words(e),
    ensures
        parsed_tokens(spelled(e)) == Ok::<KExprView, Seq<char>>(e),
    decreases e,
{
    match e {
        KExprView::Or(a, b) => {
            law_spelling_round_trip(*a);
            law_spelling_round_trip(*b);
            law_parentheses_group(spelled(*a), *a, spelled(*b), *b);
        },
        KExprView::And(a, b) => {
            law_spelling_round_trip(*a);
            law_spelling_round_trip(*b);
            law_parentheses_group(spelled(*a), *a, spelled(*b), *b);
        },
        KExprView::Not(a) => {
            law_spelling_round_trip(*a);
            law_parentheses_group(spelled(*a), *a, spelled(*a), *a);
        },
        KExprView::Frag(f) => {
            assert(is_unit(seq![f], e));
            law_precedence(seq![f], e, seq![f], e, seq![f], e);
        },
    }
}

proof fn words_differ()
    ensures
        "not"@ != "("@,
        "not"@ != ")"@,
        "and"@ != "or"@,
        "and"@ != ")"@,
        "or"@ != ")"@,
        "("@ != ")"@,
        "and"@ != "("@,
        "or"@ != "("@,
        "and"@ != "not"@,
        "or"@ != "not"@,
{
    reveal_strlit("not");
    reveal_strlit("and");
    reveal_strlit("or");
    reveal_strlit("(");
    reveal_strlit(")");
    assert("not"@.len() == 3 && "and"@.len() == 3 && "or"@.len() == 2);
    assert("("@.len() == 1 && ")"@.len() == 1);
    assert("("@[0] == '(' && ")"@[0] == ')');
    assert("and"@[0] == 'a' && "not"@[0] == 'n');
}

/// Do the tokens `t` stand in `s` from position `p` on?
spec fn stands(t: Seq<Seq<char>>, s: Seq<Seq<char>>, p: int) -> bool {
    &&& 0 <= p
    &&& p + t.len() <= s.len()
    &&& forall|i: int| 0 <= i < t.len() ==> #[trigger] t[i] == s[p + i]
}

/// Does an expression that ends at position `q` end there?
spec fn ends_at(s: Seq<Seq<char>>, q: int) -> bool {
    q == s.len() || (0 <= q < s.len() && s[q] != "and"@ && s[q] != "or"@)
}

proof fn not_moves(t: Seq<Seq<char>>, i: int)
    ensures
        not_expr(t, i) matches Ok((_, j)) ==> 0 <= i < j <= t.len(),
    decreases t.len() - i, 0int,
{
    if 0 <= i < t.len() {
        if t[i] == "not"@ {
            not_moves(t, i + 1);
        } else if t[i] == "("@ {
            or_moves(t, i + 1);
        }
    }
}

proof fn and_moves(t: Seq<Seq<char>>, i: int)
    ensures
        and_expr(t, i) matches Ok((_, j)) ==> 0 <= i < j <= t.len(),
    decreases t.len() - i, 1int,
{
    not_moves(t, i);
    if let Ok((e, j)) = not_expr(t, i) {
        and_tail_moves(t, j, e);
    }
}

proof fn and_tail_moves(t: Seq<Seq<char>>, i: int, left: KExprView)
    requires
        0 <= i <= t.len(),
    ensures
        and_tail(t, i, left) matches Ok((_, j)) ==> i <= j <= t.len(),
    decreases t.len() - i, 0int,
{
    if i < t.len() && t[i] == "and"@ {
        not_moves(t, i + 1);
        if let Ok((right, j)) = not_expr(t, i + 1) {
            and_tail_moves(t, j, KExprView::And(Box::new(left), Box::new(right)));
        }
    }
}

proof fn or_moves(t: Seq<Seq<char>>, i: int)
    ensures
        or_expr(t, i) matches Ok((_, j)) ==> 0 <= i < j <= t.len(),
    decreases t.len() - i, 2int,
{
    and_moves(t, i);
    if let Ok((e, j)) = and_expr(t, i) {
        or_tail_moves(t, j, e);
    }
}

proof fn or_tail_moves(t: Seq<Seq<char>>, i: int, left: KExprView)
    requires
        0 <= i <= t.len(),
    ensures
        or_tail(t, i, left) matches Ok((_, j)) ==> i <= j <= t.len(),
    decreases t.len() - i, 0int,
{
    if i < t.len() && t[i] == "or"@ {
        and_moves(t, i + 1);
        if let Ok((right, j)) = and_expr(t, i + 1) {
            or_tail_moves(t, j, KExprView::Or(Box::new(left), Box::new(right)));
        }
    }
}

proof fn not_shifts(t: Seq<Seq<char>>, s: Seq<Seq<char>>, p: int, i: int)
    requires
        stands(t, s, p),
    ensures
        not_expr(t, i) matches Ok((e, j)) ==> not_expr(s, p + i) == Ok::<
            (KExprView, int),
            Seq<char>,
        >((e, p + j)),
    decreases t.len() - i, 0int,
{
    if 0 <= i < t.len() {
        assert(t[i] == s[p + i]);
        if t[i] == "not"@ {
            not_shifts(t, s, p, i + 1);
        } else if t[i] == "("@ {
            or_moves(t, i + 1);
            if let Ok((e, j)) = or_expr(t, i + 1) {
                if j < t.len() && t[j] == ")"@ {
                    or_shifts(t, s, p, i + 1);
                    assert(t[j] == s[p + j]);
                }
            }
        }
    }
}

proof fn and_shifts(t: Seq<Seq<char>>, s: Seq<Seq<char>>, p: int, i: int)
    requires
        stands(t, s, p),
        and_expr(t, i) matches Ok((_, j)) ==> j < t.len() || ends_at(s, p + t.len()) || (p
            + t.len() < s.len() && s[p + t.len()] == "or"@),
    ensures
        and_expr(t, i) matches Ok((e, j)) ==> and_expr(s, p + i) == Ok::<
            (KExprView, int),
            Seq<char>,
        >((e, p + j)),
    decreases t.len() - i, 1int,
{
    not_moves(t, i);
    not_shifts(t, s, p, i);
    if let Ok((e, j)) = not_expr(t, i) {
        and_tail_shifts(t, s, p, j, e);
    }
}

proof fn and_tail_shifts(
    t: Seq<Seq<char>>,
    s: Seq<Seq<char>>,
    p: int,
    i: int,
    left: KExprView,
)
    requires
        stands(t, s, p),
        0 <= i <= t.len(),
        and_tail(t, i, left) matches Ok((_, j)) ==> j < t.len() || ends_at(s, p + t.len()) || (p
            + t.len() < s.len() && s[p + t.len()] == "or"@),
    ensures
        and_tail(t, i, left) matches Ok((e, j)) ==> and_tail(s, p + i, left) == Ok::<
            (KExprView, int),
            Seq<char>,
        >((e, p + j)),
    decreases t.len() - i, 0int,
{
    words_differ();
    if i < t.len() {
        assert(t[i] == s[p + i]);
        if t[i] == "and"@ {
            not_moves(t, i + 1);
            not_shifts(t, s, p, i + 1);
            if let Ok((right, j)) = not_expr(t, i + 1) {
                let both = KExprView::And(Box::new(left), Box::new(right));
                and_tail_shifts(t, s, p, j, both);
            }
        }
    }
}

proof fn or_shifts(t: Seq<Seq<char>>, s: Seq<Seq<char>>, p: int, i: int)
    requires
        stands(t, s, p),
        or_expr(t, i) matches Ok((_, j)) ==> j < t.len() || ends_at(s, p + t.len()),
    ensures
        or_expr(t, i) matches Ok((e, j)) ==> or_expr(s, p + i) == Ok::<
            (KExprView, int),
            Seq<char>,
        >((e, p + j)),
    decreases t.len() - i, 2int,
{
    and_moves(t, i);
    if let Ok((e, j)) = and_expr(t, i) {
        or_tail_moves(t, j, e);
        if or_expr(t, i) is Ok {
            and_shifts(t, s, p, i);
            or_tail_shifts(t, s, p, j, e);
        }
    }
}

proof fn or_tail_shifts(
    t: Seq<Seq<char>>,
    s: Seq<Seq<char>>,
    p: int,
    i: int,
    left: KExprView,
)
    requires
        stands(t, s, p),
        0 <= i <= t.len(),
        or_tail(t, i, left) matches Ok((_, j)) ==> j < t.len() || ends_at(s, p + t.len()),
    ensures
        or_tail(t, i, left) matches Ok((e, j)) ==> or_tail(s, p + i, left) == Ok::<
            (KExprView, int),
            Seq<char>,
        >((e, p + j)),
    decreases t.len() - i, 0int,
{
    if i < t.len() {
        assert(t[i] == s[p + i]);
        if t[i] == "or"@ {
            and_moves(t, i + 1);
            if let Ok((right, j)) = and_expr(t, i + 1) {
                let both = KExprView::Or(Box::new(left), Box::new(right));
                or_tail_moves(t, j, both);
                if or_tail(t, i, left) is Ok {
                    and_shifts(t, s, p, i + 1);
                    or_tail_shifts(t, s, p, j, both);
                }
            }
        }
    }
}

proof fn unit_is_not_empty(t: Seq<Seq<char>>, e: KExprView)
    requires
        is_unit(t, e),
    ensures
        t.len() > 0,
{
}

/// A unit is read as what it is, wherever it stands.
proof fn unit_is_read(t: Seq<Seq<char>>, e: KExprView, s: Seq<Seq<char>>, p: int)
    requires
        is_unit(t, e),
        stands(t, s, p),
    ensures
        not_expr(s, p) == Ok::<(KExprView, int), Seq<char>>((e, p + t.len())),
    decreases t.len(),
{
    words_differ();
    assert(t[0] == s[p]);
    if t.len() == 1 && is_word(t[0]) && e == KExprView::Frag(lower_of(t[0])) {
    } else if t.len() >= 2 && t[0] == "("@ && t.last() == ")"@ && parsed_tokens(
        t.subrange(1, t.len() - 1),
    ) == Ok::<KExprView, Seq<char>>(e) {
        let x = t.subrange(1, t.len() - 1);
        assert(t[t.len() - 1] == s[p + t.len() - 1]);
        assert(stands(x, s, p + 1)) by {
            assert forall|i: int| 0 <= i < x.len() implies #[trigger] x[i] == s[p + 1 + i] by {
                assert(t[i + 1] == s[p + (i + 1)]);
            }
        }
        assert(ends_at(s, p + 1 + x.len()));
        or_shifts(x, s, p + 1, 0);
    } else {
        let rest = t.skip(1);
        assert(stands(rest, s, p + 1)) by {
            assert forall|i: int| 0 <= i < rest.len() implies #[trigger] rest[i] == s[p + 1 + i] by {
                assert(t[i + 1] == s[p + (i + 1)]);
            }
        }
        unit_is_read(rest, *e->Not_0, s, p + 1);
    }
}

proof fn one_unit(x: Seq<Seq<char>>, a: KExprView)
    requires
        is_unit(x, a),
    ensures
        parsed_tokens(x) == Ok::<KExprView, Seq<char>>(a),
{
    unit_is_read(x, a, x, 0);
    let n = x.len() as int;
    assert(and_tail(x, n, a) == Ok::<(KExprView, int), Seq<char>>((a, n)));
    assert(or_tail(x, n, a) == Ok::<(KExprView, int), Seq<char>>((a, n)));
}

proof fn two_units(
    x: Seq<Seq<char>>,
    a: KExprView,
    word: Seq<char>,
    y: Seq<Seq<char>>,
    b: KExprView,
)
    requires
        is_unit(x, a),
        is_unit(y, b),
        word == "and"@ || word == "or"@,
    ensures
        parsed_tokens(with_between(x, word, y)) == Ok::<KExprView, Seq<char>>(
            if word == "and"@ {
                KExprView::And(Box::new(a), Box::new(b))
            } else {
                KExprView::Or(Box::new(a), Box::new(b))
            },
        ),
{
    words_differ();
    let s = with_between(x, word, y);
    let p = x.len() as int;
    let n = s.len() as int;
    unit_is_not_empty(x, a);
    unit_is_not_empty(y, b);
    unit_is_read(x, a, s, 0);
    unit_is_read(y, b, s, p + 1);
    assert(s[p] == word);
    if word == "and"@ {
        let e = KExprView::And(Box::new(a), Box::new(b));
        assert(and_tail(s, n, e) == Ok::<(KExprView, int), Seq<char>>((e, n)));
        assert(and_tail(s, p, a) == Ok::<(KExprView, int), Seq<char>>((e, n)));
        assert(and_expr(s, 0) == Ok::<(KExprView, int), Seq<char>>((e, n)));
        assert(or_tail(s, n, e) == Ok::<(KExprView, int), Seq<char>>((e, n)));
    } else {
        let e = KExprView::Or(Box::new(a), Box::new(b));
        assert(and_tail(s, p, a) == Ok::<(KExprView, int), Seq<char>>((a, p)));
        assert(and_tail(s, n, b) == Ok::<(KExprView, int), Seq<char>>((b, n)));
        assert(and_expr(s, p + 1) == Ok::<(KExprView, int), Seq<char>>((b, n)));
        assert(or_tail(s, n, e) == Ok::<(KExprView, int), Seq<char>>((e, n)));
        assert(or_tail(s, p, a) == Ok::<(KExprView, int), Seq<char>>((e, n)));
    }
}

proof fn three_units(
    x: Seq<Seq<char>>,
    a: KExprView,
    first: Seq<char>,
    y: Seq<Seq<char>>,
    b: KExprView,
    second: Seq<char>,
    z: Seq<Seq<char>>,
    c: KExprView,
)
    requires
        is_unit(x, a),
        is_unit(y, b),
        is_unit(z, c),
        first == "and"@ || first == "or"@,
        second == "and"@ || second == "or"@,
    ensures
        parsed_tokens(with_between(with_between(x, first, y), second, z)) == Ok::<
            KExprView,
            Seq<char>,
        >(
            if first == "and"@ {
                let left = Box::new(KExprView::And(Box::new(a), Box::new(b)));
                if second == "and"@ {
                    KExprView::And(left, Box::new(c))
                } else {
                    KExprView::Or(left, Box::new(c))
                }
            } else if second == "and"@ {
                KExprView::Or(Box::new(a), Box::new(KExprView::And(Box::new(b), Box::new(c))))
            } else {
                KExprView::Or(Box::new(KExprView::Or(Box::new(a), Box::new(b))), Box::new(c))
            },
        ),
{
    words_differ();
    let s = with_between(with_between(x, first, y), second, z);
    let p = x.len() as int;
    let q = p + 1 + y.len() as int;
    let n = s.len() as int;
    unit_is_not_empty(x, a);
    unit_is_not_empty(y, b);
    unit_is_not_empty(z, c);
    unit_is_read(x, a, s, 0);
    unit_is_read(y, b, s, p + 1);
    unit_is_read(z, c, s, q + 1);
    assert(s[p] == first);
    assert(s[q] == second);
    let ab = KExprView::And(Box::new(a), Box::new(b));
    let bc = KExprView::And(Box::new(b), Box::new(c));
    if first == "and"@ {
        if second == "and"@ {
            let e = KExprView::And(Box::new(ab), Box::new(c));
            assert(and_tail(s, n, e) == Ok::<(KExprView, int), Seq<char>>((e, n)));
            assert(and_tail(s, q, ab) == Ok::<(KExprView, int), Seq<char>>((e, n)));
            assert(and_tail(s, p, a) == Ok::<(KExprView, int), Seq<char>>((e, n)));
            assert(or_tail(s, n, e) == Ok::<(KExprView, int), Seq<char>>((e, n)));
        } else {
            let e = KExprView::Or(Box::new(ab), Box::new(c));
            assert(and_tail(s, q, ab) == Ok::<(KExprView, int), Seq<char>>((ab, q)));
            assert(and_tail(s, p, a) == Ok::<(KExprView, int), Seq<char>>((ab, q)));
            assert(and_tail(s, n, c) == Ok::<(KExprView, int), Seq<char>>((c, n)));
            assert(and_expr(s, q + 1) == Ok::<(KExprView, int), Seq<char>>((c, n)));
            assert(or_tail(s, n, e) == Ok::<(KExprView, int), Seq<char>>((e, n)));
            assert(or_tail(s, q, ab) == Ok::<(KExprView, int), Seq<char>>((e, n)));
        }
    } else {
        assert(and_tail(s, p, a) == Ok::<(KExprView, int), Seq<char>>((a, p)));
        if second == "and"@ {
            let e = KExprView::Or(Box::new(a), Box::new(bc));
            assert(and_tail(s, n, bc) == Ok::<(KExprView, int), Seq<char>>((bc, n)));
            assert(and_tail(s, q, b) == Ok::<(KExprView, int), Seq<char>>((bc, n)));
            assert(and_expr(s, p + 1) == Ok::<(KExprView, int), Seq<char>>((bc, n)));
            assert(or_tail(s, n, e) == Ok::<(KExprView, int), Seq<char>>((e, n)));
            assert(or_tail(s, p, a) == Ok::<(KExprView, int), Seq<char>>((e, n)));
        } else {
            let or_ab = KExprView::Or(Box::new(a), Box::new(b));
            let e = KExprView::Or(Box::new(or_ab), Box::new(c));
            assert(and_tail(s, q, b) == Ok::<(KExprView, int), Seq<char>>((b, q)));
            assert(and_expr(s, p + 1) == Ok::<(KExprView, int), Seq<char>>((b, q)));
            assert(and_tail(s, n, c) == Ok::<(KExprView, int), Seq<char>>((c, n)));
            assert(and_expr(s, q + 1) == Ok::<(KExprView, int), Seq<char>>((c, n)));
            assert(or_tail(s, n, e) == Ok::<(KExprView, int), Seq<char>>((e, n)));
            assert(or_tail(s, q, or_ab) == Ok::<(KExprView, int), Seq<char>>((e, n)));
            assert(or_tail(s, p, a) == Ok::<(KExprView, int), Seq<char>>((e, n)));
        }
    }
}

proof fn parentheses_are_a_unit(x: Seq<Seq<char>>, a: KExprView)
    requires
        parsed_tokens(x) == Ok::<KExprView, Seq<char>>(a),
    ensures
        is_unit(in_parentheses(x), a),
{
    let t = in_parentheses(x);
    assert(t.subrange(1, t.len() - 1) =~= x);
    assert(t[0] == "("@);
    assert(t.last() == ")"@);
}

/// Can an expression begin with a token?
pub open spec fn begins(token: Seq<char>) -> bool {
    is_word(token) || token == "not"@ || token == "("@
}

/// Can an expression end with a token?
pub open spec fn closes(token: Seq<char>) -> bool {
    is_word(token) || token == ")"@
}

/// Can one token stand behind another?
pub open spec fn joins(token: Seq<char>, next: Seq<char>) -> bool {
    if closes(token) {
        next == "and"@ || next == "or"@ || next == ")"@
    } else {
        begins(next)
    }
}

/// How many more parentheses the tokens before position `j`, from position `i`
/// on, open than close.
pub open spec fn depth(t: Seq<Seq<char>>, i: int, j: int) -> int
    decreases j - i,
{
    if i >= j {
        0
    } else {
        depth(t, i, j - 1) + (if t[j - 1] == "("@ {
            1int
        } else if t[j - 1] == ")"@ {
            -1int
        } else {
            0int
        })
    }
}

/// Have the tokens from position `i` to `j` the shape of an expression?
pub open spec fn shaped(t: Seq<Seq<char>>, i: int, j: int) -> bool {
    &&& 0 <= i < j <= t.len()
    &&& begins(t[i])
    &&& closes(t[j - 1])
    &&& forall|n: int| i <= n < j - 1 ==> joins(#[trigger] t[n], t[n + 1])
    &&& depth(t, i, j) == 0
}

/// Only tokens that have the shape of an expression are one: it begins with a
/// word, `not` or `(`, ends with a word or `)`, has `and`, `or` or `)` behind
/// each word and each `)` and the beginning of an expression behind all else,
/// and closes every parenthesis that it opens.
pub proof fn law_only_expressions_parse(t: Seq<Seq<char>>)
    requires
        parsed_tokens(t) is Ok,
    ensures
        shaped(t, 0, t.len() as int),
{
    or_shaped(t, 0);
}

proof fn depth_adds_up(t: Seq<Seq<char>>, i: int, m: int, j: int)
    requires
        i <= m <= j,
    ensures
        depth(t, i, j) == depth(t, i, m) + depth(t, m, j),
    decreases j - m,
{
    if m < j {
        depth_adds_up(t, i, m, j - 1);
    }
}

proof fn shapes_join(t: Seq<Seq<char>>, i: int, m: int, j: int)
    requires
        shaped(t, i, m),
        m < t.len(),
        t[m] == "and"@ || t[m] == "or"@,
        shaped(t, m + 1, j),
    ensures
        shaped(t, i, j),
{
    words_differ();
    depth_adds_up(t, i, m, j);
    depth_adds_up(t, m, m + 1, j);
    assert(depth(t, m, m) == 0);
    assert(depth(t, m, m + 1) == 0);
    assert forall|n: int| i <= n < j - 1 implies joins(#[trigger] t[n], t[n + 1]) by {
        if n < m - 1 {
        } else if n == m - 1 {
        } else if n == m {
            assert(!closes(t[m]));
        }
    }
}

proof fn not_shaped(t: Seq<Seq<char>>, i: int)
    ensures
        not_expr(t, i) matches Ok((_, j)) ==> shaped(t, i, j),
    decreases t.len() - i, 0int,
{
    words_differ();
    if 0 <= i < t.len() {
        if t[i] == "not"@ {
            not_shaped(t, i + 1);
            if let Ok((_, j)) = not_expr(t, i + 1) {
                depth_adds_up(t, i, i + 1, j);
                assert(depth(t, i, i) == 0);
                assert(depth(t, i, i + 1) == 0);
                assert forall|n: int| i <= n < j - 1 implies joins(#[trigger] t[n], t[n + 1]) by {
                    if n == i {
                        assert(!closes(t[i]));
                    }
                }
            }
        } else if t[i] == "("@ {
            or_shaped(t, i + 1);
            if let Ok((_, j)) = or_expr(t, i + 1) {
                if 0 <= j < t.len() && t[j] == ")"@ {
                    depth_adds_up(t, i, i + 1, j);
                    assert(depth(t, i, i) == 0);
                    assert(depth(t, i, i + 1) == 1);
                    assert(depth(t, i, j + 1) == 0);
                    assert forall|n: int| i <= n < j implies joins(
                        #[trigger] t[n],
                        t[n + 1],
                    ) by {
                        if n == i {
                            assert(!closes(t[i]));
                        } else if n == j - 1 {
                            assert(closes(t[n]));
                        }
                    }
                    assert(shaped(t, i, j + 1));
                }
            }
        } else {
            assert(depth(t, i, i) == 0);
        }
    }
}

proof fn and_shaped(t: Seq<Seq<char>>, i: int)
    ensures
        and_expr(t, i) matches Ok((_, j)) ==> shaped(t, i, j),
    decreases t.len() - i, 1int,
{
    not_shaped(t, i);
    if let Ok((e, j)) = not_expr(t, i) {
        and_tail_shaped(t, i, j, e);
    }
}

proof fn and_tail_shaped(t: Seq<Seq<char>>, start: int, i: int, left: KExprView)
    requires
        shaped(t, start, i),
    ensures
        and_tail(t, i, left) matches Ok((_, j)) ==> shaped(t, start, j),
    decreases t.len() - i, 0int,
{
    if i < t.len() && t[i] == "and"@ {
        not_shaped(t, i + 1);
        if let Ok((right, j)) = not_expr(t, i + 1) {
            shapes_join(t, start, i, j);
            and_tail_shaped(t, start, j, KExprView::And(Box::new(left), Box::new(right)));
        }
    }
}

proof fn or_shaped(t: Seq<Seq<char>>, i: int)
    ensures
        or_expr(t, i) matches Ok((_, j)) ==> shaped(t, i, j),
    decreases t.len() - i, 2int,
{
    and_shaped(t, i);
    if let Ok((e, j)) = and_expr(t, i) {
        or_tail_shaped(t, i, j, e);
    }
}

proof fn or_tail_shaped(t: Seq<Seq<char>>, start: int, i: int, left: KExprView)
    requires
        shaped(t, start, i),
    ensures
        or_tail(t, i, left) matches Ok((_, j)) ==> shaped(t, start, j),
    decreases t.len() - i, 0int,
{
    if i < t.len() && t[i] == "or"@ {
        and_shaped(t, i + 1);
        if let Ok((right, j)) = and_expr(t, i + 1) {
            shapes_join(t, start, i, j);
            or_tail_shaped(t, start, j, KExprView::Or(Box::new(left), Box::new(right)));
        }
    }
}

// ---------------------------------------------------------------------------
// Laws of tokens
// ---------------------------------------------------------------------------

/// Does a character stand between words?
pub open spec fn parts_words(c: char) -> bool {
    c == '(' || c == ')' || text::white(c)
}

/// The tokens of a text are those before and those behind a character that
/// stands between words, with a parenthesis as a token of its own between them.
pub proof fn law_tokens_add_up(a: Seq<char>, c: char, b: Seq<char>)
    requires
        parts_words(c),
    ensures
        tokens_of(a.push(c) + b) == (if c == '(' || c == ')' {
            tokens_of(a).push(seq![c]) + tokens_of(b)
        } else {
            tokens_of(a) + tokens_of(b)
        }),
{
    let s = a.push(c) + b;
    let n = a.len() as int + 1;
    tokens_of_front(a, c, s, 0, Seq::empty(), Seq::empty());
    let out = if c == '(' || c == ')' {
        tokens_of(a).push(seq![c])
    } else {
        tokens_of(a)
    };
    tokens_of_back(s, n, b, 0, out, Seq::empty());
}

/// A text without white space and parentheses is one token, and an empty one
/// is none.
pub proof fn law_word_is_one_token(w: Seq<char>)
    requires
        forall|i: int| 0 <= i < w.len() ==> !parts_words(#[trigger] w[i]),
    ensures
        tokens_of(w) == (if w.len() == 0 {
            Seq::empty()
        } else {
            seq![w]
        }),
{
    assert(w.take(0) =~= Seq::empty());
    word_is_read(w, 0);
}

/// Texts between parentheses with `and` or `or` between them are the conjunction
/// and the disjunction of what the texts are.
pub proof fn law_texts_group(x: Seq<char>, a: KExprView, y: Seq<char>, b: KExprView)
    requires
        parsed(x) == Ok::<KExprView, Seq<char>>(a),
        parsed(y) == Ok::<KExprView, Seq<char>>(b),
    ensures
        parsed(seq!['('] + x + seq![')']) == Ok::<KExprView, Seq<char>>(a),
        parsed("not ("@ + x + ")"@) == Ok::<KExprView, Seq<char>>(KExprView::Not(Box::new(a))),
        parsed("("@ + x + ") and ("@ + y + ")"@) == Ok::<KExprView, Seq<char>>(
            KExprView::And(Box::new(a), Box::new(b)),
        ),
        parsed("("@ + x + ") or ("@ + y + ")"@) == Ok::<KExprView, Seq<char>>(
            KExprView::Or(Box::new(a), Box::new(b)),
        ),
{
    reveal_strlit("(");
    reveal_strlit(")");
    reveal_strlit("not (");
    reveal_strlit(") and (");
    reveal_strlit(") or (");
    reveal_strlit("not");
    reveal_strlit("and");
    reveal_strlit("or");
    law_parentheses_group(tokens_of(x), a, tokens_of(y), b);
    text_in_parentheses(x);
    text_in_parentheses(y);
    let px = seq!['('] + x + seq![')'];
    let py = seq!['('] + y + seq![')'];
    word_between("and"@, px, py);
    word_between("or"@, px, py);
    assert("("@ + x + ") and ("@ + y + ")"@ =~= px.push(' ') + ("and"@.push(' ') + py));
    assert("("@ + x + ") or ("@ + y + ")"@ =~= px.push(' ') + ("or"@.push(' ') + py));
    assert("not ("@ + x + ")"@ =~= "not"@.push(' ') + px);
    law_word_is_one_token("not"@);
    law_tokens_add_up("not"@, ' ', px);
}

proof fn text_in_parentheses(x: Seq<char>)
    ensures
        tokens_of(seq!['('] + x + seq![')']) == in_parentheses(tokens_of(x)),
{
    reveal_strlit("(");
    reveal_strlit(")");
    let none = Seq::<char>::empty();
    law_word_is_one_token(none);
    let inner = x.push(')') + none;
    law_tokens_add_up(x, ')', none);
    law_tokens_add_up(none, '(', inner);
    assert(none.push('(') + inner =~= seq!['('] + x + seq![')']);
    assert(seq!['('] =~= "("@);
    assert(seq![')'] =~= ")"@);
    assert(tokens_of(seq!['('] + x + seq![')']) =~= in_parentheses(tokens_of(x)));
}

proof fn word_between(word: Seq<char>, px: Seq<char>, py: Seq<char>)
    requires
        word == "and"@ || word == "or"@,
    ensures
        tokens_of(px.push(' ') + (word.push(' ') + py)) == with_between(
            tokens_of(px),
            word,
            tokens_of(py),
        ),
{
    reveal_strlit("and");
    reveal_strlit("or");
    law_word_is_one_token(word);
    law_tokens_add_up(word, ' ', py);
    law_tokens_add_up(px, ' ', word.push(' ') + py);
    assert(tokens_of(px) + (seq![word] + tokens_of(py)) =~= with_between(
        tokens_of(px),
        word,
        tokens_of(py),
    ));
}

proof fn tokens_of_front(
    a: Seq<char>,
    c: char,
    s: Seq<char>,
    i: int,
    out: Seq<Seq<char>>,
    word: Seq<char>,
)
    requires
        0 <= i <= a.len() < s.len(),
        forall|j: int| 0 <= j < a.len() ==> #[trigger] s[j] == a[j],
        s[a.len() as int] == c,
        parts_words(c),
    ensures
        tokens_from(s, i, out, word) == tokens_from(
            s,
            a.len() as int + 1,
            (if c == '(' || c == ')' {
                tokens_from(a, i, out, word).push(seq![c])
            } else {
                tokens_from(a, i, out, word)
            }),
            Seq::empty(),
        ),
    decreases a.len() - i,
{
    if i < a.len() {
        assert(s[i] == a[i]);
        if a[i] == '(' || a[i] == ')' {
            tokens_of_front(
                a,
                c,
                s,
                i + 1,
                crate::options::with_word(out, word).push(seq![a[i]]),
                Seq::empty(),
            );
        } else if text::white(a[i]) {
            tokens_of_front(
                a,
                c,
                s,
                i + 1,
                crate::options::with_word(out, word),
                Seq::empty(),
            );
        } else {
            tokens_of_front(a, c, s, i + 1, out, word.push(a[i]));
        }
    }
}

proof fn tokens_of_back(
    s: Seq<char>,
    n: int,
    b: Seq<char>,
    i: int,
    out: Seq<Seq<char>>,
    word: Seq<char>,
)
    requires
        0 <= n,
        n + b.len() == s.len(),
        forall|j: int| 0 <= j < b.len() ==> #[trigger] b[j] == s[n + j],
        0 <= i <= b.len(),
    ensures
        tokens_from(s, n + i, out, word) == out + tokens_from(b, i, Seq::empty(), word),
    decreases b.len() - i, 0int,
{
    let none = Seq::<Seq<char>>::empty();
    if i < b.len() {
        assert(b[i] == s[n + i]);
        if b[i] == '(' || b[i] == ')' {
            let more = crate::options::with_word(none, word).push(seq![b[i]]);
            let all = crate::options::with_word(out, word).push(seq![b[i]]);
            tokens_of_back(s, n, b, i + 1, all, Seq::empty());
            tokens_behind(b, i + 1, more, Seq::empty());
            let rest = tokens_from(b, i + 1, none, Seq::empty());
            assert(all + rest =~= out + (more + rest));
        } else if text::white(b[i]) {
            let more = crate::options::with_word(none, word);
            let all = crate::options::with_word(out, word);
            tokens_of_back(s, n, b, i + 1, all, Seq::empty());
            tokens_behind(b, i + 1, more, Seq::empty());
            let rest = tokens_from(b, i + 1, none, Seq::empty());
            assert(all + rest =~= out + (more + rest));
        } else {
            tokens_of_back(s, n, b, i + 1, out, word.push(b[i]));
        }
    } else {
        assert(crate::options::with_word(out, word) =~= out + crate::options::with_word(
            none,
            word,
        ));
    }
}

proof fn tokens_behind(b: Seq<char>, i: int, out: Seq<Seq<char>>, word: Seq<char>)
    requires
        0 <= i <= b.len(),
    ensures
        tokens_from(b, i, out, word) == out + tokens_from(b, i, Seq::empty(), word),
    decreases b.len() - i, 1int,
{
    tokens_of_back(b, 0, b, i, out, word);
}

proof fn word_is_read(w: Seq<char>, i: int)
    requires
        0 <= i <= w.len(),
        forall|i: int| 0 <= i < w.len() ==> !parts_words(#[trigger] w[i]),
    ensures
        tokens_from(w, i, Seq::empty(), w.take(i)) == (if w.len() == 0 {
            Seq::empty()
        } else {
            seq![w]
        }),
    decreases w.len() - i,
{
    if i < w.len() {
        assert(!parts_words(w[i]));
        assert(w.take(i + 1) =~= w.take(i).push(w[i]));
        word_is_read(w, i + 1);
    } else {
        assert(w.take(i) =~= w);
        assert(Seq::<Seq<char>>::empty().push(w) =~= seq![w]);
    }
}

} // verus!
