//! What single statements and conditions of a module say, without the rest of
//! the module.

use vstd::prelude::*;

use crate::model::{Guard, GuardView};
use crate::params::{dotted, string_value, tail_is};
use crate::syntax::{Block, BlockView, Clause, ClauseView, CmpOp, Expr, ExprView, Stmt, StmtView};
use crate::table::Table;
use crate::text::{self, concat3, same};

verus! {

broadcast use crate::text::group_deep;

// ---------------------------------------------------------------------------
// Calls
// ---------------------------------------------------------------------------

/// `pytest.skip(...)`, with any arguments.
pub open spec fn skip_call(e: ExprView) -> bool {
    match e {
        ExprView::Call(f, _, _) => crate::params::tail_name(*f) == Some("skip"@),
        _ => false,
    }
}

/// Is this a call of `pytest.skip`?
pub fn is_module_skip_call(e: &Expr) -> (r: bool)
    ensures
        r == skip_call(e@),
{
    proof {
        crate::syntax::expr_parts(*e);
    }
    match e {
        Expr::Call(f, _, _) => tail_is(f, "skip"),
        _ => false,
    }
}

/// The string literal that is the first of some arguments.
pub open spec fn first_string(args: Seq<ExprView>) -> Option<Seq<char>> {
    if args.len() > 0 {
        crate::params::string_of(args[0])
    } else {
        None
    }
}

fn first_string_of(args: &Vec<Expr>) -> (r: Option<String>)
    ensures
        text::opt(r) == first_string(text::deep(args@)),
{
    if args.len() > 0 {
        string_value(&args[0])
    } else {
        None
    }
}

/// The name that `pytest.importorskip("name")` demands.
pub open spec fn demanded(e: ExprView) -> Option<Seq<char>> {
    match e {
        ExprView::Call(f, args, _) if crate::params::tail_name(*f) == Some("importorskip"@) => {
            first_string(args)
        },
        _ => None,
    }
}

/// The name that `pytest.importorskip("name")` (or bare `importorskip("name")`)
/// demands.
pub fn importorskip_name(e: &Expr) -> (r: Option<String>)
    ensures
        text::opt(r) == demanded(e@),
{
    proof {
        crate::syntax::expr_parts(*e);
    }
    match e {
        Expr::Call(f, args, _) if tail_is(f, "importorskip") => first_string_of(args),
        _ => None,
    }
}

/// The name that `import_module("name")` or `importorskip("name")` imports.
pub open spec fn bound_module(e: ExprView) -> Option<Seq<char>> {
    match e {
        ExprView::Call(f, args, _) if crate::params::tail_name(*f) == Some("import_module"@)
            || crate::params::tail_name(*f) == Some("importorskip"@) => first_string(args),
        _ => None,
    }
}

/// The name that `import_module('name')` or `importorskip('name')` imports.
pub fn import_module_binding(e: &Expr) -> (r: Option<String>)
    ensures
        text::opt(r) == bound_module(e@),
{
    proof {
        crate::syntax::expr_parts(*e);
    }
    match e {
        Expr::Call(f, args, _) if tail_is(f, "import_module") || tail_is(f, "importorskip") => {
            first_string_of(args)
        },
        _ => None,
    }
}

/// The dotted form of a base-class expression; subscripts (generics) are
/// unwrapped, anything else is ignored.
pub open spec fn base_of(e: ExprView) -> Option<Seq<char>>
    decreases e,
{
    match e {
        ExprView::Name(n) => Some(n),
        ExprView::Attribute(b, a) => match base_of(*b) {
            Some(base) => Some(base + "."@ + a),
            None => None,
        },
        ExprView::Subscript(b) => base_of(*b),
        _ => None,
    }
}

/// The dotted form of a base-class expression.
pub fn base_text(e: &Expr) -> (r: Option<String>)
    ensures
        text::opt(r) == base_of(e@),
    decreases e,
{
    proof {
        crate::syntax::expr_parts(*e);
    }
    match e {
        Expr::Name(n) => Some(n.clone()),
        Expr::Attribute(b, a) => match base_text(b) {
            Some(base) => Some(concat3(base.as_str(), ".", a.as_str())),
            None => None,
        },
        Expr::Subscript(b) => base_text(b),
        _ => None,
    }
}

// ---------------------------------------------------------------------------
// Constant conditions
// ---------------------------------------------------------------------------

/// The value of `sys.platform` on an operating system.
pub open spec fn platform(os: Seq<char>) -> Seq<char> {
    if os == "macos"@ {
        "darwin"@
    } else if os == "windows"@ {
        "win32"@
    } else {
        os
    }
}

/// The string that an expression is on an operating system, where it is a
/// literal or a known constant of the runtime.
pub open spec fn constant(e: ExprView, os: Seq<char>) -> Option<Seq<char>> {
    match e {
        ExprView::Str(s) => Some(s),
        _ => {
            let name = crate::params::dotted_name(e);
            if name == Some("sys.platform"@) {
                Some(platform(os))
            } else if name == Some("os.name"@) {
                Some(
                    if os == "windows"@ {
                        "nt"@
                    } else {
                        "posix"@
                    },
                )
            } else {
                None
            }
        },
    }
}

/// String value of an expression when it is a literal or a known runtime
/// constant (`sys.platform`, `os.name`).
pub fn const_str(e: &Expr, os: &str) -> (r: Option<String>)
    ensures
        text::opt(r) == constant(e@, os@),
{
    proof {
        crate::syntax::expr_parts(*e);
    }
    match e {
        Expr::Str(s) => Some(s.clone()),
        _ => match dotted(e) {
            Some(name) => {
                if same(name.as_str(), "sys.platform") {
                    if same(os, "macos") {
                        Some("darwin".to_owned())
                    } else if same(os, "windows") {
                        Some("win32".to_owned())
                    } else {
                        Some(os.to_owned())
                    }
                } else if same(name.as_str(), "os.name") {
                    if same(os, "windows") {
                        Some("nt".to_owned())
                    } else {
                        Some("posix".to_owned())
                    }
                } else {
                    None
                }
            },
            None => None,
        },
    }
}

/// The truth of a comparison, as far as it is constant.
pub open spec fn compared(
    left: ExprView,
    op: CmpOp,
    right: ExprView,
    os: Seq<char>,
) -> Option<bool> {
    match op {
        CmpOp::Eq => match (constant(left, os), constant(right, os)) {
            (Some(a), Some(b)) => Some(a == b),
            _ => None,
        },
        CmpOp::NotEq => match (constant(left, os), constant(right, os)) {
            (Some(a), Some(b)) => Some(a != b),
            _ => None,
        },
        CmpOp::In => if crate::params::dotted_name(right) == Some("sys.argv"@) {
            Some(false)
        } else {
            None
        },
        CmpOp::NotIn => if crate::params::dotted_name(right) == Some("sys.argv"@) {
            Some(true)
        } else {
            None
        },
        _ => None,
    }
}

/// The truth of a condition on an operating system, as far as it is constant:
/// string comparisons and prefix tests over `sys.platform` and `os.name`,
/// membership in `sys.argv` (which never holds), and `and`, `or` and `not` of
/// such.
pub open spec fn truth(e: ExprView, os: Seq<char>) -> Option<bool>
    decreases e, 0int,
{
    match e {
        ExprView::And(v) => truths(v, os, true, 0, true),
        ExprView::Or(v) => truths(v, os, false, 0, false),
        ExprView::Not(b) => match truth(*b, os) {
            Some(t) => Some(!t),
            None => None,
        },
        ExprView::Compare(left, ops, rights) => if ops.len() == 1 && rights.len() == 1 {
            compared(*left, ops[0], rights[0], os)
        } else {
            None
        },
        ExprView::Call(f, args, _) => match *f {
            ExprView::Attribute(base, attr) => if attr == "startswith"@ {
                match (constant(*base, os), first_string(args)) {
                    (Some(s), Some(prefix)) => Some(prefix.is_prefix_of(s)),
                    _ => None,
                }
            } else {
                None
            },
            _ => None,
        },
        _ => None,
    }
}

/// The conjunction (`all`) or disjunction of the conditions from position `i`
/// on with `so_far`; none if one of them is not constant.
pub open spec fn truths(
    v: Seq<ExprView>,
    os: Seq<char>,
    all: bool,
    i: int,
    so_far: bool,
) -> Option<bool>
    decreases v, v.len() - i,
{
    if i < 0 || i >= v.len() {
        Some(so_far)
    } else {
        match truth(v[i], os) {
            Some(t) => truths(
                v,
                os,
                all,
                i + 1,
                if all {
                    so_far && t
                } else {
                    so_far || t
                },
            ),
            None => None,
        }
    }
}

fn eval_comparison(left: &Expr, op: CmpOp, right: &Expr, os: &str) -> (r: Option<bool>)
    ensures
        r == compared(left@, op, right@, os@),
{
    match op {
        CmpOp::Eq => match (const_str(left, os), const_str(right, os)) {
            (Some(a), Some(b)) => Some(same(a.as_str(), b.as_str())),
            _ => None,
        },
        CmpOp::NotEq => match (const_str(left, os), const_str(right, os)) {
            (Some(a), Some(b)) => Some(!same(a.as_str(), b.as_str())),
            _ => None,
        },
        CmpOp::In => match dotted(right) {
            Some(name) if same(name.as_str(), "sys.argv") => Some(false),
            _ => None,
        },
        CmpOp::NotIn => match dotted(right) {
            Some(name) if same(name.as_str(), "sys.argv") => Some(true),
            _ => None,
        },
        _ => None,
    }
}

/// Best-effort constant evaluation of module-level guard conditions over
/// `sys.platform`, `os.name` and `sys.argv` (a default pytest invocation passes
/// no plugin flags).
pub fn eval_condition(e: &Expr, os: &str) -> (r: Option<bool>)
    ensures
        r == truth(e@, os@),
    decreases e, 0int,
{
    proof {
        crate::syntax::expr_parts(*e);
    }
    match e {
        Expr::And(v) => eval_all(v, os, true),
        Expr::Or(v) => eval_all(v, os, false),
        Expr::Not(b) => match eval_condition(b, os) {
            Some(t) => Some(!t),
            None => None,
        },
        Expr::Compare(left, ops, rights) => if ops.len() == 1 && rights.len() == 1 {
            eval_comparison(left, ops[0], &rights[0], os)
        } else {
            None
        },
        Expr::Call(f, args, _) => {
            proof {
                crate::syntax::expr_parts(**f);
            }
            match &**f {
                Expr::Attribute(base, attr) => if same(attr.as_str(), "startswith") {
                    match (const_str(base, os), first_string_of(args)) {
                        (Some(s), Some(prefix)) => Some(
                            text::starts_with(s.as_str(), prefix.as_str()),
                        ),
                        _ => None,
                    }
                } else {
                    None
                },
                _ => None,
            }
        },
        _ => None,
    }
}

/// The conjunction (`all`) or disjunction of some conditions.
fn eval_all(v: &Vec<Expr>, os: &str, all: bool) -> (r: Option<bool>)
    ensures
        r == truths(text::deep(v@), os@, all, 0, all),
    decreases v, 1int,
{
    let ghost vs = text::deep(v@);
    let mut so_far: bool = all;
    let mut i: usize = 0;
    while i < v.len()
        invariant
            i <= v.len(),
            vs == text::deep(v@),
            truths(vs, os@, all, i as int, so_far) == truths(vs, os@, all, 0, all),
        decreases v.len() - i,
    {
        proof {
            assert(decreases_to!(v => v@[i as int]));
        }
        match eval_condition(&v[i], os) {
            Some(t) => {
                so_far = if all {
                    so_far && t
                } else {
                    so_far || t
                };
            },
            None => {
                return None;
            },
        }
        i += 1;
    }
    Some(so_far)
}

/// The constant truth of the value that a body returns, where it is exactly
/// `return <expr>`.
pub open spec fn returned(body: Seq<StmtView>, os: Seq<char>) -> Option<bool> {
    if body.len() == 1 {
        match body[0] {
            StmtView::Return(Some(e)) => truth(e, os),
            _ => None,
        }
    } else {
        None
    }
}

/// `def f(): return <evaluable>`: the constant truth of the return value.
pub fn const_return(body: &Vec<Stmt>, os: &str) -> (r: Option<bool>)
    ensures
        r == returned(text::deep(body@), os@),
{
    if body.len() == 1 {
        proof {
            crate::syntax::stmt_parts(body@[0]);
        }
        match &body[0] {
            Stmt::Return(Some(e)) => eval_condition(e, os),
            _ => None,
        }
    } else {
        None
    }
}

// ---------------------------------------------------------------------------
// Deferred guards
// ---------------------------------------------------------------------------

/// The guard that a condition stands for where it is not constant: a call of a
/// function without arguments, a name that says whether a module can be
/// imported, such a name compared with `None`, or `not` of such.
pub open spec fn guard_of(
    e: ExprView,
    bindings: Seq<(Seq<char>, Seq<char>)>,
) -> Option<GuardView>
    decreases e,
{
    match e {
        ExprView::Not(b) => match guard_of(*b, bindings) {
            Some(g) => Some(crate::model::inverted(g)),
            None => None,
        },
        ExprView::Call(f, args, _) => if args.len() == 0 {
            match *f {
                ExprView::Name(n) => Some(GuardView::Call(n, false)),
                _ => None,
            }
        } else {
            None
        },
        ExprView::Name(n) => match crate::table::find(bindings, n) {
            Some(m) => Some(GuardView::Binding(m, false)),
            None => None,
        },
        ExprView::Compare(left, ops, rights) => if ops.len() == 1 && rights.len() == 1 {
            match (*left, rights[0]) {
                (ExprView::Name(n), ExprView::NoneValue) => match crate::table::find(bindings, n) {
                    Some(m) => match ops[0] {
                        CmpOp::Is => Some(GuardView::Binding(m, true)),
                        CmpOp::IsNot => Some(GuardView::Binding(m, false)),
                        _ => None,
                    },
                    None => None,
                },
                _ => None,
            }
        } else {
            None
        },
        _ => None,
    }
}

/// Classify an if-guard that is not constant into a deferred form.
pub fn classify_guard(e: &Expr, bindings: &Table<String>) -> (r: Option<Guard>)
    ensures
        text::opt(r) == guard_of(e@, bindings@),
    decreases e,
{
    proof {
        crate::syntax::expr_parts(*e);
    }
    match e {
        Expr::Not(b) => match classify_guard(b, bindings) {
            Some(g) => Some(g.invert()),
            None => None,
        },
        Expr::Call(f, args, _) => if args.len() == 0 {
            proof {
                crate::syntax::expr_parts(**f);
            }
            match &**f {
                Expr::Name(n) => Some(Guard::Call(n.clone(), false)),
                _ => None,
            }
        } else {
            None
        },
        Expr::Name(n) => match bindings.get(n.as_str()) {
            Some(m) => Some(Guard::Binding(m.clone(), false)),
            None => None,
        },
        Expr::Compare(left, ops, rights) => if ops.len() == 1 && rights.len() == 1 {
            proof {
                crate::syntax::expr_parts(**left);
                crate::syntax::expr_parts(rights@[0]);
            }
            match (&**left, &rights[0]) {
                (Expr::Name(n), Expr::NoneValue) => match bindings.get(n.as_str()) {
                    Some(m) => match ops[0] {
                        CmpOp::Is => Some(Guard::Binding(m.clone(), true)),
                        CmpOp::IsNot => Some(Guard::Binding(m.clone(), false)),
                        _ => None,
                    },
                    None => None,
                },
                _ => None,
            }
        } else {
            None
        },
        _ => None,
    }
}

/// The names that a branch defines, from position `i` on, behind those in
/// `out`: functions and classes, not looking into nested blocks.
pub open spec fn defined_from(
    stmts: Seq<StmtView>,
    i: int,
    out: Seq<Seq<char>>,
) -> Seq<Seq<char>>
    decreases stmts.len() - i,
{
    if i < 0 || i >= stmts.len() {
        out
    } else {
        defined_from(
            stmts,
            i + 1,
            match stmts[i] {
                StmtView::Function { name, .. } => out.push(name),
                StmtView::Class { name, .. } => out.push(name),
                _ => out,
            },
        )
    }
}

/// Names of the definitions in a statement list (shallow: exactly the names
/// the branch would bind).
pub fn defined_names(stmts: &Vec<Stmt>) -> (r: Vec<String>)
    ensures
        text::deep(r@) == defined_from(text::deep(stmts@), 0, Seq::empty()),
{
    let ghost ss = text::deep(stmts@);
    let mut out: Vec<String> = Vec::new();
    let mut i: usize = 0;
    while i < stmts.len()
        invariant
            i <= stmts.len(),
            ss == text::deep(stmts@),
            defined_from(ss, i as int, text::deep(out@)) == defined_from(ss, 0, Seq::empty()),
        decreases stmts.len() - i,
    {
        proof {
            crate::syntax::stmt_parts(stmts@[i as int]);
        }
        match &stmts[i] {
            Stmt::Function { name, .. } => {
                out.push(name.clone());
            },
            Stmt::Class { name, .. } => {
                out.push(name.clone());
            },
            _ => {},
        }
        i += 1;
    }
    out
}

// ---------------------------------------------------------------------------
// Bodies that skip
// ---------------------------------------------------------------------------

/// Does a statement call `pytest.skip`, itself or in one of its blocks?
pub open spec fn skips(s: StmtView) -> bool
    decreases s, 0int,
{
    match s {
        StmtView::Expr(e) => skip_call(e),
        StmtView::If { test, body, clauses } => any_skips(body, 0) || clauses_skip(clauses, 0),
        StmtView::Try { body, handlers, orelse, finalbody } => any_skips(body, 0) || blocks_skip(
            handlers,
            0,
        ) || any_skips(orelse, 0) || any_skips(finalbody, 0),
        StmtView::With { body } => any_skips(body, 0),
        _ => false,
    }
}

/// Does a statement from position `i` on call `pytest.skip`?
pub open spec fn any_skips(body: Seq<StmtView>, i: int) -> bool
    decreases body, body.len() - i,
{
    0 <= i < body.len() && (skips(body[i]) || any_skips(body, i + 1))
}

/// Does a clause from position `i` on call `pytest.skip`?
pub open spec fn clauses_skip(clauses: Seq<ClauseView>, i: int) -> bool
    decreases clauses, clauses.len() - i,
{
    0 <= i < clauses.len() && (any_skips(clauses[i].body, 0) || clauses_skip(clauses, i + 1))
}

/// Does a handler from position `i` on call `pytest.skip`?
pub open spec fn blocks_skip(blocks: Seq<BlockView>, i: int) -> bool
    decreases blocks, blocks.len() - i,
{
    0 <= i < blocks.len() && (any_skips(blocks[i].body, 0) || blocks_skip(blocks, i + 1))
}

/// Does this statement list (recursively) contain a `pytest.skip(...)` call?
pub fn body_calls_skip(body: &Vec<Stmt>) -> (r: bool)
    ensures
        r == any_skips(text::deep(body@), 0),
    decreases body, 1int,
{
    let ghost bs = text::deep(body@);
    let mut i: usize = 0;
    while i < body.len()
        invariant
            i <= body.len(),
            bs == text::deep(body@),
            any_skips(bs, i as int) == any_skips(bs, 0),
        decreases body.len() - i,
    {
        proof {
            assert(decreases_to!(body => body@[i as int]));
        }
        if stmt_calls_skip(&body[i]) {
            return true;
        }
        i += 1;
    }
    false
}

fn stmt_calls_skip(s: &Stmt) -> (r: bool)
    ensures
        r == skips(s@),
    decreases s, 0int,
{
    proof {
        crate::syntax::stmt_parts(*s);
    }
    match s {
        Stmt::Expr(e) => is_module_skip_call(e),
        Stmt::If { test, body, clauses } => body_calls_skip(body) || clauses_call_skip(clauses),
        Stmt::Try { body, handlers, orelse, finalbody } => body_calls_skip(body)
            || handlers_call_skip(handlers) || body_calls_skip(orelse) || body_calls_skip(
            finalbody,
        ),
        Stmt::With { body } => body_calls_skip(body),
        _ => false,
    }
}

fn clauses_call_skip(clauses: &Vec<Clause>) -> (r: bool)
    ensures
        r == clauses_skip(text::deep(clauses@), 0),
    decreases clauses, 2int,
{
    let ghost cs = text::deep(clauses@);
    let mut i: usize = 0;
    while i < clauses.len()
        invariant
            i <= clauses.len(),
            cs == text::deep(clauses@),
            clauses_skip(cs, i as int) == clauses_skip(cs, 0),
        decreases clauses.len() - i,
    {
        proof {
            crate::syntax::clause_parts(clauses@[i as int]);
            assert(decreases_to!(clauses => clauses@[i as int]));
        }
        if body_calls_skip(&clauses[i].body) {
            return true;
        }
        i += 1;
    }
    false
}

/// Does one of the handlers call `pytest.skip`?
pub fn handlers_call_skip(handlers: &Vec<Block>) -> (r: bool)
    ensures
        r == blocks_skip(text::deep(handlers@), 0),
    decreases handlers, 2int,
{
    let ghost hs = text::deep(handlers@);
    let mut i: usize = 0;
    while i < handlers.len()
        invariant
            i <= handlers.len(),
            hs == text::deep(handlers@),
            blocks_skip(hs, i as int) == blocks_skip(hs, 0),
        decreases handlers.len() - i,
    {
        proof {
            crate::syntax::block_parts(handlers@[i as int]);
            assert(decreases_to!(handlers => handlers@[i as int]));
        }
        if body_calls_skip(&handlers[i].body) {
            return true;
        }
        i += 1;
    }
    false
}

// ---------------------------------------------------------------------------
// Laws
// ---------------------------------------------------------------------------

/// A conjunction is true where all of its conditions are, a disjunction where one
/// of them is, and `not` turns the truth round. Where one of the conditions is
/// not known, neither is known.
pub proof fn law_conditions_combine(v: Seq<ExprView>, b: Box<ExprView>, os: Seq<char>)
    ensures
        ({
            let known = forall|i: int| 0 <= i < v.len() ==> truth(#[trigger] v[i], os) is Some;
            &&& truth(ExprView::And(v), os) is Some <==> known
            &&& truth(ExprView::Or(v), os) is Some <==> known
        }),
        truth(ExprView::And(v), os) matches Some(t) ==> (t <==> forall|i: int|
            0 <= i < v.len() ==> truth(#[trigger] v[i], os) == Some(true)),
        truth(ExprView::Or(v), os) matches Some(t) ==> (t <==> exists|i: int|
            0 <= i < v.len() && truth(#[trigger] v[i], os) == Some(true)),
        truth(ExprView::Not(b), os) is Some <==> truth(*b, os) is Some,
        truth(ExprView::Not(b), os) is Some ==> truth(ExprView::Not(b), os) != truth(*b, os),
{
    conjunction(v, os, 0, true);
    disjunction(v, os, 0, false);
    if truth(ExprView::Not(b), os) is Some {
        let t = truth(*b, os)->0;
        assert(truth(ExprView::Not(b), os) == Some(!t));
    }
}

proof fn conjunction(v: Seq<ExprView>, os: Seq<char>, i: int, so_far: bool)
    requires
        0 <= i <= v.len(),
    ensures
        truths(v, os, true, i, so_far) is Some <==> forall|j: int|
            i <= j < v.len() ==> truth(#[trigger] v[j], os) is Some,
        truths(v, os, true, i, so_far) matches Some(t) ==> (t <==> so_far && forall|j: int|
            i <= j < v.len() ==> truth(#[trigger] v[j], os) == Some(true)),
    decreases v.len() - i,
{
    if i < v.len() {
        match truth(v[i], os) {
            Some(t) => {
                conjunction(v, os, i + 1, so_far && t);
            },
            None => {},
        }
    }
}

proof fn disjunction(v: Seq<ExprView>, os: Seq<char>, i: int, so_far: bool)
    requires
        0 <= i <= v.len(),
    ensures
        truths(v, os, false, i, so_far) is Some <==> forall|j: int|
            i <= j < v.len() ==> truth(#[trigger] v[j], os) is Some,
        truths(v, os, false, i, so_far) matches Some(t) ==> (t <==> so_far || exists|j: int|
            i <= j < v.len() && truth(#[trigger] v[j], os) == Some(true)),
    decreases v.len() - i,
{
    if i < v.len() {
        match truth(v[i], os) {
            Some(t) => {
                disjunction(v, os, i + 1, so_far || t);
            },
            None => {},
        }
    }
}

/// Two strings that are known compare as they are: `==` holds where they are the
/// same, `!=` where they are not, whichever stands on the left, and `startswith`
/// where the one begins with the other. A string literal is known as it stands.
pub proof fn law_comparisons(
    left: Box<ExprView>,
    right: ExprView,
    a: Seq<char>,
    b: Seq<char>,
    keywords: Seq<crate::syntax::KeywordView>,
    os: Seq<char>,
)
    requires
        constant(*left, os) == Some(a),
        constant(right, os) == Some(b),
    ensures
        truth(ExprView::Compare(left, seq![CmpOp::Eq], seq![right]), os) == Some(a == b),
        truth(ExprView::Compare(left, seq![CmpOp::NotEq], seq![right]), os) == Some(a != b),
        constant(ExprView::Str(b), os) == Some(b),
        truth(
            ExprView::Compare(Box::new(right), seq![CmpOp::Eq], seq![*left]),
            os,
        ) == Some(a == b),
        truth(
            ExprView::Call(
                Box::new(ExprView::Attribute(left, "startswith"@)),
                seq![ExprView::Str(b)],
                keywords,
            ),
            os,
        ) == Some(b.is_prefix_of(a)),
{
}

/// `sys.platform` is the name of the operating system, but `darwin` on macOS and
/// `win32` on Windows; `os.name` is `nt` on Windows and `posix` elsewhere.
pub proof fn law_platforms(e: ExprView, os: Seq<char>)
    requires
        !(e is Str),
    ensures
        crate::params::dotted_name(e) == Some("sys.platform"@) ==> {
            &&& constant(e, "macos"@) == Some(seq!['d', 'a', 'r', 'w', 'i', 'n'])
            &&& constant(e, "windows"@) == Some(seq!['w', 'i', 'n', '3', '2'])
            &&& os != "macos"@ && os != "windows"@ ==> constant(e, os) == Some(os)
        },
        crate::params::dotted_name(e) == Some("os.name"@) ==> {
            &&& constant(e, "windows"@) == Some(seq!['n', 't'])
            &&& os != "windows"@ ==> constant(e, os) == Some(seq!['p', 'o', 's', 'i', 'x'])
        },
{
    reveal_strlit("macos");
    reveal_strlit("windows");
    reveal_strlit("darwin");
    reveal_strlit("win32");
    reveal_strlit("nt");
    reveal_strlit("posix");
    reveal_strlit("sys.platform");
    reveal_strlit("os.name");
    assert("windows"@.len() == 7 && "macos"@.len() == 5);
    assert("sys.platform"@.len() == 12 && "os.name"@.len() == 7);
    assert("darwin"@ =~= seq!['d', 'a', 'r', 'w', 'i', 'n']);
    assert("win32"@ =~= seq!['w', 'i', 'n', '3', '2']);
    assert("nt"@ =~= seq!['n', 't']);
    assert("posix"@ =~= seq!['p', 'o', 's', 'i', 'x']);
}

/// Nothing is in `sys.argv`, so `in` does not hold there and `not in` does.
pub proof fn law_arguments_are_absent(left: Box<ExprView>, right: ExprView, os: Seq<char>)
    requires
        crate::params::dotted_name(right) == Some("sys.argv"@),
    ensures
        truth(ExprView::Compare(left, seq![CmpOp::In], seq![right]), os) == Some(false),
        truth(ExprView::Compare(left, seq![CmpOp::NotIn], seq![right]), os) == Some(true),
{
}

/// A name that says whether a module can be imported guards as that module does;
/// so does `is not None` of it, and `is None` guards the other way round, as does
/// `not`. `not` of `not` changes nothing.
pub proof fn law_guards_are_told(
    n: Seq<char>,
    module: Seq<char>,
    bindings: Seq<(Seq<char>, Seq<char>)>,
    e: Box<ExprView>,
)
    requires
        crate::table::find(bindings, n) == Some(module),
    ensures
        ({
            let name = Box::new(ExprView::Name(n));
            let plain = Some(GuardView::Binding(module, false));
            let turned = Some(GuardView::Binding(module, true));
            let none = seq![ExprView::NoneValue];
            &&& guard_of(*name, bindings) == plain
            &&& guard_of(ExprView::Not(name), bindings) == turned
            &&& guard_of(ExprView::Compare(name, seq![CmpOp::IsNot], none), bindings) == plain
            &&& guard_of(ExprView::Compare(name, seq![CmpOp::Is], none), bindings) == turned
        }),
        guard_of(ExprView::Not(Box::new(ExprView::Not(e))), bindings) == guard_of(*e, bindings),
        guard_of(
            ExprView::Call(Box::new(ExprView::Name(n)), Seq::empty(), Seq::empty()),
            bindings,
        ) == Some(GuardView::Call(n, false)),
{
    reveal_with_fuel(guard_of, 3);
}

/// A branch defines the names of the functions and classes that stand in it, and
/// no others.
pub proof fn law_branches_define(stmts: Seq<StmtView>, x: Seq<char>)
    ensures
        defined_from(stmts, 0, Seq::empty()).contains(x) <==> exists|i: int|
            0 <= i < stmts.len() && defines(#[trigger] stmts[i], x),
{
    definitions_hold(stmts, 0, Seq::empty(), x);
}

/// Is a statement the definition of a function or class of this name?
pub open spec fn defines(s: StmtView, x: Seq<char>) -> bool {
    match s {
        StmtView::Function { name, .. } => name == x,
        StmtView::Class { name, .. } => name == x,
        _ => false,
    }
}

proof fn definitions_hold(stmts: Seq<StmtView>, i: int, out: Seq<Seq<char>>, x: Seq<char>)
    requires
        0 <= i <= stmts.len(),
    ensures
        defined_from(stmts, i, out).contains(x) <==> out.contains(x) || exists|j: int|
            i <= j < stmts.len() && defines(#[trigger] stmts[j], x),
    decreases stmts.len() - i,
{
    if i < stmts.len() {
        match stmts[i] {
            StmtView::Function { name, .. } => {
                definitions_hold(stmts, i + 1, out.push(name), x);
                one_more(out, name, x);
            },
            StmtView::Class { name, .. } => {
                definitions_hold(stmts, i + 1, out.push(name), x);
                one_more(out, name, x);
            },
            _ => {
                definitions_hold(stmts, i + 1, out, x);
            },
        }
    }
}

proof fn one_more(out: Seq<Seq<char>>, name: Seq<char>, x: Seq<char>)
    ensures
        out.push(name).contains(x) <==> out.contains(x) || name == x,
{
    assert(out.push(name) =~= out + seq![name]);
    text::law_both_hold(out, seq![name], x);
    assert(seq![name].contains(name)) by {
        assert(seq![name][0] == name);
    }
}

/// A body calls `pytest.skip` where one of its statements does: as a call, or
/// inside an `if`, any clause of it, a `try` with its handlers, or a `with`.
pub proof fn law_skips_are_found(
    body: Seq<StmtView>,
    test: ExprView,
    clauses: Seq<ClauseView>,
    handlers: Seq<BlockView>,
    orelse: Seq<StmtView>,
    finalbody: Seq<StmtView>,
)
    ensures
        any_skips(body, 0) <==> exists|i: int| 0 <= i < body.len() && skips(#[trigger] body[i]),
        skips(StmtView::With { body }) == any_skips(body, 0),
        skips(StmtView::If { test, body, clauses }) <==> any_skips(body, 0) || exists|i: int|
            0 <= i < clauses.len() && any_skips((#[trigger] clauses[i]).body, 0),
        skips(StmtView::Try { body, handlers, orelse, finalbody }) <==> any_skips(body, 0)
            || any_skips(orelse, 0) || any_skips(finalbody, 0) || exists|i: int|
            0 <= i < handlers.len() && any_skips((#[trigger] handlers[i]).body, 0),
        forall|e: ExprView| #[trigger] skips(StmtView::Expr(e)) <==> skip_call(e),
{
    bodies_skip(body, 0);
    clauses_tell(clauses, 0);
    blocks_tell(handlers, 0);
}

proof fn bodies_skip(body: Seq<StmtView>, i: int)
    requires
        0 <= i <= body.len(),
    ensures
        any_skips(body, i) <==> exists|j: int| i <= j < body.len() && skips(#[trigger] body[j]),
    decreases body.len() - i,
{
    if i < body.len() {
        bodies_skip(body, i + 1);
    }
}

proof fn clauses_tell(clauses: Seq<ClauseView>, i: int)
    requires
        0 <= i <= clauses.len(),
    ensures
        clauses_skip(clauses, i) <==> exists|j: int|
            i <= j < clauses.len() && any_skips((#[trigger] clauses[j]).body, 0),
    decreases clauses.len() - i,
{
    if i < clauses.len() {
        clauses_tell(clauses, i + 1);
    }
}

proof fn blocks_tell(blocks: Seq<BlockView>, i: int)
    requires
        0 <= i <= blocks.len(),
    ensures
        blocks_skip(blocks, i) <==> exists|j: int|
            i <= j < blocks.len() && any_skips((#[trigger] blocks[j]).body, 0),
    decreases blocks.len() - i,
{
    if i < blocks.len() {
        blocks_tell(blocks, i + 1);
    }
}

/// The name of a base does not depend on its type arguments, and a dotted one is
/// its parts with dots between them.
pub proof fn law_names_of_bases(b: Box<ExprView>, a: Seq<char>)
    ensures
        base_of(ExprView::Subscript(b)) == base_of(*b),
        base_of(*b) matches Some(n) ==> base_of(ExprView::Attribute(b, a)) == Some(
            n + seq!['.'] + a,
        ),
        base_of(ExprView::Name(a)) == Some(a),
{
    reveal_strlit(".");
    assert("."@ =~= seq!['.']);
}

/// A call of anything that ends in `skip` skips, whatever it is given, and no
/// other call does. A call that ends in `importorskip` demands the module that
/// its first argument names; one that ends in `import_module` or `importorskip`
/// binds it.
pub proof fn law_calls_are_told_apart(
    f: Box<ExprView>,
    args: Seq<ExprView>,
    keywords: Seq<crate::syntax::KeywordView>,
    s: Seq<char>,
)
    ensures
        ({
            let name = crate::params::tail_name(*f);
            let call = ExprView::Call(f, args, keywords);
            let first = ExprView::Call(f, seq![ExprView::Str(s)] + args, keywords);
            &&& skip_call(call) <==> name == Some("skip"@)
            &&& demanded(first) == if name == Some("importorskip"@) {
                Some(s)
            } else {
                None
            }
            &&& bound_module(first) == if name == Some("importorskip"@) || name == Some(
                "import_module"@,
            ) {
                Some(s)
            } else {
                None
            }
            &&& args.len() == 0 || !(args[0] is Str) ==> demanded(call) is None && bound_module(
                call,
            ) is None
        }),
        !skip_call(ExprView::Name(s)),
        demanded(ExprView::Name(s)) is None,
{
    assert((seq![ExprView::Str(s)] + args)[0] == ExprView::Str(s));
}

/// A function whose body is a single `return` has the constant truth of what it
/// returns; one with any other body has none.
pub proof fn law_constant_functions(e: ExprView, other: StmtView, os: Seq<char>)
    ensures
        returned(seq![StmtView::Return(Some(e))], os) == truth(e, os),
        returned(seq![other, StmtView::Return(Some(e))], os) is None,
        returned(Seq::empty(), os) is None,
        !(other is Return) ==> returned(seq![other], os) is None,
{
    assert(seq![StmtView::Return(Some(e))][0] == StmtView::Return(Some(e)));
    assert(seq![other][0] == other);
}

} // verus!
