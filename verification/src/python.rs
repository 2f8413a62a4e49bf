//! Reading Python source with the Ruff parser.
//!
//! The parser's nodes are opaque here: `expr_tree` and `stmt_tree` name what a
//! node holds, and one small function for each group of node kinds takes a
//! node apart. Everything that the collection logic reads is then copied into
//! the types of [`crate::syntax`].

use ruff_python_ast::{
    BoolOp, CmpOp as PyCmpOp, ExceptHandler, Expr as PyExpr, ModModule, Number, Stmt as PyStmt,
    UnaryOp,
};
use ruff_python_parser::{parse_module, ParseError};
use vstd::prelude::*;

use crate::syntax::{
    Alias, AliasView, Block, BlockView, Clause, ClauseView, CmpOp, Expr, ExprView, Keyword,
    KeywordView, Stmt, StmtView,
};
use crate::text;

verus! {

broadcast use crate::text::group_deep;

/// A statement node of the Ruff syntax tree.
#[verifier::external_type_specification]
#[verifier::external_body]
pub struct ExPyStmt(PyStmt);

/// An expression node of the Ruff syntax tree.
#[verifier::external_type_specification]
#[verifier::external_body]
pub struct ExPyExpr(PyExpr);

/// A comparison operator of the Ruff syntax tree.
#[verifier::external_type_specification]
#[verifier::external_body]
pub struct ExPyCmpOp(PyCmpOp);

/// A module of the Ruff syntax tree.
#[verifier::external_type_specification]
#[verifier::external_body]
pub struct ExModModule(ModModule);

/// What the Ruff parser reports of a text that is no Python module.
#[verifier::external_type_specification]
#[verifier::external_body]
pub struct ExParseError(ParseError);

/// The statements that the Ruff parser reads in a text, or the message of the
/// error that it reports.
pub uninterp spec fn module_source(source: Seq<char>) -> Result<Seq<StmtView>, Seq<char>>;

/// The message of an error of the Ruff parser.
pub uninterp spec fn error_shown(e: ParseError) -> Seq<char>;

/// The Ruff parser takes a text whose positions fit in 32 bits.
pub open spec fn parseable(source: Seq<char>) -> bool {
    vstd::utf8::encode_utf8(source).len() <= u32::MAX
}

/// The statements of a module of the Ruff syntax tree.
pub uninterp spec fn module_tree(m: ModModule) -> Seq<StmtView>;

/// What a statement node holds.
pub uninterp spec fn stmt_tree(s: PyStmt) -> StmtView;

/// What an expression node holds.
pub uninterp spec fn expr_tree(e: PyExpr) -> ExprView;

/// What an operator node holds.
pub uninterp spec fn op_tree(op: PyCmpOp) -> CmpOp;

/// What the nodes of a list of expressions hold.
pub open spec fn expr_trees(v: Seq<PyExpr>) -> Seq<ExprView> {
    Seq::new(v.len(), |i: int| expr_tree(v[i]))
}

/// What the nodes of a list of statements hold.
pub open spec fn stmt_trees(v: Seq<PyStmt>) -> Seq<StmtView> {
    Seq::new(v.len(), |i: int| stmt_tree(v[i]))
}

/// The parts of an expression are smaller than the expression.
proof fn expr_descends(t: ExprView)
    ensures
        match t {
            ExprView::Attribute(b, _) => decreases_to!(t => *b),
            ExprView::Call(f, a, k) => decreases_to!(t => *f) && decreases_to!(t => a)
                && decreases_to!(t => k),
            ExprView::Subscript(b) => decreases_to!(t => *b),
            ExprView::Not(b) => decreases_to!(t => *b),
            ExprView::Minus(b) => decreases_to!(t => *b),
            ExprView::And(a) => decreases_to!(t => a),
            ExprView::Or(a) => decreases_to!(t => a),
            ExprView::Compare(l, _, a) => decreases_to!(t => *l) && decreases_to!(t => a),
            ExprView::List(a) => decreases_to!(t => a),
            ExprView::Tuple(a) => decreases_to!(t => a),
            _ => true,
        },
{
}

/// The blocks of a statement are smaller than the statement.
proof fn stmt_descends(t: StmtView)
    ensures
        match t {
            StmtView::Function { body, .. } => decreases_to!(t => body),
            StmtView::Class { body, .. } => decreases_to!(t => body),
            StmtView::If { body, clauses, .. } => decreases_to!(t => body) && decreases_to!(
                t => clauses
            ),
            StmtView::Try { body, handlers, orelse, finalbody } => decreases_to!(t => body)
                && decreases_to!(t => handlers) && decreases_to!(t => orelse) && decreases_to!(
                t => finalbody
            ),
            StmtView::With { body } => decreases_to!(t => body),
            StmtView::Nested(blocks) => decreases_to!(t => blocks),
            _ => true,
        },
{
}

/// An expression node, taken apart.
pub enum ExprShape<'a> {
    Name(String),
    Attribute(&'a PyExpr, String),
    Call(&'a PyExpr, &'a [PyExpr], Vec<(Option<String>, &'a PyExpr)>),
    Subscript(&'a PyExpr),
    Str(String),
    Int(String),
    Bool(bool),
    NoneValue,
    Not(&'a PyExpr),
    Minus(&'a PyExpr),
    And(&'a [PyExpr]),
    Or(&'a [PyExpr]),
    Compare(&'a PyExpr, &'a [PyCmpOp], &'a [PyExpr]),
    List(&'a [PyExpr]),
    Tuple(&'a [PyExpr]),
    Other,
}

/// What an expression node that was taken apart holds.
pub open spec fn expr_shape_tree(s: ExprShape) -> ExprView {
    match s {
        ExprShape::Name(n) => ExprView::Name(n@),
        ExprShape::Attribute(b, a) => ExprView::Attribute(Box::new(expr_tree(*b)), a@),
        ExprShape::Call(f, a, k) => ExprView::Call(
            Box::new(expr_tree(*f)),
            expr_trees(a@),
            Seq::new(
                k@.len(),
                |i: int| KeywordView { arg: text::opt(k@[i].0), value: expr_tree(*k@[i].1) },
            ),
        ),
        ExprShape::Subscript(b) => ExprView::Subscript(Box::new(expr_tree(*b))),
        ExprShape::Str(t) => ExprView::Str(t@),
        ExprShape::Int(t) => ExprView::Int(t@),
        ExprShape::Bool(b) => ExprView::Bool(b),
        ExprShape::NoneValue => ExprView::NoneValue,
        ExprShape::Not(b) => ExprView::Not(Box::new(expr_tree(*b))),
        ExprShape::Minus(b) => ExprView::Minus(Box::new(expr_tree(*b))),
        ExprShape::And(a) => ExprView::And(expr_trees(a@)),
        ExprShape::Or(a) => ExprView::Or(expr_trees(a@)),
        ExprShape::Compare(l, ops, a) => ExprView::Compare(
            Box::new(expr_tree(*l)),
            Seq::new(ops@.len(), |i: int| op_tree(ops@[i])),
            expr_trees(a@),
        ),
        ExprShape::List(a) => ExprView::List(expr_trees(a@)),
        ExprShape::Tuple(a) => ExprView::Tuple(expr_trees(a@)),
        ExprShape::Other => ExprView::Other,
    }
}

/// Takes apart the variants of `ruff_python_ast::Expr` that name, select or
/// call something. `None` is the answer for the others.
#[verifier::external_body]
fn access_shape<'a>(e: &'a PyExpr) -> (r: Option<ExprShape<'a>>)
    ensures
        r matches Some(s) ==> expr_tree(*e) == expr_shape_tree(s),
        r is Some <==> (expr_tree(*e) is Name || expr_tree(*e) is Attribute || expr_tree(
            *e,
        ) is Call || expr_tree(*e) is Subscript),
{
    match e {
        PyExpr::Name(n) => Some(ExprShape::Name(n.id.to_string())),
        PyExpr::Attribute(a) => Some(ExprShape::Attribute(&a.value, a.attr.to_string())),
        PyExpr::Call(c) => {
            let keywords = c.arguments.keywords.iter();
            let pairs = keywords.map(|k| (k.arg.as_ref().map(|a| a.to_string()), &k.value));
            Some(ExprShape::Call(&c.func, &c.arguments.args, pairs.collect()))
        }
        PyExpr::Subscript(s) => Some(ExprShape::Subscript(&s.value)),
        _ => None,
    }
}

/// Takes apart the variants of `ruff_python_ast::Expr` that are literals,
/// lists and tuples. `None` is the answer for the others.
#[verifier::external_body]
fn literal_shape<'a>(e: &'a PyExpr) -> (r: Option<ExprShape<'a>>)
    ensures
        r matches Some(s) ==> expr_tree(*e) == expr_shape_tree(s),
        r is Some <==> (expr_tree(*e) is Str || expr_tree(*e) is Int || expr_tree(*e) is Bool
            || expr_tree(*e) is NoneValue || expr_tree(*e) is List || expr_tree(*e) is Tuple),
{
    match e {
        PyExpr::StringLiteral(s) => Some(ExprShape::Str(s.value.to_str().to_string())),
        PyExpr::NumberLiteral(n) => match &n.value {
            Number::Int(i) => Some(ExprShape::Int(i.to_string())),
            _ => None,
        },
        PyExpr::BooleanLiteral(b) => Some(ExprShape::Bool(b.value)),
        PyExpr::NoneLiteral(_) => Some(ExprShape::NoneValue),
        PyExpr::List(l) => Some(ExprShape::List(&l.elts)),
        PyExpr::Tuple(t) => Some(ExprShape::Tuple(&t.elts)),
        _ => None,
    }
}

/// Takes apart the variants of `ruff_python_ast::Expr` that apply `not`, `-`,
/// `and`, `or` or a comparison. `None` is the answer for the others.
#[verifier::external_body]
fn operator_shape<'a>(e: &'a PyExpr) -> (r: Option<ExprShape<'a>>)
    ensures
        r matches Some(s) ==> expr_tree(*e) == expr_shape_tree(s),
        r is Some <==> (expr_tree(*e) is Not || expr_tree(*e) is Minus || expr_tree(*e) is And
            || expr_tree(*e) is Or || expr_tree(*e) is Compare),
{
    match e {
        PyExpr::UnaryOp(u) => match u.op {
            UnaryOp::Not => Some(ExprShape::Not(&u.operand)),
            UnaryOp::USub => Some(ExprShape::Minus(&u.operand)),
            _ => None,
        },
        PyExpr::BoolOp(b) => match b.op {
            BoolOp::And => Some(ExprShape::And(&b.values)),
            BoolOp::Or => Some(ExprShape::Or(&b.values)),
        },
        PyExpr::Compare(c) => Some(ExprShape::Compare(&c.left, &c.ops, &c.comparators)),
        _ => None,
    }
}

/// Tells the variants of `ruff_python_ast::CmpOp` apart.
#[verifier::external_body]
fn op_shape(op: &PyCmpOp) -> (r: CmpOp)
    ensures
        r == op_tree(*op),
{
    match op {
        PyCmpOp::Eq => CmpOp::Eq,
        PyCmpOp::NotEq => CmpOp::NotEq,
        PyCmpOp::Is => CmpOp::Is,
        PyCmpOp::IsNot => CmpOp::IsNot,
        PyCmpOp::In => CmpOp::In,
        PyCmpOp::NotIn => CmpOp::NotIn,
        _ => CmpOp::Other,
    }
}

/// Takes an expression node apart.
fn expr_shape<'a>(e: &'a PyExpr) -> (r: ExprShape<'a>)
    ensures
        expr_tree(*e) == expr_shape_tree(r),
{
    match access_shape(e) {
        Some(s) => s,
        None => match literal_shape(e) {
            Some(s) => s,
            None => match operator_shape(e) {
                Some(s) => s,
                None => ExprShape::Other,
            },
        },
    }
}

/// A copy of an expression.
fn copy_expr(e: &PyExpr) -> (r: Expr)
    ensures
        r@ == expr_tree(*e),
    decreases expr_tree(*e), 0int,
{
    proof {
        expr_descends(expr_tree(*e));
    }
    let out: Expr = match expr_shape(e) {
        ExprShape::Name(n) => Expr::Name(n),
        ExprShape::Attribute(b, a) => Expr::Attribute(Box::new(copy_expr(b)), a),
        ExprShape::Call(f, a, k) => {
            let func: Expr = copy_expr(f);
            let args: Vec<Expr> = copy_exprs(a);
            let mut keywords: Vec<Keyword> = Vec::new();
            let ghost trees = expr_tree(*e)->Call_2;
            let mut i: usize = 0;
            while i < k.len()
                invariant
                    i <= k.len(),
                    trees == expr_tree(*e)->Call_2,
                    expr_tree(*e) is Call,
                    trees.len() == k.len(),
                    forall|j: int|
                        0 <= j < k.len() ==> trees[j] == (KeywordView {
                            arg: text::opt(k@[j].0),
                            value: expr_tree(*k@[j].1),
                        }),
                    keywords.len() == i,
                    forall|j: int| 0 <= j < i ==> keywords@[j]@ == trees[j],
                decreases k.len() - i,
            {
                let arg: Option<String> = match &k[i].0 {
                    Some(a) => Some(a.clone()),
                    None => None,
                };
                proof {
                    assert(trees[i as int].value == expr_tree(*k@[i as int].1));
                }
                keywords.push(Keyword { arg, value: copy_expr(k[i].1) });
                i += 1;
            }
            proof {
                assert(text::deep(keywords@) =~= trees);
            }
            Expr::Call(Box::new(func), args, keywords)
        },
        ExprShape::Subscript(b) => Expr::Subscript(Box::new(copy_expr(b))),
        ExprShape::Str(t) => Expr::Str(t),
        ExprShape::Int(t) => Expr::Int(t),
        ExprShape::Bool(b) => Expr::Bool(b),
        ExprShape::NoneValue => Expr::NoneValue,
        ExprShape::Not(b) => Expr::Not(Box::new(copy_expr(b))),
        ExprShape::Minus(b) => Expr::Minus(Box::new(copy_expr(b))),
        ExprShape::And(a) => Expr::And(copy_exprs(a)),
        ExprShape::Or(a) => Expr::Or(copy_exprs(a)),
        ExprShape::Compare(l, ops, a) => {
            let left: Expr = copy_expr(l);
            let mut names: Vec<CmpOp> = Vec::new();
            let mut i: usize = 0;
            while i < ops.len()
                invariant
                    i <= ops.len(),
                    names.len() == i,
                    forall|j: int| 0 <= j < i ==> names@[j] == op_tree(ops@[j]),
                decreases ops.len() - i,
            {
                names.push(op_shape(&ops[i]));
                i += 1;
            }
            proof {
                assert(names@ =~= expr_tree(*e)->Compare_1);
            }
            Expr::Compare(Box::new(left), names, copy_exprs(a))
        },
        ExprShape::List(a) => Expr::List(copy_exprs(a)),
        ExprShape::Tuple(a) => Expr::Tuple(copy_exprs(a)),
        ExprShape::Other => Expr::Other,
    };
    proof {
        crate::syntax::expr_parts(out);
    }
    out
}

/// A copy of a list of expressions.
fn copy_exprs(v: &[PyExpr]) -> (r: Vec<Expr>)
    ensures
        text::deep(r@) == expr_trees(v@),
    decreases expr_trees(v@), 1int,
{
    let mut out: Vec<Expr> = Vec::new();
    let mut i: usize = 0;
    while i < v.len()
        invariant
            i <= v.len(),
            out.len() == i,
            forall|j: int| 0 <= j < i ==> out@[j]@ == expr_tree(v@[j]),
        decreases v.len() - i,
    {
        proof {
            assert(expr_trees(v@)[i as int] == expr_tree(v@[i as int]));
        }
        out.push(copy_expr(&v[i]));
        i += 1;
    }
    proof {
        assert(text::deep(out@) =~= expr_trees(v@));
    }
    out
}

/// A statement node, taken apart.
pub enum StmtShape<'a> {
    /// Name, decorators, the three lists of named parameters, body.
    Function(
        String,
        Vec<&'a PyExpr>,
        (Vec<String>, Vec<String>, Vec<String>),
        &'a [PyStmt],
    ),
    Class(String, Vec<&'a PyExpr>, &'a [PyExpr], &'a [PyStmt]),
    Assign(&'a [PyExpr], &'a PyExpr),
    Expr(&'a PyExpr),
    Return(Option<&'a PyExpr>),
    Delete(&'a [PyExpr]),
    Import(Vec<(String, Option<String>)>),
    ImportFrom(u32, Option<String>, Vec<(String, Option<String>)>),
    If(&'a PyExpr, &'a [PyStmt], Vec<(Option<&'a PyExpr>, &'a [PyStmt])>),
    Try(&'a [PyStmt], Vec<&'a [PyStmt]>, &'a [PyStmt], &'a [PyStmt]),
    With(&'a [PyStmt]),
    Nested(Vec<&'a [PyStmt]>),
    Other,
}

/// What the nodes of a list of references to expressions hold.
pub open spec fn ref_trees(v: Seq<&PyExpr>) -> Seq<ExprView> {
    Seq::new(v.len(), |i: int| expr_tree(*v[i]))
}

/// What a list of imported names holds.
pub open spec fn alias_trees(v: Seq<(String, Option<String>)>) -> Seq<AliasView> {
    Seq::new(v.len(), |i: int| AliasView { name: v[i].0@, asname: text::opt(v[i].1) })
}

/// What an optional expression node holds.
pub open spec fn opt_tree(e: Option<&PyExpr>) -> Option<ExprView> {
    match e {
        Some(x) => Some(expr_tree(*x)),
        None => None,
    }
}

/// What a list of blocks holds.
pub open spec fn block_trees(v: Seq<&[PyStmt]>) -> Seq<BlockView> {
    Seq::new(v.len(), |i: int| BlockView { body: stmt_trees(v[i]@) })
}

/// What a statement node that was taken apart holds.
pub open spec fn stmt_shape_tree(s: StmtShape) -> StmtView {
    match s {
        StmtShape::Function(n, d, p, b) => StmtView::Function {
            name: n@,
            decorators: ref_trees(d@),
            params: text::deep(p.0@) + text::deep(p.1@) + text::deep(p.2@),
            body: stmt_trees(b@),
        },
        StmtShape::Class(n, d, a, b) => StmtView::Class {
            name: n@,
            decorators: ref_trees(d@),
            bases: expr_trees(a@),
            body: stmt_trees(b@),
        },
        StmtShape::Assign(t, v) => StmtView::Assign {
            targets: expr_trees(t@),
            value: expr_tree(*v),
        },
        StmtShape::Expr(e) => StmtView::Expr(expr_tree(*e)),
        StmtShape::Return(e) => StmtView::Return(opt_tree(e)),
        StmtShape::Delete(t) => StmtView::Delete(expr_trees(t@)),
        StmtShape::Import(n) => StmtView::Import(alias_trees(n@)),
        StmtShape::ImportFrom(level, m, n) => StmtView::ImportFrom {
            level,
            module: text::opt(m),
            names: alias_trees(n@),
        },
        StmtShape::If(t, b, c) => StmtView::If {
            test: expr_tree(*t),
            body: stmt_trees(b@),
            clauses: Seq::new(
                c@.len(),
                |i: int| ClauseView { test: opt_tree(c@[i].0), body: stmt_trees(c@[i].1@) },
            ),
        },
        StmtShape::Try(b, h, o, f) => StmtView::Try {
            body: stmt_trees(b@),
            handlers: block_trees(h@),
            orelse: stmt_trees(o@),
            finalbody: stmt_trees(f@),
        },
        StmtShape::With(b) => StmtView::With { body: stmt_trees(b@) },
        StmtShape::Nested(b) => StmtView::Nested(block_trees(b@)),
        StmtShape::Other => StmtView::Other,
    }
}

/// Takes apart the variant `FunctionDef` of `ruff_python_ast::Stmt`. `None` is
/// the answer for the others.
#[verifier::external_body]
fn function_shape<'a>(s: &'a PyStmt) -> (r: Option<StmtShape<'a>>)
    ensures
        r matches Some(t) ==> stmt_tree(*s) == stmt_shape_tree(t),
        r is Some <==> stmt_tree(*s) is Function,
{
    match s {
        PyStmt::FunctionDef(f) => {
            let name = f.name.to_string();
            let marks = f.decorator_list.iter().map(|d| &d.expression).collect();
            let p = &f.parameters;
            let first = p.posonlyargs.iter().map(|q| q.parameter.name.to_string()).collect();
            let second = p.args.iter().map(|q| q.parameter.name.to_string()).collect();
            let third = p.kwonlyargs.iter().map(|q| q.parameter.name.to_string()).collect();
            Some(StmtShape::Function(name, marks, (first, second, third), &f.body))
        }
        _ => None,
    }
}

/// Takes apart the variants of `ruff_python_ast::Stmt` that hold expressions
/// or a class. `None` is the answer for the others.
#[verifier::external_body]
fn simple_shape<'a>(s: &'a PyStmt) -> (r: Option<StmtShape<'a>>)
    ensures
        r matches Some(t) ==> stmt_tree(*s) == stmt_shape_tree(t),
        r is Some <==> (stmt_tree(*s) is Class || stmt_tree(*s) is Assign || stmt_tree(*s) is Expr
            || stmt_tree(*s) is Return || stmt_tree(*s) is Delete),
{
    match s {
        PyStmt::ClassDef(c) => {
            let marks = c.decorator_list.iter().map(|d| &d.expression).collect();
            Some(StmtShape::Class(c.name.to_string(), marks, c.bases(), &c.body))
        }
        PyStmt::Assign(a) => Some(StmtShape::Assign(&a.targets, &a.value)),
        PyStmt::Expr(e) => Some(StmtShape::Expr(&e.value)),
        PyStmt::Return(e) => Some(StmtShape::Return(e.value.as_deref())),
        PyStmt::Delete(d) => Some(StmtShape::Delete(&d.targets)),
        _ => None,
    }
}

/// Takes apart the variants of `ruff_python_ast::Stmt` that import. `None` is
/// the answer for the others.
#[verifier::external_body]
fn import_shape<'a>(s: &'a PyStmt) -> (r: Option<StmtShape<'a>>)
    ensures
        r matches Some(t) ==> stmt_tree(*s) == stmt_shape_tree(t),
        r is Some <==> (stmt_tree(*s) is Import || stmt_tree(*s) is ImportFrom),
{
    match s {
        PyStmt::Import(i) => {
            let names = i.names.iter();
            let pairs = names.map(|a| (a.name.to_string(), a.asname.as_ref().map(|n| n.to_string())));
            Some(StmtShape::Import(pairs.collect()))
        }
        PyStmt::ImportFrom(i) => {
            let names = i.names.iter();
            let pairs = names.map(|a| (a.name.to_string(), a.asname.as_ref().map(|n| n.to_string())));
            let module = i.module.as_ref().map(|m| m.to_string());
            Some(StmtShape::ImportFrom(i.level, module, pairs.collect()))
        }
        _ => None,
    }
}

/// Takes apart the variants `If`, `Try` and `With` of `ruff_python_ast::Stmt`.
/// `None` is the answer for the others.
#[verifier::external_body]
fn block_shape<'a>(s: &'a PyStmt) -> (r: Option<StmtShape<'a>>)
    ensures
        r matches Some(t) ==> stmt_tree(*s) == stmt_shape_tree(t),
        r is Some <==> (stmt_tree(*s) is If || stmt_tree(*s) is Try || stmt_tree(*s) is With),
{
    match s {
        PyStmt::If(i) => {
            let clauses = i.elif_else_clauses.iter().map(|c| (c.test.as_ref(), &c.body[..]));
            Some(StmtShape::If(&i.test, &i.body, clauses.collect()))
        }
        PyStmt::Try(t) => {
            let bodies = t.handlers.iter().map(|ExceptHandler::ExceptHandler(h)| &h.body[..]);
            Some(StmtShape::Try(&t.body, bodies.collect(), &t.orelse, &t.finalbody))
        }
        PyStmt::With(w) => Some(StmtShape::With(&w.body)),
        _ => None,
    }
}

/// Takes apart the variants `For`, `While` and `Match` of
/// `ruff_python_ast::Stmt`: the body and the `else` block of a loop, and the
/// bodies of the cases, in order. `None` is the answer for the others.
#[verifier::external_body]
fn nested_shape<'a>(s: &'a PyStmt) -> (r: Option<StmtShape<'a>>)
    ensures
        r matches Some(t) ==> stmt_tree(*s) == stmt_shape_tree(t),
        r is Some <==> stmt_tree(*s) is Nested,
{
    match s {
        PyStmt::For(f) => Some(StmtShape::Nested(vec![&f.body[..], &f.orelse[..]])),
        PyStmt::While(w) => Some(StmtShape::Nested(vec![&w.body[..], &w.orelse[..]])),
        PyStmt::Match(m) => {
            Some(StmtShape::Nested(m.cases.iter().map(|c| &c.body[..]).collect()))
        }
        _ => None,
    }
}

/// Takes a statement node apart.
fn stmt_shape<'a>(s: &'a PyStmt) -> (r: StmtShape<'a>)
    ensures
        stmt_tree(*s) == stmt_shape_tree(r),
{
    match function_shape(s) {
        Some(t) => t,
        None => match simple_shape(s) {
            Some(t) => t,
            None => match import_shape(s) {
                Some(t) => t,
                None => match block_shape(s) {
                    Some(t) => t,
                    None => match nested_shape(s) {
                        Some(t) => t,
                        None => StmtShape::Other,
                    },
                },
            },
        },
    }
}

/// Copies of expressions that are held by reference.
fn copy_refs(v: &Vec<&PyExpr>) -> (r: Vec<Expr>)
    ensures
        text::deep(r@) == ref_trees(v@),
{
    let mut out: Vec<Expr> = Vec::new();
    let mut i: usize = 0;
    while i < v.len()
        invariant
            i <= v.len(),
            out.len() == i,
            forall|j: int| 0 <= j < i ==> out@[j]@ == expr_tree(*v@[j]),
        decreases v.len() - i,
    {
        out.push(copy_expr(v[i]));
        i += 1;
    }
    proof {
        assert(text::deep(out@) =~= ref_trees(v@));
    }
    out
}

/// Copies of imported names.
fn copy_aliases(v: &Vec<(String, Option<String>)>) -> (r: Vec<Alias>)
    ensures
        text::deep(r@) == alias_trees(v@),
{
    let mut out: Vec<Alias> = Vec::new();
    let mut i: usize = 0;
    while i < v.len()
        invariant
            i <= v.len(),
            out.len() == i,
            forall|j: int| 0 <= j < i ==> out@[j]@ == alias_trees(v@)[j],
        decreases v.len() - i,
    {
        let asname: Option<String> = match &v[i].1 {
            Some(a) => Some(a.clone()),
            None => None,
        };
        out.push(Alias { name: v[i].0.clone(), asname });
        i += 1;
    }
    proof {
        assert(text::deep(out@) =~= alias_trees(v@));
    }
    out
}

/// A copy of an optional expression.
fn copy_opt(e: Option<&PyExpr>) -> (r: Option<Expr>)
    ensures
        text::opt(r) == opt_tree(e),
{
    match e {
        Some(x) => Some(copy_expr(x)),
        None => None,
    }
}

/// A copy of a statement.
fn copy_stmt(s: &PyStmt) -> (r: Stmt)
    ensures
        r@ == stmt_tree(*s),
    decreases stmt_tree(*s), 0int,
{
    proof {
        stmt_descends(stmt_tree(*s));
    }
    let out: Stmt = match stmt_shape(s) {
        StmtShape::Function(name, d, p, b) => {
            let mut params: Vec<String> = Vec::new();
            text::extend(&mut params, &p.0);
            text::extend(&mut params, &p.1);
            text::extend(&mut params, &p.2);
            proof {
                assert(text::deep(params@) =~= text::deep(p.0@) + text::deep(p.1@) + text::deep(
                    p.2@,
                ));
            }
            Stmt::Function { name, decorators: copy_refs(&d), params, body: copy_stmts(b) }
        },
        StmtShape::Class(name, d, a, b) => Stmt::Class {
            name,
            decorators: copy_refs(&d),
            bases: copy_exprs(a),
            body: copy_stmts(b),
        },
        StmtShape::Assign(t, v) => Stmt::Assign { targets: copy_exprs(t), value: copy_expr(v) },
        StmtShape::Expr(e) => Stmt::Expr(copy_expr(e)),
        StmtShape::Return(e) => Stmt::Return(copy_opt(e)),
        StmtShape::Delete(t) => Stmt::Delete(copy_exprs(t)),
        StmtShape::Import(n) => Stmt::Import(copy_aliases(&n)),
        StmtShape::ImportFrom(level, module, n) => Stmt::ImportFrom {
            level,
            module,
            names: copy_aliases(&n),
        },
        StmtShape::If(t, b, c) => {
            let test: Expr = copy_expr(t);
            let body: Vec<Stmt> = copy_stmts(b);
            let mut clauses: Vec<Clause> = Vec::new();
            let ghost trees = stmt_tree(*s)->clauses;
            let mut i: usize = 0;
            while i < c.len()
                invariant
                    i <= c.len(),
                    stmt_tree(*s) is If,
                    trees == stmt_tree(*s)->clauses,
                    trees.len() == c.len(),
                    forall|j: int|
                        0 <= j < c.len() ==> trees[j] == (ClauseView {
                            test: opt_tree(c@[j].0),
                            body: stmt_trees(c@[j].1@),
                        }),
                    clauses.len() == i,
                    forall|j: int| 0 <= j < i ==> clauses@[j]@ == trees[j],
                decreases c.len() - i,
            {
                proof {
                    assert(trees[i as int].body == stmt_trees(c@[i as int].1@));
                }
                let clause: Clause = Clause { test: copy_opt(c[i].0), body: copy_stmts(c[i].1) };
                proof {
                    crate::syntax::clause_parts(clause);
                }
                clauses.push(clause);
                i += 1;
            }
            proof {
                assert(text::deep(clauses@) =~= trees);
            }
            Stmt::If { test, body, clauses }
        },
        StmtShape::Try(b, h, o, f) => Stmt::Try {
            body: copy_stmts(b),
            handlers: copy_blocks(&h),
            orelse: copy_stmts(o),
            finalbody: copy_stmts(f),
        },
        StmtShape::With(b) => Stmt::With { body: copy_stmts(b) },
        StmtShape::Nested(b) => Stmt::Nested(copy_blocks(&b)),
        StmtShape::Other => Stmt::Other,
    };
    proof {
        crate::syntax::stmt_parts(out);
    }
    out
}

/// A copy of a list of blocks.
fn copy_blocks(v: &Vec<&[PyStmt]>) -> (r: Vec<Block>)
    ensures
        text::deep(r@) == block_trees(v@),
    decreases block_trees(v@), 2int,
{
    let ghost trees = block_trees(v@);
    let mut out: Vec<Block> = Vec::new();
    let mut i: usize = 0;
    while i < v.len()
        invariant
            i <= v.len(),
            trees == block_trees(v@),
            out.len() == i,
            forall|j: int| 0 <= j < i ==> out@[j]@ == trees[j],
        decreases v.len() - i,
    {
        proof {
            assert(trees[i as int].body == stmt_trees(v@[i as int]@));
            assert(decreases_to!(trees => trees[i as int]));
            assert(decreases_to!(trees[i as int] => trees[i as int].body));
        }
        let block: Block = Block { body: copy_stmts(v[i]) };
        proof {
            crate::syntax::block_parts(block);
        }
        out.push(block);
        i += 1;
    }
    proof {
        assert(text::deep(out@) =~= trees);
    }
    out
}

/// A copy of a list of statements.
fn copy_stmts(v: &[PyStmt]) -> (r: Vec<Stmt>)
    ensures
        text::deep(r@) == stmt_trees(v@),
    decreases stmt_trees(v@), 1int,
{
    let mut out: Vec<Stmt> = Vec::new();
    let mut i: usize = 0;
    while i < v.len()
        invariant
            i <= v.len(),
            out.len() == i,
            forall|j: int| 0 <= j < i ==> out@[j]@ == stmt_tree(v@[j]),
        decreases v.len() - i,
    {
        proof {
            assert(stmt_trees(v@)[i as int] == stmt_tree(v@[i as int]));
        }
        out.push(copy_stmt(&v[i]));
        i += 1;
    }
    proof {
        assert(text::deep(out@) =~= stmt_trees(v@));
    }
    out
}

/// `ruff_python_parser::parse_module`: the module that a text holds, or the
/// first error in it. Both depend on the text alone. The parser's lexer panics
/// on a text of more bytes than a 32-bit position can count.
#[verifier::external_body]
fn parse_text(source: &str) -> (r: Result<ModModule, ParseError>)
    requires
        parseable(source@),
    ensures
        match r {
            Ok(m) => module_source(source@) == Ok::<Seq<StmtView>, Seq<char>>(module_tree(m)),
            Err(e) => module_source(source@) == Err::<Seq<StmtView>, Seq<char>>(error_shown(e)),
        },
{
    parse_module(source).map(|p| p.into_syntax())
}

/// The field `body` of `ruff_python_ast::ModModule`: the statements of the
/// module, in order.
#[verifier::external_body]
fn module_body(m: &ModModule) -> (r: &[PyStmt])
    ensures
        stmt_trees(r@) == module_tree(*m),
{
    &m.body
}

/// The `Display` form of a `ruff_python_parser::ParseError` is the message of
/// the error.
#[verifier::external_body]
fn error_text(e: &ParseError) -> (r: String)
    ensures
        r@ == error_shown(*e),
{
    e.to_string()
}

/// The statements of a Python module, or why the text is none.
pub fn parse(source: &str) -> (r: Result<Vec<Stmt>, String>)
    requires
        parseable(source@),
    ensures
        match r {
            Ok(v) => module_source(source@) == Ok::<Seq<StmtView>, Seq<char>>(text::deep(v@)),
            Err(m) => module_source(source@) == Err::<Seq<StmtView>, Seq<char>>(m@),
        },
{
    match parse_text(source) {
        Ok(m) => Ok(copy_stmts(module_body(&m))),
        Err(e) => Err(error_text(&e)),
    }
}

} // verus!
