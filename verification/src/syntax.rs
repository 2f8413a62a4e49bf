//! The parts of a Python module that test collection reads.

use vstd::prelude::*;

use crate::text;

verus! {

/// A comparison operator.
#[derive(Debug, Clone, Copy, PartialEq, Eq, Structural)]
pub enum CmpOp {
    Eq,
    NotEq,
    Is,
    IsNot,
    In,
    NotIn,
    /// One of the orderings.
    Other,
}

/// An expression.
#[derive(Debug)]
pub enum Expr {
    Name(String),
    Attribute(Box<Expr>, String),
    Call(Box<Expr>, Vec<Expr>, Vec<Keyword>),
    /// The value of `value[...]`.
    Subscript(Box<Expr>),
    Str(String),
    /// An integer: its decimal digits, or the literal as it is written where it
    /// is not decimal and takes more than 64 bits.
    Int(String),
    Bool(bool),
    NoneValue,
    Not(Box<Expr>),
    Minus(Box<Expr>),
    And(Vec<Expr>),
    Or(Vec<Expr>),
    Compare(Box<Expr>, Vec<CmpOp>, Vec<Expr>),
    List(Vec<Expr>),
    Tuple(Vec<Expr>),
    /// Any other expression.
    Other,
}

/// A keyword argument of a call; `**value` has no name.
#[derive(Debug)]
pub struct Keyword {
    pub arg: Option<String>,
    pub value: Expr,
}

/// One name of an import, and the name it is bound to where that is given.
#[derive(Debug)]
pub struct Alias {
    pub name: String,
    pub asname: Option<String>,
}

/// A statement.
#[derive(Debug)]
pub enum Stmt {
    Function { name: String, decorators: Vec<Expr>, params: Vec<String>, body: Vec<Stmt> },
    Class { name: String, decorators: Vec<Expr>, bases: Vec<Expr>, body: Vec<Stmt> },
    Assign { targets: Vec<Expr>, value: Expr },
    Expr(Expr),
    Return(Option<Expr>),
    Delete(Vec<Expr>),
    Import(Vec<Alias>),
    ImportFrom { level: u32, module: Option<String>, names: Vec<Alias> },
    If { test: Expr, body: Vec<Stmt>, clauses: Vec<Clause> },
    Try { body: Vec<Stmt>, handlers: Vec<Block>, orelse: Vec<Stmt>, finalbody: Vec<Stmt> },
    With { body: Vec<Stmt> },
    /// A loop or a `match`: its blocks.
    Nested(Vec<Block>),
    /// Any other statement.
    Other,
}

/// An `elif` clause, or an `else` clause, which has no test.
#[derive(Debug)]
pub struct Clause {
    pub test: Option<Expr>,
    pub body: Vec<Stmt>,
}

/// The statements of one exception handler, or of one block of a loop or a
/// `match`.
#[derive(Debug)]
pub struct Block {
    pub body: Vec<Stmt>,
}

/// What an expression holds.
pub enum ExprView {
    Name(Seq<char>),
    Attribute(Box<ExprView>, Seq<char>),
    Call(Box<ExprView>, Seq<ExprView>, Seq<KeywordView>),
    Subscript(Box<ExprView>),
    Str(Seq<char>),
    Int(Seq<char>),
    Bool(bool),
    NoneValue,
    Not(Box<ExprView>),
    Minus(Box<ExprView>),
    And(Seq<ExprView>),
    Or(Seq<ExprView>),
    Compare(Box<ExprView>, Seq<CmpOp>, Seq<ExprView>),
    List(Seq<ExprView>),
    Tuple(Seq<ExprView>),
    Other,
}

/// What a keyword argument holds.
pub struct KeywordView {
    pub arg: Option<Seq<char>>,
    pub value: ExprView,
}

/// What one name of an import holds.
pub struct AliasView {
    pub name: Seq<char>,
    pub asname: Option<Seq<char>>,
}

/// What a statement holds.
pub enum StmtView {
    Function {
        name: Seq<char>,
        decorators: Seq<ExprView>,
        params: Seq<Seq<char>>,
        body: Seq<StmtView>,
    },
    Class {
        name: Seq<char>,
        decorators: Seq<ExprView>,
        bases: Seq<ExprView>,
        body: Seq<StmtView>,
    },
    Assign { targets: Seq<ExprView>, value: ExprView },
    Expr(ExprView),
    Return(Option<ExprView>),
    Delete(Seq<ExprView>),
    Import(Seq<AliasView>),
    ImportFrom { level: u32, module: Option<Seq<char>>, names: Seq<AliasView> },
    If { test: ExprView, body: Seq<StmtView>, clauses: Seq<ClauseView> },
    Try {
        body: Seq<StmtView>,
        handlers: Seq<BlockView>,
        orelse: Seq<StmtView>,
        finalbody: Seq<StmtView>,
    },
    With { body: Seq<StmtView> },
    Nested(Seq<BlockView>),
    Other,
}

/// What an `elif` or `else` clause holds.
pub struct ClauseView {
    pub test: Option<ExprView>,
    pub body: Seq<StmtView>,
}

/// What a block holds.
pub struct BlockView {
    pub body: Seq<StmtView>,
}

pub open spec fn expr_view(e: Expr) -> ExprView
    decreases e,
{
    match e {
        Expr::Name(s) => ExprView::Name(s@),
        Expr::Attribute(b, a) => ExprView::Attribute(Box::new(expr_view(*b)), a@),
        Expr::Call(f, a, k) => ExprView::Call(
            Box::new(expr_view(*f)),
            Seq::new(
                a@.len(),
                |i: int|
                    if 0 <= i < a@.len() {
                        expr_view(a@[i])
                    } else {
                        arbitrary()
                    },
            ),
            Seq::new(
                k@.len(),
                |i: int|
                    if 0 <= i < k@.len() {
                        keyword_view(k@[i])
                    } else {
                        arbitrary()
                    },
            ),
        ),
        Expr::Subscript(b) => ExprView::Subscript(Box::new(expr_view(*b))),
        Expr::Str(s) => ExprView::Str(s@),
        Expr::Int(s) => ExprView::Int(s@),
        Expr::Bool(b) => ExprView::Bool(b),
        Expr::NoneValue => ExprView::NoneValue,
        Expr::Not(b) => ExprView::Not(Box::new(expr_view(*b))),
        Expr::Minus(b) => ExprView::Minus(Box::new(expr_view(*b))),
        Expr::And(a) => ExprView::And(
            Seq::new(
                a@.len(),
                |i: int|
                    if 0 <= i < a@.len() {
                        expr_view(a@[i])
                    } else {
                        arbitrary()
                    },
            ),
        ),
        Expr::Or(a) => ExprView::Or(
            Seq::new(
                a@.len(),
                |i: int|
                    if 0 <= i < a@.len() {
                        expr_view(a@[i])
                    } else {
                        arbitrary()
                    },
            ),
        ),
        Expr::Compare(l, ops, a) => ExprView::Compare(
            Box::new(expr_view(*l)),
            ops@,
            Seq::new(
                a@.len(),
                |i: int|
                    if 0 <= i < a@.len() {
                        expr_view(a@[i])
                    } else {
                        arbitrary()
                    },
            ),
        ),
        Expr::List(a) => ExprView::List(
            Seq::new(
                a@.len(),
                |i: int|
                    if 0 <= i < a@.len() {
                        expr_view(a@[i])
                    } else {
                        arbitrary()
                    },
            ),
        ),
        Expr::Tuple(a) => ExprView::Tuple(
            Seq::new(
                a@.len(),
                |i: int|
                    if 0 <= i < a@.len() {
                        expr_view(a@[i])
                    } else {
                        arbitrary()
                    },
            ),
        ),
        Expr::Other => ExprView::Other,
    }
}

pub open spec fn keyword_view(k: Keyword) -> KeywordView
    decreases k,
{
    KeywordView { arg: text::opt(k.arg), value: expr_view(k.value) }
}

pub open spec fn stmt_view(s: Stmt) -> StmtView
    decreases s,
{
    match s {
        Stmt::Function { name, decorators, params, body } => StmtView::Function {
            name: name@,
            decorators: text::deep(decorators@),
            params: text::deep(params@),
            body: Seq::new(
                body@.len(),
                |i: int|
                    if 0 <= i < body@.len() {
                        stmt_view(body@[i])
                    } else {
                        arbitrary()
                    },
            ),
        },
        Stmt::Class { name, decorators, bases, body } => StmtView::Class {
            name: name@,
            decorators: text::deep(decorators@),
            bases: text::deep(bases@),
            body: Seq::new(
                body@.len(),
                |i: int|
                    if 0 <= i < body@.len() {
                        stmt_view(body@[i])
                    } else {
                        arbitrary()
                    },
            ),
        },
        Stmt::Assign { targets, value } => StmtView::Assign {
            targets: text::deep(targets@),
            value: value@,
        },
        Stmt::Expr(e) => StmtView::Expr(e@),
        Stmt::Return(e) => StmtView::Return(text::opt(e)),
        Stmt::Delete(targets) => StmtView::Delete(text::deep(targets@)),
        Stmt::Import(names) => StmtView::Import(text::deep(names@)),
        Stmt::ImportFrom { level, module, names } => StmtView::ImportFrom {
            level,
            module: text::opt(module),
            names: text::deep(names@),
        },
        Stmt::If { test, body, clauses } => StmtView::If {
            test: test@,
            body: Seq::new(
                body@.len(),
                |i: int|
                    if 0 <= i < body@.len() {
                        stmt_view(body@[i])
                    } else {
                        arbitrary()
                    },
            ),
            clauses: Seq::new(
                clauses@.len(),
                |i: int|
                    if 0 <= i < clauses@.len() {
                        clause_view(clauses@[i])
                    } else {
                        arbitrary()
                    },
            ),
        },
        Stmt::Try { body, handlers, orelse, finalbody } => StmtView::Try {
            body: Seq::new(
                body@.len(),
                |i: int|
                    if 0 <= i < body@.len() {
                        stmt_view(body@[i])
                    } else {
                        arbitrary()
                    },
            ),
            handlers: Seq::new(
                handlers@.len(),
                |i: int|
                    if 0 <= i < handlers@.len() {
                        block_view(handlers@[i])
                    } else {
                        arbitrary()
                    },
            ),
            orelse: Seq::new(
                orelse@.len(),
                |i: int|
                    if 0 <= i < orelse@.len() {
                        stmt_view(orelse@[i])
                    } else {
                        arbitrary()
                    },
            ),
            finalbody: Seq::new(
                finalbody@.len(),
                |i: int|
                    if 0 <= i < finalbody@.len() {
                        stmt_view(finalbody@[i])
                    } else {
                        arbitrary()
                    },
            ),
        },
        Stmt::With { body } => StmtView::With {
            body: Seq::new(
                body@.len(),
                |i: int|
                    if 0 <= i < body@.len() {
                        stmt_view(body@[i])
                    } else {
                        arbitrary()
                    },
            ),
        },
        Stmt::Nested(blocks) => StmtView::Nested(
            Seq::new(
                blocks@.len(),
                |i: int|
                    if 0 <= i < blocks@.len() {
                        block_view(blocks@[i])
                    } else {
                        arbitrary()
                    },
            ),
        ),
        Stmt::Other => StmtView::Other,
    }
}

pub open spec fn clause_view(c: Clause) -> ClauseView
    decreases c,
{
    ClauseView {
        test: text::opt(c.test),
        body: Seq::new(
            c.body@.len(),
            |i: int|
                if 0 <= i < c.body@.len() {
                    stmt_view(c.body@[i])
                } else {
                    arbitrary()
                },
        ),
    }
}

pub open spec fn block_view(b: Block) -> BlockView
    decreases b,
{
    BlockView {
        body: Seq::new(
            b.body@.len(),
            |i: int|
                if 0 <= i < b.body@.len() {
                    stmt_view(b.body@[i])
                } else {
                    arbitrary()
                },
        ),
    }
}

impl View for Expr {
    type V = ExprView;

    open spec fn view(&self) -> ExprView {
        expr_view(*self)
    }
}

impl View for Keyword {
    type V = KeywordView;

    open spec fn view(&self) -> KeywordView {
        keyword_view(*self)
    }
}

impl View for Alias {
    type V = AliasView;

    open spec fn view(&self) -> AliasView {
        AliasView { name: self.name@, asname: text::opt(self.asname) }
    }
}

impl View for Stmt {
    type V = StmtView;

    open spec fn view(&self) -> StmtView {
        stmt_view(*self)
    }
}

impl View for Clause {
    type V = ClauseView;

    open spec fn view(&self) -> ClauseView {
        clause_view(*self)
    }
}

impl View for Block {
    type V = BlockView;

    open spec fn view(&self) -> BlockView {
        block_view(*self)
    }
}

/// What an expression holds, in terms of the views of its parts.
pub proof fn expr_parts(e: Expr)
    ensures
        match e {
            Expr::Name(s) => e@ == ExprView::Name(s@),
            Expr::Attribute(b, a) => e@ == ExprView::Attribute(Box::new(b@), a@),
            Expr::Call(f, a, k) => e@ == ExprView::Call(
                Box::new(f@),
                text::deep(a@),
                text::deep(k@),
            ),
            Expr::Subscript(b) => e@ == ExprView::Subscript(Box::new(b@)),
            Expr::Str(s) => e@ == ExprView::Str(s@),
            Expr::Int(s) => e@ == ExprView::Int(s@),
            Expr::Bool(b) => e@ == ExprView::Bool(b),
            Expr::NoneValue => e@ == ExprView::NoneValue,
            Expr::Not(b) => e@ == ExprView::Not(Box::new(b@)),
            Expr::Minus(b) => e@ == ExprView::Minus(Box::new(b@)),
            Expr::And(a) => e@ == ExprView::And(text::deep(a@)),
            Expr::Or(a) => e@ == ExprView::Or(text::deep(a@)),
            Expr::Compare(l, ops, a) => e@ == ExprView::Compare(
                Box::new(l@),
                ops@,
                text::deep(a@),
            ),
            Expr::List(a) => e@ == ExprView::List(text::deep(a@)),
            Expr::Tuple(a) => e@ == ExprView::Tuple(text::deep(a@)),
            Expr::Other => e@ == ExprView::Other,
        },
{
    match e {
        Expr::Call(f, a, k) => {
            assert(e@->Call_1 =~= text::deep(a@));
            assert(e@->Call_2 =~= text::deep(k@));
        },
        Expr::And(a) => {
            assert(e@->And_0 =~= text::deep(a@));
        },
        Expr::Or(a) => {
            assert(e@->Or_0 =~= text::deep(a@));
        },
        Expr::Compare(l, ops, a) => {
            assert(e@->Compare_2 =~= text::deep(a@));
        },
        Expr::List(a) => {
            assert(e@->List_0 =~= text::deep(a@));
        },
        Expr::Tuple(a) => {
            assert(e@->Tuple_0 =~= text::deep(a@));
        },
        _ => {},
    }
}

/// What a statement holds, in terms of the views of its parts.
pub proof fn stmt_parts(s: Stmt)
    ensures
        match s {
            Stmt::Function { name, decorators, params, body } => s@ == (StmtView::Function {
                name: name@,
                decorators: text::deep(decorators@),
                params: text::deep(params@),
                body: text::deep(body@),
            }),
            Stmt::Class { name, decorators, bases, body } => s@ == (StmtView::Class {
                name: name@,
                decorators: text::deep(decorators@),
                bases: text::deep(bases@),
                body: text::deep(body@),
            }),
            Stmt::Assign { targets, value } => s@ == (StmtView::Assign {
                targets: text::deep(targets@),
                value: value@,
            }),
            Stmt::Expr(e) => s@ == StmtView::Expr(e@),
            Stmt::Return(e) => s@ == StmtView::Return(text::opt(e)),
            Stmt::Delete(targets) => s@ == StmtView::Delete(text::deep(targets@)),
            Stmt::Import(names) => s@ == StmtView::Import(text::deep(names@)),
            Stmt::ImportFrom { level, module, names } => s@ == (StmtView::ImportFrom {
                level,
                module: text::opt(module),
                names: text::deep(names@),
            }),
            Stmt::If { test, body, clauses } => s@ == (StmtView::If {
                test: test@,
                body: text::deep(body@),
                clauses: text::deep(clauses@),
            }),
            Stmt::Try { body, handlers, orelse, finalbody } => s@ == (StmtView::Try {
                body: text::deep(body@),
                handlers: text::deep(handlers@),
                orelse: text::deep(orelse@),
                finalbody: text::deep(finalbody@),
            }),
            Stmt::With { body } => s@ == (StmtView::With { body: text::deep(body@) }),
            Stmt::Nested(blocks) => s@ == StmtView::Nested(text::deep(blocks@)),
            Stmt::Other => s@ == StmtView::Other,
        },
{
    match s {
        Stmt::Function { name, decorators, params, body } => {
            assert(s@->Function_body =~= text::deep(body@));
        },
        Stmt::Class { name, decorators, bases, body } => {
            assert(s@->Class_body =~= text::deep(body@));
        },
        Stmt::If { test, body, clauses } => {
            assert(s@->If_body =~= text::deep(body@));
            assert(s@->clauses =~= text::deep(clauses@));
        },
        Stmt::Try { body, handlers, orelse, finalbody } => {
            assert(s@->Try_body =~= text::deep(body@));
            assert(s@->handlers =~= text::deep(handlers@));
            assert(s@->orelse =~= text::deep(orelse@));
            assert(s@->finalbody =~= text::deep(finalbody@));
        },
        Stmt::With { body } => {
            assert(s@->With_body =~= text::deep(body@));
        },
        Stmt::Nested(blocks) => {
            assert(s@->Nested_0 =~= text::deep(blocks@));
        },
        _ => {},
    }
}

/// What a clause holds, in terms of the views of its parts.
pub proof fn clause_parts(c: Clause)
    ensures
        c@ == (ClauseView { test: text::opt(c.test), body: text::deep(c.body@) }),
{
    assert(c@.body =~= text::deep(c.body@));
}

/// What a block holds, in terms of the views of its parts.
pub proof fn block_parts(b: Block)
    ensures
        b@ == (BlockView { body: text::deep(b.body@) }),
{
    assert(b@.body =~= text::deep(b.body@));
}

} // verus!
