use vstd::prelude::*;

verus! {

/// An expression. `If` is an expression node that yields no usable value.
#[derive(Debug, PartialEq)]
pub enum Expr {
    Const(i32),
    Var(String),
    Add(Box<Expr>, Box<Expr>),
    Sub(Box<Expr>, Box<Expr>),
    Mul(Box<Expr>, Box<Expr>),
    Div(Box<Expr>, Box<Expr>),
    Greater(Box<Expr>, Box<Expr>),
    If(Box<Expr>, Box<Stmt>, Option<Box<Stmt>>),
}

/// A statement.
#[derive(Debug, PartialEq)]
pub enum Stmt {
    Assign(String, Expr),
    Block(Vec<Stmt>),
    Expr(Expr),
}

/// The binary operators, all of one precedence.
pub enum BinOp {
    Add,
    Sub,
    Mul,
    Div,
    Greater,
}

/// The mathematical model of an expression.
pub enum SExpr {
    Const(i32),
    Var(Seq<char>),
    Bin(BinOp, Box<SExpr>, Box<SExpr>),
    If(Box<SExpr>, Box<SStmt>, Option<Box<SStmt>>),
}

/// The mathematical model of a statement.
pub enum SStmt {
    Assign(Seq<char>, SExpr),
    Block(Seq<SStmt>),
    Expr(SExpr),
}

pub open spec fn expr_model(e: Expr) -> SExpr
    decreases e,
{
    match e {
        Expr::Const(v) => SExpr::Const(v),
        Expr::Var(name) => SExpr::Var(name@),
        Expr::Add(l, r) => SExpr::Bin(BinOp::Add, Box::new(expr_model(*l)), Box::new(expr_model(*r))),
        Expr::Sub(l, r) => SExpr::Bin(BinOp::Sub, Box::new(expr_model(*l)), Box::new(expr_model(*r))),
        Expr::Mul(l, r) => SExpr::Bin(BinOp::Mul, Box::new(expr_model(*l)), Box::new(expr_model(*r))),
        Expr::Div(l, r) => SExpr::Bin(BinOp::Div, Box::new(expr_model(*l)), Box::new(expr_model(*r))),
        Expr::Greater(l, r) => SExpr::Bin(
            BinOp::Greater,
            Box::new(expr_model(*l)),
            Box::new(expr_model(*r)),
        ),
        Expr::If(c, t, e) => SExpr::If(
            Box::new(expr_model(*c)),
            Box::new(stmt_model(*t)),
            match e {
                Some(b) => Some(Box::new(stmt_model(*b))),
                None => None,
            },
        ),
    }
}

pub open spec fn stmt_model(s: Stmt) -> SStmt
    decreases s,
{
    match s {
        Stmt::Assign(name, e) => SStmt::Assign(name@, expr_model(e)),
        Stmt::Block(v) => SStmt::Block(
            Seq::new(
                v.len() as nat,
                |i: int|
                    if 0 <= i < v.len() {
                        stmt_model(v[i])
                    } else {
                        SStmt::Block(Seq::empty())
                    },
            ),
        ),
        Stmt::Expr(e) => SStmt::Expr(expr_model(e)),
    }
}

impl View for Expr {
    type V = SExpr;

    open spec fn view(&self) -> SExpr {
        expr_model(*self)
    }
}

impl View for Stmt {
    type V = SStmt;

    open spec fn view(&self) -> SStmt {
        stmt_model(*self)
    }
}

} // verus!
