//! The typed AST for calc-lang: expressions, and the statements a block holds.

use vstd::prelude::*;

verus! {

/// An expression. Every construct calc-lang has, `if`/`else` and blocks included,
/// evaluates to a value.
#[derive(Debug, PartialEq)]
pub enum Expr {
    /// A numeric literal, exactly as written: decimal digits with an optional
    /// fractional part (`2`, `12.5`). Turning it into a number is left to whoever
    /// computes with it.
    Number(String),
    Var(String),
    BinOp(Box<Expr>, BinOp, Box<Expr>),
    If { cond: Box<Expr>, then_branch: Box<Expr>, else_branch: Box<Expr> },
    /// `{ stmts; result }`: a scope holding a sequence of statements, whose value is
    /// `result`'s.
    Block { stmts: Vec<Stmt>, result: Box<Expr> },
}

/// A statement: something a block runs for its effect, not its value.
#[derive(Debug, PartialEq)]
pub enum Stmt {
    /// `let name = value;` binds `name` for the rest of the enclosing block.
    Let { name: String, value: Expr },
    /// `print(value);` prints a number.
    Print(Expr),
}

/// The four arithmetic operators.
#[derive(Debug, Clone, Copy, PartialEq, Eq, Structural)]
pub enum BinOp {
    Add,
    Sub,
    Mul,
    Div,
}

/// What an [`Expr`] holds, as plain values.
#[verifier::ext_equal]
pub enum ExprV {
    Number(Seq<char>),
    Var(Seq<char>),
    BinOp(Box<ExprV>, BinOp, Box<ExprV>),
    If { cond: Box<ExprV>, then_branch: Box<ExprV>, else_branch: Box<ExprV> },
    Block { stmts: Seq<StmtV>, result: Box<ExprV> },
}

/// What a [`Stmt`] holds, as plain values.
#[verifier::ext_equal]
pub enum StmtV {
    Let { name: Seq<char>, value: ExprV },
    Print(ExprV),
}

/// The plain value of an expression.
pub open spec fn expr_view(e: Expr) -> ExprV
    decreases e,
{
    match e {
        Expr::Number(s) => ExprV::Number(s@),
        Expr::Var(s) => ExprV::Var(s@),
        Expr::BinOp(l, op, r) => ExprV::BinOp(Box::new(expr_view(*l)), op, Box::new(expr_view(*r))),
        Expr::If { cond, then_branch, else_branch } => ExprV::If {
            cond: Box::new(expr_view(*cond)),
            then_branch: Box::new(expr_view(*then_branch)),
            else_branch: Box::new(expr_view(*else_branch)),
        },
        Expr::Block { stmts, result } => ExprV::Block {
            stmts: Seq::new(
                stmts@.len(),
                |i: int|
                    if 0 <= i < stmts@.len() {
                        stmt_view(stmts@[i])
                    } else {
                        StmtV::Print(ExprV::Number(Seq::empty()))
                    },
            ),
            result: Box::new(expr_view(*result)),
        },
    }
}

/// The plain value of a statement.
pub open spec fn stmt_view(s: Stmt) -> StmtV
    decreases s,
{
    match s {
        Stmt::Let { name, value } => StmtV::Let { name: name@, value: expr_view(value) },
        Stmt::Print(e) => StmtV::Print(expr_view(e)),
    }
}

/// The plain values of a sequence of statements.
pub open spec fn stmts_view(stmts: Seq<Stmt>) -> Seq<StmtV> {
    stmts.map_values(|s: Stmt| stmt_view(s))
}

impl View for Expr {
    type V = ExprV;

    open spec fn view(&self) -> ExprV {
        expr_view(*self)
    }
}

impl View for Stmt {
    type V = StmtV;

    open spec fn view(&self) -> StmtV {
        stmt_view(*self)
    }
}

/// A block's view is made of its statements' views.
pub proof fn lemma_block_view(stmts: Vec<Stmt>, result: Box<Expr>)
    ensures
        expr_view(Expr::Block { stmts, result }) == (ExprV::Block {
            stmts: stmts_view(stmts@),
            result: Box::new(expr_view(*result)),
        }),
{
    let e = Expr::Block { stmts, result };
    if let ExprV::Block { stmts: sv, result: rv } = expr_view(e) {
        assert(sv =~= stmts_view(stmts@));
    }
}

} // verus!
