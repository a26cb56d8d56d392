//! calc-lang's grammar, and the parser that reads it.
//!
//! ```text
//! Program := Stmt* Expr EOF           (a bare Expr when there is no Stmt, else a Block)
//! Stmt    := "let" Ident "=" Expr ";" | "print" "(" Expr ")" ";"
//! Expr    := Expr ("+" | "-") Factor | Factor
//! Factor  := Factor ("*" | "/") Term | Term
//! Term    := Num | Ident | "(" Expr ")" | Block | "if" Expr Block "else" Block
//! Block   := "{" Stmt* Expr "}"
//! ```
//!
//! The spec functions below read this grammar off a token list, left to right with
//! one token of lookahead; each returns the tree it read and how many tokens it
//! consumed, or the index of the first token that no derivation can continue with.

use vstd::prelude::*;
use vstd::utf8::encode_utf8;

use crate::ast::{expr_view, lemma_block_view, stmt_view, stmts_view, BinOp, Expr, ExprV, Stmt, StmtV};
use crate::frontend::{ControlFlowRole, ParseDiagnostic, ParserFrontend, RoleModel};
use crate::lexer::{lemma_lex_wf, spec_tokens, tokenize, tokens_wf, Token, TokenKind};
use crate::text::{all_ascii, ascii_chars, ascii_string};

verus! {

/// The kind of the token list's last token: `Invalid` if lexing stopped at a bad
/// byte, otherwise `Eof`.
pub open spec fn terminator(ts: Seq<Token>) -> TokenKind {
    if ts.len() > 0 && ts.last().kind == TokenKind::Invalid {
        TokenKind::Invalid
    } else {
        TokenKind::Eof
    }
}

/// The kind of token `i`; at and past the last token, the terminator.
pub open spec fn kind_at(ts: Seq<Token>, i: int) -> TokenKind {
    if 0 <= i < ts.len() - 1 {
        ts[i].kind
    } else {
        terminator(ts)
    }
}

/// How many tokens are left from `i` on: what the parse functions decrease.
pub open spec fn remaining(ts: Seq<Token>, i: int) -> int {
    if i < ts.len() {
        ts.len() - i
    } else {
        0
    }
}

/// The source text of token `i`.
pub open spec fn text_at(ts: Seq<Token>, b: Seq<u8>, i: int) -> Seq<char> {
    ascii_chars(b.subrange(ts[i].start as int, ts[i].end as int))
}

/// The operator a `+`, `-`, `*` or `/` token stands for.
pub open spec fn op_of(k: TokenKind) -> BinOp {
    if k == TokenKind::Plus {
        BinOp::Add
    } else if k == TokenKind::Minus {
        BinOp::Sub
    } else if k == TokenKind::Star {
        BinOp::Mul
    } else {
        BinOp::Div
    }
}

/// `Term` at token `i`.
pub open spec fn p_term(ts: Seq<Token>, b: Seq<u8>, i: int) -> Result<(ExprV, nat), int>
    decreases remaining(ts, i), 1int,
{
    let k = kind_at(ts, i);
    if k == TokenKind::Num {
        Ok((ExprV::Number(text_at(ts, b, i)), 1))
    } else if k == TokenKind::Ident {
        Ok((ExprV::Var(text_at(ts, b, i)), 1))
    } else if k == TokenKind::LParen {
        match p_expr(ts, b, i + 1) {
            Ok((e, n)) => if kind_at(ts, i + 1 + n) == TokenKind::RParen {
                Ok((e, n + 2))
            } else {
                Err(i + 1 + n)
            },
            Err(x) => Err(x),
        }
    } else if k == TokenKind::LBrace {
        p_block(ts, b, i)
    } else if k == TokenKind::If {
        match p_expr(ts, b, i + 1) {
            Ok((c, n)) => match p_block(ts, b, i + 1 + n) {
                Ok((t, m)) => if kind_at(ts, i + 1 + n + m) == TokenKind::Else {
                    match p_block(ts, b, i + 2 + n + m) {
                        Ok((e, q)) => Ok((
                            ExprV::If {
                                cond: Box::new(c),
                                then_branch: Box::new(t),
                                else_branch: Box::new(e),
                            },
                            n + m + q + 2,
                        )),
                        Err(x) => Err(x),
                    }
                } else {
                    Err(i + 1 + n + m)
                },
                Err(x) => Err(x),
            },
            Err(x) => Err(x),
        }
    } else {
        Err(i)
    }
}

/// `Block` at token `i`.
pub open spec fn p_block(ts: Seq<Token>, b: Seq<u8>, i: int) -> Result<(ExprV, nat), int>
    decreases remaining(ts, i), 0int,
{
    if kind_at(ts, i) == TokenKind::LBrace {
        match p_items(ts, b, i + 1, Seq::empty()) {
            Ok((stmts, e, n)) => if kind_at(ts, i + 1 + n) == TokenKind::RBrace {
                Ok((ExprV::Block { stmts, result: Box::new(e) }, n + 2))
            } else {
                Err(i + 1 + n)
            },
            Err(x) => Err(x),
        }
    } else {
        Err(i)
    }
}

/// The rest of a `Factor` whose first operand `lhs` ended before token `i`.
pub open spec fn p_factor_rest(ts: Seq<Token>, b: Seq<u8>, lhs: ExprV, i: int) -> Result<(ExprV, nat), int>
    decreases remaining(ts, i), 2int,
{
    let k = kind_at(ts, i);
    if k == TokenKind::Star || k == TokenKind::Slash {
        match p_term(ts, b, i + 1) {
            Ok((r, n)) => match p_factor_rest(
                ts,
                b,
                ExprV::BinOp(Box::new(lhs), op_of(k), Box::new(r)),
                i + 1 + n,
            ) {
                Ok((e, m)) => Ok((e, n + m + 1)),
                Err(x) => Err(x),
            },
            Err(x) => Err(x),
        }
    } else {
        Ok((lhs, 0))
    }
}

/// `Factor` at token `i`.
pub open spec fn p_factor(ts: Seq<Token>, b: Seq<u8>, i: int) -> Result<(ExprV, nat), int>
    decreases remaining(ts, i), 3int,
{
    match p_term(ts, b, i) {
        Ok((l, n)) => match p_factor_rest(ts, b, l, i + n) {
            Ok((e, m)) => Ok((e, n + m)),
            Err(x) => Err(x),
        },
        Err(x) => Err(x),
    }
}

/// The rest of an `Expr` whose first operand `lhs` ended before token `i`.
pub open spec fn p_expr_rest(ts: Seq<Token>, b: Seq<u8>, lhs: ExprV, i: int) -> Result<(ExprV, nat), int>
    decreases remaining(ts, i), 4int,
{
    let k = kind_at(ts, i);
    if k == TokenKind::Plus || k == TokenKind::Minus {
        match p_factor(ts, b, i + 1) {
            Ok((r, n)) => match p_expr_rest(
                ts,
                b,
                ExprV::BinOp(Box::new(lhs), op_of(k), Box::new(r)),
                i + 1 + n,
            ) {
                Ok((e, m)) => Ok((e, n + m + 1)),
                Err(x) => Err(x),
            },
            Err(x) => Err(x),
        }
    } else {
        Ok((lhs, 0))
    }
}

/// `Expr` at token `i`.
pub open spec fn p_expr(ts: Seq<Token>, b: Seq<u8>, i: int) -> Result<(ExprV, nat), int>
    decreases remaining(ts, i), 5int,
{
    match p_factor(ts, b, i) {
        Ok((l, n)) => match p_expr_rest(ts, b, l, i + n) {
            Ok((e, m)) => Ok((e, n + m)),
            Err(x) => Err(x),
        },
        Err(x) => Err(x),
    }
}

/// `*` and `/` read left to right: three terms joined by two of them, followed by
/// anything else, make a `Factor` that applies the first operator first, and spans
/// all five parts.
pub proof fn lemma_factor_reads_left_to_right(
    ts: Seq<Token>,
    b: Seq<u8>,
    i: int,
    t1: ExprV,
    n1: nat,
    t2: ExprV,
    n2: nat,
    t3: ExprV,
    n3: nat,
)
    requires
        p_term(ts, b, i) == Ok::<(ExprV, nat), int>((t1, n1)),
        kind_at(ts, i + n1) == TokenKind::Star || kind_at(ts, i + n1) == TokenKind::Slash,
        p_term(ts, b, i + n1 + 1) == Ok::<(ExprV, nat), int>((t2, n2)),
        kind_at(ts, i + n1 + 1 + n2) == TokenKind::Star || kind_at(ts, i + n1 + 1 + n2)
            == TokenKind::Slash,
        p_term(ts, b, i + n1 + n2 + 2) == Ok::<(ExprV, nat), int>((t3, n3)),
        kind_at(ts, i + n1 + n2 + 2 + n3) != TokenKind::Star && kind_at(ts, i + n1 + n2 + 2 + n3)
            != TokenKind::Slash,
    ensures
        p_factor(ts, b, i) == Ok::<(ExprV, nat), int>(
            (
                ExprV::BinOp(
                    Box::new(
                        ExprV::BinOp(
                            Box::new(t1),
                            if kind_at(ts, i + n1) == TokenKind::Star {
                                BinOp::Mul
                            } else {
                                BinOp::Div
                            },
                            Box::new(t2),
                        ),
                    ),
                    if kind_at(ts, i + n1 + 1 + n2) == TokenKind::Star {
                        BinOp::Mul
                    } else {
                        BinOp::Div
                    },
                    Box::new(t3),
                ),
                n1 + n2 + n3 + 2,
            ),
        ),
{
    let k1 = kind_at(ts, i + n1);
    let k2 = kind_at(ts, i + n1 + 1 + n2);
    let e1 = ExprV::BinOp(Box::new(t1), op_of(k1), Box::new(t2));
    let e2 = ExprV::BinOp(Box::new(e1), op_of(k2), Box::new(t3));
    let j = i + n1 + n2 + 2 + n3;
    assert(p_factor_rest(ts, b, e2, j) == Ok::<(ExprV, nat), int>((e2, 0)));
    assert(p_factor_rest(ts, b, e1, i + n1 + 1 + n2) == Ok::<(ExprV, nat), int>((e2, n3 + 1)));
    assert(p_factor_rest(ts, b, t1, i + n1) == Ok::<(ExprV, nat), int>((e2, n2 + n3 + 2)));
}

/// `+` and `-` read left to right: three factors joined by two of them, followed by
/// anything else, make an `Expr` that applies the first operator first, and spans
/// all five parts.
pub proof fn lemma_expr_reads_left_to_right(
    ts: Seq<Token>,
    b: Seq<u8>,
    i: int,
    f1: ExprV,
    n1: nat,
    f2: ExprV,
    n2: nat,
    f3: ExprV,
    n3: nat,
)
    requires
        p_factor(ts, b, i) == Ok::<(ExprV, nat), int>((f1, n1)),
        kind_at(ts, i + n1) == TokenKind::Plus || kind_at(ts, i + n1) == TokenKind::Minus,
        p_factor(ts, b, i + n1 + 1) == Ok::<(ExprV, nat), int>((f2, n2)),
        kind_at(ts, i + n1 + 1 + n2) == TokenKind::Plus || kind_at(ts, i + n1 + 1 + n2)
            == TokenKind::Minus,
        p_factor(ts, b, i + n1 + n2 + 2) == Ok::<(ExprV, nat), int>((f3, n3)),
        kind_at(ts, i + n1 + n2 + 2 + n3) != TokenKind::Plus && kind_at(ts, i + n1 + n2 + 2 + n3)
            != TokenKind::Minus,
    ensures
        p_expr(ts, b, i) == Ok::<(ExprV, nat), int>(
            (
                ExprV::BinOp(
                    Box::new(
                        ExprV::BinOp(
                            Box::new(f1),
                            if kind_at(ts, i + n1) == TokenKind::Plus {
                                BinOp::Add
                            } else {
                                BinOp::Sub
                            },
                            Box::new(f2),
                        ),
                    ),
                    if kind_at(ts, i + n1 + 1 + n2) == TokenKind::Plus {
                        BinOp::Add
                    } else {
                        BinOp::Sub
                    },
                    Box::new(f3),
                ),
                n1 + n2 + n3 + 2,
            ),
        ),
{
    let k1 = kind_at(ts, i + n1);
    let k2 = kind_at(ts, i + n1 + 1 + n2);
    let e1 = ExprV::BinOp(Box::new(f1), op_of(k1), Box::new(f2));
    let e2 = ExprV::BinOp(Box::new(e1), op_of(k2), Box::new(f3));
    let j = i + n1 + n2 + 2 + n3;
    assert(p_expr_rest(ts, b, e2, j) == Ok::<(ExprV, nat), int>((e2, 0)));
    assert(p_expr_rest(ts, b, e1, i + n1 + 1 + n2) == Ok::<(ExprV, nat), int>((e2, n3 + 1)));
    assert(p_expr_rest(ts, b, f1, i + n1) == Ok::<(ExprV, nat), int>((e2, n2 + n3 + 2)));
}

/// `Stmt* Expr` at token `i`, after the statements `acc` already read.
pub open spec fn p_items(ts: Seq<Token>, b: Seq<u8>, i: int, acc: Seq<StmtV>) -> Result<
    (Seq<StmtV>, ExprV, nat),
    int,
>
    decreases remaining(ts, i), 6int,
{
    let k = kind_at(ts, i);
    if k == TokenKind::Let {
        if kind_at(ts, i + 1) != TokenKind::Ident {
            Err(i + 1)
        } else if kind_at(ts, i + 2) != TokenKind::Assign {
            Err(i + 2)
        } else {
            match p_expr(ts, b, i + 3) {
                Ok((v, n)) => if kind_at(ts, i + 3 + n) == TokenKind::Semi {
                    match p_items(
                        ts,
                        b,
                        i + 4 + n,
                        acc.push(StmtV::Let { name: text_at(ts, b, i + 1), value: v }),
                    ) {
                        Ok((s, e, m)) => Ok((s, e, n + m + 4)),
                        Err(x) => Err(x),
                    }
                } else {
                    Err(i + 3 + n)
                },
                Err(x) => Err(x),
            }
        }
    } else if k == TokenKind::Print {
        if kind_at(ts, i + 1) != TokenKind::LParen {
            Err(i + 1)
        } else {
            match p_expr(ts, b, i + 2) {
                Ok((v, n)) => if kind_at(ts, i + 2 + n) != TokenKind::RParen {
                    Err(i + 2 + n)
                } else if kind_at(ts, i + 3 + n) != TokenKind::Semi {
                    Err(i + 3 + n)
                } else {
                    match p_items(ts, b, i + 4 + n, acc.push(StmtV::Print(v))) {
                        Ok((s, e, m)) => Ok((s, e, n + m + 4)),
                        Err(x) => Err(x),
                    }
                },
                Err(x) => Err(x),
            }
        }
    } else {
        match p_expr(ts, b, i) {
            Ok((e, n)) => Ok((acc, e, n)),
            Err(x) => Err(x),
        }
    }
}

/// A whole program: its statements and result, then the end of the input. With no
/// statements the program is its result expression itself; otherwise it is a block.
pub open spec fn p_program(ts: Seq<Token>, b: Seq<u8>) -> Result<ExprV, int> {
    match p_items(ts, b, 0, Seq::empty()) {
        Ok((stmts, e, n)) => if kind_at(ts, n as int) == TokenKind::Eof {
            if stmts.len() == 0 {
                Ok(e)
            } else {
                Ok(ExprV::Block { stmts, result: Box::new(e) })
            }
        } else {
            Err(n as int)
        },
        Err(x) => Err(x),
    }
}

/// What parsing `src` gives: the program's tree, or the index of the token the
/// parse stopped at.
pub open spec fn spec_parse(src: Seq<char>) -> Result<ExprV, int> {
    p_program(spec_tokens(src), encode_utf8(src))
}


/// `r` is what the spec parse result `s` says: the same tree and count, or the same
/// error index.
pub open spec fn same_result(r: Result<(Expr, usize), usize>, s: Result<(ExprV, nat), int>) -> bool {
    match s {
        Ok((e, n)) => r matches Ok((x, m)) && x@ == e && m == n,
        Err(k) => r matches Err(x) && x == k,
    }
}

/// Ok results end before the last token; errors point at a token.
pub open spec fn in_bounds(r: Result<(Expr, usize), usize>, len: int, i: int) -> bool {
    match r {
        Ok((_, m)) => i + m < len,
        Err(k) => k < len,
    }
}

/// The parse's fixed inputs: a well-formed token list over `b`.
pub open spec fn parse_input_wf(ts: Seq<Token>, b: Seq<u8>) -> bool {
    &&& tokens_wf(b, ts)
    &&& ts.len() <= usize::MAX
}

fn kind_at_exec(ts: &[Token], i: usize) -> (k: TokenKind)
    requires
        ts@.len() > 0,
    ensures
        k == kind_at(ts@, i as int),
{
    if i < ts.len() - 1 {
        ts[i].kind
    } else if ts[ts.len() - 1].kind == TokenKind::Invalid {
        TokenKind::Invalid
    } else {
        TokenKind::Eof
    }
}

fn op_of_exec(k: TokenKind) -> (op: BinOp)
    ensures
        op == op_of(k),
{
    match k {
        TokenKind::Plus => BinOp::Add,
        TokenKind::Minus => BinOp::Sub,
        TokenKind::Star => BinOp::Mul,
        _ => BinOp::Div,
    }
}

/// The source text of a number or identifier token.
fn text_exec(ts: &[Token], b: &[u8], i: usize) -> (s: String)
    requires
        parse_input_wf(ts@, b@),
        0 <= i < ts@.len() - 1,
        ts@[i as int].kind == TokenKind::Num || ts@[i as int].kind == TokenKind::Ident,
    ensures
        s@ == text_at(ts@, b@, i as int),
{
    let t = ts[i];
    assert(crate::lexer::token_wf(b@, ts@[i as int]));
    ascii_string(b, t.start, t.end)
}

fn term(ts: &[Token], b: &[u8], i: usize) -> (r: Result<(Expr, usize), usize>)
    requires
        parse_input_wf(ts@, b@),
        i < ts@.len(),
    ensures
        same_result(r, p_term(ts@, b@, i as int)),
        in_bounds(r, ts@.len() as int, i as int),
    decreases remaining(ts@, i as int), 1int,
{
    let k = kind_at_exec(ts, i);
    if k == TokenKind::Num {
        Ok((Expr::Number(text_exec(ts, b, i)), 1))
    } else if k == TokenKind::Ident {
        Ok((Expr::Var(text_exec(ts, b, i)), 1))
    } else if k == TokenKind::LParen {
        match expr(ts, b, i + 1) {
            Ok((e, n)) => if kind_at_exec(ts, i + 1 + n) == TokenKind::RParen {
                Ok((e, n + 2))
            } else {
                Err(i + 1 + n)
            },
            Err(x) => Err(x),
        }
    } else if k == TokenKind::LBrace {
        block(ts, b, i)
    } else if k == TokenKind::If {
        match expr(ts, b, i + 1) {
            Ok((c, n)) => match block(ts, b, i + 1 + n) {
                Ok((t, m)) => if kind_at_exec(ts, i + 1 + n + m) == TokenKind::Else {
                    match block(ts, b, i + 2 + n + m) {
                        Ok((e, q)) => Ok((
                            Expr::If {
                                cond: Box::new(c),
                                then_branch: Box::new(t),
                                else_branch: Box::new(e),
                            },
                            n + m + q + 2,
                        )),
                        Err(x) => Err(x),
                    }
                } else {
                    Err(i + 1 + n + m)
                },
                Err(x) => Err(x),
            },
            Err(x) => Err(x),
        }
    } else {
        Err(i)
    }
}

#[verifier::rlimit(40)]
fn block(ts: &[Token], b: &[u8], i: usize) -> (r: Result<(Expr, usize), usize>)
    requires
        parse_input_wf(ts@, b@),
        i < ts@.len(),
    ensures
        same_result(r, p_block(ts@, b@, i as int)),
        in_bounds(r, ts@.len() as int, i as int),
    decreases remaining(ts@, i as int), 0int,
{
    if kind_at_exec(ts, i) == TokenKind::LBrace {
        let acc: Vec<Stmt> = Vec::new();
        assert(stmts_view(acc@) =~= Seq::<StmtV>::empty());
        match items(ts, b, i + 1, acc) {
            Ok((stmts, e, n)) => if kind_at_exec(ts, i + 1 + n) == TokenKind::RBrace {
                proof {
                    lemma_block_view(stmts, Box::new(e));
                }
                Ok((Expr::Block { stmts, result: Box::new(e) }, n + 2))
            } else {
                Err(i + 1 + n)
            },
            Err(x) => Err(x),
        }
    } else {
        Err(i)
    }
}

fn factor_rest(ts: &[Token], b: &[u8], lhs: Expr, i: usize) -> (r: Result<(Expr, usize), usize>)
    requires
        parse_input_wf(ts@, b@),
        i < ts@.len(),
    ensures
        same_result(r, p_factor_rest(ts@, b@, lhs@, i as int)),
        in_bounds(r, ts@.len() as int, i as int),
    decreases remaining(ts@, i as int), 2int,
{
    let k = kind_at_exec(ts, i);
    if k == TokenKind::Star || k == TokenKind::Slash {
        match term(ts, b, i + 1) {
            Ok((rhs, n)) => {
                let combined = Expr::BinOp(Box::new(lhs), op_of_exec(k), Box::new(rhs));
                match factor_rest(ts, b, combined, i + 1 + n) {
                    Ok((e, m)) => Ok((e, n + m + 1)),
                    Err(x) => Err(x),
                }
            },
            Err(x) => Err(x),
        }
    } else {
        Ok((lhs, 0))
    }
}

fn factor(ts: &[Token], b: &[u8], i: usize) -> (r: Result<(Expr, usize), usize>)
    requires
        parse_input_wf(ts@, b@),
        i < ts@.len(),
    ensures
        same_result(r, p_factor(ts@, b@, i as int)),
        in_bounds(r, ts@.len() as int, i as int),
    decreases remaining(ts@, i as int), 3int,
{
    match term(ts, b, i) {
        Ok((l, n)) => match factor_rest(ts, b, l, i + n) {
            Ok((e, m)) => Ok((e, n + m)),
            Err(x) => Err(x),
        },
        Err(x) => Err(x),
    }
}

fn expr_rest(ts: &[Token], b: &[u8], lhs: Expr, i: usize) -> (r: Result<(Expr, usize), usize>)
    requires
        parse_input_wf(ts@, b@),
        i < ts@.len(),
    ensures
        same_result(r, p_expr_rest(ts@, b@, lhs@, i as int)),
        in_bounds(r, ts@.len() as int, i as int),
    decreases remaining(ts@, i as int), 4int,
{
    let k = kind_at_exec(ts, i);
    if k == TokenKind::Plus || k == TokenKind::Minus {
        match factor(ts, b, i + 1) {
            Ok((rhs, n)) => {
                let combined = Expr::BinOp(Box::new(lhs), op_of_exec(k), Box::new(rhs));
                match expr_rest(ts, b, combined, i + 1 + n) {
                    Ok((e, m)) => Ok((e, n + m + 1)),
                    Err(x) => Err(x),
                }
            },
            Err(x) => Err(x),
        }
    } else {
        Ok((lhs, 0))
    }
}

fn expr(ts: &[Token], b: &[u8], i: usize) -> (r: Result<(Expr, usize), usize>)
    requires
        parse_input_wf(ts@, b@),
        i < ts@.len(),
    ensures
        same_result(r, p_expr(ts@, b@, i as int)),
        in_bounds(r, ts@.len() as int, i as int),
    decreases remaining(ts@, i as int), 5int,
{
    match factor(ts, b, i) {
        Ok((l, n)) => match expr_rest(ts, b, l, i + n) {
            Ok((e, m)) => Ok((e, n + m)),
            Err(x) => Err(x),
        },
        Err(x) => Err(x),
    }
}

/// `Stmt* Expr` from token `i` on, after the statements `acc` already read.
fn items(ts: &[Token], b: &[u8], i: usize, acc: Vec<Stmt>) -> (r: Result<(Vec<Stmt>, Expr, usize), usize>)
    requires
        parse_input_wf(ts@, b@),
        i < ts@.len(),
    ensures
        match p_items(ts@, b@, i as int, stmts_view(acc@)) {
            Ok((s, e, n)) => r matches Ok((xs, x, m)) && stmts_view(xs@) == s && x@ == e && m == n
                && i + m < ts@.len(),
            Err(k) => r matches Err(y) && y == k && 0 <= k < ts@.len(),
        },
    decreases remaining(ts@, i as int), 6int,
{
    let k = kind_at_exec(ts, i);
    if k == TokenKind::Let {
        if kind_at_exec(ts, i + 1) != TokenKind::Ident {
            Err(i + 1)
        } else if kind_at_exec(ts, i + 2) != TokenKind::Assign {
            Err(i + 2)
        } else {
            match expr(ts, b, i + 3) {
                Ok((v, n)) => if kind_at_exec(ts, i + 3 + n) == TokenKind::Semi {
                    let name = text_exec(ts, b, i + 1);
                    let mut acc = acc;
                    let ghost before = acc@;
                    let st = Stmt::Let { name, value: v };
                    let ghost sv = stmt_view(st);
                    acc.push(st);
                    assert(stmts_view(acc@) =~= stmts_view(before).push(sv));
                    match items(ts, b, i + 4 + n, acc) {
                        Ok((s, e, m)) => Ok((s, e, n + m + 4)),
                        Err(x) => Err(x),
                    }
                } else {
                    Err(i + 3 + n)
                },
                Err(x) => Err(x),
            }
        }
    } else if k == TokenKind::Print {
        if kind_at_exec(ts, i + 1) != TokenKind::LParen {
            Err(i + 1)
        } else {
            match expr(ts, b, i + 2) {
                Ok((v, n)) => if kind_at_exec(ts, i + 2 + n) != TokenKind::RParen {
                    Err(i + 2 + n)
                } else if kind_at_exec(ts, i + 3 + n) != TokenKind::Semi {
                    Err(i + 3 + n)
                } else {
                    let mut acc = acc;
                    let ghost before = acc@;
                    let st = Stmt::Print(v);
                    let ghost sv = stmt_view(st);
                    acc.push(st);
                    assert(stmts_view(acc@) =~= stmts_view(before).push(sv));
                    match items(ts, b, i + 4 + n, acc) {
                        Ok((s, e, m)) => Ok((s, e, n + m + 4)),
                        Err(x) => Err(x),
                    }
                },
                Err(x) => Err(x),
            }
        }
    } else {
        match expr(ts, b, i) {
            Ok((e, n)) => Ok((acc, e, n)),
            Err(x) => Err(x),
        }
    }
}

/// The message of a diagnostic for a parse that stopped at a token of kind `k`:
/// this parser's own short description of what it found there.
pub open spec fn diagnostic_message(k: TokenKind) -> Seq<char> {
    if k == TokenKind::Invalid {
        "invalid token"@
    } else if k == TokenKind::Eof {
        "unexpected end of input"@
    } else {
        "unexpected token"@
    }
}

/// Where a diagnostic for a parse that stopped at token `t` points: the byte offset
/// of the token's first byte; for an input that ended too early, the end of the
/// input, where the end-of-input token starts.
pub open spec fn diagnostic_offset(t: Token) -> int {
    t.start as int
}

/// `r` is the frontend's answer for `src`: the spec parse's tree, or one diagnostic
/// for the token where the spec parse stopped.
pub open spec fn frontend_answer(r: Result<Expr, Vec<ParseDiagnostic>>, src: Seq<char>) -> bool {
    match spec_parse(src) {
        Ok(e) => r matches Ok(x) && x@ == e,
        Err(k) => r matches Err(ds) && ds@.len() == 1 && 0 <= k < spec_tokens(src).len()
            && ds@[0].message@ == diagnostic_message(spec_tokens(src)[k].kind)
            && ds@[0].offset == diagnostic_offset(spec_tokens(src)[k]),
    }
}

/// The role model of calc-lang's grammar.
pub open spec fn calc_role_model(r: RoleModel) -> bool {
    &&& r.identifiers@.len() == 1 && r.identifiers@[0]@ == "Ident"@
    &&& r.keywords@.len() == 2
    &&& r.keywords@[0]@ == "if"@ && r.keywords@[1]@ == "else"@
    &&& r.control_flow@.len() == 1
    &&& r.control_flow@[0].kind@ == "if"@ && r.control_flow@[0].rule@ == "Term"@
    &&& r.scopes@.len() == 1 && r.scopes@[0]@ == "Block"@
    &&& r.bindings@.len() == 1 && r.bindings@[0]@ == "Stmt"@
}

fn diagnostic(t: Token) -> (d: ParseDiagnostic)
    ensures
        d.message@ == diagnostic_message(t.kind),
        d.offset == diagnostic_offset(t),
{
    if t.kind == TokenKind::Invalid {
        ParseDiagnostic { message: "invalid token".to_owned(), offset: t.start }
    } else if t.kind == TokenKind::Eof {
        ParseDiagnostic { message: "unexpected end of input".to_owned(), offset: t.start }
    } else {
        ParseDiagnostic { message: "unexpected token".to_owned(), offset: t.start }
    }
}

/// calc-lang's frontend: the grammar in the module documentation, read by the
/// parse functions above.
pub struct LalrpopFrontend;

impl ParserFrontend for LalrpopFrontend {
    type Ast = Expr;

    fn parse(&self, src: &str) -> (r: Result<Expr, Vec<ParseDiagnostic>>)
        ensures
            frontend_answer(r, src@),
    {
        let toks = tokenize(src);
        let b = src.as_bytes();
        assert(b@.len() == b.len());
        assert(b@ == encode_utf8(src@));
        proof {
            lemma_lex_wf(b@, 0);
        }
        let ts = toks.as_slice();
        assert(ts@ == spec_tokens(src@));
        assert(ts@.len() == ts.len());
        let acc: Vec<Stmt> = Vec::new();
        assert(stmts_view(acc@) =~= Seq::<StmtV>::empty());
        match items(ts, b, 0, acc) {
            Ok((stmts, e, n)) => {
                if kind_at_exec(ts, n) == TokenKind::Eof {
                    if stmts.len() == 0 {
                        Ok(e)
                    } else {
                        proof {
                            lemma_block_view(stmts, Box::new(e));
                        }
                        Ok(Expr::Block { stmts, result: Box::new(e) })
                    }
                } else {
                    let mut ds = Vec::new();
                    ds.push(diagnostic(ts[n]));
                    Err(ds)
                }
            },
            Err(k) => {
                let mut ds = Vec::new();
                ds.push(diagnostic(ts[k]));
                Err(ds)
            },
        }
    }

    fn role_model(&self) -> (r: RoleModel)
        ensures
            calc_role_model(r),
    {
        let mut keywords = Vec::new();
        keywords.push("if".to_owned());
        keywords.push("else".to_owned());
        RoleModel {
            identifiers: vec!["Ident".to_owned()],
            keywords,
            control_flow: vec![ControlFlowRole { kind: "if".to_owned(), rule: "Term".to_owned() }],
            scopes: vec!["Block".to_owned()],
            bindings: vec!["Stmt".to_owned()],
        }
    }
}

} // verus!
