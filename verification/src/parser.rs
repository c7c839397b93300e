//! The recursive-descent, precedence-climbing parser.
//!
//! Two specifications pin the parser down. *Soundness*: a parse function
//! that succeeds returns a tree standing in the [`expr_fits`] /
//! [`stmt_fits`] relation to exactly the tokens it consumed — and the
//! relation mirrors the grammar's levels, so a tree with the wrong
//! associativity or precedence cannot fit. *Completeness*: every parse
//! function is proved to succeed precisely where its recognizer
//! ([`rec_till`] and friends) accepts, so success is owed on every
//! well-formed token stream and a parser that rejected one would not
//! verify. Every failure carries a syntax error with the line of the
//! offending token.

use vstd::prelude::*;

use crate::error::{ErrorType, RunError};
use crate::expr::{clone_chars, op_of_token, Expr, Op};
use crate::numeric::num_value_of;
use crate::source::toks_view;
use crate::stmt::{Program, Stmt};
use crate::token::{Token, TokenG, TokenType};

verus! {

// ---------------------------------------------------------------------------
// The soundness relation between trees and token ranges
// ---------------------------------------------------------------------------

/// The token kind an operator is written as.
pub open spec fn op_token_kind(o: Op) -> TokenType {
    match o {
        Op::Add => TokenType::Plus,
        Op::Sub => TokenType::Minus,
        Op::Mul => TokenType::Star,
        Op::Div => TokenType::Slash,
        Op::Mod => TokenType::Modulo,
        Op::And => TokenType::Ampersand,
        Op::Or => TokenType::Pipe,
        Op::Not => TokenType::Bang,
        Op::Ne => TokenType::BangEqual,
        Op::Eq => TokenType::EqualEqual,
        Op::Gt => TokenType::Greater,
        Op::Ge => TokenType::GreaterEqual,
        Op::Lt => TokenType::Less,
        Op::Le => TokenType::LessEqual,
    }
}

/// The binary and comparison operators of each precedence level, lowest
/// binding first: boolean connectives, equality, relational, additive,
/// multiplicative.
pub open spec fn level_ops(lvl: int, o: Op) -> bool {
    if lvl == 1 {
        o == Op::And || o == Op::Or
    } else if lvl == 2 {
        o == Op::Eq || o == Op::Ne
    } else if lvl == 3 {
        o == Op::Lt || o == Op::Le || o == Op::Gt || o == Op::Ge
    } else if lvl == 4 {
        o == Op::Add || o == Op::Sub
    } else {
        o == Op::Mul || o == Op::Div || o == Op::Mod
    }
}

/// Whether expression `e` is a faithful reading of exactly the tokens
/// `ts`, produced at precedence level `lvl` or tighter.
///
/// The relation mirrors the grammar: at a binary level the left operand
/// fits at the same level and the right operand at the next tighter one,
/// so only left-folded trees of correctly ranked operators fit — a
/// right-folded `1 - 2 - 3` or a sum on top of `1 + 2 * 3` is excluded.
/// Unary operators nest right-recursively above every binary level, and
/// the primaries sit at the top; an `int` conversion must hold exactly a
/// parenthesized group.
pub open spec fn expr_fits_at(lvl: int, e: Expr, ts: Seq<TokenG>) -> bool
    decreases e, 7 - lvl,
{
    if lvl <= 5 {
        (match e {
            Expr::Binary(l, op, r) => lvl >= 4 && level_ops(lvl, op) && exists|i: int|
                0 < i < ts.len() && #[trigger] ts[i].kind == op_token_kind(op) && op_of_token(
                    ts[i].kind,
                ) == Some(op) && expr_fits_at(lvl, *l, ts.subrange(0, i)) && expr_fits_at(
                    lvl + 1,
                    *r,
                    ts.subrange(i + 1, ts.len() as int),
                ),
            Expr::Logic(l, op, r) => lvl <= 3 && level_ops(lvl, op) && exists|i: int|
                0 < i < ts.len() && #[trigger] ts[i].kind == op_token_kind(op) && op_of_token(
                    ts[i].kind,
                ) == Some(op) && expr_fits_at(lvl, *l, ts.subrange(0, i)) && expr_fits_at(
                    lvl + 1,
                    *r,
                    ts.subrange(i + 1, ts.len() as int),
                ),
            _ => false,
        }) || expr_fits_at(lvl + 1, e, ts)
    } else if lvl == 6 {
        (match e {
            Expr::Unary(op, r) => ts.len() >= 1 && ts[0].kind == op_token_kind(op) && (op
                == Op::Sub || op == Op::Not) && expr_fits_at(
                6,
                *r,
                ts.subrange(1, ts.len() as int),
            ),
            _ => false,
        }) || expr_fits_at(7, e, ts)
    } else {
        match e {
            Expr::Number(b, lex) => ts.len() == 1 && ts[0].kind == TokenType::Number
                && ts[0].lexeme == lex@ && b == num_value_of(lex@),
            Expr::Bool(b) => ts.len() == 1 && ts[0].kind == (if b {
                TokenType::True
            } else {
                TokenType::False
            }),
            Expr::String(s) => ts.len() == 1 && ts[0].kind == TokenType::String && ts[0].lexeme
                == s@,
            Expr::Variable(t) => ts.len() == 1 && ts[0].kind == TokenType::Ident && ts[0].lexeme
                == t@.lexeme,
            Expr::Group(inner) => ts.len() >= 2 && ts[0].kind == TokenType::LParen
                && ts.last().kind == TokenType::RParen && expr_fits_at(
                1,
                *inner,
                ts.subrange(1, ts.len() - 1),
            ),
            Expr::Int(inner) => ts.len() >= 1 && ts[0].kind == TokenType::Int && (
            *inner matches Expr::Group(_)) && expr_fits_at(
                7,
                *inner,
                ts.subrange(1, ts.len() as int),
            ),
            Expr::Input(stmt) => ts.len() >= 3 && ts[0].kind == TokenType::Input && (match *stmt {
                Stmt::Print(es) => ts[1].kind == TokenType::LParen && ts.last().kind
                    == TokenType::RParen && args_fit(es@, ts.subrange(2, ts.len() - 1)),
                _ => false,
            }),
            Expr::Call { callee, args } => exists|i: int|
                0 < i < ts.len() - 1 && #[trigger] ts[i].kind == TokenType::LParen
                    && ts.last().kind == TokenType::RParen && expr_fits_at(
                    7,
                    *callee,
                    ts.subrange(0, i),
                ) && args_fit(args@, ts.subrange(i + 1, ts.len() - 1)),
            _ => false,
        }
    }
}

/// Whether expression `e` is a faithful reading of exactly the tokens
/// `ts`.
pub open spec fn expr_fits(e: Expr, ts: Seq<TokenG>) -> bool {
    expr_fits_at(1, e, ts)
}

/// Whether the expression list `es` is a faithful reading of the
/// comma-separated tokens `ts`; one trailing comma is tolerated.
pub open spec fn args_fit(es: Seq<Expr>, ts: Seq<TokenG>) -> bool
    decreases es, 1nat,
{
    if es.len() == 0 {
        ts.len() == 0
    } else if es.len() == 1 {
        expr_fits_at(1, es[0], ts) || (ts.len() >= 1 && ts.last().kind == TokenType::Comma
            && expr_fits_at(1, es[0], ts.drop_last()))
    } else {
        exists|i: int|
            0 < i < ts.len() && #[trigger] ts[i].kind == TokenType::Comma && expr_fits_at(
                1,
                es[0],
                ts.subrange(0, i),
            ) && args_fit(es.subrange(1, es.len() as int), ts.subrange(i + 1, ts.len() as int))
    }
}

/// Whether the parameter-name list is a faithful reading of the
/// comma-separated identifier tokens `ts`; one trailing comma is
/// tolerated.
pub open spec fn params_fit(ps: Seq<Token>, ts: Seq<TokenG>) -> bool
    decreases ps, 1nat,
{
    if ps.len() == 0 {
        ts.len() == 0
    } else if ps.len() == 1 {
        (ts.len() == 1 || (ts.len() == 2 && ts[1].kind == TokenType::Comma)) && ts[0].kind
            == TokenType::Ident && ts[0].lexeme == ps[0]@.lexeme
    } else {
        ts.len() >= 2 && ts[0].kind == TokenType::Ident && ts[0].lexeme == ps[0]@.lexeme
            && ts[1].kind == TokenType::Comma && params_fit(
            ps.subrange(1, ps.len() as int),
            ts.subrange(2, ts.len() as int),
        )
    }
}

/// Whether statement `s` is a faithful reading of exactly the tokens
/// `ts`. A function declaration is checked down to its header and the
/// braces around its body; the body itself lives in the program's body
/// arena.
pub open spec fn stmt_fits(s: Stmt, ts: Seq<TokenG>) -> bool
    decreases s, 2nat,
{
    match s {
        Stmt::Expr(e) => expr_fits(e, ts),
        Stmt::Let(t, e) => ts.len() >= 4 && ts[0].kind == TokenType::Let && ts[1].kind
            == TokenType::Ident && ts[1].lexeme == t@.lexeme && ts[2].kind == TokenType::Equal
            && expr_fits(e, ts.subrange(3, ts.len() as int)),
        Stmt::Assign(t, e) => ts.len() >= 3 && ts[0].kind == TokenType::Ident && ts[0].lexeme
            == t@.lexeme && ts[1].kind == TokenType::Equal && expr_fits(
            e,
            ts.subrange(2, ts.len() as int),
        ),
        Stmt::Group(sts) => ts.len() >= 2 && ts[0].kind == TokenType::LBrace && ts.last().kind
            == TokenType::RBrace && stmts_fit(sts@, ts.subrange(1, ts.len() - 1)),
        Stmt::Print(es) => ts.len() >= 3 && ts[0].kind == TokenType::Print && ts[1].kind
            == TokenType::LParen && ts.last().kind == TokenType::RParen && args_fit(
            es@,
            ts.subrange(2, ts.len() - 1),
        ),
        Stmt::If(c, t, els) => ts.len() >= 2 && ts[0].kind == TokenType::If && (match els {
            None => exists|i: int|
                1 < i < ts.len() && #[trigger] trig_idx(i) && expr_fits(c, ts.subrange(1, i))
                    && stmt_fits(*t, ts.subrange(i, ts.len() as int)),
            Some(e2) => exists|i: int, j: int|
                1 < i < j < ts.len() && #[trigger] trig_idx2(i, j) && expr_fits(
                    c,
                    ts.subrange(1, i),
                ) && stmt_fits(*t, ts.subrange(i, j)) && ts[j].kind == TokenType::Else
                    && stmt_fits(*e2, ts.subrange(j + 1, ts.len() as int)),
        }),
        Stmt::While(c, b) => ts.len() >= 2 && ts[0].kind == TokenType::While && exists|i: int|
            1 < i < ts.len() && #[trigger] trig_idx(i) && expr_fits(c, ts.subrange(1, i))
                && stmt_fits(*b, ts.subrange(i, ts.len() as int)),
        Stmt::Break => ts.len() == 1 && ts[0].kind == TokenType::Break,
        Stmt::Continue => ts.len() == 1 && ts[0].kind == TokenType::Continue,
        Stmt::Return(opt) => ts.len() >= 1 && ts[0].kind == TokenType::Return && (match opt {
            None => ts.len() == 1,
            Some(e) => expr_fits(e, ts.subrange(1, ts.len() as int)),
        }),
        Stmt::Function(t, ps, _body) => ts.len() >= 6 && ts[0].kind == TokenType::Fn && ts[1].kind
            == TokenType::Ident && ts[1].lexeme == t@.lexeme && ts[2].kind == TokenType::LParen
            && ts.last().kind == TokenType::RBrace && exists|i: int|
            2 < i < ts.len() - 1 && #[trigger] trig_idx(i) && ts[i].kind == TokenType::RParen
                && params_fit(ps@, ts.subrange(3, i)) && ts[i + 1].kind == TokenType::LBrace,
    }
}

/// Trigger marker for index witnesses.
pub open spec fn trig_idx(i: int) -> bool {
    true
}

/// Trigger marker for index-pair witnesses.
pub open spec fn trig_idx2(i: int, j: int) -> bool {
    true
}

/// Whether the statement list `sts` is a faithful reading of `ts`, with
/// end-of-line tokens freely interspersed between statements.
pub open spec fn stmts_fit(sts: Seq<Stmt>, ts: Seq<TokenG>) -> bool
    decreases sts, 3nat,
{
    if sts.len() == 0 {
        forall|k: int| 0 <= k < ts.len() ==> ts[k].kind == TokenType::EOL
    } else {
        exists|a: int, b: int|
            0 <= a <= b <= ts.len() && #[trigger] trig_idx2(a, b) && (forall|k: int|
                0 <= k < a ==> ts[k].kind == TokenType::EOL) && stmt_fits(
                sts[0],
                ts.subrange(a, b),
            ) && stmts_fit(sts.subrange(1, sts.len() as int), ts.subrange(b, ts.len() as int))
    }
}

// ---------------------------------------------------------------------------
// The recognizer: which token sequences parse, and to where
// ---------------------------------------------------------------------------
//
// These functions accept or reject token sequences exactly as the parser
// does, returning the cursor after the recognized form. Every parse
// function is proved to succeed precisely on the inputs its recognizer
// accepts, so the grammar of the language is fixed by specification:
// a parser that rejected a well-formed program would not verify.
//
// Positions returned by sub-recognizers are guarded to advance before
// recursion continues; the parser proves its own progress, so the guards
// never bite on a real run.

/// The operator token kinds of each binary precedence level.
pub open spec fn level_kinds(lvl: int, k: TokenType) -> bool {
    if lvl == 1 {
        k == TokenType::Ampersand || k == TokenType::Pipe
    } else if lvl == 2 {
        k == TokenType::EqualEqual || k == TokenType::BangEqual
    } else if lvl == 3 {
        k == TokenType::Less || k == TokenType::LessEqual || k == TokenType::Greater || k
            == TokenType::GreaterEqual
    } else if lvl == 4 {
        k == TokenType::Plus || k == TokenType::Minus
    } else {
        k == TokenType::Star || k == TokenType::Slash || k == TokenType::Modulo
    }
}

/// The termination rank of a precedence level.
pub open spec fn lvl_rank(lvl: int) -> int {
    if lvl < 6 {
        12 - lvl
    } else {
        6
    }
}

/// Recognizes an expression at precedence level `lvl`.
pub open spec fn rec_level(lvl: int, ts: Seq<TokenG>, i: int) -> Option<int>
    decreases ts.len() - i, lvl_rank(lvl), 1int,
{
    if i < 0 || i > ts.len() {
        None
    } else if lvl > 5 {
        rec_unary(ts, i)
    } else {
        match rec_level(lvl + 1, ts, i) {
            Some(j) => if i <= j <= ts.len() {
                rec_fold(lvl, ts, j)
            } else {
                None
            },
            None => None,
        }
    }
}

/// Recognizes the left-folding operator suffix of level `lvl`, the left
/// operand having ended at `j`.
pub open spec fn rec_fold(lvl: int, ts: Seq<TokenG>, j: int) -> Option<int>
    decreases ts.len() - j, lvl_rank(lvl), 0int,
{
    if j < 0 || j > ts.len() {
        None
    } else if j < ts.len() && level_kinds(lvl, ts[j].kind) {
        match rec_level(lvl + 1, ts, j + 1) {
            Some(k) => if j < k <= ts.len() {
                rec_fold(lvl, ts, k)
            } else {
                None
            },
            None => None,
        }
    } else {
        Some(j)
    }
}

/// Recognizes a unary expression: `-` and `!` nest right-recursively.
pub open spec fn rec_unary(ts: Seq<TokenG>, i: int) -> Option<int>
    decreases ts.len() - i, 5int, 0int,
{
    if i < 0 || i > ts.len() {
        None
    } else if i < ts.len() && (ts[i].kind == TokenType::Minus || ts[i].kind == TokenType::Bang) {
        rec_unary(ts, i + 1)
    } else {
        rec_group(ts, i)
    }
}

/// Recognizes a parenthesized group, or falls through to a primary.
pub open spec fn rec_group(ts: Seq<TokenG>, i: int) -> Option<int>
    decreases ts.len() - i, 4int, 0int,
{
    if i < 0 || i > ts.len() {
        None
    } else if i < ts.len() && ts[i].kind == TokenType::LParen {
        match rec_level(1, ts, i + 1) {
            Some(j) => if j < ts.len() && ts[j].kind == TokenType::RParen {
                Some(j + 1)
            } else {
                None
            },
            None => None,
        }
    } else {
        rec_primary(ts, i)
    }
}

/// Recognizes a primary expression with its call-argument suffixes.
pub open spec fn rec_primary(ts: Seq<TokenG>, i: int) -> Option<int>
    decreases ts.len() - i, 3int, 0int,
{
    if i < 0 || i >= ts.len() {
        None
    } else {
        match ts[i].kind {
            TokenType::Number | TokenType::String | TokenType::True | TokenType::False
                | TokenType::Ident => rec_suffix(ts, i + 1),
            TokenType::Input => match rec_paren_vec(ts, i + 1) {
                Some(j) => if i < j <= ts.len() {
                    rec_suffix(ts, j)
                } else {
                    None
                },
                None => None,
            },
            TokenType::Int => if i + 1 < ts.len() && ts[i + 1].kind == TokenType::LParen {
                match rec_group(ts, i + 1) {
                    Some(j) => if i < j <= ts.len() {
                        rec_suffix(ts, j)
                    } else {
                        None
                    },
                    None => None,
                }
            } else {
                None
            },
            _ => None,
        }
    }
}

/// Recognizes the call-argument suffixes following a primary.
pub open spec fn rec_suffix(ts: Seq<TokenG>, j: int) -> Option<int>
    decreases ts.len() - j, 2int, 0int,
{
    if j < 0 || j > ts.len() {
        None
    } else if j < ts.len() && ts[j].kind == TokenType::LParen {
        match rec_paren_vec(ts, j) {
            Some(k) => if j < k <= ts.len() {
                rec_suffix(ts, k)
            } else {
                None
            },
            None => None,
        }
    } else {
        Some(j)
    }
}

/// Recognizes a parenthesized argument list, both parentheses included.
pub open spec fn rec_paren_vec(ts: Seq<TokenG>, i: int) -> Option<int>
    decreases ts.len() - i, 1int, 0int,
{
    if i < 0 || i > ts.len() {
        None
    } else if i < ts.len() && ts[i].kind == TokenType::LParen {
        if i + 1 < ts.len() && ts[i + 1].kind == TokenType::RParen {
            Some(i + 2)
        } else {
            match rec_args(ts, i + 1) {
                Some(j) => if j < ts.len() && ts[j].kind == TokenType::RParen {
                    Some(j + 1)
                } else {
                    None
                },
                None => None,
            }
        }
    } else {
        None
    }
}

/// Recognizes one or more comma-separated arguments, stopping on the
/// closing parenthesis without consuming it.
pub open spec fn rec_args(ts: Seq<TokenG>, i: int) -> Option<int>
    decreases ts.len() - i, 12int, 0int,
{
    if i < 0 || i > ts.len() {
        None
    } else {
        match rec_level(1, ts, i) {
            Some(j) => if j <= i || j > ts.len() {
                None
            } else if j < ts.len() && ts[j].kind == TokenType::Comma {
                if j + 1 < ts.len() && ts[j + 1].kind == TokenType::RParen {
                    Some(j + 1)
                } else {
                    rec_args(ts, j + 1)
                }
            } else if j < ts.len() && ts[j].kind == TokenType::RParen {
                Some(j)
            } else {
                None
            },
            None => None,
        }
    }
}

/// Recognizes one or more comma-separated parameter names, stopping on
/// the closing parenthesis without consuming it.
pub open spec fn rec_params(ts: Seq<TokenG>, i: int) -> Option<int>
    decreases ts.len() - i, 1int, 0int,
{
    if i < 0 || i >= ts.len() || ts[i].kind != TokenType::Ident {
        None
    } else if i + 1 < ts.len() && ts[i + 1].kind == TokenType::Comma {
        if i + 2 < ts.len() && ts[i + 2].kind == TokenType::RParen {
            Some(i + 2)
        } else {
            rec_params(ts, i + 2)
        }
    } else if i + 1 < ts.len() && ts[i + 1].kind == TokenType::RParen {
        Some(i + 1)
    } else {
        None
    }
}

/// Recognizes a binding declaration after its `let` token.
pub open spec fn rec_let(ts: Seq<TokenG>, i: int) -> Option<int>
    decreases ts.len() - i, 20int, 0int,
{
    if 0 <= i && i + 1 < ts.len() && ts[i + 1].kind == TokenType::Ident && i + 2 < ts.len()
        && ts[i + 2].kind == TokenType::Equal {
        rec_level(1, ts, i + 3)
    } else {
        None
    }
}

/// Recognizes an identifier-led statement: an assignment when `=`
/// follows, an expression statement otherwise.
pub open spec fn rec_ident_stmt(ts: Seq<TokenG>, i: int) -> Option<int>
    decreases ts.len() - i, 20int, 0int,
{
    if i < 0 {
        None
    } else if i + 1 < ts.len() && ts[i + 1].kind == TokenType::Equal {
        rec_level(1, ts, i + 2)
    } else {
        rec_level(1, ts, i)
    }
}

/// Recognizes a print statement after its keyword.
pub open spec fn rec_print(ts: Seq<TokenG>, i: int) -> Option<int>
    decreases ts.len() - i, 20int, 0int,
{
    if i < 0 {
        None
    } else {
        rec_paren_vec(ts, i + 1)
    }
}

/// Recognizes a brace block, both braces included.
pub open spec fn rec_brace(ts: Seq<TokenG>, i: int) -> Option<int>
    decreases ts.len() - i, 20int, 0int,
{
    if i < 0 || i >= ts.len() || ts[i].kind != TokenType::LBrace {
        None
    } else {
        match rec_till(ts, i + 1, TokenType::RBrace) {
            Some(j) => Some(j + 1),
            None => None,
        }
    }
}

/// Recognizes a conditional after its `if` token.
pub open spec fn rec_if(ts: Seq<TokenG>, i: int) -> Option<int>
    decreases ts.len() - i, 21int, 0int,
{
    if i < 0 {
        None
    } else {
        match rec_level(1, ts, i + 1) {
            Some(j) => if j > i && j < ts.len() && ts[j].kind == TokenType::LBrace {
                match rec_brace(ts, j) {
                    Some(k) => if k > i && k < ts.len() && ts[k].kind == TokenType::Else {
                        if k + 1 < ts.len() && ts[k + 1].kind == TokenType::LBrace {
                            rec_brace(ts, k + 1)
                        } else {
                            None
                        }
                    } else {
                        Some(k)
                    },
                    None => None,
                }
            } else {
                None
            },
            None => None,
        }
    }
}

/// Recognizes a loop after its `while` token.
pub open spec fn rec_while(ts: Seq<TokenG>, i: int) -> Option<int>
    decreases ts.len() - i, 21int, 0int,
{
    if i < 0 {
        None
    } else {
        match rec_level(1, ts, i + 1) {
            Some(j) => if j > i && j < ts.len() && ts[j].kind == TokenType::LBrace {
                rec_brace(ts, j)
            } else {
                None
            },
            None => None,
        }
    }
}

/// Recognizes a return statement after its keyword.
pub open spec fn rec_return(ts: Seq<TokenG>, i: int) -> Option<int>
    decreases ts.len() - i, 20int, 0int,
{
    if i < 0 {
        None
    } else if i + 1 >= ts.len() || ts[i + 1].kind == TokenType::EOL || ts[i + 1].kind
        == TokenType::RBrace || ts[i + 1].kind == TokenType::EOF {
        Some(i + 1)
    } else {
        rec_level(1, ts, i + 1)
    }
}

/// Recognizes a function declaration after its keyword.
pub open spec fn rec_function(ts: Seq<TokenG>, i: int) -> Option<int>
    decreases ts.len() - i, 21int, 0int,
{
    if 0 <= i && i + 1 < ts.len() && ts[i + 1].kind == TokenType::Ident && i + 2 < ts.len()
        && ts[i + 2].kind == TokenType::LParen {
        let after = if i + 3 < ts.len() && ts[i + 3].kind == TokenType::RParen {
            Some(i + 3)
        } else {
            rec_params(ts, i + 3)
        };
        match after {
            Some(j) => if j > i && j < ts.len() && ts[j].kind == TokenType::RParen {
                if j + 1 < ts.len() && ts[j + 1].kind == TokenType::LBrace {
                    rec_brace(ts, j + 1)
                } else {
                    None
                }
            } else {
                None
            },
            None => None,
        }
    } else {
        None
    }
}

/// Recognizes a statement sequence up to the given closing kind, which is
/// not consumed: the returned position holds the closing token.
pub open spec fn rec_till(ts: Seq<TokenG>, i: int, till: TokenType) -> Option<int>
    decreases ts.len() - i, 30int, 0int,
{
    if i < 0 || i >= ts.len() {
        None
    } else if ts[i].kind == till {
        Some(i)
    } else if ts[i].kind == TokenType::EOL {
        rec_till(ts, i + 1, till)
    } else if ts[i].kind == TokenType::EOF {
        None
    } else {
        let nx = match ts[i].kind {
            TokenType::Let => rec_let(ts, i),
            TokenType::Ident => rec_ident_stmt(ts, i),
            TokenType::LBrace => rec_brace(ts, i),
            TokenType::Print => rec_print(ts, i),
            TokenType::If => rec_if(ts, i),
            TokenType::While => rec_while(ts, i),
            TokenType::Fn => rec_function(ts, i),
            TokenType::Return => rec_return(ts, i),
            TokenType::Break => Some(i + 1),
            TokenType::Continue => Some(i + 1),
            _ => rec_level(1, ts, i),
        };
        match nx {
            Some(j) => if i < j <= ts.len() {
                rec_till(ts, j, till)
            } else {
                None
            },
            None => None,
        }
    }
}

// ---------------------------------------------------------------------------
// The parser
// ---------------------------------------------------------------------------

/// Parser state: the token sequence, a cursor into it, the top-level
/// statements parsed so far, and the arena of function bodies.
pub struct Parser {
    tokens: Vec<Token>,
    current: usize,
    stmts: Vec<Stmt>,
    bodies: Vec<Stmt>,
}

impl Parser {
    /// The image of the token stream.
    pub closed spec fn toks(&self) -> Seq<TokenG> {
        toks_view(self.tokens@)
    }

    /// The cursor.
    pub closed spec fn at(&self) -> int {
        self.current as int
    }

    /// The top-level statements parsed so far.
    pub closed spec fn stmts_spec(&self) -> Seq<Stmt> {
        self.stmts@
    }

    /// The body arena so far.
    pub closed spec fn bodies_spec(&self) -> Seq<Stmt> {
        self.bodies@
    }

    /// A fresh parser over a copy of the given tokens.
    pub fn new(tokens: &Vec<Token>) -> (p: Parser)
        ensures
            p.toks() == toks_view(tokens@),
            p.at() == 0,
            p.stmts_spec() == Seq::<Stmt>::empty(),
            p.bodies_spec() == Seq::<Stmt>::empty(),
    {
        let mut copy: Vec<Token> = Vec::new();
        let mut k: usize = 0;
        while k < tokens.len()
            invariant
                0 <= k <= tokens.len(),
                copy@.len() == k,
                forall|j: int| 0 <= j < k ==> copy@[j]@ == tokens@[j]@,
            decreases tokens.len() - k,
        {
            let t = &tokens[k];
            copy.push(Token { token_type: t.token_type, lexeme: clone_chars(&t.lexeme), line: t.line });
            k = k + 1;
        }
        let p = Parser { tokens: copy, current: 0, stmts: Vec::new(), bodies: Vec::new() };
        proof {
            assert(p.toks() =~= toks_view(tokens@));
        }
        p
    }

    /// The kind of the token under the cursor, if any.
    fn peek(&self) -> (r: Option<TokenType>)
        ensures
            r matches Some(k) ==> self.at() < self.toks().len() && k == self.toks()[self.at()].kind,
            r is None <==> self.at() >= self.toks().len(),
    {
        if self.current < self.tokens.len() {
            Some(self.tokens[self.current].token_type)
        } else {
            None
        }
    }

    /// The kind of the token just after the cursor, if any.
    fn peek_next(&self) -> (r: Option<TokenType>)
        ensures
            r matches Some(k) ==> self.at() + 1 < self.toks().len() && k == self.toks()[self.at()
                + 1].kind,
            r is None <==> self.at() + 1 >= self.toks().len(),
    {
        if self.current < self.tokens.len() && self.current + 1 < self.tokens.len() {
            Some(self.tokens[self.current + 1].token_type)
        } else {
            None
        }
    }

    /// Whether the token under the cursor has the given kind.
    fn check(&self, k: TokenType) -> (r: bool)
        ensures
            r == (self.at() < self.toks().len() && self.toks()[self.at()].kind == k),
    {
        match self.peek() {
            Some(kk) => kk == k,
            None => false,
        }
    }

    /// Consumes one token, if one is left.
    fn next(&mut self)
        ensures
            final(self).toks() == old(self).toks(),
            final(self).stmts_spec() == old(self).stmts_spec(),
            final(self).bodies_spec() == old(self).bodies_spec(),
            old(self).at() < old(self).toks().len() ==> final(self).at() == old(self).at() + 1,
            old(self).at() >= old(self).toks().len() ==> final(self).at() == old(self).at(),
    {
        if self.current < self.tokens.len() {
            self.current = self.current + 1;
        }
    }

    /// The source line to blame for an error at the cursor.
    fn cur_line(&self) -> (r: usize)
    {
        if self.current < self.tokens.len() {
            self.tokens[self.current].line
        } else if self.tokens.len() > 0 {
            self.tokens[self.tokens.len() - 1].line
        } else {
            1
        }
    }

    /// A syntax error at the cursor, with the offending lexeme when one
    /// is under the cursor.
    fn err_here(&self) -> (r: RunError)
        ensures
            r@.kind == ErrorType::SyntaxError,
    {
        let ctx = if self.current < self.tokens.len() {
            clone_chars(&self.tokens[self.current].lexeme)
        } else {
            Vec::new()
        };
        RunError { kind: ErrorType::SyntaxError, line: Some(self.cur_line()), ctx }
    }

    /// A copy of the token under the cursor.
    fn dup_tok(&self) -> (r: Token)
        requires
            self.at() < self.toks().len(),
        ensures
            r@ == self.toks()[self.at()],
    {
        let t = &self.tokens[self.current];
        Token { token_type: t.token_type, lexeme: clone_chars(&t.lexeme), line: t.line }
    }

    // -----------------------------------------------------------------
    // Expressions
    // -----------------------------------------------------------------

    /// Parses a primary expression, with any number of call-argument
    /// suffixes.
    fn expr_primary(&mut self) -> (r: Result<Expr, RunError>)
        requires
            old(self).at() <= old(self).toks().len(),
        ensures
            final(self).toks() == old(self).toks(),
            final(self).stmts_spec() == old(self).stmts_spec(),
            final(self).bodies_spec() == old(self).bodies_spec(),
            old(self).at() <= final(self).at() <= final(self).toks().len(),
            r matches Ok(e) ==> expr_fits_at(
                7,
                e,
                old(self).toks().subrange(old(self).at(), final(self).at()),
            ) && final(self).at() > old(self).at(),
            r matches Err(er) ==> er@.kind == ErrorType::SyntaxError,
            r is Ok ==> rec_primary(old(self).toks(), old(self).at()) == Some(final(self).at()),
            r is Err ==> rec_primary(old(self).toks(), old(self).at()) is None,
        decreases old(self).toks().len() - old(self).at(), 4int,
    {
        let ghost ts = self.toks();
        let ghost c0 = self.at();
        let k = match self.peek() {
            Some(k) => k,
            None => {
                proof {
                    assert(rec_primary(ts, c0) is None);
                }
                return Err(self.err_here());
            },
        };
        let mut base: Expr;
        match k {
            TokenType::Number | TokenType::String | TokenType::True | TokenType::False
                | TokenType::Ident => {
                let tok = self.dup_tok();
                self.next();
                base = match Expr::new(tok) {
                    Ok(e) => e,
                    Err(er) => {
                        return Err(er);
                    },
                };
                proof {
                    assert(ts.subrange(c0, c0 + 1).len() == 1);
                    assert(ts.subrange(c0, c0 + 1)[0] == ts[c0]);
                    assert(expr_fits_at(7, base, ts.subrange(c0, self.at())));
                    assert(rec_primary(ts, c0) == rec_suffix(ts, self.at()));
                }
            },
            TokenType::Input => {
                self.next();
                let args = match self.parse_paren_vec() {
                    Ok(a) => a,
                    Err(er) => {
                        proof {
                            assert(rec_primary(ts, c0) is None);
                        }
                        return Err(er);
                    },
                };
                let ghost c1 = self.at();
                base = Expr::new_input(Stmt::Print(args));
                proof {
                    let whole = ts.subrange(c0, c1);
                    let inner = ts.subrange(c0 + 1, c1);
                    assert(whole.len() >= 3);
                    assert(whole[0] == ts[c0]);
                    assert(whole[1] == inner[0]);
                    assert(whole.last() == inner.last());
                    assert(whole.subrange(2, whole.len() - 1) =~= inner.subrange(
                        1,
                        inner.len() - 1,
                    ));
                    assert(expr_fits_at(7, base, whole));
                }
            },
            TokenType::Int => {
                self.next();
                if !self.check(TokenType::LParen) {
                    proof {
                        assert(rec_primary(ts, c0) is None);
                    }
                    return Err(self.err_here());
                }
                let g = match self.expr_group() {
                    Ok(e) => e,
                    Err(er) => {
                        proof {
                            assert(rec_primary(ts, c0) is None);
                        }
                        return Err(er);
                    },
                };
                let ghost c1 = self.at();
                base = Expr::new_int(g);
                proof {
                    let whole = ts.subrange(c0, c1);
                    assert(whole[0] == ts[c0]);
                    assert(whole.subrange(1, whole.len() as int) =~= ts.subrange(c0 + 1, c1));
                    assert(expr_fits_at(7, base, whole));
                }
            },
            _ => {
                return Err(self.err_here());
            },
        }
        loop
            invariant
                self.toks() == ts,
                ts == old(self).toks(),
                self.stmts_spec() == old(self).stmts_spec(),
                self.bodies_spec() == old(self).bodies_spec(),
                c0 == old(self).at(),
                c0 < self.at() <= ts.len(),
                0 <= c0,
                expr_fits_at(7, base, ts.subrange(c0, self.at())),
                rec_primary(ts, c0) == rec_suffix(ts, self.at()),
            ensures
                self.toks() == ts,
                ts == old(self).toks(),
                self.stmts_spec() == old(self).stmts_spec(),
                self.bodies_spec() == old(self).bodies_spec(),
                c0 < self.at() <= ts.len(),
                expr_fits_at(7, base, ts.subrange(c0, self.at())),
                rec_primary(ts, c0) == Some(self.at()),
            decreases ts.len() - self.at(),
        {
            if !self.check(TokenType::LParen) {
                proof {
                    assert(rec_suffix(ts, self.at()) == Some(self.at()));
                }
                break ;
            }
            let ghost mid = self.at();
            let ghost callee_snapshot = base;
            let args = match self.parse_paren_vec() {
                Ok(a) => a,
                Err(er) => {
                    proof {
                        assert(rec_suffix(ts, mid) is None);
                        assert(rec_primary(ts, c0) is None);
                    }
                    return Err(er);
                },
            };
            let ghost c1 = self.at();
            base = Expr::new_call(base, args);
            proof {
                let whole = ts.subrange(c0, c1);
                let inner = ts.subrange(mid, c1);
                let i = mid - c0;
                assert(whole.subrange(0, i) =~= ts.subrange(c0, mid));
                assert(whole[i] == inner[0]);
                assert(whole.last() == inner.last());
                assert(whole.subrange(i + 1, whole.len() - 1) =~= inner.subrange(
                    1,
                    inner.len() - 1,
                ));
                assert(expr_fits_at(7, base, whole));
                assert(rec_suffix(ts, mid) == rec_suffix(ts, c1));
            }
        }
        Ok(base)
    }

    /// Parses a parenthesized group, or falls through to a primary.
    fn expr_group(&mut self) -> (r: Result<Expr, RunError>)
        requires
            old(self).at() <= old(self).toks().len(),
        ensures
            final(self).toks() == old(self).toks(),
            final(self).stmts_spec() == old(self).stmts_spec(),
            final(self).bodies_spec() == old(self).bodies_spec(),
            old(self).at() <= final(self).at() <= final(self).toks().len(),
            r matches Ok(e) ==> expr_fits_at(
                7,
                e,
                old(self).toks().subrange(old(self).at(), final(self).at()),
            ) && final(self).at() > old(self).at(),
            (old(self).at() < old(self).toks().len() && old(self).toks()[old(self).at()].kind
                == TokenType::LParen) ==> (r matches Ok(e) ==> e matches Expr::Group(_)),
            r matches Err(er) ==> er@.kind == ErrorType::SyntaxError,
            r is Ok ==> rec_group(old(self).toks(), old(self).at()) == Some(final(self).at()),
            r is Err ==> rec_group(old(self).toks(), old(self).at()) is None,
        decreases old(self).toks().len() - old(self).at(), 5int,
    {
        let ghost ts = self.toks();
        let ghost c0 = self.at();
        if self.check(TokenType::LParen) {
            self.next();
            let e = match self.parse_expr() {
                Ok(e) => e,
                Err(er) => {
                    proof {
                        assert(0 <= c0 < ts.len());
                        assert(ts[c0].kind == TokenType::LParen);
                        assert(rec_level(1, ts, c0 + 1) is None);
                        assert(rec_group(ts, c0) is None);
                    }
                    return Err(er);
                },
            };
            if !self.check(TokenType::RParen) {
                proof {
                    assert(0 <= c0 < ts.len());
                    assert(ts[c0].kind == TokenType::LParen);
                    assert(rec_level(1, ts, c0 + 1) == Some(self.at()));
                    assert(rec_group(ts, c0) is None);
                }
                return Err(self.err_here());
            }
            let ghost mid = self.at();
            self.next();
            let g = Expr::new_group(e);
            proof {
                let whole = ts.subrange(c0, self.at());
                assert(whole[0] == ts[c0]);
                assert(whole.last() == ts[mid]);
                assert(whole.subrange(1, whole.len() - 1) =~= ts.subrange(c0 + 1, mid));
                assert(expr_fits_at(7, g, whole));
            }
            Ok(g)
        } else {
            let r = self.expr_primary();
            proof {
                assert(rec_group(ts, c0) == rec_primary(ts, c0));
            }
            r
        }
    }

    /// Parses a unary expression: `-` and `!` nest right-recursively.
    fn expr_unary(&mut self) -> (r: Result<Expr, RunError>)
        requires
            old(self).at() <= old(self).toks().len(),
        ensures
            final(self).toks() == old(self).toks(),
            final(self).stmts_spec() == old(self).stmts_spec(),
            final(self).bodies_spec() == old(self).bodies_spec(),
            old(self).at() <= final(self).at() <= final(self).toks().len(),
            r matches Ok(e) ==> expr_fits_at(
                6,
                e,
                old(self).toks().subrange(old(self).at(), final(self).at()),
            ) && final(self).at() > old(self).at(),
            r matches Err(er) ==> er@.kind == ErrorType::SyntaxError,
            r is Ok ==> rec_unary(old(self).toks(), old(self).at()) == Some(final(self).at()),
            r is Err ==> rec_unary(old(self).toks(), old(self).at()) is None,
        decreases old(self).toks().len() - old(self).at(), 6int,
    {
        let ghost ts = self.toks();
        let ghost c0 = self.at();
        if self.check(TokenType::Minus) || self.check(TokenType::Bang) {
            let tok = self.dup_tok();
            self.next();
            let rhs = match self.expr_unary() {
                Ok(e) => e,
                Err(er) => {
                    proof {
                        assert(rec_unary(ts, c0) is None);
                    }
                    return Err(er);
                },
            };
            let e = match Expr::new_unary(&tok, rhs) {
                Ok(e) => e,
                Err(er) => {
                    return Err(er);
                },
            };
            proof {
                let whole = ts.subrange(c0, self.at());
                assert(whole[0] == ts[c0]);
                assert(whole.subrange(1, whole.len() as int) =~= ts.subrange(c0 + 1, self.at()));
                assert(expr_fits_at(6, e, whole));
            }
            Ok(e)
        } else {
            let r = self.expr_group();
            proof {
                assert(rec_unary(ts, c0) == rec_group(ts, c0));
            }
            r
        }
    }


    /// One precedence level: left-folds `expr_unary` operands.
    fn expr_factor(&mut self) -> (r: Result<Expr, RunError>)
        requires
            old(self).at() <= old(self).toks().len(),
        ensures
            final(self).toks() == old(self).toks(),
            final(self).stmts_spec() == old(self).stmts_spec(),
            final(self).bodies_spec() == old(self).bodies_spec(),
            old(self).at() <= final(self).at() <= final(self).toks().len(),
            r matches Ok(e) ==> expr_fits_at(
                5,
                e,
                old(self).toks().subrange(old(self).at(), final(self).at()),
            ) && final(self).at() > old(self).at(),
            r matches Err(er) ==> er@.kind == ErrorType::SyntaxError,
            r is Ok ==> rec_level(5, old(self).toks(), old(self).at()) == Some(
                final(self).at(),
            ),
            r is Err ==> rec_level(5, old(self).toks(), old(self).at()) is None,
        decreases old(self).toks().len() - old(self).at(), 7int,
    {
        let ghost ts = self.toks();
        let ghost c0 = self.at();
        let mut left = match self.expr_unary() {
            Ok(e) => e,
            Err(er) => {
                proof {
                    assert(rec_level(6, ts, c0) == rec_unary(ts, c0));
                }
                proof {
                    assert(rec_level(5, ts, c0) is None);
                }
                return Err(er);
            },
        };
                proof {
                    assert(rec_level(6, ts, c0) == rec_unary(ts, c0));
                }
        proof {
            assert(rec_level(5, ts, c0) == rec_fold(5, ts, self.at()));
        }
        loop
            invariant
                self.toks() == ts,
                ts == old(self).toks(),
                self.stmts_spec() == old(self).stmts_spec(),
                self.bodies_spec() == old(self).bodies_spec(),
                c0 == old(self).at(),
                c0 < self.at() <= ts.len(),
                0 <= c0,
                expr_fits_at(5, left, ts.subrange(c0, self.at())),
                rec_level(5, ts, c0) == rec_fold(5, ts, self.at()),
            ensures
                self.toks() == ts,
                ts == old(self).toks(),
                self.stmts_spec() == old(self).stmts_spec(),
                self.bodies_spec() == old(self).bodies_spec(),
                c0 < self.at() <= ts.len(),
                expr_fits_at(5, left, ts.subrange(c0, self.at())),
                rec_level(5, ts, c0) == Some(self.at()),
            decreases ts.len() - self.at(),
        {
            let k = match self.peek() {
                Some(k) => k,
                None => {
                    proof {
                        assert(rec_fold(5, ts, self.at()) == Some(self.at()));
                    }
                    break ;
                },
            };
            if !(k == TokenType::Star || k == TokenType::Slash || k == TokenType::Modulo) {
                proof {
                    assert(!level_kinds(5, ts[self.at()].kind));
                    assert(rec_fold(5, ts, self.at()) == Some(self.at()));
                }
                break ;
            }
            let tok = self.dup_tok();
            let ghost op_pos = self.at();
            self.next();
            let right = match self.expr_unary() {
                Ok(e) => e,
                Err(er) => {
                    proof {
                        assert(rec_level(6, ts, op_pos + 1) == rec_unary(ts, op_pos + 1));
                    }
                    proof {
                        assert(rec_fold(5, ts, op_pos) is None);
                        assert(rec_level(5, ts, c0) is None);
                    }
                    return Err(er);
                },
            };
            let ghost c1 = self.at();
            let ghost left_old = left;
            left = match Expr::new_binary(left, &tok, right) {
                Ok(e) => e,
                Err(er) => {
                    return Err(er);
                },
            };
            proof {
                let whole = ts.subrange(c0, c1);
                let i = op_pos - c0;
                assert(whole[i] == ts[op_pos]);
                assert(whole.subrange(0, i) =~= ts.subrange(c0, op_pos));
                assert(whole.subrange(i + 1, whole.len() as int) =~= ts.subrange(op_pos + 1, c1));
                assert(expr_fits_at(5, left, whole));
                assert(rec_level(6, ts, op_pos + 1) == rec_unary(ts, op_pos + 1));
                assert(rec_fold(5, ts, op_pos) == rec_fold(5, ts, self.at()));
            }
        }
        Ok(left)
    }

    /// One precedence level: left-folds `expr_factor` operands.
    fn expr_term(&mut self) -> (r: Result<Expr, RunError>)
        requires
            old(self).at() <= old(self).toks().len(),
        ensures
            final(self).toks() == old(self).toks(),
            final(self).stmts_spec() == old(self).stmts_spec(),
            final(self).bodies_spec() == old(self).bodies_spec(),
            old(self).at() <= final(self).at() <= final(self).toks().len(),
            r matches Ok(e) ==> expr_fits_at(
                4,
                e,
                old(self).toks().subrange(old(self).at(), final(self).at()),
            ) && final(self).at() > old(self).at(),
            r matches Err(er) ==> er@.kind == ErrorType::SyntaxError,
            r is Ok ==> rec_level(4, old(self).toks(), old(self).at()) == Some(
                final(self).at(),
            ),
            r is Err ==> rec_level(4, old(self).toks(), old(self).at()) is None,
        decreases old(self).toks().len() - old(self).at(), 8int,
    {
        let ghost ts = self.toks();
        let ghost c0 = self.at();
        let mut left = match self.expr_factor() {
            Ok(e) => e,
            Err(er) => {
                proof {
                    assert(rec_level(4, ts, c0) is None);
                }
                return Err(er);
            },
        };
        proof {
            assert(rec_level(4, ts, c0) == rec_fold(4, ts, self.at()));
        }
        loop
            invariant
                self.toks() == ts,
                ts == old(self).toks(),
                self.stmts_spec() == old(self).stmts_spec(),
                self.bodies_spec() == old(self).bodies_spec(),
                c0 == old(self).at(),
                c0 < self.at() <= ts.len(),
                0 <= c0,
                expr_fits_at(4, left, ts.subrange(c0, self.at())),
                rec_level(4, ts, c0) == rec_fold(4, ts, self.at()),
            ensures
                self.toks() == ts,
                ts == old(self).toks(),
                self.stmts_spec() == old(self).stmts_spec(),
                self.bodies_spec() == old(self).bodies_spec(),
                c0 < self.at() <= ts.len(),
                expr_fits_at(4, left, ts.subrange(c0, self.at())),
                rec_level(4, ts, c0) == Some(self.at()),
            decreases ts.len() - self.at(),
        {
            let k = match self.peek() {
                Some(k) => k,
                None => {
                    proof {
                        assert(rec_fold(4, ts, self.at()) == Some(self.at()));
                    }
                    break ;
                },
            };
            if !(k == TokenType::Plus || k == TokenType::Minus) {
                proof {
                    assert(!level_kinds(4, ts[self.at()].kind));
                    assert(rec_fold(4, ts, self.at()) == Some(self.at()));
                }
                break ;
            }
            let tok = self.dup_tok();
            let ghost op_pos = self.at();
            self.next();
            let right = match self.expr_factor() {
                Ok(e) => e,
                Err(er) => {
                    proof {
                        assert(rec_fold(4, ts, op_pos) is None);
                        assert(rec_level(4, ts, c0) is None);
                    }
                    return Err(er);
                },
            };
            let ghost c1 = self.at();
            let ghost left_old = left;
            left = match Expr::new_binary(left, &tok, right) {
                Ok(e) => e,
                Err(er) => {
                    return Err(er);
                },
            };
            proof {
                let whole = ts.subrange(c0, c1);
                let i = op_pos - c0;
                assert(whole[i] == ts[op_pos]);
                assert(whole.subrange(0, i) =~= ts.subrange(c0, op_pos));
                assert(whole.subrange(i + 1, whole.len() as int) =~= ts.subrange(op_pos + 1, c1));
                assert(expr_fits_at(4, left, whole));
                assert(rec_fold(4, ts, op_pos) == rec_fold(4, ts, self.at()));
            }
        }
        Ok(left)
    }

    /// One precedence level: left-folds `expr_term` operands.
    fn expr_relation(&mut self) -> (r: Result<Expr, RunError>)
        requires
            old(self).at() <= old(self).toks().len(),
        ensures
            final(self).toks() == old(self).toks(),
            final(self).stmts_spec() == old(self).stmts_spec(),
            final(self).bodies_spec() == old(self).bodies_spec(),
            old(self).at() <= final(self).at() <= final(self).toks().len(),
            r matches Ok(e) ==> expr_fits_at(
                3,
                e,
                old(self).toks().subrange(old(self).at(), final(self).at()),
            ) && final(self).at() > old(self).at(),
            r matches Err(er) ==> er@.kind == ErrorType::SyntaxError,
            r is Ok ==> rec_level(3, old(self).toks(), old(self).at()) == Some(
                final(self).at(),
            ),
            r is Err ==> rec_level(3, old(self).toks(), old(self).at()) is None,
        decreases old(self).toks().len() - old(self).at(), 9int,
    {
        let ghost ts = self.toks();
        let ghost c0 = self.at();
        let mut left = match self.expr_term() {
            Ok(e) => e,
            Err(er) => {
                proof {
                    assert(rec_level(3, ts, c0) is None);
                }
                return Err(er);
            },
        };
        proof {
            assert(rec_level(3, ts, c0) == rec_fold(3, ts, self.at()));
        }
        loop
            invariant
                self.toks() == ts,
                ts == old(self).toks(),
                self.stmts_spec() == old(self).stmts_spec(),
                self.bodies_spec() == old(self).bodies_spec(),
                c0 == old(self).at(),
                c0 < self.at() <= ts.len(),
                0 <= c0,
                expr_fits_at(3, left, ts.subrange(c0, self.at())),
                rec_level(3, ts, c0) == rec_fold(3, ts, self.at()),
            ensures
                self.toks() == ts,
                ts == old(self).toks(),
                self.stmts_spec() == old(self).stmts_spec(),
                self.bodies_spec() == old(self).bodies_spec(),
                c0 < self.at() <= ts.len(),
                expr_fits_at(3, left, ts.subrange(c0, self.at())),
                rec_level(3, ts, c0) == Some(self.at()),
            decreases ts.len() - self.at(),
        {
            let k = match self.peek() {
                Some(k) => k,
                None => {
                    proof {
                        assert(rec_fold(3, ts, self.at()) == Some(self.at()));
                    }
                    break ;
                },
            };
            if !(k == TokenType::Less || k == TokenType::LessEqual || k == TokenType::Greater || k == TokenType::GreaterEqual) {
                proof {
                    assert(!level_kinds(3, ts[self.at()].kind));
                    assert(rec_fold(3, ts, self.at()) == Some(self.at()));
                }
                break ;
            }
            let tok = self.dup_tok();
            let ghost op_pos = self.at();
            self.next();
            let right = match self.expr_term() {
                Ok(e) => e,
                Err(er) => {
                    proof {
                        assert(rec_fold(3, ts, op_pos) is None);
                        assert(rec_level(3, ts, c0) is None);
                    }
                    return Err(er);
                },
            };
            let ghost c1 = self.at();
            let ghost left_old = left;
            left = match Expr::new_logic(left, &tok, right) {
                Ok(e) => e,
                Err(er) => {
                    return Err(er);
                },
            };
            proof {
                let whole = ts.subrange(c0, c1);
                let i = op_pos - c0;
                assert(whole[i] == ts[op_pos]);
                assert(whole.subrange(0, i) =~= ts.subrange(c0, op_pos));
                assert(whole.subrange(i + 1, whole.len() as int) =~= ts.subrange(op_pos + 1, c1));
                assert(expr_fits_at(3, left, whole));
                assert(rec_fold(3, ts, op_pos) == rec_fold(3, ts, self.at()));
            }
        }
        Ok(left)
    }

    /// One precedence level: left-folds `expr_relation` operands.
    fn expr_equality(&mut self) -> (r: Result<Expr, RunError>)
        requires
            old(self).at() <= old(self).toks().len(),
        ensures
            final(self).toks() == old(self).toks(),
            final(self).stmts_spec() == old(self).stmts_spec(),
            final(self).bodies_spec() == old(self).bodies_spec(),
            old(self).at() <= final(self).at() <= final(self).toks().len(),
            r matches Ok(e) ==> expr_fits_at(
                2,
                e,
                old(self).toks().subrange(old(self).at(), final(self).at()),
            ) && final(self).at() > old(self).at(),
            r matches Err(er) ==> er@.kind == ErrorType::SyntaxError,
            r is Ok ==> rec_level(2, old(self).toks(), old(self).at()) == Some(
                final(self).at(),
            ),
            r is Err ==> rec_level(2, old(self).toks(), old(self).at()) is None,
        decreases old(self).toks().len() - old(self).at(), 10int,
    {
        let ghost ts = self.toks();
        let ghost c0 = self.at();
        let mut left = match self.expr_relation() {
            Ok(e) => e,
            Err(er) => {
                proof {
                    assert(rec_level(2, ts, c0) is None);
                }
                return Err(er);
            },
        };
        proof {
            assert(rec_level(2, ts, c0) == rec_fold(2, ts, self.at()));
        }
        loop
            invariant
                self.toks() == ts,
                ts == old(self).toks(),
                self.stmts_spec() == old(self).stmts_spec(),
                self.bodies_spec() == old(self).bodies_spec(),
                c0 == old(self).at(),
                c0 < self.at() <= ts.len(),
                0 <= c0,
                expr_fits_at(2, left, ts.subrange(c0, self.at())),
                rec_level(2, ts, c0) == rec_fold(2, ts, self.at()),
            ensures
                self.toks() == ts,
                ts == old(self).toks(),
                self.stmts_spec() == old(self).stmts_spec(),
                self.bodies_spec() == old(self).bodies_spec(),
                c0 < self.at() <= ts.len(),
                expr_fits_at(2, left, ts.subrange(c0, self.at())),
                rec_level(2, ts, c0) == Some(self.at()),
            decreases ts.len() - self.at(),
        {
            let k = match self.peek() {
                Some(k) => k,
                None => {
                    proof {
                        assert(rec_fold(2, ts, self.at()) == Some(self.at()));
                    }
                    break ;
                },
            };
            if !(k == TokenType::EqualEqual || k == TokenType::BangEqual) {
                proof {
                    assert(!level_kinds(2, ts[self.at()].kind));
                    assert(rec_fold(2, ts, self.at()) == Some(self.at()));
                }
                break ;
            }
            let tok = self.dup_tok();
            let ghost op_pos = self.at();
            self.next();
            let right = match self.expr_relation() {
                Ok(e) => e,
                Err(er) => {
                    proof {
                        assert(rec_fold(2, ts, op_pos) is None);
                        assert(rec_level(2, ts, c0) is None);
                    }
                    return Err(er);
                },
            };
            let ghost c1 = self.at();
            let ghost left_old = left;
            left = match Expr::new_logic(left, &tok, right) {
                Ok(e) => e,
                Err(er) => {
                    return Err(er);
                },
            };
            proof {
                let whole = ts.subrange(c0, c1);
                let i = op_pos - c0;
                assert(whole[i] == ts[op_pos]);
                assert(whole.subrange(0, i) =~= ts.subrange(c0, op_pos));
                assert(whole.subrange(i + 1, whole.len() as int) =~= ts.subrange(op_pos + 1, c1));
                assert(expr_fits_at(2, left, whole));
                assert(rec_fold(2, ts, op_pos) == rec_fold(2, ts, self.at()));
            }
        }
        Ok(left)
    }

    /// One precedence level: left-folds `expr_equality` operands.
    fn expr_logic(&mut self) -> (r: Result<Expr, RunError>)
        requires
            old(self).at() <= old(self).toks().len(),
        ensures
            final(self).toks() == old(self).toks(),
            final(self).stmts_spec() == old(self).stmts_spec(),
            final(self).bodies_spec() == old(self).bodies_spec(),
            old(self).at() <= final(self).at() <= final(self).toks().len(),
            r matches Ok(e) ==> expr_fits_at(
                1,
                e,
                old(self).toks().subrange(old(self).at(), final(self).at()),
            ) && final(self).at() > old(self).at(),
            r matches Err(er) ==> er@.kind == ErrorType::SyntaxError,
            r is Ok ==> rec_level(1, old(self).toks(), old(self).at()) == Some(
                final(self).at(),
            ),
            r is Err ==> rec_level(1, old(self).toks(), old(self).at()) is None,
        decreases old(self).toks().len() - old(self).at(), 11int,
    {
        let ghost ts = self.toks();
        let ghost c0 = self.at();
        let mut left = match self.expr_equality() {
            Ok(e) => e,
            Err(er) => {
                proof {
                    assert(rec_level(1, ts, c0) is None);
                }
                return Err(er);
            },
        };
        proof {
            assert(rec_level(1, ts, c0) == rec_fold(1, ts, self.at()));
        }
        loop
            invariant
                self.toks() == ts,
                ts == old(self).toks(),
                self.stmts_spec() == old(self).stmts_spec(),
                self.bodies_spec() == old(self).bodies_spec(),
                c0 == old(self).at(),
                c0 < self.at() <= ts.len(),
                0 <= c0,
                expr_fits_at(1, left, ts.subrange(c0, self.at())),
                rec_level(1, ts, c0) == rec_fold(1, ts, self.at()),
            ensures
                self.toks() == ts,
                ts == old(self).toks(),
                self.stmts_spec() == old(self).stmts_spec(),
                self.bodies_spec() == old(self).bodies_spec(),
                c0 < self.at() <= ts.len(),
                expr_fits_at(1, left, ts.subrange(c0, self.at())),
                rec_level(1, ts, c0) == Some(self.at()),
            decreases ts.len() - self.at(),
        {
            let k = match self.peek() {
                Some(k) => k,
                None => {
                    proof {
                        assert(rec_fold(1, ts, self.at()) == Some(self.at()));
                    }
                    break ;
                },
            };
            if !(k == TokenType::Ampersand || k == TokenType::Pipe) {
                proof {
                    assert(!level_kinds(1, ts[self.at()].kind));
                    assert(rec_fold(1, ts, self.at()) == Some(self.at()));
                }
                break ;
            }
            let tok = self.dup_tok();
            let ghost op_pos = self.at();
            self.next();
            let right = match self.expr_equality() {
                Ok(e) => e,
                Err(er) => {
                    proof {
                        assert(rec_fold(1, ts, op_pos) is None);
                        assert(rec_level(1, ts, c0) is None);
                    }
                    return Err(er);
                },
            };
            let ghost c1 = self.at();
            let ghost left_old = left;
            left = match Expr::new_logic(left, &tok, right) {
                Ok(e) => e,
                Err(er) => {
                    return Err(er);
                },
            };
            proof {
                let whole = ts.subrange(c0, c1);
                let i = op_pos - c0;
                assert(whole[i] == ts[op_pos]);
                assert(whole.subrange(0, i) =~= ts.subrange(c0, op_pos));
                assert(whole.subrange(i + 1, whole.len() as int) =~= ts.subrange(op_pos + 1, c1));
                assert(expr_fits_at(1, left, whole));
                assert(rec_fold(1, ts, op_pos) == rec_fold(1, ts, self.at()));
            }
        }
        Ok(left)
    }

    /// Parses one expression at the lowest precedence.
    fn parse_expr(&mut self) -> (r: Result<Expr, RunError>)
        requires
            old(self).at() <= old(self).toks().len(),
        ensures
            final(self).toks() == old(self).toks(),
            final(self).stmts_spec() == old(self).stmts_spec(),
            final(self).bodies_spec() == old(self).bodies_spec(),
            old(self).at() <= final(self).at() <= final(self).toks().len(),
            r matches Ok(e) ==> expr_fits(
                e,
                old(self).toks().subrange(old(self).at(), final(self).at()),
            ) && final(self).at() > old(self).at(),
            r matches Err(er) ==> er@.kind == ErrorType::SyntaxError,
            r is Ok ==> rec_level(1, old(self).toks(), old(self).at()) == Some(final(self).at()),
            r is Err ==> rec_level(1, old(self).toks(), old(self).at()) is None,
        decreases old(self).toks().len() - old(self).at(), 12int,
    {
        self.expr_logic()
    }

    /// Parses one call-style argument list in parentheses, the cursor on
    /// the opening parenthesis.
    fn parse_paren_vec(&mut self) -> (r: Result<Vec<Expr>, RunError>)
        requires
            old(self).at() <= old(self).toks().len(),
        ensures
            final(self).toks() == old(self).toks(),
            final(self).stmts_spec() == old(self).stmts_spec(),
            final(self).bodies_spec() == old(self).bodies_spec(),
            old(self).at() <= final(self).at() <= final(self).toks().len(),
            r matches Ok(es) ==> ({
                let ts = old(self).toks().subrange(old(self).at(), final(self).at());
                ts.len() >= 2 && ts[0].kind == TokenType::LParen && ts.last().kind
                    == TokenType::RParen && args_fit(es@, ts.subrange(1, ts.len() - 1))
            }),
            r matches Err(er) ==> er@.kind == ErrorType::SyntaxError,
            r is Ok ==> rec_paren_vec(old(self).toks(), old(self).at()) == Some(final(self).at()),
            r is Err ==> rec_paren_vec(old(self).toks(), old(self).at()) is None,
        decreases old(self).toks().len() - old(self).at(), 15int,
    {
        let ghost ts = self.toks();
        let ghost c0 = self.at();
        if !self.check(TokenType::LParen) {
            proof {
                assert(rec_paren_vec(ts, c0) is None);
            }
            return Err(self.err_here());
        }
        self.next();
        if self.check(TokenType::RParen) {
            self.next();
            let empty: Vec<Expr> = Vec::new();
            proof {
                let whole = ts.subrange(c0, self.at());
                assert(whole[0] == ts[c0]);
                assert(whole.last() == ts[c0 + 1]);
                assert(whole.subrange(1, whole.len() - 1) =~= Seq::<TokenG>::empty());
                assert(args_fit(empty@, whole.subrange(1, whole.len() - 1)));
            }
            return Ok(empty);
        }
        let es = match self.parse_args_rest() {
            Ok(es) => es,
            Err(er) => {
                proof {
                    assert(rec_paren_vec(ts, c0) is None);
                }
                return Err(er);
            },
        };
        if !self.check(TokenType::RParen) {
            proof {
                assert(rec_paren_vec(ts, c0) is None);
            }
            return Err(self.err_here());
        }
        let ghost mid = self.at();
        self.next();
        proof {
            let whole = ts.subrange(c0, self.at());
            assert(whole[0] == ts[c0]);
            assert(whole.last() == ts[mid]);
            assert(whole.subrange(1, whole.len() - 1) =~= ts.subrange(c0 + 1, mid));
        }
        Ok(es)
    }

    /// Parses one or more comma-separated argument expressions, stopping
    /// with the cursor on the closing parenthesis.
    fn parse_args_rest(&mut self) -> (r: Result<Vec<Expr>, RunError>)
        requires
            old(self).at() <= old(self).toks().len(),
        ensures
            final(self).toks() == old(self).toks(),
            final(self).stmts_spec() == old(self).stmts_spec(),
            final(self).bodies_spec() == old(self).bodies_spec(),
            old(self).at() <= final(self).at() <= final(self).toks().len(),
            r matches Ok(es) ==> es@.len() >= 1 && args_fit(
                es@,
                old(self).toks().subrange(old(self).at(), final(self).at()),
            ) && final(self).at() > old(self).at(),
            r matches Err(er) ==> er@.kind == ErrorType::SyntaxError,
            r is Ok ==> rec_args(old(self).toks(), old(self).at()) == Some(final(self).at()),
            r is Err ==> rec_args(old(self).toks(), old(self).at()) is None,
        decreases old(self).toks().len() - old(self).at(), 14int,
    {
        let ghost ts = self.toks();
        let ghost c0 = self.at();
        let e = match self.parse_expr() {
            Ok(e) => e,
            Err(er) => {
                proof {
                    assert(rec_args(ts, c0) is None);
                }
                return Err(er);
            },
        };
        let ghost e_end = self.at();
        if self.check(TokenType::Comma) {
            self.next();
            if self.check(TokenType::RParen) {
                let mut es: Vec<Expr> = Vec::new();
                es.push(e);
                proof {
                    let whole = ts.subrange(c0, self.at());
                    assert(whole.last() == ts[e_end]);
                    assert(whole.drop_last() =~= ts.subrange(c0, e_end));
                    assert(args_fit(es@, whole));
                }
                return Ok(es);
            }
            let rest = match self.parse_args_rest() {
                Ok(es) => es,
                Err(er) => {
                    proof {
                        assert(rec_args(ts, c0) is None);
                    }
                    return Err(er);
                },
            };
            let mut es = rest;
            es.insert(0, e);
            proof {
                let whole = ts.subrange(c0, self.at());
                let i = e_end - c0;
                assert(whole[i] == ts[e_end]);
                assert(whole.subrange(0, i) =~= ts.subrange(c0, e_end));
                assert(whole.subrange(i + 1, whole.len() as int) =~= ts.subrange(
                    e_end + 1,
                    self.at(),
                ));
                assert(es@[0] == e);
                assert(es@.subrange(1, es@.len() as int) =~= rest@);
                assert(trig_idx(i));
                assert(args_fit(es@, whole));
            }
            return Ok(es);
        }
        if self.check(TokenType::RParen) {
            let mut es: Vec<Expr> = Vec::new();
            es.push(e);
            proof {
                assert(ts.subrange(c0, self.at()) =~= ts.subrange(c0, e_end));
                assert(args_fit(es@, ts.subrange(c0, self.at())));
            }
            return Ok(es);
        }
        Err(self.err_here())
    }

    // -----------------------------------------------------------------
    // Statements
    // -----------------------------------------------------------------

    /// Parses a binding declaration: `let` name `=` expression.
    fn parse_let(&mut self) -> (r: Result<Stmt, RunError>)
        requires
            old(self).at() < old(self).toks().len(),
            old(self).toks()[old(self).at()].kind == TokenType::Let,
        ensures
            final(self).toks() == old(self).toks(),
            final(self).stmts_spec() == old(self).stmts_spec(),
            old(self).at() <= final(self).at() <= final(self).toks().len(),
            r matches Ok(s) ==> stmt_fits(
                s,
                old(self).toks().subrange(old(self).at(), final(self).at()),
            ) && final(self).at() > old(self).at(),
            r matches Err(er) ==> er@.kind == ErrorType::SyntaxError,
            r is Ok ==> rec_let(old(self).toks(), old(self).at()) == Some(final(self).at()),
            r is Err ==> rec_let(old(self).toks(), old(self).at()) is None,
        decreases old(self).toks().len() - old(self).at(), 20int,
    {
        let ghost ts = self.toks();
        let ghost c0 = self.at();
        self.next();
        if !self.check(TokenType::Ident) {
            proof {
                assert(rec_let(ts, c0) is None);
            }
            return Err(self.err_here());
        }
        let name = self.dup_tok();
        self.next();
        if !self.check(TokenType::Equal) {
            proof {
                assert(rec_let(ts, c0) is None);
            }
            return Err(self.err_here());
        }
        self.next();
        let e = match self.parse_expr() {
            Ok(e) => e,
            Err(er) => {
                proof {
                    assert(rec_let(ts, c0) is None);
                }
                return Err(er);
            },
        };
        let s = Stmt::Let(name, e);
        proof {
            let whole = ts.subrange(c0, self.at());
            assert(whole[0] == ts[c0]);
            assert(whole[1] == ts[c0 + 1]);
            assert(whole[2] == ts[c0 + 2]);
            assert(whole.subrange(3, whole.len() as int) =~= ts.subrange(c0 + 3, self.at()));
            assert(stmt_fits(s, whole));
        }
        Ok(s)
    }

    /// Parses a statement that starts with an identifier: an assignment
    /// when `=` follows, an expression statement otherwise.
    fn parse_ident(&mut self) -> (r: Result<Stmt, RunError>)
        requires
            old(self).at() < old(self).toks().len(),
            old(self).toks()[old(self).at()].kind == TokenType::Ident,
        ensures
            final(self).toks() == old(self).toks(),
            final(self).stmts_spec() == old(self).stmts_spec(),
            old(self).at() <= final(self).at() <= final(self).toks().len(),
            r matches Ok(s) ==> stmt_fits(
                s,
                old(self).toks().subrange(old(self).at(), final(self).at()),
            ) && final(self).at() > old(self).at(),
            r matches Err(er) ==> er@.kind == ErrorType::SyntaxError,
            r is Ok ==> rec_ident_stmt(old(self).toks(), old(self).at()) == Some(final(self).at()),
            r is Err ==> rec_ident_stmt(old(self).toks(), old(self).at()) is None,
        decreases old(self).toks().len() - old(self).at(), 20int,
    {
        let is_assign = match self.peek_next() {
            Some(TokenType::Equal) => true,
            _ => false,
        };
        let ghost ts = self.toks();
        let ghost c0 = self.at();
        if is_assign {
            let r = self.parse_assign();
            proof {
                assert(rec_ident_stmt(ts, c0) == rec_level(1, ts, c0 + 2));
            }
            r
        } else {
            proof {
                assert(rec_ident_stmt(ts, c0) == rec_level(1, ts, c0));
            }
            match self.parse_expr() {
                Ok(e) => Ok(Stmt::Expr(e)),
                Err(er) => Err(er),
            }
        }
    }

    /// Parses an assignment: name `=` expression. Assignment never
    /// declares; the evaluator rejects an undefined name.
    fn parse_assign(&mut self) -> (r: Result<Stmt, RunError>)
        requires
            old(self).at() + 1 < old(self).toks().len(),
            old(self).toks()[old(self).at()].kind == TokenType::Ident,
            old(self).toks()[old(self).at() + 1].kind == TokenType::Equal,
        ensures
            final(self).toks() == old(self).toks(),
            final(self).stmts_spec() == old(self).stmts_spec(),
            old(self).at() <= final(self).at() <= final(self).toks().len(),
            r matches Ok(s) ==> stmt_fits(
                s,
                old(self).toks().subrange(old(self).at(), final(self).at()),
            ) && final(self).at() > old(self).at(),
            r matches Err(er) ==> er@.kind == ErrorType::SyntaxError,
            r is Ok ==> rec_level(1, old(self).toks(), old(self).at() + 2) == Some(final(self).at()),
            r is Err ==> rec_level(1, old(self).toks(), old(self).at() + 2) is None,
        decreases old(self).toks().len() - old(self).at(), 19int,
    {
        let ghost ts = self.toks();
        let ghost c0 = self.at();
        let name = self.dup_tok();
        self.next();
        self.next();
        let e = self.parse_expr()?;
        let s = Stmt::Assign(name, e);
        proof {
            let whole = ts.subrange(c0, self.at());
            assert(whole[0] == ts[c0]);
            assert(whole[1] == ts[c0 + 1]);
            assert(whole.subrange(2, whole.len() as int) =~= ts.subrange(c0 + 2, self.at()));
            assert(stmt_fits(s, whole));
        }
        Ok(s)
    }

    /// Parses a print statement: `print` over a parenthesized expression
    /// list.
    fn parse_print(&mut self) -> (r: Result<Stmt, RunError>)
        requires
            old(self).at() < old(self).toks().len(),
            old(self).toks()[old(self).at()].kind == TokenType::Print,
        ensures
            final(self).toks() == old(self).toks(),
            final(self).stmts_spec() == old(self).stmts_spec(),
            old(self).at() <= final(self).at() <= final(self).toks().len(),
            r matches Ok(s) ==> stmt_fits(
                s,
                old(self).toks().subrange(old(self).at(), final(self).at()),
            ) && final(self).at() > old(self).at(),
            r matches Err(er) ==> er@.kind == ErrorType::SyntaxError,
            r is Ok ==> rec_print(old(self).toks(), old(self).at()) == Some(final(self).at()),
            r is Err ==> rec_print(old(self).toks(), old(self).at()) is None,
        decreases old(self).toks().len() - old(self).at(), 20int,
    {
        let ghost ts = self.toks();
        let ghost c0 = self.at();
        self.next();
        let args = match self.parse_paren_vec() {
            Ok(a) => a,
            Err(er) => {
                proof {
                    assert(rec_print(ts, c0) is None);
                }
                return Err(er);
            },
        };
        let s = Stmt::Print(args);
        proof {
            let whole = ts.subrange(c0, self.at());
            let inner = ts.subrange(c0 + 1, self.at());
            assert(whole[0] == ts[c0]);
            assert(whole[1] == inner[0]);
            assert(whole.last() == inner.last());
            assert(whole.subrange(2, whole.len() - 1) =~= inner.subrange(1, inner.len() - 1));
            assert(stmt_fits(s, whole));
        }
        Ok(s)
    }

    /// Parses a brace block, which introduces one new lexical scope.
    fn parse_brace(&mut self) -> (r: Result<Stmt, RunError>)
        requires
            old(self).at() < old(self).toks().len(),
            old(self).toks()[old(self).at()].kind == TokenType::LBrace,
        ensures
            final(self).toks() == old(self).toks(),
            final(self).stmts_spec() == old(self).stmts_spec(),
            old(self).at() <= final(self).at() <= final(self).toks().len(),
            r matches Ok(s) ==> stmt_fits(
                s,
                old(self).toks().subrange(old(self).at(), final(self).at()),
            ) && final(self).at() >= old(self).at() + 2 && old(self).toks()[final(self).at()
                - 1].kind == TokenType::RBrace,
            r matches Err(er) ==> er@.kind == ErrorType::SyntaxError,
            r is Ok ==> rec_brace(old(self).toks(), old(self).at()) == Some(final(self).at()),
            r is Err ==> rec_brace(old(self).toks(), old(self).at()) is None,
        decreases old(self).toks().len() - old(self).at(), 20int,
    {
        let ghost ts = self.toks();
        let ghost c0 = self.at();
        let open_line = self.cur_line();
        self.next();
        let sts = match self.parse_till(TokenType::RBrace, open_line) {
            Ok(sts) => sts,
            Err(er) => {
                proof {
                    assert(rec_brace(ts, c0) is None);
                }
                return Err(er);
            },
        };
        let ghost mid = self.at();
        self.next();
        let s = Stmt::Group(sts);
        proof {
            let whole = ts.subrange(c0, self.at());
            assert(whole[0] == ts[c0]);
            assert(whole.last() == ts[mid]);
            assert(whole.subrange(1, whole.len() - 1) =~= ts.subrange(c0 + 1, mid));
            assert(stmt_fits(s, whole));
        }
        Ok(s)
    }

    /// Parses a conditional: condition, then-block, optional else-block.
    fn parse_if(&mut self) -> (r: Result<Stmt, RunError>)
        requires
            old(self).at() < old(self).toks().len(),
            old(self).toks()[old(self).at()].kind == TokenType::If,
        ensures
            final(self).toks() == old(self).toks(),
            final(self).stmts_spec() == old(self).stmts_spec(),
            old(self).at() <= final(self).at() <= final(self).toks().len(),
            r matches Ok(s) ==> stmt_fits(
                s,
                old(self).toks().subrange(old(self).at(), final(self).at()),
            ) && final(self).at() > old(self).at(),
            r matches Err(er) ==> er@.kind == ErrorType::SyntaxError,
            r is Ok ==> rec_if(old(self).toks(), old(self).at()) == Some(final(self).at()),
            r is Err ==> rec_if(old(self).toks(), old(self).at()) is None,
        decreases old(self).toks().len() - old(self).at(), 20int,
    {
        let ghost ts = self.toks();
        let ghost c0 = self.at();
        self.next();
        let c = match self.parse_expr() {
            Ok(e) => e,
            Err(er) => {
                proof {
                    assert(rec_if(ts, c0) is None);
                }
                return Err(er);
            },
        };
        let ghost cond_end = self.at();
        if !self.check(TokenType::LBrace) {
            proof {
                assert(rec_if(ts, c0) is None);
            }
            return Err(self.err_here());
        }
        let then = match self.parse_brace() {
            Ok(s) => s,
            Err(er) => {
                proof {
                    assert(rec_if(ts, c0) is None);
                }
                return Err(er);
            },
        };
        let ghost then_end = self.at();
        if self.check(TokenType::Else) {
            self.next();
            if !self.check(TokenType::LBrace) {
                proof {
                    assert(rec_if(ts, c0) is None);
                }
                return Err(self.err_here());
            }
            let els = match self.parse_brace() {
                Ok(s) => s,
                Err(er) => {
                    proof {
                        assert(rec_if(ts, c0) is None);
                    }
                    return Err(er);
                },
            };
            let s = Stmt::If(c, Box::new(then), Some(Box::new(els)));
            proof {
                let whole = ts.subrange(c0, self.at());
                let i = cond_end - c0;
                let j = then_end - c0;
                assert(whole[0] == ts[c0]);
                assert(whole[j] == ts[then_end]);
                assert(whole.subrange(1, i) =~= ts.subrange(c0 + 1, cond_end));
                assert(whole.subrange(i, j) =~= ts.subrange(cond_end, then_end));
                assert(whole.subrange(j + 1, whole.len() as int) =~= ts.subrange(
                    then_end + 1,
                    self.at(),
                ));
                assert(trig_idx2(i, j));
                assert(stmt_fits(s, whole));
            }
            Ok(s)
        } else {
            let s = Stmt::If(c, Box::new(then), None);
            proof {
                let whole = ts.subrange(c0, self.at());
                let i = cond_end - c0;
                assert(whole[0] == ts[c0]);
                assert(whole.subrange(1, i) =~= ts.subrange(c0 + 1, cond_end));
                assert(whole.subrange(i, whole.len() as int) =~= ts.subrange(
                    cond_end,
                    self.at(),
                ));
                assert(trig_idx(i));
                assert(stmt_fits(s, whole));
            }
            Ok(s)
        }
    }

    /// Parses a loop: condition and body block.
    fn parse_while(&mut self) -> (r: Result<Stmt, RunError>)
        requires
            old(self).at() < old(self).toks().len(),
            old(self).toks()[old(self).at()].kind == TokenType::While,
        ensures
            final(self).toks() == old(self).toks(),
            final(self).stmts_spec() == old(self).stmts_spec(),
            old(self).at() <= final(self).at() <= final(self).toks().len(),
            r matches Ok(s) ==> stmt_fits(
                s,
                old(self).toks().subrange(old(self).at(), final(self).at()),
            ) && final(self).at() > old(self).at(),
            r matches Err(er) ==> er@.kind == ErrorType::SyntaxError,
            r is Ok ==> rec_while(old(self).toks(), old(self).at()) == Some(final(self).at()),
            r is Err ==> rec_while(old(self).toks(), old(self).at()) is None,
        decreases old(self).toks().len() - old(self).at(), 20int,
    {
        let ghost ts = self.toks();
        let ghost c0 = self.at();
        self.next();
        let c = match self.parse_expr() {
            Ok(e) => e,
            Err(er) => {
                proof {
                    assert(rec_while(ts, c0) is None);
                }
                return Err(er);
            },
        };
        let ghost cond_end = self.at();
        if !self.check(TokenType::LBrace) {
            proof {
                assert(rec_while(ts, c0) is None);
            }
            return Err(self.err_here());
        }
        let body = match self.parse_brace() {
            Ok(s) => s,
            Err(er) => {
                proof {
                    assert(rec_while(ts, c0) is None);
                }
                return Err(er);
            },
        };
        let s = Stmt::While(c, Box::new(body));
        proof {
            let whole = ts.subrange(c0, self.at());
            let i = cond_end - c0;
            assert(whole[0] == ts[c0]);
            assert(whole.subrange(1, i) =~= ts.subrange(c0 + 1, cond_end));
            assert(whole.subrange(i, whole.len() as int) =~= ts.subrange(cond_end, self.at()));
            assert(trig_idx(i));
            assert(stmt_fits(s, whole));
        }
        Ok(s)
    }

    /// Parses a return statement, with its optional result expression.
    fn parse_return(&mut self) -> (r: Result<Stmt, RunError>)
        requires
            old(self).at() < old(self).toks().len(),
            old(self).toks()[old(self).at()].kind == TokenType::Return,
        ensures
            final(self).toks() == old(self).toks(),
            final(self).stmts_spec() == old(self).stmts_spec(),
            old(self).at() <= final(self).at() <= final(self).toks().len(),
            r matches Ok(s) ==> stmt_fits(
                s,
                old(self).toks().subrange(old(self).at(), final(self).at()),
            ) && final(self).at() > old(self).at(),
            r matches Err(er) ==> er@.kind == ErrorType::SyntaxError,
            r is Ok ==> rec_return(old(self).toks(), old(self).at()) == Some(final(self).at()),
            r is Err ==> rec_return(old(self).toks(), old(self).at()) is None,
        decreases old(self).toks().len() - old(self).at(), 20int,
    {
        let ghost ts = self.toks();
        let ghost c0 = self.at();
        self.next();
        let bare = match self.peek() {
            None => true,
            Some(TokenType::EOL) => true,
            Some(TokenType::RBrace) => true,
            Some(TokenType::EOF) => true,
            Some(_) => false,
        };
        if bare {
            let s = Stmt::Return(None);
            proof {
                let whole = ts.subrange(c0, self.at());
                assert(whole[0] == ts[c0]);
                assert(stmt_fits(s, whole));
            }
            Ok(s)
        } else {
            let e = match self.parse_expr() {
                Ok(e) => e,
                Err(er) => {
                    proof {
                        assert(rec_return(ts, c0) is None);
                    }
                    return Err(er);
                },
            };
            let s = Stmt::Return(Some(e));
            proof {
                let whole = ts.subrange(c0, self.at());
                assert(whole[0] == ts[c0]);
                assert(whole.subrange(1, whole.len() as int) =~= ts.subrange(c0 + 1, self.at()));
                assert(stmt_fits(s, whole));
            }
            Ok(s)
        }
    }

    /// Parses one or more comma-separated parameter names, stopping with
    /// the cursor on the closing parenthesis.
    fn parse_params_rest(&mut self) -> (r: Result<Vec<Token>, RunError>)
        requires
            old(self).at() <= old(self).toks().len(),
        ensures
            final(self).toks() == old(self).toks(),
            final(self).stmts_spec() == old(self).stmts_spec(),
            final(self).bodies_spec() == old(self).bodies_spec(),
            old(self).at() <= final(self).at() <= final(self).toks().len(),
            r matches Ok(ps) ==> ps@.len() >= 1 && params_fit(
                ps@,
                old(self).toks().subrange(old(self).at(), final(self).at()),
            ) && final(self).at() > old(self).at(),
            r matches Err(er) ==> er@.kind == ErrorType::SyntaxError,
            r is Ok ==> rec_params(old(self).toks(), old(self).at()) == Some(final(self).at()),
            r is Err ==> rec_params(old(self).toks(), old(self).at()) is None,
        decreases old(self).toks().len() - old(self).at(), 14int,
    {
        let ghost ts = self.toks();
        let ghost c0 = self.at();
        if !self.check(TokenType::Ident) {
            proof {
                assert(rec_params(ts, c0) is None);
            }
            return Err(self.err_here());
        }
        let name = self.dup_tok();
        self.next();
        if self.check(TokenType::Comma) {
            self.next();
            if self.check(TokenType::RParen) {
                let mut ps: Vec<Token> = Vec::new();
                ps.push(name);
                proof {
                    let whole = ts.subrange(c0, self.at());
                    assert(whole[0] == ts[c0]);
                    assert(whole[1] == ts[c0 + 1]);
                    assert(params_fit(ps@, whole));
                }
                return Ok(ps);
            }
            let rest = match self.parse_params_rest() {
                Ok(ps) => ps,
                Err(er) => {
                    proof {
                        assert(rec_params(ts, c0) is None);
                    }
                    return Err(er);
                },
            };
            let mut ps = rest;
            ps.insert(0, name);
            proof {
                let whole = ts.subrange(c0, self.at());
                assert(whole[0] == ts[c0]);
                assert(whole[1] == ts[c0 + 1]);
                assert(whole.subrange(2, whole.len() as int) =~= ts.subrange(c0 + 2, self.at()));
                assert(ps@[0]@ == ts[c0]);
                assert(ps@.subrange(1, ps@.len() as int) =~= rest@);
                assert(params_fit(ps@, whole));
            }
            return Ok(ps);
        }
        if self.check(TokenType::RParen) {
            let mut ps: Vec<Token> = Vec::new();
            ps.push(name);
            proof {
                let whole = ts.subrange(c0, self.at());
                assert(whole[0] == ts[c0]);
                assert(params_fit(ps@, whole));
            }
            return Ok(ps);
        }
        proof {
            assert(rec_params(ts, c0) is None);
        }
        Err(self.err_here())
    }

    /// Parses a function declaration: keyword, name, parameter list, and
    /// a body block that goes into the body arena.
    fn parse_function(&mut self) -> (r: Result<Stmt, RunError>)
        requires
            old(self).at() < old(self).toks().len(),
            old(self).toks()[old(self).at()].kind == TokenType::Fn,
        ensures
            final(self).toks() == old(self).toks(),
            final(self).stmts_spec() == old(self).stmts_spec(),
            old(self).at() <= final(self).at() <= final(self).toks().len(),
            r matches Ok(s) ==> stmt_fits(
                s,
                old(self).toks().subrange(old(self).at(), final(self).at()),
            ) && final(self).at() > old(self).at(),
            r matches Err(er) ==> er@.kind == ErrorType::SyntaxError,
            r is Ok ==> rec_function(old(self).toks(), old(self).at()) == Some(final(self).at()),
            r is Err ==> rec_function(old(self).toks(), old(self).at()) is None,
        decreases old(self).toks().len() - old(self).at(), 20int,
    {
        let ghost ts = self.toks();
        let ghost c0 = self.at();
        self.next();
        if !self.check(TokenType::Ident) {
            proof {
                assert(rec_function(ts, c0) is None);
            }
            return Err(self.err_here());
        }
        let name = self.dup_tok();
        self.next();
        if !self.check(TokenType::LParen) {
            proof {
                assert(rec_function(ts, c0) is None);
            }
            return Err(self.err_here());
        }
        self.next();
        let params: Vec<Token> = if self.check(TokenType::RParen) {
            Vec::new()
        } else {
            match self.parse_params_rest() {
                Ok(ps) => ps,
                Err(er) => {
                    proof {
                        assert(rec_function(ts, c0) is None);
                    }
                    return Err(er);
                },
            }
        };
        if !self.check(TokenType::RParen) {
            proof {
                assert(rec_function(ts, c0) is None);
            }
            return Err(self.err_here());
        }
        let ghost rp = self.at();
        self.next();
        if !self.check(TokenType::LBrace) {
            proof {
                assert(rec_function(ts, c0) is None);
            }
            return Err(self.err_here());
        }
        let body = match self.parse_brace() {
            Ok(s) => s,
            Err(er) => {
                proof {
                    assert(rec_function(ts, c0) is None);
                }
                return Err(er);
            },
        };
        self.bodies.push(body);
        let idx = self.bodies.len() - 1;
        let s = Stmt::Function(name, params, idx);
        proof {
            let whole = ts.subrange(c0, self.at());
            let i = rp - c0;
            assert(whole[0] == ts[c0]);
            assert(whole[1] == ts[c0 + 1]);
            assert(whole[2] == ts[c0 + 2]);
            assert(whole[i] == ts[rp]);
            assert(whole[i + 1] == ts[rp + 1]);
            assert(whole.last() == ts[self.at() - 1]);
            assert(whole.subrange(3, i) =~= ts.subrange(c0 + 3, rp));
            assert(ts.subrange(rp + 1, self.at()).last() == ts[self.at() - 1]);
            assert(trig_idx(i));
            assert(stmt_fits(s, whole));
        }
        Ok(s)
    }

    /// Parses statements until the given closing kind, skipping
    /// end-of-line tokens between statements. The closing token is not
    /// consumed; input that ends without it is blamed on `open_line`, the
    /// line of the construct that required the closing token.
    fn parse_till(&mut self, till: TokenType, open_line: usize) -> (r: Result<Vec<Stmt>, RunError>)
        requires
            old(self).at() <= old(self).toks().len(),
        ensures
            final(self).toks() == old(self).toks(),
            final(self).stmts_spec() == old(self).stmts_spec(),
            old(self).at() <= final(self).at() <= final(self).toks().len(),
            r matches Ok(sts) ==> stmts_fit(
                sts@,
                old(self).toks().subrange(old(self).at(), final(self).at()),
            ) && final(self).at() < final(self).toks().len() && final(self).toks()[final(self).at()].kind == till,
            r matches Err(er) ==> er@.kind == ErrorType::SyntaxError,
            r is Ok ==> rec_till(old(self).toks(), old(self).at(), till) == Some(final(self).at()),
            r is Err ==> rec_till(old(self).toks(), old(self).at(), till) is None,
        decreases old(self).toks().len() - old(self).at(), 30int,
    {
        let ghost ts = self.toks();
        let ghost c0 = self.at();
        let mut sts: Vec<Stmt> = Vec::new();
        proof {
            assert(ts.subrange(c0, c0) =~= Seq::<TokenG>::empty());
            assert(stmts_fit(sts@, ts.subrange(c0, c0)));
        }
        loop
            invariant
                self.toks() == ts,
                ts == old(self).toks(),
                self.stmts_spec() == old(self).stmts_spec(),
                c0 == old(self).at(),
                c0 <= self.at() <= ts.len(),
                0 <= c0,
                stmts_fit(sts@, ts.subrange(c0, self.at())),
                rec_till(ts, c0, till) == rec_till(ts, self.at(), till),
            decreases ts.len() - self.at(),
        {
            let k = match self.peek() {
                Some(k) => k,
                None => {
                    return Err(
                        RunError {
                            kind: ErrorType::SyntaxError,
                            line: Some(open_line),
                            ctx: Vec::new(),
                        },
                    );
                },
            };
            if k == till {
                return Ok(sts);
            }
            if k == TokenType::EOL {
                let ghost pre = self.at();
                self.next();
                proof {
                    lemma_stmts_fit_push_eol(sts@, ts.subrange(c0, pre), ts[pre]);
                    assert(ts.subrange(c0, self.at()) =~= ts.subrange(c0, pre).push(ts[pre]));
                    assert(rec_till(ts, pre, till) == rec_till(ts, self.at(), till));
                }
                continue ;
            }
            if k == TokenType::EOF {
                return Err(
                    RunError {
                        kind: ErrorType::SyntaxError,
                        line: Some(open_line),
                        ctx: Vec::new(),
                    },
                );
            }
            let ghost a = self.at();
            let ghost sts0 = sts@;
            let s: Stmt = match k {
                TokenType::Let => self.parse_let()?,
                TokenType::Ident => self.parse_ident()?,
                TokenType::LBrace => self.parse_brace()?,
                TokenType::Print => self.parse_print()?,
                TokenType::If => self.parse_if()?,
                TokenType::While => self.parse_while()?,
                TokenType::Fn => self.parse_function()?,
                TokenType::Return => self.parse_return()?,
                TokenType::Break => {
                    self.next();
                    let s = Stmt::Break;
                    proof {
                        let whole = ts.subrange(a, self.at());
                        assert(whole[0] == ts[a]);
                        assert(stmt_fits(s, whole));
                    }
                    s
                },
                TokenType::Continue => {
                    self.next();
                    let s = Stmt::Continue;
                    proof {
                        let whole = ts.subrange(a, self.at());
                        assert(whole[0] == ts[a]);
                        assert(stmt_fits(s, whole));
                    }
                    s
                },
                _ => {
                    let e = self.parse_expr()?;
                    Stmt::Expr(e)
                },
            };
            let ghost b = self.at();
            proof {
                lemma_stmts_fit_append(sts0, ts.subrange(c0, a), s, ts.subrange(a, b));
                assert(ts.subrange(c0, a) + ts.subrange(a, b) =~= ts.subrange(c0, b));
                assert(rec_till(ts, a, till) == rec_till(ts, b, till));
            }
            sts.push(s);
        }
    }

    /// Parses the whole token stream into the top-level statement list.
    pub fn parse(&mut self) -> (r: Result<(), RunError>)
        requires
            old(self).at() <= old(self).toks().len(),
        ensures
            final(self).toks() == old(self).toks(),
            old(self).at() <= final(self).at() <= final(self).toks().len(),
            r matches Ok(u) ==> stmts_fit(
                final(self).stmts_spec(),
                old(self).toks().subrange(old(self).at(), final(self).at()),
            ) && final(self).at() < final(self).toks().len() && final(self).toks()[final(self).at()].kind == TokenType::EOF,
            r matches Err(er) ==> er@.kind == ErrorType::SyntaxError,
            r is Ok ==> rec_till(old(self).toks(), old(self).at(), TokenType::EOF) == Some(
                final(self).at(),
            ),
            r is Err ==> rec_till(old(self).toks(), old(self).at(), TokenType::EOF) is None,
    {
        self.parse_eof()
    }

    /// Parses up to the end-of-input token.
    fn parse_eof(&mut self) -> (r: Result<(), RunError>)
        requires
            old(self).at() <= old(self).toks().len(),
        ensures
            final(self).toks() == old(self).toks(),
            old(self).at() <= final(self).at() <= final(self).toks().len(),
            r matches Ok(u) ==> stmts_fit(
                final(self).stmts_spec(),
                old(self).toks().subrange(old(self).at(), final(self).at()),
            ) && final(self).at() < final(self).toks().len() && final(self).toks()[final(self).at()].kind == TokenType::EOF,
            r matches Err(er) ==> er@.kind == ErrorType::SyntaxError,
            r is Ok ==> rec_till(old(self).toks(), old(self).at(), TokenType::EOF) == Some(
                final(self).at(),
            ),
            r is Err ==> rec_till(old(self).toks(), old(self).at(), TokenType::EOF) is None,
    {
        let sts = self.parse_till(TokenType::EOF, 1)?;
        self.stmts = sts;
        Ok(())
    }

    /// The top-level statements parsed so far.
    pub fn get_stmts(&self) -> (r: &Vec<Stmt>)
        ensures
            r@ == self.stmts_spec(),
    {
        &self.stmts
    }

    /// Hands the parsed program over: its statements and body arena.
    pub fn into_program(self) -> (p: Program)
        ensures
            p.stmts@ == self.stmts_spec(),
            p.bodies@ == self.bodies_spec(),
    {
        let Parser { tokens: _, current: _, stmts, bodies } = self;
        Program { stmts, bodies }
    }
}

/// Trailing end-of-line tokens after a fitting statement list keep it
/// fitting.
proof fn lemma_stmts_fit_push_eol(sts: Seq<Stmt>, ts: Seq<TokenG>, t: TokenG)
    requires
        stmts_fit(sts, ts),
        t.kind == TokenType::EOL,
    ensures
        stmts_fit(sts, ts.push(t)),
    decreases sts.len(),
{
    if sts.len() == 0 {
        assert(forall|k: int|
            0 <= k < ts.push(t).len() ==> ts.push(t)[k].kind == TokenType::EOL);
    } else {
        let (a, b) = choose|a: int, b: int|
            0 <= a <= b <= ts.len() && #[trigger] trig_idx2(a, b) && (forall|k: int|
                0 <= k < a ==> ts[k].kind == TokenType::EOL) && stmt_fits(
                sts[0],
                ts.subrange(a, b),
            ) && stmts_fit(sts.subrange(1, sts.len() as int), ts.subrange(b, ts.len() as int));
        lemma_stmts_fit_push_eol(
            sts.subrange(1, sts.len() as int),
            ts.subrange(b, ts.len() as int),
            t,
        );
        let tp = ts.push(t);
        assert(tp.subrange(a, b) =~= ts.subrange(a, b));
        assert(tp.subrange(b, tp.len() as int) =~= ts.subrange(b, ts.len() as int).push(t));
        assert(forall|k: int| 0 <= k < a ==> tp[k].kind == TokenType::EOL);
        assert(trig_idx2(a, b));
        assert(stmts_fit(sts, tp));
    }
}

/// A fitting statement list extends by one statement over the tokens it
/// consumed.
proof fn lemma_stmts_fit_append(sts: Seq<Stmt>, c: Seq<TokenG>, s: Stmt, r: Seq<TokenG>)
    requires
        stmts_fit(sts, c),
        stmt_fits(s, r),
    ensures
        stmts_fit(sts.push(s), c + r),
    decreases sts.len(),
{
    let whole = c + r;
    if sts.len() == 0 {
        let a = c.len() as int;
        let b = whole.len() as int;
        assert(whole.subrange(a, b) =~= r);
        assert(forall|k: int| 0 <= k < a ==> whole[k].kind == TokenType::EOL);
        assert(sts.push(s)[0] == s);
        assert(sts.push(s).subrange(1, 1) =~= Seq::<Stmt>::empty());
        assert(whole.subrange(b, b) =~= Seq::<TokenG>::empty());
        assert(stmts_fit(sts.push(s).subrange(1, 1), whole.subrange(b, b)));
        assert(trig_idx2(a, b));
        assert(stmts_fit(sts.push(s), whole));
    } else {
        let (a, b) = choose|a: int, b: int|
            0 <= a <= b <= c.len() && #[trigger] trig_idx2(a, b) && (forall|k: int|
                0 <= k < a ==> c[k].kind == TokenType::EOL) && stmt_fits(
                sts[0],
                c.subrange(a, b),
            ) && stmts_fit(sts.subrange(1, sts.len() as int), c.subrange(b, c.len() as int));
        lemma_stmts_fit_append(
            sts.subrange(1, sts.len() as int),
            c.subrange(b, c.len() as int),
            s,
            r,
        );
        assert(whole.subrange(a, b) =~= c.subrange(a, b));
        assert(whole.subrange(b, whole.len() as int) =~= c.subrange(b, c.len() as int) + r);
        assert(sts.push(s).subrange(1, sts.push(s).len() as int) =~= sts.subrange(
            1,
            sts.len() as int,
        ).push(s));
        assert(forall|k: int| 0 <= k < a ==> whole[k].kind == TokenType::EOL);
        assert(sts.push(s)[0] == sts[0]);
        assert(trig_idx2(a, b));
        assert(stmts_fit(sts.push(s), whole));
    }
}

} // verus!
