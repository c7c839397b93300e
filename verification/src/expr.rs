//! Expression nodes of the abstract syntax tree, and the operator
//! enumeration with its per-type comparison semantics.

use vstd::prelude::*;

use crate::error::{ErrorType, RunError};
use crate::numeric::{cmp_sem, num_value_of, truthy_num, NumCmp};
use crate::stmt::Stmt;
use crate::token::{Token, TokenG, TokenType};

verus! {

/// The operators of the language.
#[derive(Debug, Clone, Copy, PartialEq, Eq, Structural)]
pub enum Op {
    Add,
    Sub,
    Mul,
    Div,
    Mod,
    And,
    Or,
    Not,
    Ne,
    Eq,
    Gt,
    Ge,
    Lt,
    Le,
}

/// An expression node. The tree is immutable once produced.
///
/// A number literal carries the 64-bit encoding of its value together with
/// the literal's text, kept in ghost form so that contracts can relate the
/// encoding to the source.
pub enum Expr {
    Number(u64, Ghost<Seq<char>>),
    Bool(bool),
    String(Vec<char>),
    Binary(Box<Expr>, Op, Box<Expr>),
    Logic(Box<Expr>, Op, Box<Expr>),
    Unary(Op, Box<Expr>),
    Group(Box<Expr>),
    Variable(Token),
    Input(Box<Stmt>),
    Int(Box<Expr>),
    Call { callee: Box<Expr>, args: Vec<Expr> },
}

/// The operator a token denotes, if any.
pub open spec fn op_of_token(k: TokenType) -> Option<Op> {
    match k {
        TokenType::Plus => Some(Op::Add),
        TokenType::Minus => Some(Op::Sub),
        TokenType::Star => Some(Op::Mul),
        TokenType::Slash => Some(Op::Div),
        TokenType::Modulo => Some(Op::Mod),
        TokenType::Ampersand => Some(Op::And),
        TokenType::Pipe => Some(Op::Or),
        TokenType::Bang => Some(Op::Not),
        TokenType::BangEqual => Some(Op::Ne),
        TokenType::EqualEqual => Some(Op::Eq),
        TokenType::Greater => Some(Op::Gt),
        TokenType::GreaterEqual => Some(Op::Ge),
        TokenType::Less => Some(Op::Lt),
        TokenType::LessEqual => Some(Op::Le),
        _ => None,
    }
}

impl Expr {
    /// Turns a literal or identifier token into its expression node. A
    /// number literal parses to its encoding, an unparsable one to zero.
    /// Any other token kind is a syntax error at the token's line.
    pub fn new(token: Token) -> (r: Result<Expr, RunError>)
        ensures
            match token@.kind {
                TokenType::Number => r matches Ok(e) && (e matches Expr::Number(b, lex)
                    && b == num_value_of(token@.lexeme) && lex@ == token@.lexeme),
                TokenType::String => r matches Ok(e) && (e matches Expr::String(s) && s@
                    == token@.lexeme),
                TokenType::True => r == Ok::<Expr, RunError>(Expr::Bool(true)),
                TokenType::False => r == Ok::<Expr, RunError>(Expr::Bool(false)),
                TokenType::Ident => r matches Ok(e) && (e matches Expr::Variable(t) && t@
                    == token@),
                _ => r matches Err(e) && e@.kind == ErrorType::SyntaxError && e@.line == Some(
                    token@.line as int,
                ) && e@.ctx == token@.lexeme,
            },
    {
        match token.token_type {
            TokenType::Number => {
                let bits = match crate::numeric::parse_raw(&token.lexeme) {
                    Some(b) => b,
                    None => crate::numeric::ZERO_BITS,
                };
                Ok(Expr::Number(bits, Ghost(token@.lexeme)))
            },
            TokenType::String => Ok(Expr::String(token.lexeme)),
            TokenType::True => Ok(Expr::Bool(true)),
            TokenType::False => Ok(Expr::Bool(false)),
            TokenType::Ident => Ok(Expr::Variable(token)),
            _ => Err(
                RunError {
                    kind: ErrorType::SyntaxError,
                    line: Some(token.line),
                    ctx: token.lexeme,
                },
            ),
        }
    }

    /// A call node.
    pub fn new_call(callee: Expr, args: Vec<Expr>) -> (r: Expr)
        ensures
            r matches Expr::Call { callee: c, args: a } && *c == callee && a == args,
    {
        Expr::Call { callee: Box::new(callee), args }
    }

    /// An explicit integer-conversion node.
    pub fn new_int(expr: Expr) -> (r: Expr)
        ensures
            r matches Expr::Int(e) && *e == expr,
    {
        Expr::Int(Box::new(expr))
    }

    /// A prompt-and-capture node: the statement runs for its side effect
    /// before a line of input is read.
    pub fn new_input(stmt: Stmt) -> (r: Expr)
        ensures
            r matches Expr::Input(s) && *s == stmt,
    {
        Expr::Input(Box::new(stmt))
    }

    /// A parenthesized group node.
    pub fn new_group(expr: Expr) -> (r: Expr)
        ensures
            r matches Expr::Group(e) && *e == expr,
    {
        Expr::Group(Box::new(expr))
    }

    /// An arithmetic node from an operator token.
    pub fn new_binary(left: Expr, op: &Token, right: Expr) -> (r: Result<Expr, RunError>)
        ensures
            match op_of_token(op@.kind) {
                Some(o) => r matches Ok(e) && (e matches Expr::Binary(l, eo, rr) && *l == left
                    && eo == o && *rr == right),
                None => r matches Err(e) && e@.kind == ErrorType::SyntaxError && e@.line == Some(
                    op@.line as int,
                ) && e@.ctx == op@.lexeme,
            },
    {
        let o = Op::new(op)?;
        Ok(Expr::Binary(Box::new(left), o, Box::new(right)))
    }

    /// A comparison or boolean node from an operator token.
    pub fn new_logic(left: Expr, op: &Token, right: Expr) -> (r: Result<Expr, RunError>)
        ensures
            match op_of_token(op@.kind) {
                Some(o) => r matches Ok(e) && (e matches Expr::Logic(l, eo, rr) && *l == left
                    && eo == o && *rr == right),
                None => r matches Err(e) && e@.kind == ErrorType::SyntaxError && e@.line == Some(
                    op@.line as int,
                ) && e@.ctx == op@.lexeme,
            },
    {
        let o = Op::new(op)?;
        Ok(Expr::Logic(Box::new(left), o, Box::new(right)))
    }

    /// A unary node: only negation and boolean not exist.
    pub fn new_unary(op: &Token, right: Expr) -> (r: Result<Expr, RunError>)
        ensures
            match op@.kind {
                TokenType::Minus => r matches Ok(e) && (e matches Expr::Unary(o, rr) && o
                    == Op::Sub && *rr == right),
                TokenType::Bang => r matches Ok(e) && (e matches Expr::Unary(o, rr) && o == Op::Not
                    && *rr == right),
                _ => r matches Err(e) && e@.kind == ErrorType::SyntaxError && e@.line == Some(
                    op@.line as int,
                ) && e@.ctx == op@.lexeme,
            },
    {
        let o = match op.token_type {
            TokenType::Minus => Op::Sub,
            TokenType::Bang => Op::Not,
            _ => {
                return Err(
                    RunError {
                        kind: ErrorType::SyntaxError,
                        line: Some(op.line),
                        ctx: clone_chars(&op.lexeme),
                    },
                );
            },
        };
        Ok(Expr::Unary(o, Box::new(right)))
    }
}

// ---------------------------------------------------------------------------
// Operator semantics per operand type
// ---------------------------------------------------------------------------

/// Comparison and boolean operators on booleans: conjunction and
/// disjunction are the boolean operations, the order takes false below
/// true. Non-logic operators yield false.
pub open spec fn logic_bool_sem(op: Op, l: bool, r: bool) -> bool {
    match op {
        Op::And => l && r,
        Op::Or => l || r,
        Op::Eq => l == r,
        Op::Ne => l != r,
        Op::Gt => l && !r,
        Op::Ge => l || !r,
        Op::Lt => !l && r,
        Op::Le => !l || r,
        _ => false,
    }
}

/// Lexicographic order on character sequences from position `i` on.
pub open spec fn str_lt_from(a: Seq<char>, b: Seq<char>, i: int) -> bool
    decreases b.len() - i,
{
    if i < 0 || i >= b.len() {
        false
    } else if i >= a.len() {
        true
    } else if a[i] != b[i] {
        a[i] < b[i]
    } else {
        str_lt_from(a, b, i + 1)
    }
}

/// Strict lexicographic order on character sequences.
pub open spec fn str_lt(a: Seq<char>, b: Seq<char>) -> bool {
    str_lt_from(a, b, 0)
}

/// Comparison and boolean operators on strings: conjunction and
/// disjunction go by non-emptiness, the order is lexicographic. Non-logic
/// operators yield false.
pub open spec fn logic_string_sem(op: Op, l: Seq<char>, r: Seq<char>) -> bool {
    match op {
        Op::And => l.len() > 0 && r.len() > 0,
        Op::Or => l.len() > 0 || r.len() > 0,
        Op::Eq => l == r,
        Op::Ne => l != r,
        Op::Gt => str_lt(r, l),
        Op::Ge => !str_lt(l, r),
        Op::Lt => str_lt(l, r),
        Op::Le => !str_lt(r, l),
        _ => false,
    }
}

/// Comparison and boolean operators on numbers: conjunction and
/// disjunction go by truthiness (greater than zero), the order is the IEEE
/// comparison. Non-logic operators yield false.
pub open spec fn logic_num_sem(op: Op, l: u64, r: u64) -> bool {
    match op {
        Op::And => truthy_num(l) && truthy_num(r),
        Op::Or => truthy_num(l) || truthy_num(r),
        Op::Eq => cmp_sem(l, r) == NumCmp::Eq,
        Op::Ne => cmp_sem(l, r) != NumCmp::Eq,
        Op::Gt => cmp_sem(l, r) == NumCmp::Gt,
        Op::Ge => cmp_sem(l, r) == NumCmp::Gt || cmp_sem(l, r) == NumCmp::Eq,
        Op::Lt => cmp_sem(l, r) == NumCmp::Lt,
        Op::Le => cmp_sem(l, r) == NumCmp::Lt || cmp_sem(l, r) == NumCmp::Eq,
        _ => false,
    }
}

impl Op {
    /// The operator a token denotes; any other token is a syntax error.
    pub fn new(op: &Token) -> (r: Result<Op, RunError>)
        ensures
            match op_of_token(op@.kind) {
                Some(o) => r == Ok::<Op, RunError>(o),
                None => r matches Err(e) && e@.kind == ErrorType::SyntaxError && e@.line == Some(
                    op@.line as int,
                ) && e@.ctx == op@.lexeme,
            },
    {
        match op.token_type {
            TokenType::Plus => Ok(Op::Add),
            TokenType::Minus => Ok(Op::Sub),
            TokenType::Star => Ok(Op::Mul),
            TokenType::Slash => Ok(Op::Div),
            TokenType::Modulo => Ok(Op::Mod),
            TokenType::Ampersand => Ok(Op::And),
            TokenType::Pipe => Ok(Op::Or),
            TokenType::Bang => Ok(Op::Not),
            TokenType::BangEqual => Ok(Op::Ne),
            TokenType::EqualEqual => Ok(Op::Eq),
            TokenType::Greater => Ok(Op::Gt),
            TokenType::GreaterEqual => Ok(Op::Ge),
            TokenType::Less => Ok(Op::Lt),
            TokenType::LessEqual => Ok(Op::Le),
            _ => Err(
                RunError {
                    kind: ErrorType::SyntaxError,
                    line: Some(op.line),
                    ctx: clone_chars(&op.lexeme),
                },
            ),
        }
    }

    /// Applies a comparison or boolean operator to two booleans.
    pub fn logic_bool(&self, l: bool, r: bool) -> (res: bool)
        ensures
            res == logic_bool_sem(*self, l, r),
    {
        match self {
            Op::And => l && r,
            Op::Or => l || r,
            Op::Eq => l == r,
            Op::Ne => l != r,
            Op::Gt => l && !r,
            Op::Ge => l || !r,
            Op::Lt => !l && r,
            Op::Le => !l || r,
            _ => false,
        }
    }

    /// Applies a comparison or boolean operator to two strings.
    pub fn logic_string(&self, l: &Vec<char>, r: &Vec<char>) -> (res: bool)
        ensures
            res == logic_string_sem(*self, l@, r@),
    {
        match self {
            Op::And => l.len() > 0 && r.len() > 0,
            Op::Or => l.len() > 0 || r.len() > 0,
            Op::Eq => chars_eq(l, r),
            Op::Ne => !chars_eq(l, r),
            Op::Gt => chars_lt(r, l),
            Op::Ge => !chars_lt(l, r),
            Op::Lt => chars_lt(l, r),
            Op::Le => !chars_lt(r, l),
            _ => false,
        }
    }

    /// Applies a comparison or boolean operator to two numbers.
    pub fn logic_num(&self, l: u64, r: u64) -> (res: bool)
        ensures
            res == logic_num_sem(*self, l, r),
    {
        match self {
            Op::And => crate::numeric::truthy(l) && crate::numeric::truthy(r),
            Op::Or => crate::numeric::truthy(l) || crate::numeric::truthy(r),
            Op::Eq => matches!(crate::numeric::cmp_num(l, r), NumCmp::Eq),
            Op::Ne => !matches!(crate::numeric::cmp_num(l, r), NumCmp::Eq),
            Op::Gt => matches!(crate::numeric::cmp_num(l, r), NumCmp::Gt),
            Op::Ge => matches!(crate::numeric::cmp_num(l, r), NumCmp::Gt | NumCmp::Eq),
            Op::Lt => matches!(crate::numeric::cmp_num(l, r), NumCmp::Lt),
            Op::Le => matches!(crate::numeric::cmp_num(l, r), NumCmp::Lt | NumCmp::Eq),
            _ => false,
        }
    }
}

/// Whether two character vectors hold the same text.
pub fn chars_eq(a: &Vec<char>, b: &Vec<char>) -> (r: bool)
    ensures
        r == (a@ == b@),
{
    if a.len() != b.len() {
        assert(a@ != b@);
        return false;
    }
    let mut k: usize = 0;
    while k < a.len()
        invariant
            0 <= k <= a.len(),
            a.len() == b.len(),
            forall|j: int| 0 <= j < k ==> a@[j] == b@[j],
        decreases a.len() - k,
    {
        if a[k] != b[k] {
            return false;
        }
        k = k + 1;
    }
    proof {
        assert(a@ =~= b@);
    }
    true
}

/// Whether `a` is lexicographically below `b`.
pub fn chars_lt(a: &Vec<char>, b: &Vec<char>) -> (r: bool)
    ensures
        r == str_lt(a@, b@),
{
    let mut k: usize = 0;
    loop
        invariant
            0 <= k,
            k as int <= a.len(),
            k as int <= b.len(),
            str_lt(a@, b@) == str_lt_from(a@, b@, k as int),
        ensures
            str_lt(a@, b@) == str_lt_from(a@, b@, k as int),
            k as int >= b.len() || k as int >= a.len() || a@[k as int] != b@[k as int],
            k as int <= a.len() && k as int <= b.len(),
        decreases b.len() - k,
    {
        if k >= b.len() {
            break ;
        }
        if k >= a.len() {
            break ;
        }
        if a[k] != b[k] {
            break ;
        }
        k = k + 1;
    }
    if k >= b.len() {
        false
    } else if k >= a.len() {
        true
    } else {
        a[k] < b[k]
    }
}

/// Copies a character vector.
pub fn clone_chars(v: &Vec<char>) -> (r: Vec<char>)
    ensures
        r@ == v@,
{
    let mut r: Vec<char> = Vec::new();
    let mut k: usize = 0;
    while k < v.len()
        invariant
            0 <= k <= v.len(),
            r@ == v@.subrange(0, k as int),
        decreases v.len() - k,
    {
        r.push(v[k]);
        assert(r@ =~= v@.subrange(0, k + 1 as int));
        k = k + 1;
    }
    assert(v@.subrange(0, v@.len() as int) =~= v@);
    r
}

} // verus!
