//! The language's semantics, as one definitional interpreter in
//! specification code.
//!
//! Every executable evaluation function is proved to return exactly what
//! these functions describe. Evaluation is specified against the body
//! arena of the parsed program, an interpreter state, an environment
//! index, and a fuel bound; fuel is consumed by function calls and loop
//! iterations, so the specification is total while the language itself is
//! not.

use vstd::prelude::*;

use crate::env::{
    assign_g, define_g, lookup_g, read_line_pos, read_line_text, Builtin, EnvG, StateG, ValueG,
};
use crate::error::{DiagG, ErrorType, RunErrorG, StopG};
use crate::expr::{logic_bool_sem, logic_num_sem, logic_string_sem, Expr, Op};
use crate::numeric::{
    add_sem, display_num, div_sem, mul_sem, neg_sem, parse_num_bits, rem_sem, sub_sem, truthy_num,
    bits_of_uint, ONE_BITS, ZERO_BITS,
};
use crate::stmt::{FlowG, Stmt};
use crate::token::Token;

verus! {

// ---------------------------------------------------------------------------
// Text fragments
// ---------------------------------------------------------------------------

/// The text `true`.
pub open spec fn chars_text_true() -> Seq<char> {
    seq!['t', 'r', 'u', 'e']
}

/// The text `false`.
pub open spec fn chars_text_false() -> Seq<char> {
    seq!['f', 'a', 'l', 's', 'e']
}

/// The text `nil`.
pub open spec fn chars_text_nil() -> Seq<char> {
    seq!['n', 'i', 'l']
}

/// The name of a built-in function.
pub open spec fn builtin_name(k: Builtin) -> Seq<char> {
    match k {
        Builtin::Print => seq!['p', 'r', 'i', 'n', 't'],
        Builtin::Println => seq!['p', 'r', 'i', 'n', 't', 'l', 'n'],
        Builtin::Input => seq!['i', 'n', 'p', 'u', 't'],
        Builtin::Int => seq!['i', 'n', 't'],
        Builtin::Str => seq!['s', 't', 'r'],
    }
}

/// The display form of a value: what the print family writes for it.
pub open spec fn display_value_g(v: ValueG) -> Seq<char> {
    match v {
        ValueG::Number(b) => display_num(b),
        ValueG::Bool(b) => if b {
            chars_text_true()
        } else {
            chars_text_false()
        },
        ValueG::String(s) => s,
        ValueG::Function { name, .. } => seq!['<', 'f', 'u', 'n', 'c', 't', 'i', 'o', 'n', ' ']
            + name + seq!['>'],
        ValueG::FuncBuiltIn(k) => seq![
            '<',
            'b',
            'u',
            'i',
            'l',
            't',
            'i',
            'n',
            ' ',
            'f',
            'u',
            'n',
            'c',
            't',
            'i',
            'o',
            'n',
            ' ',
        ] + builtin_name(k) + seq!['>'],
        ValueG::Nil => chars_text_nil(),
    }
}

// ---------------------------------------------------------------------------
// Trimming input lines
// ---------------------------------------------------------------------------

/// Whitespace for the purpose of trimming an input line.
pub open spec fn is_ws(c: char) -> bool {
    c == ' ' || c == '\t' || c == '\r' || c == '\n'
}

/// The first index at or after `i` holding a non-whitespace character.
pub open spec fn ws_prefix(s: Seq<char>, i: int) -> int
    decreases s.len() - i,
{
    if 0 <= i && i < s.len() && is_ws(s[i]) {
        ws_prefix(s, i + 1)
    } else {
        i
    }
}

/// The end, moving left from `j` but not below `a`, of the non-whitespace
/// core.
pub open spec fn ws_suffix(s: Seq<char>, j: int, a: int) -> int
    decreases j,
{
    if a < j && j <= s.len() && 0 <= j - 1 && is_ws(s[j - 1]) {
        ws_suffix(s, j - 1, a)
    } else {
        j
    }
}

/// The line with leading and trailing whitespace removed.
pub open spec fn trimmed(s: Seq<char>) -> Seq<char> {
    let a = ws_prefix(s, 0);
    s.subrange(a, ws_suffix(s, s.len() as int, a))
}

// ---------------------------------------------------------------------------
// Small result helpers
// ---------------------------------------------------------------------------

/// A state with one more recoverable type-error diagnostic.
pub open spec fn with_type_diag(s: StateG) -> StateG {
    StateG { diags: s.diags.push(DiagG { kind: ErrorType::TypeError, ctx: Seq::empty() }), ..s }
}

/// A fatal error without a source position.
pub open spec fn fatal(kind: ErrorType, ctx: Seq<char>) -> StopG {
    StopG::Fatal(RunErrorG { kind, line: None, ctx })
}

/// The result of a unary operator on a value: boolean not on a boolean,
/// negation on a number; a mismatch is reported and yields the context's
/// default.
pub open spec fn unary_result_g(s: StateG, op: Op, v: ValueG) -> (StateG, Result<
    ValueG,
    StopG,
>) {
    match op {
        Op::Not => match v {
            ValueG::Bool(b) => (s, Ok(ValueG::Bool(!b))),
            _ => (with_type_diag(s), Ok(ValueG::Bool(false))),
        },
        Op::Sub => match v {
            ValueG::Number(n) => (s, Ok(ValueG::Number(neg_sem(n)))),
            _ => (with_type_diag(s), Ok(ValueG::Number(ZERO_BITS))),
        },
        _ => (with_type_diag(s), Ok(ValueG::Number(ZERO_BITS))),
    }
}

/// The arithmetic operators on number encodings.
pub open spec fn arith_sem(op: Op, a: u64, b: u64) -> u64 {
    match op {
        Op::Add => add_sem(a, b),
        Op::Sub => sub_sem(a, b),
        Op::Mul => mul_sem(a, b),
        Op::Div => div_sem(a, b),
        _ => rem_sem(a, b),
    }
}

/// The result of an arithmetic operator: both operands must be numbers; a
/// mismatch is reported and zero stands in for each offending operand. A
/// non-arithmetic operator here is reported and yields zero.
pub open spec fn binary_result_g(s: StateG, op: Op, lv: ValueG, rv: ValueG) -> (StateG, Result<
    ValueG,
    StopG,
>) {
    let (a, b, s1) = match (lv, rv) {
        (ValueG::Number(a), ValueG::Number(b)) => (a, b, s),
        _ => (ZERO_BITS, ZERO_BITS, with_type_diag(s)),
    };
    match op {
        Op::Add | Op::Sub | Op::Mul | Op::Div | Op::Mod => (
            s1,
            Ok(ValueG::Number(arith_sem(op, a, b))),
        ),
        _ => (with_type_diag(s1), Ok(ValueG::Number(ZERO_BITS))),
    }
}

/// Whether an operator belongs in a comparison or boolean node.
pub open spec fn is_logic_op(o: Op) -> bool {
    o == Op::And || o == Op::Or || o == Op::Eq || o == Op::Ne || o == Op::Gt || o == Op::Ge || o
        == Op::Lt || o == Op::Le
}

/// The result of a comparison or boolean operator: both operands must
/// have the same runtime type; a cross-type comparison is reported and
/// yields false, as is an operator that does not belong in a comparison
/// node.
pub open spec fn logic_result_g(s: StateG, op: Op, lv: ValueG, rv: ValueG) -> (StateG, Result<
    ValueG,
    StopG,
>) {
    match (lv, rv) {
        (ValueG::Bool(a), ValueG::Bool(b)) => if is_logic_op(op) {
            (s, Ok(ValueG::Bool(logic_bool_sem(op, a, b))))
        } else {
            (with_type_diag(s), Ok(ValueG::Bool(false)))
        },
        (ValueG::Number(a), ValueG::Number(b)) => if is_logic_op(op) {
            (s, Ok(ValueG::Bool(logic_num_sem(op, a, b))))
        } else {
            (with_type_diag(s), Ok(ValueG::Bool(false)))
        },
        (ValueG::String(a), ValueG::String(b)) => if is_logic_op(op) {
            (s, Ok(ValueG::Bool(logic_string_sem(op, a, b))))
        } else {
            (with_type_diag(s), Ok(ValueG::Bool(false)))
        },
        _ => (with_type_diag(s), Ok(ValueG::Bool(false))),
    }
}

/// The explicit integer conversion: a number passes through unchanged, a
/// boolean maps to one or zero, a string must parse as a number or the
/// conversion is fatal, and any other value is a reported type error that
/// substitutes zero.
pub open spec fn int_result_g(s: StateG, v: ValueG) -> (StateG, Result<ValueG, StopG>) {
    match v {
        ValueG::Number(b) => (s, Ok(ValueG::Number(b))),
        ValueG::Bool(b) => (
            s,
            Ok(ValueG::Number(if b {
                ONE_BITS
            } else {
                ZERO_BITS
            })),
        ),
        ValueG::String(t) => match parse_num_bits(t) {
            Some(b) => (s, Ok(ValueG::Number(b))),
            None => (s, Err(fatal(ErrorType::TypeError, t))),
        },
        _ => (with_type_diag(s), Ok(ValueG::Number(ZERO_BITS))),
    }
}

/// A condition value: a boolean is itself, a number goes by truthiness,
/// anything else is reported and counts as false.
pub open spec fn cond_result_g(s: StateG, v: ValueG) -> (StateG, bool) {
    match v {
        ValueG::Bool(b) => (s, b),
        ValueG::Number(n) => (s, truthy_num(n)),
        _ => (with_type_diag(s), false),
    }
}

/// The parameter map of a call frame: parameters bound to arguments in
/// order, a repeated name keeping its last argument.
pub open spec fn bind_upto(params: Seq<Seq<char>>, args: Seq<ValueG>, n: int) -> Map<
    Seq<char>,
    ValueG,
>
    decreases n,
{
    if n <= 0 {
        Map::empty()
    } else {
        bind_upto(params, args, n - 1).insert(params[n - 1], args[n - 1])
    }
}

// ---------------------------------------------------------------------------
// Built-in functions
// ---------------------------------------------------------------------------

/// The display forms of a value sequence, concatenated with no separator.
pub open spec fn displays_cat(vs: Seq<ValueG>) -> Seq<char>
    decreases vs.len(),
{
    if vs.len() == 0 {
        Seq::empty()
    } else {
        display_value_g(vs[0]) + displays_cat(vs.skip(1))
    }
}

/// The effect of a built-in function on already-evaluated arguments.
pub open spec fn builtin_g(s: StateG, k: Builtin, args: Seq<ValueG>) -> (StateG, Result<
    ValueG,
    StopG,
>) {
    match k {
        Builtin::Print => (
            StateG { output: s.output + displays_cat(args), ..s },
            Ok(ValueG::Number(bits_of_uint(args.len() as u64))),
        ),
        Builtin::Println => (
            StateG { output: s.output + displays_cat(args) + seq!['\n'], ..s },
            Ok(ValueG::Number(bits_of_uint(args.len() as u64))),
        ),
        Builtin::Input => {
            let s1 = StateG { output: s.output + displays_cat(args), ..s };
            let line = read_line_text(s1);
            let s2 = StateG { input_pos: read_line_pos(s1), ..s1 };
            (s2, Ok(ValueG::String(trimmed(line))))
        },
        Builtin::Int => if args.len() != 1 {
            (s, Err(fatal(ErrorType::RuntimeError, builtin_name(k))))
        } else {
            match args[0] {
                ValueG::Number(b) => (s, Ok(ValueG::Number(b))),
                ValueG::Bool(b) => (
                    s,
                    Ok(ValueG::Number(if b {
                        ONE_BITS
                    } else {
                        ZERO_BITS
                    })),
                ),
                ValueG::String(t) => match parse_num_bits(t) {
                    Some(b) => (s, Ok(ValueG::Number(b))),
                    None => (s, Err(fatal(ErrorType::RuntimeError, t))),
                },
                _ => (s, Err(fatal(ErrorType::RuntimeError, builtin_name(k)))),
            }
        },
        Builtin::Str => if args.len() != 1 {
            (s, Err(fatal(ErrorType::RuntimeError, builtin_name(k))))
        } else {
            match args[0] {
                ValueG::Number(b) => (s, Ok(ValueG::String(display_num(b)))),
                ValueG::Bool(b) => (
                    s,
                    Ok(ValueG::String(if b {
                        chars_text_true()
                    } else {
                        chars_text_false()
                    })),
                ),
                ValueG::String(t) => (s, Ok(ValueG::String(t))),
                _ => (s, Err(fatal(ErrorType::RuntimeError, builtin_name(k)))),
            }
        },
    }
}

// ---------------------------------------------------------------------------
// The definitional interpreter
// ---------------------------------------------------------------------------

/// Evaluates an expression.
pub open spec fn eval_expr_g(bodies: Seq<Stmt>, s: StateG, env: int, e: Expr, fuel: nat) -> (
    StateG,
    Result<ValueG, StopG>,
)
    decreases fuel, e, 0nat,
{
    match e {
        Expr::Number(b, _lex) => (s, Ok(ValueG::Number(b))),
        Expr::Bool(b) => (s, Ok(ValueG::Bool(b))),
        Expr::String(v) => (s, Ok(ValueG::String(v@))),
        Expr::Group(inner) => eval_expr_g(bodies, s, env, *inner, fuel),
        Expr::Variable(t) => match lookup_g(s.envs, env, t@.lexeme) {
            Some(v) => (s, Ok(v)),
            None => (s, Err(fatal(ErrorType::UndefinedVariable, t@.lexeme))),
        },
        Expr::Unary(op, r) => {
            let (s1, rr) = eval_expr_g(bodies, s, env, *r, fuel);
            match rr {
                Ok(v) => unary_result_g(s1, op, v),
                Err(e2) => (s1, Err(e2)),
            }
        },
        Expr::Binary(l, op, r) => {
            let (s1, lr) = eval_expr_g(bodies, s, env, *l, fuel);
            match lr {
                Ok(lv) => {
                    let (s2, rr) = eval_expr_g(bodies, s1, env, *r, fuel);
                    match rr {
                        Ok(rv) => binary_result_g(s2, op, lv, rv),
                        Err(e2) => (s2, Err(e2)),
                    }
                },
                Err(e2) => (s1, Err(e2)),
            }
        },
        Expr::Logic(l, op, r) => {
            let (s1, lr) = eval_expr_g(bodies, s, env, *l, fuel);
            match lr {
                Ok(lv) => {
                    let (s2, rr) = eval_expr_g(bodies, s1, env, *r, fuel);
                    match rr {
                        Ok(rv) => logic_result_g(s2, op, lv, rv),
                        Err(e2) => (s2, Err(e2)),
                    }
                },
                Err(e2) => (s1, Err(e2)),
            }
        },
        Expr::Int(inner) => {
            let (s1, rr) = eval_expr_g(bodies, s, env, *inner, fuel);
            match rr {
                Ok(v) => int_result_g(s1, v),
                Err(e2) => (s1, Err(e2)),
            }
        },
        Expr::Input(stmt) => {
            let (s1, fr) = eval_stmt_g(bodies, s, env, *stmt, fuel);
            match fr {
                Ok(_) => {
                    let line = read_line_text(s1);
                    let s2 = StateG { input_pos: read_line_pos(s1), ..s1 };
                    (s2, Ok(ValueG::String(trimmed(line))))
                },
                Err(e2) => (s1, Err(e2)),
            }
        },
        Expr::Call { callee, args } => {
            let (s1, cr) = eval_expr_g(bodies, s, env, *callee, fuel);
            match cr {
                Ok(fv) => {
                    let (s2, ar) = eval_exprs_g(bodies, s1, env, args@, fuel);
                    match ar {
                        Ok(vs) => match fv {
                            ValueG::Function { name, params, body, closure } => {
                                if params.len() != vs.len() {
                                    (s2, Err(fatal(ErrorType::RuntimeError, name)))
                                } else if !(0 <= body < bodies.len()) {
                                    (s2, Err(fatal(ErrorType::RuntimeError, name)))
                                } else if fuel == 0 {
                                    (s2, Err(StopG::OutOfFuel))
                                } else {
                                    let child = s2.envs.len() as int;
                                    let s3 = StateG {
                                        envs: s2.envs.push(
                                            EnvG {
                                                map: bind_upto(
                                                    params,
                                                    vs,
                                                    params.len() as int,
                                                ),
                                                parent: Some(closure),
                                            },
                                        ),
                                        ..s2
                                    };
                                    let (s4, fr) = eval_stmt_g(
                                        bodies,
                                        s3,
                                        child,
                                        bodies[body],
                                        (fuel - 1) as nat,
                                    );
                                    match fr {
                                        Ok(FlowG::Return(v)) => (s4, Ok(v)),
                                        Ok(_) => (s4, Ok(ValueG::Nil)),
                                        Err(e2) => (s4, Err(e2)),
                                    }
                                }
                            },
                            ValueG::FuncBuiltIn(k) => builtin_g(s2, k, vs),
                            _ => (s2, Err(fatal(ErrorType::TypeError, Seq::empty()))),
                        },
                        Err(e2) => (s2, Err(e2)),
                    }
                },
                Err(e2) => (s1, Err(e2)),
            }
        },
    }
}

/// Evaluates expressions left to right, collecting their values.
pub open spec fn eval_exprs_g(bodies: Seq<Stmt>, s: StateG, env: int, es: Seq<Expr>, fuel: nat) -> (
    StateG,
    Result<Seq<ValueG>, StopG>,
)
    decreases fuel, es, 0nat,
{
    if es.len() == 0 {
        (s, Ok(Seq::empty()))
    } else {
        let (s1, r) = eval_expr_g(bodies, s, env, es[0], fuel);
        match r {
            Ok(v) => {
                let (s2, rs) = eval_exprs_g(bodies, s1, env, es.subrange(1, es.len() as int), fuel);
                match rs {
                    Ok(vs) => (s2, Ok(seq![v] + vs)),
                    Err(e2) => (s2, Err(e2)),
                }
            },
            Err(e2) => (s1, Err(e2)),
        }
    }
}

/// Evaluates expressions left to right, writing each one's display form
/// as it is produced.
pub open spec fn print_exprs_g(bodies: Seq<Stmt>, s: StateG, env: int, es: Seq<Expr>, fuel: nat) -> (
    StateG,
    Result<(), StopG>,
)
    decreases fuel, es, 1nat,
{
    if es.len() == 0 {
        (s, Ok(()))
    } else {
        let (s1, r) = eval_expr_g(bodies, s, env, es[0], fuel);
        match r {
            Ok(v) => {
                let s2 = StateG { output: s1.output + display_value_g(v), ..s1 };
                print_exprs_g(bodies, s2, env, es.subrange(1, es.len() as int), fuel)
            },
            Err(e2) => (s1, Err(e2)),
        }
    }
}

/// Evaluates a condition: a boolean is itself, a number goes by
/// truthiness, anything else is reported and counts as false.
pub open spec fn cond_eval_g(bodies: Seq<Stmt>, s: StateG, env: int, e: Expr, fuel: nat) -> (
    StateG,
    Result<bool, StopG>,
)
    decreases fuel, e, 1nat,
{
    let (s1, r) = eval_expr_g(bodies, s, env, e, fuel);
    match r {
        Ok(v) => {
            let (s2, b) = cond_result_g(s1, v);
            (s2, Ok(b))
        },
        Err(e2) => (s1, Err(e2)),
    }
}

/// Executes a statement.
pub open spec fn eval_stmt_g(bodies: Seq<Stmt>, s: StateG, env: int, st: Stmt, fuel: nat) -> (
    StateG,
    Result<FlowG, StopG>,
)
    decreases fuel, st, 2nat,
{
    match st {
        Stmt::Expr(e) => {
            let (s1, r) = eval_expr_g(bodies, s, env, e, fuel);
            match r {
                Ok(v) => (s1, Ok(FlowG::Value(v))),
                Err(e2) => (s1, Err(e2)),
            }
        },
        Stmt::Let(t, e) => {
            let (s1, r) = eval_expr_g(bodies, s, env, e, fuel);
            match r {
                Ok(v) => (
                    StateG { envs: define_g(s1.envs, env, t@.lexeme, v), ..s1 },
                    Ok(FlowG::Value(v)),
                ),
                Err(e2) => (s1, Err(e2)),
            }
        },
        Stmt::Assign(t, e) => {
            let (s1, r) = eval_expr_g(bodies, s, env, e, fuel);
            match r {
                Ok(v) => match assign_g(s1.envs, env, t@.lexeme, v) {
                    Some(envs2) => (StateG { envs: envs2, ..s1 }, Ok(FlowG::Nothing)),
                    None => (s1, Err(fatal(ErrorType::UndefinedVariable, t@.lexeme))),
                },
                Err(e2) => (s1, Err(e2)),
            }
        },
        Stmt::Group(sts) => {
            let child = s.envs.len() as int;
            let s1 = StateG {
                envs: s.envs.push(EnvG { map: Map::empty(), parent: Some(env) }),
                ..s
            };
            eval_stmts_g(bodies, s1, child, sts@, fuel)
        },
        Stmt::Print(es) => {
            let (s1, r) = print_exprs_g(bodies, s, env, es@, fuel);
            match r {
                Ok(_) => (StateG { output: s1.output.push('\n'), ..s1 }, Ok(FlowG::Nothing)),
                Err(e2) => (s1, Err(e2)),
            }
        },
        Stmt::If(c, t, els) => {
            let (s1, cr) = cond_eval_g(bodies, s, env, c, fuel);
            match cr {
                Ok(b) => if b {
                    eval_stmt_g(bodies, s1, env, *t, fuel)
                } else {
                    match els {
                        Some(e2) => eval_stmt_g(bodies, s1, env, *e2, fuel),
                        None => (s1, Ok(FlowG::Nothing)),
                    }
                },
                Err(e2) => (s1, Err(e2)),
            }
        },
        Stmt::While(c, b) => {
            let (s1, cr) = cond_eval_g(bodies, s, env, c, fuel);
            match cr {
                Ok(cb) => if !cb {
                    (s1, Ok(FlowG::Nothing))
                } else {
                    let (s2, fr) = eval_stmt_g(bodies, s1, env, *b, fuel);
                    match fr {
                        Ok(FlowG::Break) => (s2, Ok(FlowG::Nothing)),
                        Ok(FlowG::Return(v)) => (s2, Ok(FlowG::Return(v))),
                        Ok(_) => if fuel == 0 {
                            (s2, Err(StopG::OutOfFuel))
                        } else {
                            eval_stmt_g(bodies, s2, env, st, (fuel - 1) as nat)
                        },
                        Err(e2) => (s2, Err(e2)),
                    }
                },
                Err(e2) => (s1, Err(e2)),
            }
        },
        Stmt::Break => (s, Ok(FlowG::Break)),
        Stmt::Continue => (s, Ok(FlowG::Continue)),
        Stmt::Return(opt) => match opt {
            None => (s, Ok(FlowG::Return(ValueG::Nil))),
            Some(e) => {
                let (s1, r) = eval_expr_g(bodies, s, env, e, fuel);
                match r {
                    Ok(v) => (s1, Ok(FlowG::Return(v))),
                    Err(e2) => (s1, Err(e2)),
                }
            },
        },
        Stmt::Function(t, params, body) => {
            let v = ValueG::Function {
                name: t@.lexeme,
                params: params@.map_values(|p: Token| p@.lexeme),
                body: body as int,
                closure: env,
            };
            (StateG { envs: define_g(s.envs, env, t@.lexeme, v), ..s }, Ok(FlowG::Nothing))
        },
    }
}

/// Executes statements in order within one scope: the first break,
/// continue or return signal stops the sequence and is handed upward.
pub open spec fn eval_stmts_g(bodies: Seq<Stmt>, s: StateG, env: int, sts: Seq<Stmt>, fuel: nat) -> (
    StateG,
    Result<FlowG, StopG>,
)
    decreases fuel, sts, 0nat,
{
    if sts.len() == 0 {
        (s, Ok(FlowG::Nothing))
    } else {
        let (s1, fr) = eval_stmt_g(bodies, s, env, sts[0], fuel);
        match fr {
            Ok(f) => match f {
                FlowG::Break | FlowG::Continue | FlowG::Return(_) => (s1, Ok(f)),
                _ => eval_stmts_g(bodies, s1, env, sts.subrange(1, sts.len() as int), fuel),
            },
            Err(e2) => (s1, Err(e2)),
        }
    }
}

/// Runs a program's top-level statements in order against the root
/// environment: every non-fatal signal, a stray break, continue or return
/// included, is discarded and the run continues with the next statement.
pub open spec fn run_stmts_g(bodies: Seq<Stmt>, s: StateG, sts: Seq<Stmt>, fuel: nat) -> (
    StateG,
    Result<(), StopG>,
)
    decreases sts.len(),
{
    if sts.len() == 0 {
        (s, Ok(()))
    } else {
        let (s1, fr) = eval_stmt_g(bodies, s, 0, sts[0], fuel);
        match fr {
            Ok(_) => run_stmts_g(bodies, s1, sts.subrange(1, sts.len() as int), fuel),
            Err(e2) => (s1, Err(e2)),
        }
    }
}

} // verus!
