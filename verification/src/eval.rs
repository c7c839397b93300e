//! The executable evaluator, proved equal to the definitional
//! interpreter of [`crate::semantics`].

use vstd::prelude::*;

use crate::env::{Builtin, Interp, StateG, Value, ValueG};
use crate::error::{ErrorType, RunError, Stop, StopG};
use crate::expr::{clone_chars, Expr, Op};
use crate::numeric::{
    add_num, display_number, div_num, mul_num, neg_num, parse_raw, rem_num, sub_num, truthy,
    ONE_BITS, ZERO_BITS,
};
use crate::semantics::{
    builtin_g, builtin_name, bind_upto, chars_text_false, chars_text_nil, chars_text_true,
    cond_eval_g, display_value_g, displays_cat, eval_expr_g, eval_exprs_g, eval_stmt_g,
    eval_stmts_g, print_exprs_g, run_stmts_g, trimmed, ws_prefix, ws_suffix,
};
use crate::source::copy_range;
use crate::stmt::{ControlFlow, FlowG, Program, Stmt};

verus! {

/// The image of an evaluation outcome.
pub open spec fn vres(r: Result<Value, Stop>) -> Result<ValueG, StopG> {
    match r {
        Ok(v) => Ok(v@),
        Err(e) => Err(e@),
    }
}

/// The image of an execution outcome.
pub open spec fn fres(r: Result<ControlFlow, Stop>) -> Result<FlowG, StopG> {
    match r {
        Ok(f) => Ok(f@),
        Err(e) => Err(e@),
    }
}

/// The image of a condition outcome.
pub open spec fn bres(r: Result<bool, Stop>) -> Result<bool, StopG> {
    match r {
        Ok(b) => Ok(b),
        Err(e) => Err(e@),
    }
}

/// The images of a value sequence.
pub open spec fn vals_view(s: Seq<Value>) -> Seq<ValueG> {
    s.map_values(|v: Value| v@)
}

/// The image of an argument-list outcome.
pub open spec fn vsres(r: Result<Vec<Value>, Stop>) -> Result<Seq<ValueG>, StopG> {
    match r {
        Ok(vs) => Ok(vals_view(vs@)),
        Err(e) => Err(e@),
    }
}

// ---------------------------------------------------------------------------
// Rendering values
// ---------------------------------------------------------------------------

/// Appends the characters of `tail` to `out`.
fn extend_chars(out: &mut Vec<char>, tail: &Vec<char>)
    ensures
        final(out)@ == old(out)@ + tail@,
{
    let mut k: usize = 0;
    while k < tail.len()
        invariant
            0 <= k <= tail.len(),
            out@ == old(out)@ + tail@.subrange(0, k as int),
        decreases tail.len() - k,
    {
        out.push(tail[k]);
        assert(out@ =~= old(out)@ + tail@.subrange(0, k + 1 as int));
        k = k + 1;
    }
    assert(tail@.subrange(0, tail@.len() as int) =~= tail@);
}

/// The text `true`.
fn make_text_true() -> (r: Vec<char>)
    ensures
        r@ == chars_text_true(),
{
    let mut v: Vec<char> = Vec::new();
    v.push('t');
    v.push('r');
    v.push('u');
    v.push('e');
    assert(v@ =~= chars_text_true());
    v
}

/// The text `false`.
fn make_text_false() -> (r: Vec<char>)
    ensures
        r@ == chars_text_false(),
{
    let mut v: Vec<char> = Vec::new();
    v.push('f');
    v.push('a');
    v.push('l');
    v.push('s');
    v.push('e');
    assert(v@ =~= chars_text_false());
    v
}

/// The name of a built-in function.
pub(crate) fn make_builtin_name(k: Builtin) -> (r: Vec<char>)
    ensures
        r@ == builtin_name(k),
{
    let mut v: Vec<char> = Vec::new();
    match k {
        Builtin::Print => {
            v.push('p');
            v.push('r');
            v.push('i');
            v.push('n');
            v.push('t');
        },
        Builtin::Println => {
            v.push('p');
            v.push('r');
            v.push('i');
            v.push('n');
            v.push('t');
            v.push('l');
            v.push('n');
        },
        Builtin::Input => {
            v.push('i');
            v.push('n');
            v.push('p');
            v.push('u');
            v.push('t');
        },
        Builtin::Int => {
            v.push('i');
            v.push('n');
            v.push('t');
        },
        Builtin::Str => {
            v.push('s');
            v.push('t');
            v.push('r');
        },
    }
    assert(v@ =~= builtin_name(k));
    v
}

/// Renders a value in its display form.
pub fn display_value(v: &Value) -> (r: Vec<char>)
    ensures
        r@ == display_value_g(v@),
{
    match v {
        Value::Number(b) => display_number(*b),
        Value::Bool(b) => if *b {
            make_text_true()
        } else {
            make_text_false()
        },
        Value::String(s) => clone_chars(s),
        Value::Function { name, .. } => {
            let mut out: Vec<char> = Vec::new();
            out.push('<');
            out.push('f');
            out.push('u');
            out.push('n');
            out.push('c');
            out.push('t');
            out.push('i');
            out.push('o');
            out.push('n');
            out.push(' ');
            assert(out@ =~= seq!['<', 'f', 'u', 'n', 'c', 't', 'i', 'o', 'n', ' ']);
            extend_chars(&mut out, name);
            out.push('>');
            assert(out@ =~= seq!['<', 'f', 'u', 'n', 'c', 't', 'i', 'o', 'n', ' '] + name@ + seq![
                '>',
            ]);
            out
        },
        Value::FuncBuiltIn { name } => {
            let mut out: Vec<char> = Vec::new();
            out.push('<');
            out.push('b');
            out.push('u');
            out.push('i');
            out.push('l');
            out.push('t');
            out.push('i');
            out.push('n');
            out.push(' ');
            out.push('f');
            out.push('u');
            out.push('n');
            out.push('c');
            out.push('t');
            out.push('i');
            out.push('o');
            out.push('n');
            out.push(' ');
            assert(out@ =~= seq![
                '<',
                'b',
                'u',
                'i',
                'l',
                't',
                'i',
                'n',
                ' ',
                'f',
                'u',
                'n',
                'c',
                't',
                'i',
                'o',
                'n',
                ' ',
            ]);
            let bn = make_builtin_name(*name);
            extend_chars(&mut out, &bn);
            out.push('>');
            assert(out@ =~= display_value_g(v@));
            out
        },
        Value::Nil => {
            let mut out: Vec<char> = Vec::new();
            out.push('n');
            out.push('i');
            out.push('l');
            assert(out@ =~= chars_text_nil());
            out
        },
    }
}

/// Trims leading and trailing whitespace from a line.
fn trim_chars(v: &Vec<char>) -> (r: Vec<char>)
    ensures
        r@ == trimmed(v@),
{
    let ghost cs = v@;
    let mut a: usize = 0;
    loop
        invariant
            0 <= a <= v.len(),
            cs == v@,
            ws_prefix(cs, 0) == ws_prefix(cs, a as int),
        ensures
            0 <= a <= v.len(),
            cs == v@,
            ws_prefix(cs, 0) == a as int,
        decreases v.len() - a,
    {
        if a >= v.len() {
            break ;
        }
        let c = v[a];
        if !(c == ' ' || c == '\t' || c == '\r' || c == '\n') {
            break ;
        }
        a = a + 1;
    }
    let mut b: usize = v.len();
    loop
        invariant
            a <= b <= v.len(),
            cs == v@,
            ws_prefix(cs, 0) == a as int,
            ws_suffix(cs, cs.len() as int, a as int) == ws_suffix(cs, b as int, a as int),
        ensures
            a <= b <= v.len(),
            cs == v@,
            ws_suffix(cs, cs.len() as int, a as int) == b as int,
        decreases b,
    {
        if b <= a {
            break ;
        }
        let c = v[b - 1];
        if !(c == ' ' || c == '\t' || c == '\r' || c == '\n') {
            break ;
        }
        b = b - 1;
    }
    copy_range(v, a, b)
}

// ---------------------------------------------------------------------------
// Built-in calls
// ---------------------------------------------------------------------------

/// Writes the display forms of `args[i..]` to the output.
fn append_displays(st: Interp, args: &Vec<Value>, i: usize) -> (r: Interp)
    requires
        i <= args.len(),
    ensures
        r@ == (StateG {
            output: st@.output + displays_cat(vals_view(args@).subrange(i as int, args@.len() as int)),
            ..st@
        }),
    decreases args.len() - i,
{
    let ghost vs = vals_view(args@).subrange(i as int, args@.len() as int);
    if i == args.len() {
        proof {
            assert(displays_cat(vs) =~= Seq::<char>::empty());
            assert(st@.output + displays_cat(vs) =~= st@.output);
            assert(st@ =~= (StateG { output: st@.output + displays_cat(vs), ..st@ }));
        }
        st
    } else {
        let ghost out0 = st@.output;
        let mut st = st;
        let d = display_value(&args[i]);
        st.append_out(&d);
        let ghost mid = st@;
        let r = append_displays(st, args, i + 1);
        proof {
            let rest = vals_view(args@).subrange(i + 1 as int, args@.len() as int);
            assert(vs[0] == vals_view(args@)[i as int]);
            assert(vs.subrange(1, vs.len() as int) =~= rest);
            assert(displays_cat(vs) == display_value_g(args@[i as int]@) + displays_cat(rest));
            assert(mid.output == out0 + display_value_g(args@[i as int]@));
            assert(r@.output == mid.output + displays_cat(rest));
            assert((out0 + display_value_g(args@[i as int]@)) + displays_cat(rest) =~= out0
                + displays_cat(vs));
            assert(r@ =~= (StateG { output: out0 + displays_cat(vs), ..mid }));
        }
        r
    }
}

/// Performs a built-in call on already-evaluated arguments.
fn builtin_call(st: Interp, k: Builtin, args: Vec<Value>) -> (r: (Interp, Result<Value, Stop>))
    ensures
        r.0@ == builtin_g(st@, k, vals_view(args@)).0,
        vres(r.1) == builtin_g(st@, k, vals_view(args@)).1,
{
    let ghost g = builtin_g(st@, k, vals_view(args@));
    match k {
        Builtin::Print => {
            proof {
                assert(vals_view(args@).subrange(0, args@.len() as int) =~= vals_view(args@));
            }
            let st1 = append_displays(st, &args, 0);
            let n = crate::numeric::from_uint_raw(args.len() as u64);
            proof {
                assert(vals_view(args@).len() == args@.len());
            }
            (st1, Ok(Value::Number(n)))
        },
        Builtin::Println => {
            proof {
                assert(vals_view(args@).subrange(0, args@.len() as int) =~= vals_view(args@));
            }
            let mut st1 = append_displays(st, &args, 0);
            st1.push_out('\n');
            let n = crate::numeric::from_uint_raw(args.len() as u64);
            proof {
                assert(vals_view(args@).len() == args@.len());
                assert(st1@.output =~= st@.output + displays_cat(vals_view(args@)) + seq!['\n']);
            }
            (st1, Ok(Value::Number(n)))
        },
        Builtin::Input => {
            proof {
                assert(vals_view(args@).subrange(0, args@.len() as int) =~= vals_view(args@));
            }
            let mut st1 = append_displays(st, &args, 0);
            let line = st1.read_line();
            let t = trim_chars(&line);
            (st1, Ok(Value::String(t)))
        },
        Builtin::Int => {
            if args.len() != 1 {
                return (
                    st,
                    Err(
                        Stop::Fatal(
                            RunError {
                                kind: ErrorType::RuntimeError,
                                line: None,
                                ctx: make_builtin_name(k),
                            },
                        ),
                    ),
                );
            }
            proof {
                assert(vals_view(args@)[0] == args@[0]@);
            }
            match &args[0] {
                Value::Number(b) => {
                    let bb: u64 = *b;
                    (st, Ok(Value::Number(bb)))
                },
                Value::Bool(b) => (
                    st,
                    Ok(
                        Value::Number(
                            if *b {
                                ONE_BITS
                            } else {
                                ZERO_BITS
                            },
                        ),
                    ),
                ),
                Value::String(t) => match parse_raw(t) {
                    Some(b) => (st, Ok(Value::Number(b))),
                    None => (
                        st,
                        Err(
                            Stop::Fatal(
                                RunError {
                                    kind: ErrorType::RuntimeError,
                                    line: None,
                                    ctx: clone_chars(t),
                                },
                            ),
                        ),
                    ),
                },
                _ => (
                    st,
                    Err(
                        Stop::Fatal(
                            RunError {
                                kind: ErrorType::RuntimeError,
                                line: None,
                                ctx: make_builtin_name(k),
                            },
                        ),
                    ),
                ),
            }
        },
        Builtin::Str => {
            if args.len() != 1 {
                return (
                    st,
                    Err(
                        Stop::Fatal(
                            RunError {
                                kind: ErrorType::RuntimeError,
                                line: None,
                                ctx: make_builtin_name(k),
                            },
                        ),
                    ),
                );
            }
            proof {
                assert(vals_view(args@)[0] == args@[0]@);
            }
            match &args[0] {
                Value::Number(b) => (st, Ok(Value::String(display_number(*b)))),
                Value::Bool(b) => (
                    st,
                    Ok(
                        Value::String(
                            if *b {
                                make_text_true()
                            } else {
                                make_text_false()
                            },
                        ),
                    ),
                ),
                Value::String(t) => (st, Ok(Value::String(clone_chars(t)))),
                _ => (
                    st,
                    Err(
                        Stop::Fatal(
                            RunError {
                                kind: ErrorType::RuntimeError,
                                line: None,
                                ctx: make_builtin_name(k),
                            },
                        ),
                    ),
                ),
            }
        },
    }
}

// ---------------------------------------------------------------------------
// The evaluator
// ---------------------------------------------------------------------------

impl Expr {
    /// Evaluates this expression against the given program, state,
    /// environment and fuel, producing exactly the state and outcome of
    /// the definitional interpreter.
    pub fn eval(&self, prog: &Program, st: Interp, env: usize, fuel: u64) -> (r: (
        Interp,
        Result<Value, Stop>,
    ))
        ensures
            r.0@ == eval_expr_g(prog.bodies@, st@, env as int, *self, fuel as nat).0,
            vres(r.1) == eval_expr_g(prog.bodies@, st@, env as int, *self, fuel as nat).1,
        decreases fuel, *self, 1nat,
    {
        let ghost g = eval_expr_g(prog.bodies@, st@, env as int, *self, fuel as nat);
        match self {
            Expr::Number(b, _lex) => (st, Ok(Value::Number(*b))),
            Expr::Bool(b) => (st, Ok(Value::Bool(*b))),
            Expr::String(s) => (st, Ok(Value::String(clone_chars(s)))),
            Expr::Group(inner) => inner.eval(prog, st, env, fuel),
            Expr::Variable(t) => match st.get(env, &t.lexeme) {
                Some(v) => (st, Ok(v)),
                None => (
                    st,
                    Err(
                        Stop::Fatal(
                            RunError {
                                kind: ErrorType::UndefinedVariable,
                                line: None,
                                ctx: clone_chars(&t.lexeme),
                            },
                        ),
                    ),
                ),
            },
            Expr::Unary(op, rhs) => {
                let (st1, rr) = rhs.eval(prog, st, env, fuel);
                match rr {
                    Err(e) => (st1, Err(e)),
                    Ok(v) => match op {
                        Op::Not => match v {
                            Value::Bool(b) => (st1, Ok(Value::Bool(!b))),
                            _ => {
                                let mut st2 = st1;
                                st2.report(ErrorType::TypeError, Vec::new());
                                (st2, Ok(Value::Bool(false)))
                            },
                        },
                        Op::Sub => match v {
                            Value::Number(n) => (st1, Ok(Value::Number(neg_num(n)))),
                            _ => {
                                let mut st2 = st1;
                                st2.report(ErrorType::TypeError, Vec::new());
                                (st2, Ok(Value::Number(ZERO_BITS)))
                            },
                        },
                        _ => {
                            let mut st2 = st1;
                            st2.report(ErrorType::TypeError, Vec::new());
                            (st2, Ok(Value::Number(ZERO_BITS)))
                        },
                    },
                }
            },
            Expr::Binary(l, op, rhs) => {
                let (st1, lr) = l.eval(prog, st, env, fuel);
                match lr {
                    Err(e) => (st1, Err(e)),
                    Ok(lv) => {
                        let (st2, rr) = rhs.eval(prog, st1, env, fuel);
                        match rr {
                            Err(e) => (st2, Err(e)),
                            Ok(rv) => {
                                let (a, b, mut st3) = match (lv, rv) {
                                    (Value::Number(a), Value::Number(b)) => (a, b, st2),
                                    _ => {
                                        let mut stx = st2;
                                        stx.report(ErrorType::TypeError, Vec::new());
                                        (ZERO_BITS, ZERO_BITS, stx)
                                    },
                                };
                                match op {
                                    Op::Add => (st3, Ok(Value::Number(add_num(a, b)))),
                                    Op::Sub => (st3, Ok(Value::Number(sub_num(a, b)))),
                                    Op::Mul => (st3, Ok(Value::Number(mul_num(a, b)))),
                                    Op::Div => (st3, Ok(Value::Number(div_num(a, b)))),
                                    Op::Mod => (st3, Ok(Value::Number(rem_num(a, b)))),
                                    _ => {
                                        st3.report(ErrorType::TypeError, Vec::new());
                                        (st3, Ok(Value::Number(ZERO_BITS)))
                                    },
                                }
                            },
                        }
                    },
                }
            },
            Expr::Logic(l, op, rhs) => {
                let (st1, lr) = l.eval(prog, st, env, fuel);
                match lr {
                    Err(e) => (st1, Err(e)),
                    Ok(lv) => {
                        let (st2, rr) = rhs.eval(prog, st1, env, fuel);
                        match rr {
                            Err(e) => (st2, Err(e)),
                            Ok(rv) => {
                                let valid = matches!(
                                    op,
                                    Op::And | Op::Or | Op::Eq | Op::Ne | Op::Gt | Op::Ge | Op::Lt
                                        | Op::Le
                                );
                                match (&lv, &rv) {
                                    (Value::Bool(a), Value::Bool(b)) => if valid {
                                        (st2, Ok(Value::Bool(op.logic_bool(*a, *b))))
                                    } else {
                                        let mut st3 = st2;
                                        st3.report(ErrorType::TypeError, Vec::new());
                                        (st3, Ok(Value::Bool(false)))
                                    },
                                    (Value::Number(a), Value::Number(b)) => if valid {
                                        (st2, Ok(Value::Bool(op.logic_num(*a, *b))))
                                    } else {
                                        let mut st3 = st2;
                                        st3.report(ErrorType::TypeError, Vec::new());
                                        (st3, Ok(Value::Bool(false)))
                                    },
                                    (Value::String(a), Value::String(b)) => if valid {
                                        (st2, Ok(Value::Bool(op.logic_string(a, b))))
                                    } else {
                                        let mut st3 = st2;
                                        st3.report(ErrorType::TypeError, Vec::new());
                                        (st3, Ok(Value::Bool(false)))
                                    },
                                    _ => {
                                        let mut st3 = st2;
                                        st3.report(ErrorType::TypeError, Vec::new());
                                        (st3, Ok(Value::Bool(false)))
                                    },
                                }
                            },
                        }
                    },
                }
            },
            Expr::Int(inner) => {
                let (st1, rr) = inner.eval(prog, st, env, fuel);
                match rr {
                    Err(e) => (st1, Err(e)),
                    Ok(v) => match v {
                        Value::Number(b) => (st1, Ok(Value::Number(b))),
                        Value::Bool(b) => (
                            st1,
                            Ok(
                                Value::Number(
                                    if b {
                                        ONE_BITS
                                    } else {
                                        ZERO_BITS
                                    },
                                ),
                            ),
                        ),
                        Value::String(t) => match parse_raw(&t) {
                            Some(b) => (st1, Ok(Value::Number(b))),
                            None => (
                                st1,
                                Err(
                                    Stop::Fatal(
                                        RunError {
                                            kind: ErrorType::TypeError,
                                            line: None,
                                            ctx: t,
                                        },
                                    ),
                                ),
                            ),
                        },
                        _ => {
                            let mut st2 = st1;
                            st2.report(ErrorType::TypeError, Vec::new());
                            (st2, Ok(Value::Number(ZERO_BITS)))
                        },
                    },
                }
            },
            Expr::Input(stmt) => {
                let (st1, fr) = stmt.eval(prog, st, env, fuel);
                match fr {
                    Err(e) => (st1, Err(e)),
                    Ok(_) => {
                        let mut st2 = st1;
                        let line = st2.read_line();
                        let t = trim_chars(&line);
                        (st2, Ok(Value::String(t)))
                    },
                }
            },
            Expr::Call { callee, args } => {
                let (st1, cr) = callee.eval(prog, st, env, fuel);
                match cr {
                    Err(e) => (st1, Err(e)),
                    Ok(fv) => {
                        proof {
                            assert(args@.subrange(0, args@.len() as int) =~= args@);
                        }
                        let (st2, ar) = eval_exprs_from(prog, st1, env, args, 0, fuel);
                        match ar {
                            Err(e) => (st2, Err(e)),
                            Ok(vs) => call_value(prog, st2, fv, vs, fuel, Ghost(*self)),
                        }
                    },
                }
            },
        }
    }

    /// Evaluates this expression as a condition: a boolean is itself, a
    /// number goes by truthiness, anything else is reported and counts as
    /// false.
    pub fn condition_eval(&self, prog: &Program, st: Interp, env: usize, fuel: u64) -> (r: (
        Interp,
        Result<bool, Stop>,
    ))
        ensures
            r.0@ == cond_eval_g(prog.bodies@, st@, env as int, *self, fuel as nat).0,
            bres(r.1) == cond_eval_g(prog.bodies@, st@, env as int, *self, fuel as nat).1,
        decreases fuel, *self, 2nat,
    {
        let (st1, rr) = self.eval(prog, st, env, fuel);
        match rr {
            Err(e) => (st1, Err(e)),
            Ok(v) => match v {
                Value::Bool(b) => (st1, Ok(b)),
                Value::Number(n) => (st1, Ok(truthy(n))),
                _ => {
                    let mut st2 = st1;
                    st2.report(ErrorType::TypeError, Vec::new());
                    (st2, Ok(false))
                },
            },
        }
    }
}

/// Applies a called value to already-evaluated arguments. The ghost
/// argument carries the call expression, as the termination measure.
fn call_value(
    prog: &Program,
    st: Interp,
    fv: Value,
    vs: Vec<Value>,
    fuel: u64,
    Ghost(m): Ghost<Expr>,
) -> (r: (Interp, Result<Value, Stop>))
    ensures
        ({
            let gr = spec_call_value(prog.bodies@, st@, fv@, vals_view(vs@), fuel as nat);
            r.0@ == gr.0 && vres(r.1) == gr.1
        }),
    decreases fuel, m, 0nat,
{
    match fv {
        Value::Function { name, params, body, closure } => {
            if params.len() != vs.len() {
                proof {
                    assert(vals_view(vs@).len() == vs@.len());
                    assert(fv@ matches ValueG::Function { params: ps, .. } && ps.len()
                        == params@.len());
                }
                return (
                    st,
                    Err(
                        Stop::Fatal(
                            RunError { kind: ErrorType::RuntimeError, line: None, ctx: name },
                        ),
                    ),
                );
            }
            if body >= prog.bodies.len() {
                return (
                    st,
                    Err(
                        Stop::Fatal(
                            RunError { kind: ErrorType::RuntimeError, line: None, ctx: name },
                        ),
                    ),
                );
            }
            if fuel == 0 {
                return (st, Err(Stop::OutOfFuel));
            }
            let mut st = st;
            let ghost base = st@;
            let child = st.push_env(closure);
            let ghost pview = params@.map_values(|p: Vec<char>| p@);
            let ghost aview = vals_view(vs@);
            let mut k: usize = 0;
            while k < params.len()
                invariant
                    0 <= k <= params.len(),
                    params.len() == vs.len(),
                    child as int == base.envs.len(),
                    pview == params@.map_values(|p: Vec<char>| p@),
                    aview == vals_view(vs@),
                    pview.len() == params@.len(),
                    aview.len() == vs@.len(),
                    st@ == (StateG {
                        envs: base.envs.push(
                            crate::env::EnvG {
                                map: bind_upto(pview, aview, k as int),
                                parent: Some(closure as int),
                            },
                        ),
                        ..base
                    }),
                decreases params.len() - k,
            {
                let ghost before = st@;
                st.define(child, clone_chars(&params[k]), vs[k].dup());
                proof {
                    assert(aview[k as int] == vs@[k as int]@);
                    assert(pview[k as int] == params@[k as int]@);
                    assert(bind_upto(pview, aview, k + 1 as int) =~= bind_upto(
                        pview,
                        aview,
                        k as int,
                    ).insert(pview[k as int], aview[k as int]));
                    assert(st@.envs =~= base.envs.push(
                        crate::env::EnvG {
                            map: bind_upto(pview, aview, k + 1 as int),
                            parent: Some(closure as int),
                        },
                    ));
                    assert(st@ =~= (StateG {
                        envs: base.envs.push(
                            crate::env::EnvG {
                                map: bind_upto(pview, aview, k + 1 as int),
                                parent: Some(closure as int),
                            },
                        ),
                        ..base
                    }));
                }
                k = k + 1;
            }
            let (st2, fr) = prog.bodies[body].eval(prog, st, child, fuel - 1);
            match fr {
                Err(e) => (st2, Err(e)),
                Ok(ControlFlow::Return(v)) => (st2, Ok(v)),
                Ok(_) => (st2, Ok(Value::Nil)),
            }
        },
        Value::FuncBuiltIn { name } => builtin_call(st, name, vs),
        _ => (
            st,
            Err(
                Stop::Fatal(
                    RunError { kind: ErrorType::TypeError, line: None, ctx: Vec::new() },
                ),
            ),
        ),
    }
}

/// What applying a called value means: the part of expression evaluation
/// that follows the arguments, written out for reuse in the proof.
pub open spec fn spec_call_value(
    bodies: Seq<Stmt>,
    s: StateG,
    fv: ValueG,
    vs: Seq<ValueG>,
    fuel: nat,
) -> (StateG, Result<ValueG, StopG>)
    decreases fuel, 0nat, 0nat,
{
    match fv {
        ValueG::Function { name, params, body, closure } => {
            if params.len() != vs.len() {
                (s, Err(crate::semantics::fatal(ErrorType::RuntimeError, name)))
            } else if !(0 <= body < bodies.len()) {
                (s, Err(crate::semantics::fatal(ErrorType::RuntimeError, name)))
            } else if fuel == 0 {
                (s, Err(StopG::OutOfFuel))
            } else {
                let child = s.envs.len() as int;
                let s1 = StateG {
                    envs: s.envs.push(
                        crate::env::EnvG {
                            map: bind_upto(params, vs, params.len() as int),
                            parent: Some(closure),
                        },
                    ),
                    ..s
                };
                let (s2, fr) = eval_stmt_g(bodies, s1, child, bodies[body], (fuel - 1) as nat);
                match fr {
                    Ok(FlowG::Return(v)) => (s2, Ok(v)),
                    Ok(_) => (s2, Ok(ValueG::Nil)),
                    Err(e2) => (s2, Err(e2)),
                }
            }
        },
        ValueG::FuncBuiltIn(k) => builtin_g(s, k, vs),
        _ => (s, Err(crate::semantics::fatal(ErrorType::TypeError, Seq::empty()))),
    }
}

/// Evaluates `es[i..]` left to right, collecting the values.
fn eval_exprs_from(prog: &Program, st: Interp, env: usize, es: &Vec<Expr>, i: usize, fuel: u64) -> (r: (
    Interp,
    Result<Vec<Value>, Stop>,
))
    requires
        i <= es.len(),
    ensures
        ({
            let gr = eval_exprs_g(
                prog.bodies@,
                st@,
                env as int,
                es@.subrange(i as int, es@.len() as int),
                fuel as nat,
            );
            r.0@ == gr.0 && vsres(r.1) == gr.1
        }),
    decreases fuel, es@, es@.len() - i,
{
    let ghost sub = es@.subrange(i as int, es@.len() as int);
    if i == es.len() {
        let empty: Vec<Value> = Vec::new();
        proof {
            assert(vals_view(empty@) =~= Seq::<ValueG>::empty());
        }
        (st, Ok(empty))
    } else {
        proof {
            assert(sub[0] == es@[i as int]);
        }
        let (st1, rr) = es[i].eval(prog, st, env, fuel);
        match rr {
            Err(e) => (st1, Err(e)),
            Ok(v) => {
                let (st2, rs) = eval_exprs_from(prog, st1, env, es, i + 1, fuel);
                proof {
                    assert(sub.subrange(1, sub.len() as int) =~= es@.subrange(
                        i + 1 as int,
                        es@.len() as int,
                    ));
                }
                match rs {
                    Err(e) => (st2, Err(e)),
                    Ok(mut vs) => {
                        let ghost tailv = vals_view(vs@);
                        vs.insert(0, v);
                        proof {
                            assert(vals_view(vs@) =~= seq![v@] + tailv);
                        }
                        (st2, Ok(vs))
                    },
                }
            },
        }
    }
}

/// Evaluates `es[i..]` left to right, writing each display form as it is
/// produced.
fn print_exprs_from(prog: &Program, st: Interp, env: usize, es: &Vec<Expr>, i: usize, fuel: u64) -> (r: (
    Interp,
    Result<(), Stop>,
))
    requires
        i <= es.len(),
    ensures
        ({
            let gr = print_exprs_g(
                prog.bodies@,
                st@,
                env as int,
                es@.subrange(i as int, es@.len() as int),
                fuel as nat,
            );
            r.0@ == gr.0 && (match r.1 {
                Ok(u) => gr.1 == Ok::<(), StopG>(u),
                Err(e) => gr.1 == Err::<(), StopG>(e@),
            })
        }),
    decreases fuel, es@, es@.len() - i,
{
    let ghost sub = es@.subrange(i as int, es@.len() as int);
    if i == es.len() {
        (st, Ok(()))
    } else {
        proof {
            assert(sub[0] == es@[i as int]);
        }
        let (st1, rr) = es[i].eval(prog, st, env, fuel);
        match rr {
            Err(e) => (st1, Err(e)),
            Ok(v) => {
                let mut st1 = st1;
                let d = display_value(&v);
                st1.append_out(&d);
                proof {
                    assert(sub.subrange(1, sub.len() as int) =~= es@.subrange(
                        i + 1 as int,
                        es@.len() as int,
                    ));
                }
                print_exprs_from(prog, st1, env, es, i + 1, fuel)
            },
        }
    }
}

/// Executes `sts[i..]` in order within one scope, stopping at the first
/// break, continue or return signal.
fn eval_stmts_from(prog: &Program, st: Interp, env: usize, sts: &Vec<Stmt>, i: usize, fuel: u64) -> (r: (
    Interp,
    Result<ControlFlow, Stop>,
))
    requires
        i <= sts.len(),
    ensures
        ({
            let gr = eval_stmts_g(
                prog.bodies@,
                st@,
                env as int,
                sts@.subrange(i as int, sts@.len() as int),
                fuel as nat,
            );
            r.0@ == gr.0 && fres(r.1) == gr.1
        }),
    decreases fuel, sts@, sts@.len() - i,
{
    let ghost sub = sts@.subrange(i as int, sts@.len() as int);
    if i == sts.len() {
        (st, Ok(ControlFlow::Nothing))
    } else {
        proof {
            assert(sub[0] == sts@[i as int]);
        }
        let (st1, fr) = sts[i].eval(prog, st, env, fuel);
        match fr {
            Err(e) => (st1, Err(e)),
            Ok(f) => {
                proof {
                    assert(sub.subrange(1, sub.len() as int) =~= sts@.subrange(
                        i + 1 as int,
                        sts@.len() as int,
                    ));
                }
                match f {
                    ControlFlow::Break | ControlFlow::Continue | ControlFlow::Return(_) => (
                        st1,
                        Ok(f),
                    ),
                    _ => eval_stmts_from(prog, st1, env, sts, i + 1, fuel),
                }
            },
        }
    }
}

impl Stmt {
    /// Executes this statement against the given program, state,
    /// environment and fuel, producing exactly the state and signal of
    /// the definitional interpreter.
    #[verifier::loop_isolation(false)]
    pub fn eval(&self, prog: &Program, st: Interp, env: usize, fuel: u64) -> (r: (
        Interp,
        Result<ControlFlow, Stop>,
    ))
        ensures
            r.0@ == eval_stmt_g(prog.bodies@, st@, env as int, *self, fuel as nat).0,
            fres(r.1) == eval_stmt_g(prog.bodies@, st@, env as int, *self, fuel as nat).1,
        decreases fuel, *self, 3nat,
    {
        match self {
            Stmt::Expr(e) => {
                let (st1, rr) = e.eval(prog, st, env, fuel);
                match rr {
                    Err(er) => (st1, Err(er)),
                    Ok(v) => (st1, Ok(ControlFlow::Value(v))),
                }
            },
            Stmt::Let(t, e) => {
                let (st1, rr) = e.eval(prog, st, env, fuel);
                match rr {
                    Err(er) => (st1, Err(er)),
                    Ok(v) => {
                        let mut st2 = st1;
                        let copy = v.dup();
                        st2.define(env, clone_chars(&t.lexeme), copy);
                        (st2, Ok(ControlFlow::Value(v)))
                    },
                }
            },
            Stmt::Assign(t, e) => {
                let (st1, rr) = e.eval(prog, st, env, fuel);
                match rr {
                    Err(er) => (st1, Err(er)),
                    Ok(v) => {
                        let mut st2 = st1;
                        if st2.assign(env, &t.lexeme, v) {
                            (st2, Ok(ControlFlow::Nothing))
                        } else {
                            (
                                st2,
                                Err(
                                    Stop::Fatal(
                                        RunError {
                                            kind: ErrorType::UndefinedVariable,
                                            line: None,
                                            ctx: clone_chars(&t.lexeme),
                                        },
                                    ),
                                ),
                            )
                        }
                    },
                }
            },
            Stmt::Group(sts) => {
                let mut st = st;
                let child = st.push_env(env);
                proof {
                    assert(sts@.subrange(0, sts@.len() as int) =~= sts@);
                }
                eval_stmts_from(prog, st, child, sts, 0, fuel)
            },
            Stmt::Print(es) => {
                proof {
                    assert(es@.subrange(0, es@.len() as int) =~= es@);
                }
                let (st1, rr) = print_exprs_from(prog, st, env, es, 0, fuel);
                match rr {
                    Err(er) => (st1, Err(er)),
                    Ok(_) => {
                        let mut st2 = st1;
                        st2.push_out('\n');
                        (st2, Ok(ControlFlow::Nothing))
                    },
                }
            },
            Stmt::If(c, t, els) => {
                let (st1, cr) = c.condition_eval(prog, st, env, fuel);
                match cr {
                    Err(er) => (st1, Err(er)),
                    Ok(b) => {
                        if b {
                            t.eval(prog, st1, env, fuel)
                        } else {
                            match els {
                                Some(e2) => e2.eval(prog, st1, env, fuel),
                                None => (st1, Ok(ControlFlow::Nothing)),
                            }
                        }
                    },
                }
            },
            Stmt::While(c, b) => {
                let ghost g0 = eval_stmt_g(prog.bodies@, st@, env as int, *self, fuel as nat);
                let mut cur = st;
                let mut f = fuel;
                loop
                    invariant
                        f <= fuel,
                        g0 == eval_stmt_g(prog.bodies@, cur@, env as int, *self, f as nat),
                    decreases f,
                {
                    let (st1, cr) = c.condition_eval(prog, cur, env, f);
                    match cr {
                        Err(er) => {
                            return (st1, Err(er));
                        },
                        Ok(cb) => {
                            if !cb {
                                return (st1, Ok(ControlFlow::Nothing));
                            }
                            let (st2, fr) = b.eval(prog, st1, env, f);
                            match fr {
                                Err(er) => {
                                    return (st2, Err(er));
                                },
                                Ok(ControlFlow::Break) => {
                                    return (st2, Ok(ControlFlow::Nothing));
                                },
                                Ok(ControlFlow::Return(v)) => {
                                    return (st2, Ok(ControlFlow::Return(v)));
                                },
                                Ok(_) => {
                                    if f == 0 {
                                        return (st2, Err(Stop::OutOfFuel));
                                    }
                                    f = f - 1;
                                    cur = st2;
                                },
                            }
                        },
                    }
                }
            },
            Stmt::Break => (st, Ok(ControlFlow::Break)),
            Stmt::Continue => (st, Ok(ControlFlow::Continue)),
            Stmt::Return(opt) => match opt {
                None => (st, Ok(ControlFlow::Return(Value::Nil))),
                Some(e) => {
                    let (st1, rr) = e.eval(prog, st, env, fuel);
                    match rr {
                        Err(er) => (st1, Err(er)),
                        Ok(v) => (st1, Ok(ControlFlow::Return(v))),
                    }
                },
            },
            Stmt::Function(t, params, body) => {
                let mut ps: Vec<Vec<char>> = Vec::new();
                let mut k: usize = 0;
                while k < params.len()
                    invariant
                        0 <= k <= params.len(),
                        ps@.len() == k,
                        forall|j: int| 0 <= j < k ==> ps@[j]@ == params@[j]@.lexeme,
                    decreases params.len() - k,
                {
                    ps.push(clone_chars(&params[k].lexeme));
                    k = k + 1;
                }
                proof {
                    assert(ps@.map_values(|p: Vec<char>| p@) =~= params@.map_values(
                        |p: crate::token::Token| p@.lexeme,
                    ));
                }
                let v = Value::Function {
                    name: clone_chars(&t.lexeme),
                    params: ps,
                    body: *body,
                    closure: env,
                };
                let mut st = st;
                st.define(env, clone_chars(&t.lexeme), v);
                (st, Ok(ControlFlow::Nothing))
            },
        }
    }
}

/// Runs a program's top-level statements from `i` on against the root
/// environment, discarding every non-fatal signal.
pub fn run_stmts_from(prog: &Program, st: Interp, i: usize, fuel: u64) -> (r: (
    Interp,
    Result<(), Stop>,
))
    requires
        i <= prog.stmts.len(),
    ensures
        ({
            let gr = run_stmts_g(
                prog.bodies@,
                st@,
                prog.stmts@.subrange(i as int, prog.stmts@.len() as int),
                fuel as nat,
            );
            r.0@ == gr.0 && (match r.1 {
                Ok(u) => gr.1 == Ok::<(), StopG>(u),
                Err(e) => gr.1 == Err::<(), StopG>(e@),
            })
        }),
    decreases prog.stmts@.len() - i,
{
    let ghost sub = prog.stmts@.subrange(i as int, prog.stmts@.len() as int);
    if i == prog.stmts.len() {
        (st, Ok(()))
    } else {
        proof {
            assert(sub[0] == prog.stmts@[i as int]);
        }
        let (st1, fr) = prog.stmts[i].eval(prog, st, 0, fuel);
        match fr {
            Err(e) => (st1, Err(e)),
            Ok(_) => {
                proof {
                    assert(sub.subrange(1, sub.len() as int) =~= prog.stmts@.subrange(
                        i + 1 as int,
                        prog.stmts@.len() as int,
                    ));
                }
                run_stmts_from(prog, st1, i + 1, fuel)
            },
        }
    }
}

} // verus!
