//! General laws of the interpreter, stated and proved against the
//! definitional semantics: scoping, closures, and loop control flow.

use vstd::prelude::*;

use crate::env::{assign_g, lookup_g, EnvG, StateG, ValueG};
use crate::error::RunErrorG;
use crate::source::{
    ident_len, is_alpha_char, is_ident_char, is_pair_start, is_single_char, keyword_kind,
    lex_from, pair_alone_kind, pair_eq_kind, single_kind,
};
use crate::parser::{expr_fits_at, op_token_kind};
use crate::token::{TokenG, TokenType};
use crate::error::StopG;
use crate::expr::{Expr, Op};
use crate::semantics::{
    bind_upto, cond_eval_g, eval_expr_g, eval_exprs_g, eval_stmt_g, eval_stmts_g, fatal,
    print_exprs_g,
};
use crate::stmt::{FlowG, Stmt};
use crate::token::Token;

verus! {

// ---------------------------------------------------------------------------
// Scoping: assignment resolves to the nearest enclosing binding
// ---------------------------------------------------------------------------

/// Assignment fails exactly when resolution fails: `assign` finds an
/// enclosing binding if and only if `get` would.
pub proof fn lemma_assign_none_iff_lookup_none(
    envs: Seq<EnvG>,
    i: int,
    name: Seq<char>,
    v: ValueG,
)
    ensures
        (assign_g(envs, i, name, v) is None) <==> (lookup_g(envs, i, name) is None),
    decreases i,
{
    if 0 <= i < envs.len() && !envs[i].map.contains_key(name) {
        match envs[i].parent {
            Some(p) => {
                if 0 <= p < i {
                    lemma_assign_none_iff_lookup_none(envs, p, name, v);
                }
            },
            None => {},
        }
    }
}

/// Assignment to a name defined in an enclosing scope mutates that
/// enclosing binding: a subsequent read from the same scope chain sees
/// the assigned value.
pub proof fn lemma_assign_updates_enclosing(envs: Seq<EnvG>, i: int, name: Seq<char>, v: ValueG)
    requires
        assign_g(envs, i, name, v) is Some,
    ensures
        ({
            let envs2 = assign_g(envs, i, name, v)->Some_0;
            &&& envs2.len() == envs.len()
            &&& lookup_g(envs2, i, name) == Some(v)
        }),
    decreases i,
{
    let envs2 = assign_g(envs, i, name, v)->Some_0;
    if envs[i].map.contains_key(name) {
        assert(envs2[i].map.contains_key(name));
    } else {
        match envs[i].parent {
            Some(p) => {
                lemma_assign_updates_enclosing(envs, p, name, v);
                assert(assign_g(envs, p, name, v)->Some_0 == envs2);
                lemma_assign_touches_only_defining(envs, p, name, v, i);
                assert(envs2[i] == envs[i]);
            },
            None => {},
        }
    }
}

/// Assignment rewrites one environment that already binds the name; any
/// environment that does not bind it is untouched.
proof fn lemma_assign_touches_only_defining(
    envs: Seq<EnvG>,
    i: int,
    name: Seq<char>,
    v: ValueG,
    j: int,
)
    requires
        assign_g(envs, i, name, v) is Some,
        0 <= j < envs.len(),
        !envs[j].map.contains_key(name),
    ensures
        assign_g(envs, i, name, v)->Some_0[j] == envs[j],
    decreases i,
{
    if envs[i].map.contains_key(name) {
    } else {
        match envs[i].parent {
            Some(p) => {
                lemma_assign_touches_only_defining(envs, p, name, v, j);
            },
            None => {},
        }
    }
}

// ---------------------------------------------------------------------------
// The frame law: evaluation only ever adds environments, never removes
// one, never rewires a parent link, and changes the set of bound names
// only in the environment it executes in
// ---------------------------------------------------------------------------

/// What evaluation preserves of the pre-existing arena, executing in
/// environment `env`.
pub open spec fn frame_ok(s: StateG, s2: StateG, env: int) -> bool {
    &&& s2.envs.len() >= s.envs.len()
    &&& forall|j: int| 0 <= j < s.envs.len() ==> (#[trigger] s2.envs[j]).parent == s.envs[j].parent
    &&& forall|j: int|
        0 <= j < s.envs.len() && j != env ==> (#[trigger] s2.envs[j]).map.dom() =~= s.envs[j].map.dom()
}

proof fn lemma_frame_trans(s: StateG, s1: StateG, s2: StateG, env: int)
    requires
        frame_ok(s, s1, env),
        frame_ok(s1, s2, env),
    ensures
        frame_ok(s, s2, env),
{
}

/// A frame within a fresh environment preserves every older environment
/// outright.
proof fn lemma_frame_in_fresh(s: StateG, s1: StateG, s2: StateG, child: int, env: int)
    requires
        frame_ok(s1, s2, child),
        s1.envs.len() > s.envs.len() || child >= s.envs.len(),
        child >= s.envs.len(),
        s1.envs.len() >= s.envs.len(),
        forall|j: int| 0 <= j < s.envs.len() ==> (#[trigger] s1.envs[j]).parent == s.envs[j].parent,
        forall|j: int|
            0 <= j < s.envs.len() ==> (#[trigger] s1.envs[j]).map.dom() =~= s.envs[j].map.dom(),
    ensures
        frame_ok(s, s2, env),
{
}

/// Assignment preserves every environment's domain and parent.
proof fn lemma_assign_frame(envs: Seq<EnvG>, i: int, name: Seq<char>, v: ValueG)
    requires
        assign_g(envs, i, name, v) is Some,
    ensures
        ({
            let envs2 = assign_g(envs, i, name, v)->Some_0;
            &&& envs2.len() == envs.len()
            &&& forall|j: int|
                0 <= j < envs.len() ==> (#[trigger] envs2[j]).parent == envs[j].parent
            &&& forall|j: int|
                0 <= j < envs.len() ==> (#[trigger] envs2[j]).map.dom() =~= envs[j].map.dom()
        }),
    decreases i,
{
    if envs[i].map.contains_key(name) {
        let envs2 = assign_g(envs, i, name, v)->Some_0;
        assert(envs2[i].map.dom() =~= envs[i].map.dom());
    } else {
        match envs[i].parent {
            Some(p) => {
                if 0 <= p < i {
                    lemma_assign_frame(envs, p, name, v);
                }
            },
            None => {},
        }
    }
}

proof fn frame_expr(bodies: Seq<Stmt>, s: StateG, env: int, e: Expr, fuel: nat)
    ensures
        frame_ok(s, eval_expr_g(bodies, s, env, e, fuel).0, env),
    decreases fuel, e, 0nat,
{
    let r = eval_expr_g(bodies, s, env, e, fuel);
    match e {
        Expr::Number(..) => {},
        Expr::Bool(..) => {},
        Expr::String(..) => {},
        Expr::Group(inner) => {
            frame_expr(bodies, s, env, *inner, fuel);
        },
        Expr::Variable(..) => {},
        Expr::Unary(_op, rhs) => {
            frame_expr(bodies, s, env, *rhs, fuel);
        },
        Expr::Binary(l, _op, rhs) => {
            frame_expr(bodies, s, env, *l, fuel);
            let (s1, lr) = eval_expr_g(bodies, s, env, *l, fuel);
            if lr is Ok {
                frame_expr(bodies, s1, env, *rhs, fuel);
                lemma_frame_trans(s, s1, eval_expr_g(bodies, s1, env, *rhs, fuel).0, env);
            }
        },
        Expr::Logic(l, _op, rhs) => {
            frame_expr(bodies, s, env, *l, fuel);
            let (s1, lr) = eval_expr_g(bodies, s, env, *l, fuel);
            if lr is Ok {
                frame_expr(bodies, s1, env, *rhs, fuel);
                lemma_frame_trans(s, s1, eval_expr_g(bodies, s1, env, *rhs, fuel).0, env);
            }
        },
        Expr::Int(inner) => {
            frame_expr(bodies, s, env, *inner, fuel);
        },
        Expr::Input(stmt) => {
            frame_stmt(bodies, s, env, *stmt, fuel);
        },
        Expr::Call { callee, args } => {
            frame_expr(bodies, s, env, *callee, fuel);
            let (s1, cr) = eval_expr_g(bodies, s, env, *callee, fuel);
            if cr is Ok {
                frame_exprs(bodies, s1, env, args@, fuel);
                let (s2, ar) = eval_exprs_g(bodies, s1, env, args@, fuel);
                lemma_frame_trans(s, s1, s2, env);
                match ar {
                    Ok(vs) => {
                        let fv = cr->Ok_0;
                        match fv {
                            ValueG::Function { name, params, body, closure } => {
                                if params.len() == vs.len() && 0 <= body < bodies.len() && fuel
                                    != 0 {
                                    let child = s2.envs.len() as int;
                                    let s3 = StateG {
                                        envs: s2.envs.push(
                                            EnvG {
                                                map: bind_upto(params, vs, params.len() as int),
                                                parent: Some(closure),
                                            },
                                        ),
                                        ..s2
                                    };
                                    frame_stmt(bodies, s3, child, bodies[body], (fuel - 1) as nat);
                                    let s4 = eval_stmt_g(
                                        bodies,
                                        s3,
                                        child,
                                        bodies[body],
                                        (fuel - 1) as nat,
                                    ).0;
                                    lemma_frame_in_fresh(s2, s3, s4, child, env);
                                    lemma_frame_trans(s, s2, s4, env);
                                }
                            },
                            _ => {},
                        }
                    },
                    Err(_) => {},
                }
            }
        },
    }
}

proof fn frame_exprs(bodies: Seq<Stmt>, s: StateG, env: int, es: Seq<Expr>, fuel: nat)
    ensures
        frame_ok(s, eval_exprs_g(bodies, s, env, es, fuel).0, env),
    decreases fuel, es, 0nat,
{
    if es.len() == 0 {
    } else {
        frame_expr(bodies, s, env, es[0], fuel);
        let (s1, r) = eval_expr_g(bodies, s, env, es[0], fuel);
        if r is Ok {
            frame_exprs(bodies, s1, env, es.subrange(1, es.len() as int), fuel);
            lemma_frame_trans(
                s,
                s1,
                eval_exprs_g(bodies, s1, env, es.subrange(1, es.len() as int), fuel).0,
                env,
            );
        }
    }
}

proof fn frame_print_exprs(bodies: Seq<Stmt>, s: StateG, env: int, es: Seq<Expr>, fuel: nat)
    ensures
        frame_ok(s, print_exprs_g(bodies, s, env, es, fuel).0, env),
    decreases fuel, es, 1nat,
{
    if es.len() == 0 {
    } else {
        frame_expr(bodies, s, env, es[0], fuel);
        let (s1, r) = eval_expr_g(bodies, s, env, es[0], fuel);
        match r {
            Ok(v) => {
                let s2 = StateG {
                    output: s1.output + crate::semantics::display_value_g(v),
                    ..s1
                };
                frame_print_exprs(bodies, s2, env, es.subrange(1, es.len() as int), fuel);
                lemma_frame_trans(
                    s,
                    s2,
                    print_exprs_g(bodies, s2, env, es.subrange(1, es.len() as int), fuel).0,
                    env,
                );
            },
            Err(_) => {},
        }
    }
}

proof fn frame_cond(bodies: Seq<Stmt>, s: StateG, env: int, e: Expr, fuel: nat)
    ensures
        frame_ok(s, cond_eval_g(bodies, s, env, e, fuel).0, env),
    decreases fuel, e, 1nat,
{
    frame_expr(bodies, s, env, e, fuel);
}

proof fn frame_stmt(bodies: Seq<Stmt>, s: StateG, env: int, st: Stmt, fuel: nat)
    ensures
        frame_ok(s, eval_stmt_g(bodies, s, env, st, fuel).0, env),
    decreases fuel, st, 2nat,
{
    match st {
        Stmt::Expr(e) => {
            frame_expr(bodies, s, env, e, fuel);
        },
        Stmt::Let(_t, e) => {
            frame_expr(bodies, s, env, e, fuel);
            let (s1, r) = eval_expr_g(bodies, s, env, e, fuel);
            if r is Ok {
                assert(frame_ok(s1, eval_stmt_g(bodies, s, env, st, fuel).0, env));
                lemma_frame_trans(s, s1, eval_stmt_g(bodies, s, env, st, fuel).0, env);
            }
        },
        Stmt::Assign(t, e) => {
            frame_expr(bodies, s, env, e, fuel);
            let (s1, r) = eval_expr_g(bodies, s, env, e, fuel);
            match r {
                Ok(v) => {
                    match assign_g(s1.envs, env, t@.lexeme, v) {
                        Some(_) => {
                            lemma_assign_frame(s1.envs, env, t@.lexeme, v);
                            lemma_frame_trans(s, s1, eval_stmt_g(bodies, s, env, st, fuel).0, env);
                        },
                        None => {},
                    }
                },
                Err(_) => {},
            }
        },
        Stmt::Group(sts) => {
            let child = s.envs.len() as int;
            let s1 = StateG {
                envs: s.envs.push(EnvG { map: Map::empty(), parent: Some(env) }),
                ..s
            };
            frame_stmts(bodies, s1, child, sts@, fuel);
            let s2 = eval_stmts_g(bodies, s1, child, sts@, fuel).0;
            lemma_frame_in_fresh(s, s1, s2, child, env);
        },
        Stmt::Print(es) => {
            frame_print_exprs(bodies, s, env, es@, fuel);
        },
        Stmt::If(c, t, els) => {
            frame_cond(bodies, s, env, c, fuel);
            let (s1, cr) = cond_eval_g(bodies, s, env, c, fuel);
            match cr {
                Ok(b) => {
                    if b {
                        frame_stmt(bodies, s1, env, *t, fuel);
                        lemma_frame_trans(s, s1, eval_stmt_g(bodies, s1, env, *t, fuel).0, env);
                    } else {
                        match els {
                            Some(e2) => {
                                frame_stmt(bodies, s1, env, *e2, fuel);
                                lemma_frame_trans(
                                    s,
                                    s1,
                                    eval_stmt_g(bodies, s1, env, *e2, fuel).0,
                                    env,
                                );
                            },
                            None => {},
                        }
                    }
                },
                Err(_) => {},
            }
        },
        Stmt::While(c, b) => {
            frame_cond(bodies, s, env, c, fuel);
            let (s1, cr) = cond_eval_g(bodies, s, env, c, fuel);
            match cr {
                Ok(cb) => {
                    if cb {
                        frame_stmt(bodies, s1, env, *b, fuel);
                        let (s2, fr) = eval_stmt_g(bodies, s1, env, *b, fuel);
                        lemma_frame_trans(s, s1, s2, env);
                        match fr {
                            Ok(FlowG::Break) => {},
                            Ok(FlowG::Return(_)) => {},
                            Ok(_) => {
                                if fuel != 0 {
                                    frame_stmt(bodies, s2, env, st, (fuel - 1) as nat);
                                    lemma_frame_trans(
                                        s,
                                        s2,
                                        eval_stmt_g(bodies, s2, env, st, (fuel - 1) as nat).0,
                                        env,
                                    );
                                }
                            },
                            Err(_) => {},
                        }
                    }
                },
                Err(_) => {},
            }
        },
        Stmt::Break => {},
        Stmt::Continue => {},
        Stmt::Return(opt) => {
            match opt {
                None => {},
                Some(e) => {
                    frame_expr(bodies, s, env, e, fuel);
                },
            }
        },
        Stmt::Function(..) => {},
    }
}

proof fn frame_stmts(bodies: Seq<Stmt>, s: StateG, env: int, sts: Seq<Stmt>, fuel: nat)
    ensures
        frame_ok(s, eval_stmts_g(bodies, s, env, sts, fuel).0, env),
    decreases fuel, sts, 0nat,
{
    if sts.len() == 0 {
    } else {
        frame_stmt(bodies, s, env, sts[0], fuel);
        let (s1, fr) = eval_stmt_g(bodies, s, env, sts[0], fuel);
        match fr {
            Ok(f) => match f {
                FlowG::Break | FlowG::Continue | FlowG::Return(_) => {},
                _ => {
                    frame_stmts(bodies, s1, env, sts.subrange(1, sts.len() as int), fuel);
                    lemma_frame_trans(
                        s,
                        s1,
                        eval_stmts_g(bodies, s1, env, sts.subrange(1, sts.len() as int), fuel).0,
                        env,
                    );
                },
            },
            Err(_) => {},
        }
    }
}

// ---------------------------------------------------------------------------
// Block scoping
// ---------------------------------------------------------------------------

/// Executing a `{}` block touches no pre-existing environment's set of
/// bound names and no parent link — everything the block declares lives
/// in its own fresh child scope, including declarations in the
/// surrounding environment's own scope.
pub proof fn lemma_block_leaves_scopes_intact(
    bodies: Seq<Stmt>,
    s: StateG,
    env: int,
    sts: Vec<Stmt>,
    fuel: nat,
)
    ensures
        ({
            let s2 = eval_stmt_g(bodies, s, env, Stmt::Group(sts), fuel).0;
            &&& s2.envs.len() >= s.envs.len()
            &&& forall|j: int|
                0 <= j < s.envs.len() ==> (#[trigger] s2.envs[j]).parent == s.envs[j].parent
            &&& forall|j: int|
                0 <= j < s.envs.len() ==> (#[trigger] s2.envs[j]).map.dom() =~= s.envs[j].map.dom()
        }),
{
    let child = s.envs.len() as int;
    let s1 = StateG { envs: s.envs.push(EnvG { map: Map::empty(), parent: Some(env) }), ..s };
    frame_stmts(bodies, s1, child, sts@, fuel);
}

/// A name unbound on the scope chain before a `{}` block runs is still
/// unbound there after the block ends: what the block declared is gone
/// with its scope.
pub proof fn lemma_block_binding_invisible_after(
    bodies: Seq<Stmt>,
    s: StateG,
    env: int,
    sts: Vec<Stmt>,
    fuel: nat,
    name: Seq<char>,
)
    requires
        env < s.envs.len(),
        lookup_g(s.envs, env, name) is None,
    ensures
        lookup_g(eval_stmt_g(bodies, s, env, Stmt::Group(sts), fuel).0.envs, env, name) is None,
{
    lemma_block_leaves_scopes_intact(bodies, s, env, sts, fuel);
    let s2 = eval_stmt_g(bodies, s, env, Stmt::Group(sts), fuel).0;
    lemma_unbound_stays_unbound(s, s2, env, name);
}

/// A name with no binding anywhere on a scope chain stays unbound there
/// when evaluation preserves domains and parent links: what a block
/// defined inside its own scope is not visible after the block ends.
pub proof fn lemma_unbound_stays_unbound(s: StateG, s2: StateG, e: int, name: Seq<char>)
    requires
        s2.envs.len() >= s.envs.len(),
        forall|j: int| 0 <= j < s.envs.len() ==> (#[trigger] s2.envs[j]).parent == s.envs[j].parent,
        forall|j: int|
            0 <= j < s.envs.len() ==> (#[trigger] s2.envs[j]).map.dom() =~= s.envs[j].map.dom(),
        e < s.envs.len(),
        lookup_g(s.envs, e, name) is None,
    ensures
        lookup_g(s2.envs, e, name) is None,
    decreases e,
{
    if 0 <= e < s.envs.len() {
        assert(!s.envs[e].map.contains_key(name));
        assert(s2.envs[e].map.dom() =~= s.envs[e].map.dom());
        assert(!s2.envs[e].map.contains_key(name));
        match s.envs[e].parent {
            Some(p) => {
                if 0 <= p < e {
                    lemma_unbound_stays_unbound(s, s2, p, name);
                }
            },
            None => {},
        }
    }
}

/// Assignment to a name that no enclosing scope defines is a fatal
/// undefined-variable error; assignment never creates a binding.
pub proof fn lemma_assign_undefined_is_fatal(
    bodies: Seq<Stmt>,
    s: StateG,
    env: int,
    t: Token,
    e: Expr,
    fuel: nat,
)
    ensures
        ({
            let (s1, r) = eval_expr_g(bodies, s, env, e, fuel);
            r matches Ok(v) && lookup_g(s1.envs, env, t@.lexeme) is None
                ==> eval_stmt_g(bodies, s, env, Stmt::Assign(t, e), fuel) == (
                s1,
                Err::<FlowG, StopG>(fatal(crate::error::ErrorType::UndefinedVariable, t@.lexeme)),
            )
        }),
{
    let (s1, r) = eval_expr_g(bodies, s, env, e, fuel);
    match r {
        Ok(v) => {
            if lookup_g(s1.envs, env, t@.lexeme) is None {
                lemma_assign_none_iff_lookup_none(s1.envs, env, t@.lexeme, v);
            }
        },
        Err(_) => {},
    }
}

// ---------------------------------------------------------------------------
// Closures
// ---------------------------------------------------------------------------

/// Calling a function runs its body in a fresh environment whose parent
/// is the environment captured at the declaration site — not the
/// caller's — which is what makes functions lexically scoped; and the
/// captured environment still exists, because the arena only ever grows.
pub proof fn lemma_call_runs_in_captured_scope(
    bodies: Seq<Stmt>,
    s: StateG,
    name: Seq<char>,
    params: Seq<Seq<char>>,
    body: int,
    closure: int,
    vs: Seq<ValueG>,
    fuel: nat,
)
    requires
        params.len() == vs.len(),
        0 <= body < bodies.len(),
        fuel > 0,
    ensures
        ({
            let fv = ValueG::Function { name, params, body, closure };
            let child = s.envs.len() as int;
            let s1 = StateG {
                envs: s.envs.push(
                    EnvG { map: bind_upto(params, vs, params.len() as int), parent: Some(closure) },
                ),
                ..s
            };
            &&& s1.envs[child].parent == Some(closure)
            &&& crate::eval::spec_call_value(bodies, s, fv, vs, fuel) == ({
                let (s2, fr) = eval_stmt_g(bodies, s1, child, bodies[body], (fuel - 1) as nat);
                match fr {
                    Ok(FlowG::Return(v)) => (s2, Ok::<ValueG, StopG>(v)),
                    Ok(_) => (s2, Ok::<ValueG, StopG>(ValueG::Nil)),
                    Err(e2) => (s2, Err::<ValueG, StopG>(e2)),
                }
            })
        }),
{
}

/// Evaluation never removes an environment: whatever a closure captured
/// stays alive for later calls, even after the scope that created it has
/// been left.
pub proof fn lemma_scopes_outlive_evaluation(
    bodies: Seq<Stmt>,
    s: StateG,
    env: int,
    st: Stmt,
    fuel: nat,
)
    ensures
        ({
            let s2 = eval_stmt_g(bodies, s, env, st, fuel).0;
            &&& s2.envs.len() >= s.envs.len()
            &&& forall|j: int|
                0 <= j < s.envs.len() ==> (#[trigger] s2.envs[j]).parent == s.envs[j].parent
        }),
{
    frame_stmt(bodies, s, env, st, fuel);
}

// ---------------------------------------------------------------------------
// Loop control flow
// ---------------------------------------------------------------------------

/// A false condition does nothing.
pub proof fn lemma_while_false_does_nothing(
    bodies: Seq<Stmt>,
    s: StateG,
    env: int,
    c: Expr,
    b: Box<Stmt>,
    fuel: nat,
)
    ensures
        ({
            let (s1, cr) = cond_eval_g(bodies, s, env, c, fuel);
            cr == Ok::<bool, StopG>(false) ==> eval_stmt_g(
                bodies,
                s,
                env,
                Stmt::While(c, b),
                fuel,
            ) == (s1, Ok::<FlowG, StopG>(FlowG::Nothing))
        }),
{
}

/// A break signal from the body terminates the loop, and is absorbed:
/// the loop itself yields no signal.
pub proof fn lemma_while_stops_on_break(
    bodies: Seq<Stmt>,
    s: StateG,
    env: int,
    c: Expr,
    b: Box<Stmt>,
    fuel: nat,
)
    ensures
        ({
            let (s1, cr) = cond_eval_g(bodies, s, env, c, fuel);
            let (s2, fr) = eval_stmt_g(bodies, s1, env, *b, fuel);
            (cr == Ok::<bool, StopG>(true) && fr == Ok::<FlowG, StopG>(FlowG::Break))
                ==> eval_stmt_g(bodies, s, env, Stmt::While(c, b), fuel) == (
                s2,
                Ok::<FlowG, StopG>(FlowG::Nothing),
            )
        }),
{
}

/// A continue signal from the body skips its remaining statements — the
/// body's evaluation is over — and the loop proceeds to re-test its
/// condition with the next round of fuel.
pub proof fn lemma_while_continue_retests(
    bodies: Seq<Stmt>,
    s: StateG,
    env: int,
    c: Expr,
    b: Box<Stmt>,
    fuel: nat,
)
    requires
        fuel > 0,
    ensures
        ({
            let (s1, cr) = cond_eval_g(bodies, s, env, c, fuel);
            let (s2, fr) = eval_stmt_g(bodies, s1, env, *b, fuel);
            (cr == Ok::<bool, StopG>(true) && fr == Ok::<FlowG, StopG>(FlowG::Continue))
                ==> eval_stmt_g(bodies, s, env, Stmt::While(c, b), fuel) == eval_stmt_g(
                bodies,
                s2,
                env,
                Stmt::While(c, b),
                (fuel - 1) as nat,
            )
        }),
{
}

/// A return signal from the body propagates out of the loop entirely.
pub proof fn lemma_while_propagates_return(
    bodies: Seq<Stmt>,
    s: StateG,
    env: int,
    c: Expr,
    b: Box<Stmt>,
    v: ValueG,
    fuel: nat,
)
    ensures
        ({
            let (s1, cr) = cond_eval_g(bodies, s, env, c, fuel);
            let (s2, fr) = eval_stmt_g(bodies, s1, env, *b, fuel);
            (cr == Ok::<bool, StopG>(true) && fr == Ok::<FlowG, StopG>(FlowG::Return(v)))
                ==> eval_stmt_g(bodies, s, env, Stmt::While(c, b), fuel) == (
                s2,
                Ok::<FlowG, StopG>(FlowG::Return(v)),
            )
        }),
{
}


// ---------------------------------------------------------------------------
// The lexer's fixed-lexeme round trip
// ---------------------------------------------------------------------------

/// Whether lexing `text` alone yields exactly one token of the given
/// kind and lexeme on line 1, followed by the end-of-input token.
pub open spec fn lexes_to_single(text: Seq<char>, kind: TokenType, lexeme: Seq<char>) -> bool {
    lex_from(text, 0, 1) == Ok::<Seq<TokenG>, RunErrorG>(
        seq![
            TokenG { kind, lexeme, line: 1 },
            TokenG { kind: TokenType::EOF, lexeme: Seq::empty(), line: 1 },
        ],
    )
}

proof fn lemma_lex_one_then_eof(t: TokenG)
    ensures
        seq![t] + seq![TokenG { kind: TokenType::EOF, lexeme: Seq::empty(), line: 1 }] =~= seq![
            t,
            TokenG { kind: TokenType::EOF, lexeme: Seq::empty(), line: 1 },
        ],
{
}

proof fn lemma_single_char_token(c: char)
    requires
        is_single_char(c),
    ensures
        lexes_to_single(seq![c], single_kind(c), seq![c]),
{
    let cs = seq![c];
    let t = TokenG { kind: single_kind(c), lexeme: seq![c], line: 1 };
    assert(lex_from(cs, 1, 1) == Ok::<Seq<TokenG>, RunErrorG>(
        seq![TokenG { kind: TokenType::EOF, lexeme: Seq::empty(), line: 1 }],
    ));
    lemma_lex_one_then_eof(t);
}

proof fn lemma_semicolon_token()
    ensures
        lexes_to_single(seq![';'], TokenType::EOL, seq![';']),
{
    let cs = seq![';'];
    let t = TokenG { kind: TokenType::EOL, lexeme: seq![';'], line: 1 };
    assert(lex_from(cs, 1, 1) == Ok::<Seq<TokenG>, RunErrorG>(
        seq![TokenG { kind: TokenType::EOF, lexeme: Seq::empty(), line: 1 }],
    ));
    lemma_lex_one_then_eof(t);
}

proof fn lemma_pair_alone_token(c: char)
    requires
        is_pair_start(c),
    ensures
        lexes_to_single(seq![c], pair_alone_kind(c), seq![c]),
{
    let cs = seq![c];
    let t = TokenG { kind: pair_alone_kind(c), lexeme: seq![c], line: 1 };
    assert(lex_from(cs, 1, 1) == Ok::<Seq<TokenG>, RunErrorG>(
        seq![TokenG { kind: TokenType::EOF, lexeme: Seq::empty(), line: 1 }],
    ));
    lemma_lex_one_then_eof(t);
}

proof fn lemma_pair_eq_token(c: char)
    requires
        is_pair_start(c),
    ensures
        lexes_to_single(seq![c, '='], pair_eq_kind(c), seq![c, '=']),
{
    let cs = seq![c, '='];
    let t = TokenG { kind: pair_eq_kind(c), lexeme: seq![c, '='], line: 1 };
    assert(lex_from(cs, 2, 1) == Ok::<Seq<TokenG>, RunErrorG>(
        seq![TokenG { kind: TokenType::EOF, lexeme: Seq::empty(), line: 1 }],
    ));
    lemma_lex_one_then_eof(t);
}

proof fn lemma_ident_len_all(cs: Seq<char>, i: int)
    requires
        0 <= i <= cs.len(),
        forall|j: int| 0 <= j < cs.len() ==> is_ident_char(#[trigger] cs[j]),
    ensures
        ident_len(cs, i) == cs.len() - i,
    decreases cs.len() - i,
{
    if i < cs.len() {
        lemma_ident_len_all(cs, i + 1);
    }
}

proof fn lemma_keyword_text(cs: Seq<char>)
    requires
        cs.len() >= 1,
        is_alpha_char(cs[0]),
        forall|j: int| 0 <= j < cs.len() ==> is_ident_char(#[trigger] cs[j]),
    ensures
        lexes_to_single(cs, keyword_kind(cs), cs),
{
    lemma_ident_len_all(cs, 0);
    assert(cs.subrange(0, cs.len() as int) =~= cs);
    assert(lex_from(cs, cs.len() as int, 1) == Ok::<Seq<TokenG>, RunErrorG>(
        seq![TokenG { kind: TokenType::EOF, lexeme: Seq::empty(), line: 1 }],
    ));
    let t = TokenG { kind: keyword_kind(cs), lexeme: cs, line: 1 };
    lemma_lex_one_then_eof(t);
}

/// Tokenizing the exact text of any operator, keyword or punctuation
/// token yields a single token of that kind, whose line is 1, followed
/// only by the end-of-input token.
pub proof fn lexer_fixed_lexeme_round_trip()
    ensures
        lexes_to_single(seq!['+'], TokenType::Plus, seq!['+']),
        lexes_to_single(seq!['-'], TokenType::Minus, seq!['-']),
        lexes_to_single(seq!['*'], TokenType::Star, seq!['*']),
        lexes_to_single(seq!['/'], TokenType::Slash, seq!['/']),
        lexes_to_single(seq!['%'], TokenType::Modulo, seq!['%']),
        lexes_to_single(seq!['('], TokenType::LParen, seq!['(']),
        lexes_to_single(seq![')'], TokenType::RParen, seq![')']),
        lexes_to_single(seq!['{'], TokenType::LBrace, seq!['{']),
        lexes_to_single(seq!['}'], TokenType::RBrace, seq!['}']),
        lexes_to_single(seq![','], TokenType::Comma, seq![',']),
        lexes_to_single(seq!['&'], TokenType::Ampersand, seq!['&']),
        lexes_to_single(seq!['|'], TokenType::Pipe, seq!['|']),
        lexes_to_single(seq![';'], TokenType::EOL, seq![';']),
        lexes_to_single(seq!['<'], TokenType::Less, seq!['<']),
        lexes_to_single(seq!['>'], TokenType::Greater, seq!['>']),
        lexes_to_single(seq!['='], TokenType::Equal, seq!['=']),
        lexes_to_single(seq!['!'], TokenType::Bang, seq!['!']),
        lexes_to_single(seq!['<', '='], TokenType::LessEqual, seq!['<', '=']),
        lexes_to_single(seq!['>', '='], TokenType::GreaterEqual, seq!['>', '=']),
        lexes_to_single(seq!['=', '='], TokenType::EqualEqual, seq!['=', '=']),
        lexes_to_single(seq!['!', '='], TokenType::BangEqual, seq!['!', '=']),
        lexes_to_single(seq!['t', 'r', 'u', 'e'], TokenType::True, seq!['t', 'r', 'u', 'e']),
        lexes_to_single(
            seq!['f', 'a', 'l', 's', 'e'],
            TokenType::False,
            seq!['f', 'a', 'l', 's', 'e'],
        ),
        lexes_to_single(seq!['l', 'e', 't'], TokenType::Let, seq!['l', 'e', 't']),
        lexes_to_single(
            seq!['p', 'r', 'i', 'n', 't'],
            TokenType::Print,
            seq!['p', 'r', 'i', 'n', 't'],
        ),
        lexes_to_single(seq!['i', 'f'], TokenType::If, seq!['i', 'f']),
        lexes_to_single(seq!['e', 'l', 's', 'e'], TokenType::Else, seq!['e', 'l', 's', 'e']),
        lexes_to_single(
            seq!['i', 'n', 'p', 'u', 't'],
            TokenType::Input,
            seq!['i', 'n', 'p', 'u', 't'],
        ),
        lexes_to_single(seq!['i', 'n', 't'], TokenType::Int, seq!['i', 'n', 't']),
        lexes_to_single(
            seq!['w', 'h', 'i', 'l', 'e'],
            TokenType::While,
            seq!['w', 'h', 'i', 'l', 'e'],
        ),
        lexes_to_single(
            seq!['b', 'r', 'e', 'a', 'k'],
            TokenType::Break,
            seq!['b', 'r', 'e', 'a', 'k'],
        ),
        lexes_to_single(
            seq!['c', 'o', 'n', 't', 'i', 'n', 'u', 'e'],
            TokenType::Continue,
            seq!['c', 'o', 'n', 't', 'i', 'n', 'u', 'e'],
        ),
        lexes_to_single(
            seq!['f', 'u', 'n', 'c', 't', 'i', 'o', 'n'],
            TokenType::Fn,
            seq!['f', 'u', 'n', 'c', 't', 'i', 'o', 'n'],
        ),
        lexes_to_single(
            seq!['r', 'e', 't', 'u', 'r', 'n'],
            TokenType::Return,
            seq!['r', 'e', 't', 'u', 'r', 'n'],
        ),
{
    lemma_single_char_token('+');
    lemma_single_char_token('-');
    lemma_single_char_token('*');
    lemma_single_char_token('/');
    lemma_single_char_token('%');
    lemma_single_char_token('(');
    lemma_single_char_token(')');
    lemma_single_char_token('{');
    lemma_single_char_token('}');
    lemma_single_char_token(',');
    lemma_single_char_token('&');
    lemma_single_char_token('|');
    lemma_semicolon_token();
    lemma_pair_alone_token('<');
    lemma_pair_alone_token('>');
    lemma_pair_alone_token('=');
    lemma_pair_alone_token('!');
    lemma_pair_eq_token('<');
    lemma_pair_eq_token('>');
    lemma_pair_eq_token('=');
    lemma_pair_eq_token('!');
    lemma_kw_for(seq!['t', 'r', 'u', 'e']);
    lemma_kw_for(seq!['f', 'a', 'l', 's', 'e']);
    lemma_kw_for(seq!['l', 'e', 't']);
    lemma_kw_for(seq!['p', 'r', 'i', 'n', 't']);
    lemma_kw_for(seq!['i', 'f']);
    lemma_kw_for(seq!['e', 'l', 's', 'e']);
    lemma_kw_for(seq!['i', 'n', 'p', 'u', 't']);
    lemma_kw_for(seq!['i', 'n', 't']);
    lemma_kw_for(seq!['w', 'h', 'i', 'l', 'e']);
    lemma_kw_for(seq!['b', 'r', 'e', 'a', 'k']);
    lemma_kw_for(seq!['c', 'o', 'n', 't', 'i', 'n', 'u', 'e']);
    lemma_kw_for(seq!['f', 'u', 'n', 'c', 't', 'i', 'o', 'n']);
    lemma_kw_for(seq!['r', 'e', 't', 'u', 'r', 'n']);
}

/// Applies the keyword lemma to a concrete lowercase text.
proof fn lemma_kw_for(cs: Seq<char>)
    requires
        cs.len() >= 1,
        forall|j: int| 0 <= j < cs.len() ==> 'a' <= #[trigger] cs[j] <= 'z',
    ensures
        lexes_to_single(cs, keyword_kind(cs), cs),
{
    lemma_keyword_text(cs);
}


// ---------------------------------------------------------------------------
// Shared scopes: a closure observes assignments
// ---------------------------------------------------------------------------

/// The environment on the chain from `i` that resolution of `name` ends
/// in, if any.
pub open spec fn resolving_env(envs: Seq<EnvG>, i: int, name: Seq<char>) -> Option<int>
    decreases i,
{
    if i < 0 || i >= envs.len() {
        None
    } else if envs[i].map.contains_key(name) {
        Some(i)
    } else {
        match envs[i].parent {
            Some(p) => if 0 <= p < i {
                resolving_env(envs, p, name)
            } else {
                None
            },
            None => None,
        }
    }
}

/// Resolution reads from the resolving environment.
proof fn lemma_lookup_is_resolving(envs: Seq<EnvG>, i: int, name: Seq<char>)
    ensures
        lookup_g(envs, i, name) == (match resolving_env(envs, i, name) {
            Some(d) => Some(envs[d].map[name]),
            None => None::<ValueG>,
        }),
        resolving_env(envs, i, name) matches Some(d) ==> 0 <= d < envs.len()
            && envs[d].map.contains_key(name),
    decreases i,
{
    if 0 <= i < envs.len() && !envs[i].map.contains_key(name) {
        match envs[i].parent {
            Some(p) => {
                if 0 <= p < i {
                    lemma_lookup_is_resolving(envs, p, name);
                }
            },
            None => {},
        }
    }
}

/// Assignment writes to the resolving environment.
proof fn lemma_assign_is_resolving(envs: Seq<EnvG>, i: int, name: Seq<char>, v: ValueG)
    ensures
        assign_g(envs, i, name, v) == (match resolving_env(envs, i, name) {
            Some(d) => Some(
                envs.update(d, EnvG { map: envs[d].map.insert(name, v), parent: envs[d].parent }),
            ),
            None => None::<Seq<EnvG>>,
        }),
    decreases i,
{
    if 0 <= i < envs.len() && !envs[i].map.contains_key(name) {
        match envs[i].parent {
            Some(p) => {
                if 0 <= p < i {
                    lemma_assign_is_resolving(envs, p, name, v);
                }
            },
            None => {},
        }
    }
}

/// Overwriting an existing binding moves no resolution: every chain still
/// resolves the name where it did.
proof fn lemma_resolving_stable_under_overwrite(
    envs: Seq<EnvG>,
    i: int,
    name: Seq<char>,
    v: ValueG,
    d: int,
)
    requires
        0 <= d < envs.len(),
        envs[d].map.contains_key(name),
    ensures
        resolving_env(
            envs.update(d, EnvG { map: envs[d].map.insert(name, v), parent: envs[d].parent }),
            i,
            name,
        ) == resolving_env(envs, i, name),
    decreases i,
{
    let envs2 = envs.update(
        d,
        EnvG { map: envs[d].map.insert(name, v), parent: envs[d].parent },
    );
    if 0 <= i < envs.len() {
        assert(envs2[i].map.contains_key(name) == envs[i].map.contains_key(name));
        assert(envs2[i].parent == envs[i].parent);
        if !envs[i].map.contains_key(name) {
            match envs[i].parent {
                Some(p) => {
                    if 0 <= p < i {
                        lemma_resolving_stable_under_overwrite(envs, p, name, v, d);
                    }
                },
                None => {},
            }
        }
    }
}

/// What makes closures see updates: an assignment made through one scope
/// chain is observed by a read through any other chain — a captured one
/// in particular — that resolves the name to the same defining scope.
pub proof fn lemma_shared_scope_sees_assignment(
    envs: Seq<EnvG>,
    writer: int,
    reader: int,
    name: Seq<char>,
    v: ValueG,
)
    requires
        assign_g(envs, writer, name, v) is Some,
        resolving_env(envs, reader, name) == resolving_env(envs, writer, name),
    ensures
        lookup_g(assign_g(envs, writer, name, v)->Some_0, reader, name) == Some(v),
{
    lemma_assign_is_resolving(envs, writer, name, v);
    lemma_lookup_is_resolving(envs, writer, name);
    let d = resolving_env(envs, writer, name)->Some_0;
    let envs2 = assign_g(envs, writer, name, v)->Some_0;
    lemma_resolving_stable_under_overwrite(envs, reader, name, v, d);
    lemma_lookup_is_resolving(envs2, reader, name);
    assert(envs2[d].map[name] == v);
}


// ---------------------------------------------------------------------------
// Exact arithmetic at the evaluation level
// ---------------------------------------------------------------------------

/// A left-nested subtraction of small-integer literals evaluates to the
/// left fold of the mathematical differences, exactly, with no effect on
/// the state: this is what left associativity of `-` means to the
/// evaluator.
pub proof fn lemma_subtraction_left_fold(
    bodies: Seq<Stmt>,
    s: StateG,
    env: int,
    e: Expr,
    x: u64,
    y: u64,
    z: u64,
    fuel: nat,
)
    requires
        (e matches Expr::Binary(l, op, r) && op == Op::Sub && (*l matches Expr::Binary(
            l2,
            op2,
            r2,
        ) && op2 == Op::Sub && (*l2 matches Expr::Number(b, _g) && b == x) && (
        *r2 matches Expr::Number(b, _g) && b == y)) && (*r matches Expr::Number(b, _g) && b
            == z)),
        crate::numeric::is_small_int(x),
        crate::numeric::is_small_int(y),
        crate::numeric::is_small_int(z),
        crate::numeric::in_small_range(
            crate::numeric::small_int_val(x) - crate::numeric::small_int_val(y),
        ),
        crate::numeric::in_small_range(
            crate::numeric::small_int_val(x) - crate::numeric::small_int_val(y)
                - crate::numeric::small_int_val(z),
        ),
    ensures
        ({
            let (s2, r) = eval_expr_g(bodies, s, env, e, fuel);
            &&& s2 == s
            &&& r matches Ok(v) && (v matches ValueG::Number(n)
                && crate::numeric::is_small_int(n) && crate::numeric::small_int_val(n)
                == crate::numeric::small_int_val(x) - crate::numeric::small_int_val(y)
                - crate::numeric::small_int_val(z))
        }),
{
    crate::numeric::lemma_small_sub_exact(x, y);
    crate::numeric::lemma_small_sub_exact(crate::numeric::sub_sem(x, y), z);
    match e {
        Expr::Binary(l, _op, r) => {
            match *l {
                Expr::Binary(l2, _op2, r2) => {
                    assert(eval_expr_g(bodies, s, env, *l2, fuel) == (
                        s,
                        Ok::<ValueG, StopG>(ValueG::Number(x)),
                    ));
                    assert(eval_expr_g(bodies, s, env, *r2, fuel) == (
                        s,
                        Ok::<ValueG, StopG>(ValueG::Number(y)),
                    ));
                    assert(eval_expr_g(bodies, s, env, *l, fuel) == (
                        s,
                        Ok::<ValueG, StopG>(ValueG::Number(crate::numeric::sub_sem(x, y))),
                    ));
                    assert(eval_expr_g(bodies, s, env, *r, fuel) == (
                        s,
                        Ok::<ValueG, StopG>(ValueG::Number(z)),
                    ));
                },
                _ => {},
            }
        },
        _ => {},
    }
}

/// Multiplication binds tighter than addition: on the tree the parser
/// builds for a sum of a literal and a product, evaluation yields
/// exactly the sum of the first literal and the product of the other
/// two.
pub proof fn lemma_product_before_sum(
    bodies: Seq<Stmt>,
    s: StateG,
    env: int,
    e: Expr,
    x: u64,
    y: u64,
    z: u64,
    fuel: nat,
)
    requires
        (e matches Expr::Binary(l, op, r) && op == Op::Add && (*l matches Expr::Number(b, _g) && b
            == x) && (*r matches Expr::Binary(l2, op2, r2) && op2 == Op::Mul && (
        *l2 matches Expr::Number(b, _g) && b == y) && (*r2 matches Expr::Number(b, _g) && b
            == z))),
        crate::numeric::is_small_int(x),
        crate::numeric::is_small_int(y),
        crate::numeric::is_small_int(z),
        crate::numeric::in_small_range(
            crate::numeric::small_int_val(y) * crate::numeric::small_int_val(z),
        ),
        crate::numeric::in_small_range(
            crate::numeric::small_int_val(x) + crate::numeric::small_int_val(y)
                * crate::numeric::small_int_val(z),
        ),
        crate::numeric::small_int_val(y) * crate::numeric::small_int_val(z) != 0 || ((
        crate::numeric::small_int_val(y) < 0) == (crate::numeric::small_int_val(z) < 0)),
    ensures
        ({
            let (s2, r) = eval_expr_g(bodies, s, env, e, fuel);
            &&& s2 == s
            &&& r matches Ok(v) && (v matches ValueG::Number(n)
                && crate::numeric::is_small_int(n) && crate::numeric::small_int_val(n)
                == crate::numeric::small_int_val(x) + crate::numeric::small_int_val(y)
                * crate::numeric::small_int_val(z))
        }),
{
    crate::numeric::lemma_small_mul_exact(y, z);
    crate::numeric::lemma_small_add_exact(x, crate::numeric::mul_sem(y, z));
    match e {
        Expr::Binary(l, _op, r) => {
            assert(eval_expr_g(bodies, s, env, *l, fuel) == (
                s,
                Ok::<ValueG, StopG>(ValueG::Number(x)),
            ));
            match *r {
                Expr::Binary(l2, _op2, r2) => {
                    assert(eval_expr_g(bodies, s, env, *l2, fuel) == (
                        s,
                        Ok::<ValueG, StopG>(ValueG::Number(y)),
                    ));
                    assert(eval_expr_g(bodies, s, env, *r2, fuel) == (
                        s,
                        Ok::<ValueG, StopG>(ValueG::Number(z)),
                    ));
                    assert(eval_expr_g(bodies, s, env, *r, fuel) == (
                        s,
                        Ok::<ValueG, StopG>(ValueG::Number(crate::numeric::mul_sem(y, z))),
                    ));
                },
                _ => {},
            }
        },
        _ => {},
    }
}


// ---------------------------------------------------------------------------
// The parse relation pins precedence and associativity
// ---------------------------------------------------------------------------

/// Where a multiplicative operand is required, no additive, relational or
/// boolean node can stand: precedence is part of the parse relation, not
/// a choice the parser happens to make.
pub proof fn lemma_tight_operand_excludes_loose_operators(e: Expr, ts: Seq<TokenG>)
    requires
        expr_fits_at(5, e, ts),
    ensures
        e matches Expr::Binary(l, op, r) ==> (op == Op::Mul || op == Op::Div || op == Op::Mod),
        !(e matches Expr::Logic(..)),
{
    reveal_with_fuel(expr_fits_at, 4);
}

/// In an additive node of the parse relation, the right operand never
/// starts another additive node: `1 - 2 - 3` can only be read
/// left-folded.
pub proof fn lemma_additive_right_operand_is_tighter(e: Expr, ts: Seq<TokenG>)
    requires
        expr_fits_at(4, e, ts),
        e matches Expr::Binary(_, Op::Sub, _) || e matches Expr::Binary(_, Op::Add, _),
    ensures
        e matches Expr::Binary(l, op, r) ==> ((*r) matches Expr::Binary(_, op2, _) ==> (op2
            == Op::Mul || op2 == Op::Div || op2 == Op::Mod)),
{
    reveal_with_fuel(expr_fits_at, 4);
    match e {
        Expr::Binary(l, op, r) => {
            assert(expr_fits_at(4, e, ts));
            let i = choose|i: int|
                0 < i < ts.len() && #[trigger] ts[i].kind == op_token_kind(op) && crate::expr::op_of_token(
                    ts[i].kind,
                ) == Some(op) && expr_fits_at(4, *l, ts.subrange(0, i)) && expr_fits_at(
                    5,
                    *r,
                    ts.subrange(i + 1, ts.len() as int),
                );
            lemma_tight_operand_excludes_loose_operators(*r, ts.subrange(i + 1, ts.len() as int));
        },
        _ => {},
    }
}

} // verus!
