//! The interpreter's entry points: building the root state and running a
//! program or a single statement against it.

use vstd::prelude::*;

use crate::env::{Env, EnvG, Interp, StateG};
use crate::error::{Diag, ErrorType, RunError, Stop};
use crate::eval::run_stmts_from;
use crate::semantics::run_stmts_g;
use crate::source::{lex_from, Source};
use crate::std_fn::builtins_map;
use crate::stmt::Program;
use crate::parser::{rec_till, stmts_fit, Parser};

verus! {

/// Trigger marker for the run witness of [`run_source`].
pub open spec fn run_witness(sts: Seq<crate::stmt::Stmt>, bodies: Seq<crate::stmt::Stmt>, end: int) -> bool {
    true
}

/// The images of the input lines.
pub open spec fn lines_view(lines: Seq<Vec<char>>) -> Seq<Seq<char>> {
    lines.map_values(|l: Vec<char>| l@)
}

/// The initial state: one root environment holding the built-ins, no
/// output, no diagnostics, and the given input lines with the cursor at
/// their start.
pub open spec fn init_state(input: Seq<Seq<char>>) -> StateG {
    StateG {
        envs: seq![EnvG { map: builtins_map(), parent: None }],
        output: Seq::empty(),
        diags: Seq::empty(),
        input,
        input_pos: 0,
    }
}

impl Interp {
    /// A fresh interpreter state over the given input lines.
    pub fn new(input: Vec<Vec<char>>) -> (r: Interp)
        ensures
            r@ == init_state(lines_view(input@)),
    {
        let root = Env::new();
        let mut envs: Vec<Env> = Vec::new();
        envs.push(root);
        let r = Interp { envs, output: Vec::new(), diags: Vec::new(), input, input_pos: 0 };
        proof {
            assert(r@.envs =~= seq![EnvG { map: builtins_map(), parent: None }]);
            assert(r@.output =~= Seq::<char>::empty());
            assert(r@.diags =~= Seq::<crate::error::DiagG>::empty());
            assert(r@ =~= init_state(lines_view(r.input@)));
        }
        r
    }
}

/// What a finished run hands back: the bytes written by the print family,
/// the recoverable diagnostics reported along the way, and whether the
/// run finished, stopped on a fatal error of the program, or exhausted
/// the interpreter's fuel.
pub struct RunResult {
    pub output: Vec<char>,
    pub diags: Vec<Diag>,
    pub outcome: Result<(), Stop>,
}

/// Runs a parsed program against a fresh root state with the given input
/// lines and fuel.
pub fn run_program(prog: &Program, input: Vec<Vec<char>>, fuel: u64) -> (r: RunResult)
    ensures
        ({
            let (s2, res) = run_stmts_g(
                prog.bodies@,
                init_state(lines_view(input@)),
                prog.stmts@,
                fuel as nat,
            );
            r.output@ == s2.output && r.diags@.map_values(|d: Diag| d@) == s2.diags && (match r
                .outcome {
                Ok(u) => res == Ok::<(), crate::error::StopG>(u),
                Err(e) => res == Err::<(), crate::error::StopG>(e@),
            })
        }),
{
    let st = Interp::new(input);
    proof {
        assert(prog.stmts@.subrange(0, prog.stmts@.len() as int) =~= prog.stmts@);
    }
    let (st2, res) = run_stmts_from(prog, st, 0, fuel);
    let Interp { envs: _, output, diags, input: _, input_pos: _ } = st2;
    RunResult { output, diags, outcome: res }
}

/// Lexes, parses and runs a source text against the given input lines
/// and fuel. A lexical or syntax error is returned without anything
/// having run, and a syntax error comes exactly when the recognizer
/// rejects the token stream — success is owed on every well-formed
/// program; otherwise the parsed statements are sound for the token
/// stream and the run's result is exactly the definitional
/// interpreter's.
pub fn run_source(source: Vec<char>, input: Vec<Vec<char>>, fuel: u64) -> (r: Result<
    RunResult,
    RunError,
>)
    requires
        source@.len() < usize::MAX,
    ensures
        match lex_from(source@, 0, 1) {
            Err(e) => r matches Err(re) && re@ == e,
            Ok(toks) => match r {
                Err(re) => re@.kind == ErrorType::SyntaxError && rec_till(
                    toks,
                    0,
                    crate::token::TokenType::EOF,
                ) is None,
                Ok(rr) => rec_till(toks, 0, crate::token::TokenType::EOF) is Some
                    && exists|sts: Seq<crate::stmt::Stmt>, bodies: Seq<crate::stmt::Stmt>, end: int|
                    {
                        &&& #[trigger] run_witness(sts, bodies, end)
                        &&& 0 <= end <= toks.len()
                        &&& stmts_fit(sts, toks.subrange(0, end))
                        &&& ({
                            let (s2, res) = run_stmts_g(
                                bodies,
                                init_state(lines_view(input@)),
                                sts,
                                fuel as nat,
                            );
                            rr.output@ == s2.output && rr.diags@.map_values(|d: Diag| d@)
                                == s2.diags && (match rr.outcome {
                                Ok(u) => res == Ok::<(), crate::error::StopG>(u),
                                Err(e) => res == Err::<(), crate::error::StopG>(e@),
                            })
                        })
                    },
            },
        },
{
    let mut lexer = Source::new(source);
    match lexer.tokenize() {
        Ok(()) => {},
        Err(e) => {
            return Err(e);
        },
    }
    let mut parser = Parser::new(lexer.get_tokens());
    match parser.parse() {
        Ok(()) => {},
        Err(e) => {
            return Err(e);
        },
    }
    let ghost sts_g = parser.stmts_spec();
    let ghost bodies_g = parser.bodies_spec();
    let ghost end_g = parser.at();
    let prog = parser.into_program();
    let ghost inp = lines_view(input@);
    let rr = run_program(&prog, input, fuel);
    proof {
        let toks = match lex_from(source@, 0, 1) {
            Ok(ts) => ts,
            Err(_) => Seq::empty(),
        };
        assert(run_witness(sts_g, bodies_g, end_g));
        assert(stmts_fit(sts_g, toks.subrange(0, end_g)));
        let (s2, res) = run_stmts_g(bodies_g, init_state(inp), sts_g, fuel as nat);
        assert(rr.output@ == s2.output);
    }
    Ok(rr)
}

} // verus!
