//! Statement nodes of the abstract syntax tree, and the control-flow
//! signal that statement execution produces.

use vstd::prelude::*;

use crate::env::{Value, ValueG};
use crate::expr::Expr;
use crate::token::Token;

verus! {

/// The out-of-band result of executing a statement: a value, one of the
/// loop signals, a function return, or nothing. It is propagated
/// synchronously up through blocks, loops and calls.
pub enum ControlFlow {
    Value(Value),
    Break,
    Continue,
    Return(Value),
    Nothing,
}

/// Mathematical image of a control-flow signal.
pub ghost enum FlowG {
    Value(ValueG),
    Break,
    Continue,
    Return(ValueG),
    Nothing,
}

impl View for ControlFlow {
    type V = FlowG;

    open spec fn view(&self) -> FlowG {
        match self {
            ControlFlow::Value(v) => FlowG::Value(v@),
            ControlFlow::Break => FlowG::Break,
            ControlFlow::Continue => FlowG::Continue,
            ControlFlow::Return(v) => FlowG::Return(v@),
            ControlFlow::Nothing => FlowG::Nothing,
        }
    }
}

/// A statement node. A function declaration holds the names involved and
/// the index of its body in the program's body arena.
pub enum Stmt {
    Expr(Expr),
    Let(Token, Expr),
    Assign(Token, Expr),
    Group(Vec<Stmt>),
    Print(Vec<Expr>),
    If(Expr, Box<Stmt>, Option<Box<Stmt>>),
    While(Expr, Box<Stmt>),
    Function(Token, Vec<Token>, usize),
    Break,
    Continue,
    Return(Option<Expr>),
}

/// A parsed program: its top-level statements, and the arena of function
/// bodies that `Stmt::Function` nodes refer to by index.
pub struct Program {
    pub stmts: Vec<Stmt>,
    pub bodies: Vec<Stmt>,
}

} // verus!
