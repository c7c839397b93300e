//! Error kinds and the structured errors the interpreter reports.
//!
//! Two severities exist: *fatal* conditions stop the run and are returned as
//! a [`RunError`]; *recoverable* type errors are recorded as diagnostics and
//! evaluation continues with a policy-defined default value. Rendering an
//! error as human-readable text is left to the embedding program.

use vstd::prelude::*;

verus! {

/// The kind of an error condition.
#[derive(Debug, Clone, Copy, PartialEq, Eq, Structural)]
pub enum ErrorType {
    TypeError,
    SyntaxError,
    RuntimeError,
    UndefinedVariable,
}

/// Mathematical image of a [`RunError`].
pub ghost struct RunErrorG {
    pub kind: ErrorType,
    pub line: Option<int>,
    pub ctx: Seq<char>,
}

/// A fatal error: its kind, the 1-based source line where it arose (when one
/// is known), and the offending text (a lexeme or variable name), possibly
/// empty.
#[derive(Debug, Clone)]
pub struct RunError {
    pub kind: ErrorType,
    pub line: Option<usize>,
    pub ctx: Vec<char>,
}

impl View for RunError {
    type V = RunErrorG;

    open spec fn view(&self) -> RunErrorG {
        RunErrorG {
            kind: self.kind,
            line: match self.line {
                Some(l) => Some(l as int),
                None => None,
            },
            ctx: self.ctx@,
        }
    }
}

/// Mathematical image of a [`Diag`].
pub ghost struct DiagG {
    pub kind: ErrorType,
    pub ctx: Seq<char>,
}

/// A recoverable diagnostic: reported, then evaluation continues with a
/// default value.
#[derive(Debug, Clone)]
pub struct Diag {
    pub kind: ErrorType,
    pub ctx: Vec<char>,
}

impl View for Diag {
    type V = DiagG;

    open spec fn view(&self) -> DiagG {
        DiagG { kind: self.kind, ctx: self.ctx@ }
    }
}

/// Mathematical image of a [`Stop`].
pub ghost enum StopG {
    Fatal(RunErrorG),
    OutOfFuel,
}

/// Why evaluation stopped early: a fatal error of the program under
/// interpretation, or the interpreter's own fuel bound ran out.
#[derive(Debug)]
pub enum Stop {
    Fatal(RunError),
    OutOfFuel,
}

impl View for Stop {
    type V = StopG;

    open spec fn view(&self) -> StopG {
        match self {
            Stop::Fatal(e) => StopG::Fatal(e@),
            Stop::OutOfFuel => StopG::OutOfFuel,
        }
    }
}

} // verus!
