//! The command line, as values.
//!
//! What the arguments are and how they resolve into [`Options`]. Reading them
//! off `argv` is the argument parser's and happens outside this crate; what is
//! decided about them is here.
use vstd::prelude::*;

use crate::options::{ColorMode, EmitKind, Options};
use crate::safety::{level_rank, SafetyLevel};

verus! {

/// An invocation, the way the command line spelled it.
#[derive(Clone, Debug)]
pub struct Cli {
    /// C source files to compile.
    pub inputs: Vec<String>,
    /// Write the result to this path.
    pub output: Option<String>,
    /// How much of the safety model to enforce.
    pub safety: SafetyLevel,
    /// The artifact to produce.
    pub emit: EmitKind,
    /// Report unknown analysis results as warnings rather than errors.
    pub allow_unknown: bool,
    /// The machine to compile for, by its triple.
    pub target: String,
    /// When to colourise diagnostics.
    pub color: ColorMode,
}

/// Why an invocation asking for two different things was refused.
#[derive(Clone, Copy, Debug, PartialEq, Eq, Structural)]
pub enum Refused {
    /// `--allow-unknown` beside `--safety strict`, which is defined as leaving
    /// nothing unknown.
    AllowUnknownAtStrict,
}

/// What each refusal says.
pub open spec fn refusal_message(r: Refused) -> Seq<char> {
    match r {
        Refused::AllowUnknownAtStrict => "--allow-unknown cannot be used with --safety strict, \
                 which is defined as leaving nothing unknown"@,
    }
}

impl Refused {
    /// What the refusal says.
    pub fn message(self) -> (s: &'static str)
        ensures
            s@ == refusal_message(self),
    {
        match self {
            Refused::AllowUnknownAtStrict => "--allow-unknown cannot be used with --safety strict, \
                 which is defined as leaving nothing unknown",
        }
    }
}

impl Cli {
    /// Refuse an invocation that asks for two different things: leaving
    /// results unknown at the level defined as leaving nothing unknown. Neither
    /// half on its own is refused.
    pub fn check(&self) -> (r: Result<(), Refused>)
        ensures
            r == (if self.allow_unknown && level_rank(self.safety) >= level_rank(SafetyLevel::Strict) {
                Err(Refused::AllowUnknownAtStrict)
            } else {
                Ok(())
            }),
    {
        if self.allow_unknown && self.safety.at_least(SafetyLevel::Strict) {
            return Err(Refused::AllowUnknownAtStrict);
        }
        Ok(())
    }

    /// Resolve the arguments into the options the compiler runs on. The
    /// mapping is one to one, and `allow_unknown` crosses unresolved.
    pub fn into_options(self) -> (o: Options)
        ensures
            o.inputs@ == self.inputs@,
            o.output == self.output,
            o.safety == self.safety,
            o.emit == self.emit,
            o.target@ == self.target@,
            o.allow_unknown == self.allow_unknown,
            o.color == self.color,
    {
        let Cli { inputs, output, safety, emit, allow_unknown, target, color } = self;
        Options { inputs, output, safety, emit, target, allow_unknown, color }
    }
}

} // verus!
