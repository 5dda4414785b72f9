//! The options the compiler runs on.
//!
//! [`crate::cli::Cli`] is only the command line spelling of these. Nothing
//! past that boundary depends on a command line: a caller that never saw one
//! builds [`Options`] directly.
use vstd::prelude::*;

use crate::diagnostics::{denies_unknown, Policy};
use crate::safety::{level_rank, SafetyLevel};

verus! {

/// An artifact the compiler can produce, in pipeline order.
///
/// Deliberately compared by no ordering: every question about a kind is a
/// `match` that answers for each one.
#[derive(Clone, Copy, Debug, PartialEq, Eq, Hash, Structural)]
pub enum EmitKind {
    /// The token stream produced by the lexer.
    Tokens,
    /// The abstract syntax tree produced by the parser.
    Ast,
    /// The Safety IR, the central abstraction the analyses operate on.
    SafetyIr,
    /// LLVM IR, in textual form.
    LlvmIr,
    /// An object file.
    Object,
    /// A linked native executable. `exe` is accepted as an alias.
    Executable,
}

/// How `--emit` spells a kind.
pub open spec fn emit_spelling(kind: EmitKind) -> Seq<char> {
    match kind {
        EmitKind::Tokens => seq!['t', 'o', 'k', 'e', 'n', 's'],
        EmitKind::Ast => seq!['a', 's', 't'],
        EmitKind::SafetyIr => seq!['s', 'a', 'f', 'e', 't', 'y', '-', 'i', 'r'],
        EmitKind::LlvmIr => seq!['l', 'l', 'v', 'm', '-', 'i', 'r'],
        EmitKind::Object => seq!['o', 'b', 'j', 'e', 'c', 't'],
        EmitKind::Executable => seq!['e', 'x', 'e', 'c', 'u', 't', 'a', 'b', 'l', 'e'],
    }
}

/// Whether one artifact of this kind can be made from several inputs: a dump
/// appends and a program links, while a module or an object is one unit.
pub open spec fn spec_spans_inputs(kind: EmitKind) -> bool {
    match kind {
        EmitKind::Tokens | EmitKind::Ast | EmitKind::SafetyIr | EmitKind::Executable => true,
        EmitKind::LlvmIr | EmitKind::Object => false,
    }
}

/// Whether a file of this kind has to be runnable by the machine it was made
/// for.
pub open spec fn spec_is_a_program(kind: EmitKind) -> bool {
    match kind {
        EmitKind::Executable => true,
        _ => false,
    }
}

/// Whether making this artifact builds the Safety IR, which every safety check
/// reads.
pub open spec fn spec_reaches_the_ir(kind: EmitKind) -> bool {
    match kind {
        EmitKind::Tokens | EmitKind::Ast => false,
        _ => true,
    }
}

/// Whether an artifact of this kind is worth writing when the run reported an
/// error: a dump of what could be read is, a build product is not.
pub open spec fn spec_survives_an_error(kind: EmitKind) -> bool {
    match kind {
        EmitKind::Tokens | EmitKind::Ast | EmitKind::SafetyIr => true,
        EmitKind::LlvmIr | EmitKind::Object | EmitKind::Executable => false,
    }
}

impl EmitKind {
    /// Every kind, in pipeline order.
    pub fn all() -> (r: Vec<EmitKind>)
        ensures
            r@ == seq![
                EmitKind::Tokens,
                EmitKind::Ast,
                EmitKind::SafetyIr,
                EmitKind::LlvmIr,
                EmitKind::Object,
                EmitKind::Executable,
            ],
    {
        vec![
            EmitKind::Tokens,
            EmitKind::Ast,
            EmitKind::SafetyIr,
            EmitKind::LlvmIr,
            EmitKind::Object,
            EmitKind::Executable,
        ]
    }

    /// How `--emit` spells this kind.
    pub fn spelling(self) -> (s: String)
        ensures
            s@ == emit_spelling(self),
    {
        let word: &str = match self {
            EmitKind::Tokens => {
                proof {
                    reveal_strlit("tokens");
                }
                "tokens"
            },
            EmitKind::Ast => {
                proof {
                    reveal_strlit("ast");
                }
                "ast"
            },
            EmitKind::SafetyIr => {
                proof {
                    reveal_strlit("safety-ir");
                }
                "safety-ir"
            },
            EmitKind::LlvmIr => {
                proof {
                    reveal_strlit("llvm-ir");
                }
                "llvm-ir"
            },
            EmitKind::Object => {
                proof {
                    reveal_strlit("object");
                }
                "object"
            },
            EmitKind::Executable => {
                proof {
                    reveal_strlit("executable");
                }
                "executable"
            },
        };
        word.to_owned()
    }

    /// Whether one artifact of this kind can be made from several inputs.
    pub fn spans_inputs(self) -> (r: bool)
        ensures
            r == spec_spans_inputs(self),
    {
        match self {
            EmitKind::Tokens | EmitKind::Ast | EmitKind::SafetyIr | EmitKind::Executable => true,
            EmitKind::LlvmIr | EmitKind::Object => false,
        }
    }

    /// Whether a file of this kind has to be runnable.
    pub fn is_a_program(self) -> (r: bool)
        ensures
            r == spec_is_a_program(self),
    {
        match self {
            EmitKind::Tokens | EmitKind::Ast | EmitKind::SafetyIr | EmitKind::LlvmIr
            | EmitKind::Object => false,
            EmitKind::Executable => true,
        }
    }

    /// Whether making this artifact builds the Safety IR.
    pub fn reaches_the_ir(self) -> (r: bool)
        ensures
            r == spec_reaches_the_ir(self),
    {
        match self {
            EmitKind::Tokens | EmitKind::Ast => false,
            EmitKind::SafetyIr | EmitKind::LlvmIr | EmitKind::Object | EmitKind::Executable => true,
        }
    }

    /// The safety level a run defaults to when it asks for this artifact: the
    /// way in, `memory`, where the artifact carries checks, and `off` where it
    /// stops before them.
    pub fn default_safety(self) -> (r: SafetyLevel)
        ensures
            r == (if spec_reaches_the_ir(self) {
                SafetyLevel::Memory
            } else {
                SafetyLevel::Off
            }),
    {
        if self.reaches_the_ir() {
            SafetyLevel::Memory
        } else {
            SafetyLevel::Off
        }
    }

    /// Whether an artifact of this kind is worth writing when the run
    /// reported an error.
    pub fn survives_an_error(self) -> (r: bool)
        ensures
            r == spec_survives_an_error(self),
    {
        match self {
            EmitKind::Tokens | EmitKind::Ast | EmitKind::SafetyIr => true,
            EmitKind::LlvmIr | EmitKind::Object | EmitKind::Executable => false,
        }
    }
}

/// A kind that is written when a run fails is a kind that can take several
/// inputs, because a partial read over several inputs is the only reason on
/// record for writing one; and a kind that is a program reaches the IR,
/// because there is no route from source to code around it.
pub proof fn law_emit_kinds_agree(kind: EmitKind)
    ensures
        spec_survives_an_error(kind) ==> spec_spans_inputs(kind),
        spec_is_a_program(kind) ==> spec_reaches_the_ir(kind),
{
}

/// When to colourise diagnostics.
#[derive(Clone, Copy, Debug, PartialEq, Eq, Hash, Structural)]
pub enum ColorMode {
    /// Colourise when the stream is a terminal.
    Auto,
    /// Always colourise.
    Always,
    /// Never colourise.
    Never,
}

/// How `--color` spells a mode.
pub open spec fn color_spelling(mode: ColorMode) -> Seq<char> {
    match mode {
        ColorMode::Auto => seq!['a', 'u', 't', 'o'],
        ColorMode::Always => seq!['a', 'l', 'w', 'a', 'y', 's'],
        ColorMode::Never => seq!['n', 'e', 'v', 'e', 'r'],
    }
}

impl ColorMode {
    /// Every mode.
    pub fn all() -> (r: Vec<ColorMode>)
        ensures
            r@ == seq![ColorMode::Auto, ColorMode::Always, ColorMode::Never],
    {
        vec![ColorMode::Auto, ColorMode::Always, ColorMode::Never]
    }

    /// How `--color` spells this mode.
    pub fn spelling(self) -> (s: &'static str)
        ensures
            s@ == color_spelling(self),
    {
        match self {
            ColorMode::Auto => {
                proof {
                    reveal_strlit("auto");
                }
                "auto"
            },
            ColorMode::Always => {
                proof {
                    reveal_strlit("always");
                }
                "always"
            },
            ColorMode::Never => {
                proof {
                    reveal_strlit("never");
                }
                "never"
            },
        }
    }
}

/// Everything the compiler needs to know about one invocation.
#[derive(Clone, Debug, PartialEq, Eq)]
pub struct Options {
    /// The C source files to compile, as paths.
    pub inputs: Vec<String>,
    /// Where to write the result, when the user asked for a specific path.
    pub output: Option<String>,
    /// How much of the safety model to enforce.
    pub safety: SafetyLevel,
    /// The artifact to produce.
    pub emit: EmitKind,
    /// The machine to compile for, by its triple.
    pub target: String,
    /// Whether a result the analysis could not prove is a warning rather than
    /// an error. The request, not the resolved answer: that is
    /// [`Policy::new`]'s.
    pub allow_unknown: bool,
    /// When to colourise diagnostics.
    pub color: ColorMode,
}

/// The level a run asking for `safety` and making `emit` can be held to: never
/// above what it asked for, never above the highest level with checks behind
/// it, and nothing at all for an artifact that stops before the IR.
pub open spec fn spec_delivered(safety: SafetyLevel, emit: EmitKind) -> SafetyLevel {
    if spec_reaches_the_ir(emit) {
        if level_rank(safety) <= level_rank(SafetyLevel::IMPLEMENTED) {
            safety
        } else {
            SafetyLevel::IMPLEMENTED
        }
    } else {
        SafetyLevel::Off
    }
}

impl Options {
    /// The level this run can be held to, which is never above the one it
    /// asked for.
    pub fn delivered(&self) -> (r: SafetyLevel)
        ensures
            r == spec_delivered(self.safety, self.emit),
    {
        if self.emit.reaches_the_ir() {
            self.safety.min(SafetyLevel::IMPLEMENTED)
        } else {
            SafetyLevel::Off
        }
    }
}

/// What a run is delivered is never more than it asked for, nor more than has
/// checks behind it, and nothing when its artifact stops before the IR.
pub proof fn law_delivered_is_bounded(safety: SafetyLevel, emit: EmitKind)
    ensures
        level_rank(spec_delivered(safety, emit)) <= level_rank(safety),
        level_rank(spec_delivered(safety, emit)) <= level_rank(SafetyLevel::IMPLEMENTED),
        !spec_reaches_the_ir(emit) ==> spec_delivered(safety, emit) == SafetyLevel::Off,
{
}

impl Policy {
    /// The policy a run's options entitle it to.
    ///
    /// One line, because [`Policy::new`] is the only resolution there is.
    pub fn from_options(options: &Options) -> (p: Policy)
        ensures
            p@ == denies_unknown(options.safety, options.allow_unknown),
    {
        Policy::new(options.safety, options.allow_unknown)
    }
}

} // verus!
