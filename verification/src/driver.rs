//! What a run decides: which inputs it reads, what `--emit tokens` writes,
//! whether its artifact is written, and how it ends.
//!
//! Reading files, writing them and rendering diagnostics are the program's;
//! the decisions they follow are here.
use vstd::prelude::*;
use vstd::string::StringExecFns;

use crate::diagnostics::{fresh, count_errors, Diagnostic, DiagnosticModel, DiagnosticSink, Severity};
use crate::lexer::{decimal, lex, lex_reports, lexed, law_tokens_run_forward};
use crate::options::{emit_spelling, spec_spans_inputs, spec_survives_an_error, EmitKind, Options};
use crate::print::{debug_quoted, debug_text, decimal_text, push_char, shown, shown_text};
use crate::source::{
    chars_of, column_before, SourceMap, lines_before, on_boundary, position_of, snippet_text, FileId, SourceFile,
};
use crate::token::{token_kind_name, Token, TokenKind};
use vstd::utf8::{decode_utf8, encode_utf8, valid_utf8};

verus! {

/// How a run ended, for the process to report.
#[derive(Clone, Copy, Debug, PartialEq, Eq, Structural)]
pub enum Outcome {
    /// Nothing was reported that fails the build.
    Succeeded,
    /// Something was.
    Failed,
}

impl Outcome {
    /// A run that reported an error failed; any other run succeeded.
    pub fn of(diagnostics: &DiagnosticSink) -> (o: Outcome)
        ensures
            o == (if count_errors(diagnostics.reported()) > 0 {
                Outcome::Failed
            } else {
                Outcome::Succeeded
            }),
    {
        if diagnostics.has_errors() {
            Outcome::Failed
        } else {
            Outcome::Succeeded
        }
    }
}

/// Whether a run writes what it made to the path it was given: always when
/// it reported no error, and after one only when it made something and its
/// kind is one a failed run still writes.
pub open spec fn spec_writes_artifact(has_errors: bool, made_nothing: bool, emit: EmitKind) -> bool {
    !(has_errors && (made_nothing || !spec_survives_an_error(emit)))
}

/// Whether a run writes what it made to the path it was given, as
/// [`spec_writes_artifact`] says.
pub fn writes_artifact(has_errors: bool, made_nothing: bool, emit: EmitKind) -> (r: bool)
    ensures
        r == spec_writes_artifact(has_errors, made_nothing, emit),
{
    let unfinished = has_errors && (made_nothing || !emit.survives_an_error());
    !unfinished
}

// ---------------------------------------------------------------------------
// What a run says about the files it reads and writes.
// ---------------------------------------------------------------------------

/// What a run is told about an input it could not read, with the system's
/// reason.
pub open spec fn unreadable_report(path: Seq<char>, why: Seq<char>) -> DiagnosticModel {
    error_with("cannot read `"@ + path + "`"@, seq![why])
}

/// What a run is told about an input that is not UTF-8, with the decoder's
/// reason.
pub open spec fn not_utf8_report(path: Seq<char>, why: Seq<char>) -> DiagnosticModel {
    error_with("`"@ + path + "` is not valid UTF-8"@, seq!["safec reads source files as UTF-8"@, why])
}

/// What a run is told about an artifact it could not write, with the
/// system's reason.
pub open spec fn unwritable_report(path: Seq<char>, why: Seq<char>) -> DiagnosticModel {
    error_with("cannot write `"@ + path + "`"@, seq![why])
}

/// The error for an input at `path` that could not be read, as
/// [`unreadable_report`] says.
pub fn unreadable(path: &str, why: String) -> (d: Diagnostic)
    ensures
        d@ == unreadable_report(path@, why@),
{
    let mut message = "cannot read `".to_owned();
    message.append(path);
    message.append("`");
    let d = Diagnostic::error(message).with_note(why);
    proof {
        let expected = unreadable_report(path@, why@);
        assert(d@.notes =~= expected.notes);
        assert(d@ =~= expected);
    }
    d
}

/// The error for an input at `path` that is not UTF-8, as
/// [`not_utf8_report`] says.
pub fn not_utf8(path: &str, why: String) -> (d: Diagnostic)
    ensures
        d@ == not_utf8_report(path@, why@),
{
    let mut message = "`".to_owned();
    message.append(path);
    message.append("` is not valid UTF-8");
    let d = Diagnostic::error(message).with_note("safec reads source files as UTF-8".to_owned()).with_note(
        why,
    );
    proof {
        let expected = not_utf8_report(path@, why@);
        assert(d@.notes =~= expected.notes);
        assert(d@ =~= expected);
    }
    d
}

/// The error for an artifact at `path` that could not be written, as
/// [`unwritable_report`] says.
pub fn unwritable(path: &str, why: String) -> (d: Diagnostic)
    ensures
        d@ == unwritable_report(path@, why@),
{
    let mut message = "cannot write `".to_owned();
    message.append(path);
    message.append("`");
    let d = Diagnostic::error(message).with_note(why);
    proof {
        let expected = unwritable_report(path@, why@);
        assert(d@.notes =~= expected.notes);
        assert(d@ =~= expected);
    }
    d
}

// ---------------------------------------------------------------------------
// Where a run writes what it makes.
// ---------------------------------------------------------------------------

/// The stem of the file a path names: its last component without the
/// extension, where it has a last component.
pub uninterp spec fn path_stem(path: Seq<char>) -> Option<Seq<char>>;

/// Calls `Path::file_stem`, whose answer depends on the path alone: that is
/// what this claims. Which part of a component is its extension is the
/// standard library's rule, which this does not restate.
#[verifier::external_body]
fn file_stem(path: &str) -> (r: Option<String>)
    ensures
        match r {
            Some(s) => path_stem(path@) == Some(s@),
            None => path_stem(path@) is None,
        },
{
    std::path::Path::new(path).file_stem().map(|stem| stem.to_string_lossy().into_owned())
}

/// Whether a target triple names Windows.
pub open spec fn names_windows(triple: Seq<char>) -> bool {
    exists|i: int| 0 <= i && i + 7 <= triple.len() && #[trigger] triple.subrange(i, i + 7) == "windows"@
}

/// What a program nobody named is called on a target: `a.exe` on Windows
/// and `a.out` elsewhere.
pub open spec fn program_name_of(triple: Seq<char>) -> Seq<char> {
    if names_windows(triple) {
        "a.exe"@
    } else {
        "a.out"@
    }
}

/// Whether the seven characters of `t` from `i` spell `windows`.
fn windows_at(t: &Vec<char>, i: usize) -> (r: bool)
    requires
        i + 7 <= t@.len(),
    ensures
        r == (t@.subrange(i as int, i + 7) == "windows"@),
{
    proof {
        reveal_strlit("windows");
    }
    let n = t.len();
    assert(i + 7 <= n);
    let r = t[i] == 'w' && t[i + 1] == 'i' && t[i + 2] == 'n' && t[i + 3] == 'd' && t[i + 4] == 'o'
        && t[i + 5] == 'w' && t[i + 6] == 's';
    let ghost sub = t@.subrange(i as int, i + 7);
    proof {
        if r {
            assert(sub =~= "windows"@);
        } else if sub == "windows"@ {
            assert(sub[0] == t@[i as int] && sub[1] == t@[i + 1] && sub[2] == t@[i + 2] && sub[3] == t@[i + 3]
                && sub[4] == t@[i + 4] && sub[5] == t@[i + 5] && sub[6] == t@[i + 6]);
        }
    }
    r
}

/// What a program nobody named is called on `target`, as
/// [`program_name_of`] says.
pub fn program_name(target: &str) -> (r: &'static str)
    ensures
        r@ == program_name_of(target@),
{
    let t = chars_of(target);
    let mut found = false;
    let mut i: usize = 0;
    while i < t.len()
        invariant
            t@ == target@,
            i <= t@.len(),
            found == exists|j: int| 0 <= j < i && j + 7 <= t@.len() && #[trigger] t@.subrange(j, j + 7)
                == "windows"@,
        decreases t@.len() - i,
    {
        if t.len() - i >= 7 && windows_at(&t, i) {
            found = true;
        }
        i = i + 1;
    }
    proof {
        if !found {
            assert forall|j: int| 0 <= j && j + 7 <= t@.len() implies #[trigger] t@.subrange(j, j + 7)
                != "windows"@ by {
                assert(j < i);
            }
        }
    }
    if found {
        proof {
            reveal_strlit("a.exe");
        }
        "a.exe"
    } else {
        proof {
            reveal_strlit("a.out");
        }
        "a.out"
    }
}

/// Where a run's artifact goes: where `-o` said; nowhere for the dumps,
/// which go to the output stream; beside the first input, named after it,
/// for an object; and `program` for an executable.
pub open spec fn destination_of(options: Options, program: Seq<char>) -> Option<Seq<char>> {
    match options.output {
        Some(path) => Some(path@),
        None => match options.emit {
            EmitKind::Tokens | EmitKind::Ast | EmitKind::SafetyIr | EmitKind::LlvmIr => None,
            EmitKind::Object => if options.inputs@.len() > 0 {
                match path_stem(options.inputs@[0]@) {
                    Some(stem) => Some(stem + ".o"@),
                    None => None,
                }
            } else {
                None
            },
            EmitKind::Executable => Some(program),
        },
    }
}

/// Where a run's artifact goes, as [`destination_of`] says, where the
/// target calls a program `program`.
pub fn destination(options: &Options, program: &str) -> (r: Option<String>)
    ensures
        match r {
            Some(path) => destination_of(*options, program@) == Some(path@),
            None => destination_of(*options, program@) is None,
        },
{
    if let Some(path) = &options.output {
        return Some(path.clone());
    }
    match options.emit {
        EmitKind::Tokens | EmitKind::Ast | EmitKind::SafetyIr | EmitKind::LlvmIr => None,
        EmitKind::Object => {
            if options.inputs.len() == 0 {
                return None;
            }
            match file_stem(options.inputs[0].as_str()) {
                Some(stem) => {
                    let mut named = stem;
                    named.append(".o");
                    Some(named)
                },
                None => None,
            }
        },
        EmitKind::Executable => Some(program.to_owned()),
    }
}

// ---------------------------------------------------------------------------
// Which inputs a run reads.
// ---------------------------------------------------------------------------

/// Whether two spellings name one path: they have the same components, so
/// `a//b` and `a/b` are one path and `a` and `./a` are two.
pub uninterp spec fn same_path(a: Seq<char>, b: Seq<char>) -> bool;

/// Calls `Path::eq` on the two spellings, which compares their components:
/// that is what this claims, that its answer depends on the two spellings
/// alone, and that a spelling names the same path as itself, which `Path`
/// being `Eq` promises.
#[verifier::external_body]
fn paths_equal(a: &str, b: &str) -> (r: bool)
    ensures
        r == same_path(a@, b@),
        a@ == b@ ==> r,
{
    std::path::Path::new(a) == std::path::Path::new(b)
}

/// Every input, in the order given, but for one that names the same path as
/// an input before it.
pub open spec fn first_occurrences(inputs: Seq<Seq<char>>) -> Seq<Seq<char>>
    decreases inputs.len(),
{
    if inputs.len() == 0 {
        Seq::empty()
    } else {
        let earlier = inputs.drop_last();
        let rest = first_occurrences(earlier);
        if exists|j: int| 0 <= j < earlier.len() && same_path(earlier[j], inputs.last()) {
            rest
        } else {
            rest.push(inputs.last())
        }
    }
}

/// An error saying `message`, with these notes.
pub open spec fn error_with(message: Seq<char>, notes: Seq<Seq<char>>) -> DiagnosticModel {
    DiagnosticModel { notes, ..fresh(Severity::Error, message) }
}

/// What a run of a one-input kind given several inputs is told.
pub open spec fn one_input_refusal(emit: EmitKind, count: nat) -> DiagnosticModel {
    error_with(
        "`--emit "@ + emit_spelling(emit) + "` takes one input at a time, and this run was given "@ + decimal(
            count,
        ),
        seq![
            "a module is one translation unit, and two appended into one is not a module"@,
            "run it once per input"@,
        ],
    )
}

/// What a run whose artifact would land on one of its inputs is told.
pub open spec fn overwrite_refusal(options: Options, path: Seq<char>) -> DiagnosticModel {
    let kind = emit_spelling(options.emit);
    error_with(
        "`--emit "@ + kind + "` would write over its own input `"@ + path + "`"@,
        seq![
            if options.output is Some {
                "`-o` named it, and it is one of the inputs"@
            } else {
                "`--emit "@ + kind + "` is named `"@ + path + "` when `-o` does not say otherwise"@
            },
            "give it a name that is not an input"@,
        ],
    )
}

/// The paths of the inputs.
pub open spec fn paths(inputs: Seq<String>) -> Seq<Seq<char>> {
    inputs.map_values(|s: String| s@)
}

/// Whether some input names `path`.
pub open spec fn is_an_input(inputs: Seq<String>, path: Seq<char>) -> bool {
    exists|i: int| 0 <= i < inputs.len() && same_path(inputs[i]@, path)
}

/// Decide what a run reads, before it reads anything.
///
/// A run given no inputs says so and goes on. A run of a kind that makes one
/// module from one input, given several, is refused; so is a run whose
/// artifact, at `destination`, would land on one of its inputs. Otherwise the
/// inputs are read in the order given, each path once.
pub fn inputs_to_read(options: &Options, destination: Option<String>, diagnostics: &mut DiagnosticSink) -> (r:
    Option<Vec<String>>)
    requires
        options.inputs@.len() <= u64::MAX,
    ensures
        ({
            let inputs = options.inputs@;
            let said = if inputs.len() == 0 {
                old(diagnostics).reported().push(fresh(Severity::Error, "no input files"@))
            } else {
                old(diagnostics).reported()
            };
            if !spec_spans_inputs(options.emit) && inputs.len() > 1 {
                &&& r is None
                &&& final(diagnostics).reported() == said.push(one_input_refusal(options.emit, inputs.len()))
            } else if destination is Some && is_an_input(inputs, destination->Some_0@) {
                &&& r is None
                &&& final(diagnostics).reported() == said.push(
                    overwrite_refusal(*options, destination->Some_0@),
                )
            } else {
                &&& r matches Some(v) && paths(v@) == first_occurrences(paths(inputs))
                &&& final(diagnostics).reported() == said
            }
        }),
        final(diagnostics).denies() == old(diagnostics).denies(),
        destination matches Some(d) && (exists|i: int| 0 <= i < options.inputs@.len() && options.inputs@[i]@ == d@)
            ==> r is None,
{
    let inputs = &options.inputs;
    if inputs.len() == 0 {
        diagnostics.report(Diagnostic::error("no input files".to_owned()));
    }

    if !options.emit.spans_inputs() && inputs.len() > 1 {
        let kind = options.emit.spelling();
        let count = decimal_text(inputs.len() as u64);
        let mut message = "`--emit ".to_owned();
        message.append(kind.as_str());
        message.append("` takes one input at a time, and this run was given ");
        message.append(count.as_str());
        let d = Diagnostic::error(message).with_note(
            "a module is one translation unit, and two appended into one is not a module".to_owned(),
        ).with_note("run it once per input".to_owned());
        proof {
            let expected = one_input_refusal(options.emit, inputs@.len());
            assert(d@.notes =~= expected.notes);
            assert(d@.message =~= expected.message);
            assert(d@ =~= expected);
        }
        diagnostics.report(d);
        return None;
    }

    if let Some(path) = &destination {
        let mut named = false;
        let mut i: usize = 0;
        while i < inputs.len()
            invariant
                i <= inputs@.len(),
                named == exists|j: int| 0 <= j < i && same_path(inputs@[j]@, path@),
                forall|j: int| 0 <= j < i && inputs@[j]@ == path@ ==> #[trigger] same_path(inputs@[j]@, path@),
            decreases inputs@.len() - i,
        {
            if paths_equal(inputs[i].as_str(), path.as_str()) {
                named = true;
            }
            i = i + 1;
        }
        proof {
            if exists|j: int| 0 <= j < inputs@.len() && inputs@[j]@ == path@ {
                let j = choose|j: int| 0 <= j < inputs@.len() && inputs@[j]@ == path@;
                assert(same_path(inputs@[j]@, path@));
            }
        }
        if named {
            let kind = options.emit.spelling();
            let came_from = if options.output.is_some() {
                "`-o` named it, and it is one of the inputs".to_owned()
            } else {
                let mut said = "`--emit ".to_owned();
                said.append(kind.as_str());
                said.append("` is named `");
                said.append(path.as_str());
                said.append("` when `-o` does not say otherwise");
                said
            };
            let mut message = "`--emit ".to_owned();
            message.append(kind.as_str());
            message.append("` would write over its own input `");
            message.append(path.as_str());
            message.append("`");
            let d = Diagnostic::error(message).with_note(came_from).with_note(
                "give it a name that is not an input".to_owned(),
            );
            proof {
                let expected = overwrite_refusal(*options, path@);
                assert(d@.notes =~= expected.notes);
                assert(d@.message =~= expected.message);
                assert(d@ =~= expected);
            }
            diagnostics.report(d);
            return None;
        }
    }

    let mut kept: Vec<String> = Vec::new();
    let mut i: usize = 0;
    while i < inputs.len()
        invariant
            i <= inputs@.len(),
            paths(kept@) == first_occurrences(paths(inputs@.take(i as int))),
        decreases inputs@.len() - i,
    {
        let mut seen = false;
        let mut j: usize = 0;
        while j < i
            invariant
                j <= i < inputs@.len(),
                seen == exists|k: int| 0 <= k < j && same_path(inputs@[k]@, inputs@[i as int]@),
            decreases i - j,
        {
            if paths_equal(inputs[j].as_str(), inputs[i].as_str()) {
                seen = true;
            }
            j = j + 1;
        }
        let ghost before = paths(inputs@.take(i as int));
        let ghost now = paths(inputs@.take(i + 1));
        proof {
            assert(now.drop_last() =~= before);
            assert(now.last() == inputs@[i as int]@);
            if seen {
                let k = choose|k: int| 0 <= k < i && same_path(inputs@[k]@, inputs@[i as int]@);
                assert(before[k] == inputs@[k]@);
                assert(same_path(now.drop_last()[k], now.last()));
            } else {
                assert forall|k: int| 0 <= k < now.drop_last().len() implies !same_path(
                    now.drop_last()[k],
                    now.last(),
                ) by {
                    assert(before[k] == inputs@[k]@);
                }
            }
        }
        if !seen {
            let ghost kept_before = paths(kept@);
            kept.push(inputs[i].clone());
            proof {
                assert(paths(kept@) =~= kept_before.push(inputs@[i as int]@));
            }
        }
        i = i + 1;
    }
    assert(inputs@.take(inputs@.len() as int) =~= inputs@);
    Some(kept)
}

// ---------------------------------------------------------------------------
// What `--emit tokens` writes.
// ---------------------------------------------------------------------------

/// The line `--emit tokens` writes for one token: the file's name, the line
/// and the column the token begins at, the kind's name, and the text the
/// token covers, quoted, for every token but the end of the file.
#[verifier::opaque]
pub open spec fn token_line(file: SourceFile, t: Token) -> Seq<char> {
    let text = file.text();
    let at = position_of(text, t.span.start as int);
    shown_text(file.spec_name()) + ":"@ + decimal(lines_before(text, at) + 1) + ":"@ + decimal(
        column_before(text, at) + 1,
    ) + " "@ + token_kind_name(t.kind) + (if t.kind == TokenKind::Eof {
        Seq::empty()
    } else {
        " "@ + debug_quoted(snippet_text(text, t.span.start as int, t.span.end as int))
    }) + "\n"@
}

/// Every token's line, in order.
pub open spec fn token_dump(file: SourceFile, tokens: Seq<Token>) -> Seq<char>
    decreases tokens.len(),
{
    if tokens.len() == 0 {
        Seq::empty()
    } else {
        token_dump(file, tokens.drop_last()) + token_line(file, tokens.last())
    }
}

/// Every token that covers text covers whole characters of `file`.
pub open spec fn slices_of(file: SourceFile, tokens: Seq<Token>) -> bool {
    forall|k: int|
        0 <= k < tokens.len() && (#[trigger] tokens[k]).kind != TokenKind::Eof ==> {
            &&& on_boundary(file.text(), tokens[k].span.start as int)
            &&& on_boundary(file.text(), tokens[k].span.end as int)
            &&& tokens[k].span.start <= tokens[k].span.end
        }
}

fn write_token_line(file: &SourceFile, name: &String, token: Token, out: &mut String)
    requires
        name@ == shown_text(file.spec_name()),
        token.kind != TokenKind::Eof ==> {
            &&& on_boundary(file.text(), token.span.start as int)
            &&& on_boundary(file.text(), token.span.end as int)
            &&& token.span.start <= token.span.end
        },
    ensures
        final(out)@ == old(out)@ + token_line(*file, token),
{
    let at = file.line_col(token.span.start);
    let line = decimal_text(at.line);
    let column = decimal_text(at.column);
    let tail = if token.is_eof() {
        String::new()
    } else {
        let text = file.slice(token.span.start, token.span.end);
        let quoted = debug_text(text.as_str());
        let mut t = " ".to_owned();
        t.append(quoted.as_str());
        t
    };
    let mut s = name.clone();
    s.append(":");
    s.append(line.as_str());
    s.append(":");
    s.append(column.as_str());
    s.append(" ");
    s.append(token.kind.name());
    s.append(tail.as_str());
    s.append("\n");
    proof {
        reveal(token_line);
    }
    assert(s@ == token_line(*file, token));
    out.append(s.as_str());
}

/// Write what `--emit tokens` writes for `tokens` of `file` to `out`.
pub fn dump_tokens(file: &SourceFile, tokens: &[Token], out: &mut String)
    requires
        slices_of(*file, tokens@),
    ensures
        final(out)@ == old(out)@ + token_dump(*file, tokens@),
{
    let name = shown(file.name());
    let mut i: usize = 0;
    proof {
        assert(tokens@.take(0) =~= Seq::<Token>::empty());
        assert(old(out)@ + Seq::<char>::empty() =~= old(out)@);
    }
    while i < tokens.len()
        invariant
            slices_of(*file, tokens@),
            name@ == shown_text(file.spec_name()),
            i <= tokens@.len(),
            out@ == old(out)@ + token_dump(*file, tokens@.take(i as int)),
        decreases tokens@.len() - i,
    {
        let token = tokens[i];
        let ghost before = out@;
        proof {
            assert(token == tokens@[i as int]);
        }
        write_token_line(file, &name, token, out);
        proof {
            let next = tokens@.take(i + 1);
            assert(next.drop_last() =~= tokens@.take(i as int));
            assert(next.last() == token);
            assert(out@ =~= old(out)@ + token_dump(*file, next));
        }
        i = i + 1;
    }
    assert(tokens@.take(tokens@.len() as int) =~= tokens@);
}

/// Scan `source` and write what `--emit tokens` writes for it to `out`.
pub fn emit_tokens(file: FileId, source: &SourceFile, diagnostics: &mut DiagnosticSink, out: &mut String)
    requires
        encode_utf8(source.text()).len() <= u32::MAX,
    ensures
        final(diagnostics).reported() == old(diagnostics).reported() + lex_reports(file, source.text()),
        final(diagnostics).denies() == old(diagnostics).denies(),
        final(out)@ == old(out)@ + token_dump(*source, lexed(file, source.text())),
{
    let tokens = lex(file, source, diagnostics);
    proof {
        law_tokens_run_forward(file, source.text());
        let toks = lexed(file, source.text());
        assert forall|k: int| 0 <= k < toks.len() && (#[trigger] toks[k]).kind != TokenKind::Eof implies toks[k].span.start
            <= toks[k].span.end by {
            if k < toks.len() - 1 {
            }
        }
    }
    dump_tokens(source, tokens.as_slice(), out);
}

// ---------------------------------------------------------------------------
// What an outside tool said.
// ---------------------------------------------------------------------------

/// Why `clang` could not make what was asked of it.
#[derive(Debug, PartialEq, Eq)]
pub enum Unmade {
    /// There is no `clang` to run.
    Absent,
    /// There is something by that name and it could not be started, and this
    /// is what the system said about it.
    Unrunnable(String),
    /// It ran and refused, or could not be spoken to, and this is what it
    /// said.
    Refused(String),
    /// It ran, said nothing was wrong, and made nothing.
    Silent,
}

/// A character Unicode calls white space, which is what `str::trim` takes
/// off either end.
pub open spec fn is_white_space(c: char) -> bool {
    let v = c as u32;
    ||| 0x9 <= v <= 0xd
    ||| v == 0x20
    ||| v == 0x85
    ||| v == 0xa0
    ||| v == 0x1680
    ||| 0x2000 <= v <= 0x200a
    ||| v == 0x2028
    ||| v == 0x2029
    ||| v == 0x202f
    ||| v == 0x205f
    ||| v == 0x3000
}

fn white_space(c: char) -> (r: bool)
    ensures
        r == is_white_space(c),
{
    let v = c as u32;
    (0x9 <= v && v <= 0xd) || v == 0x20 || v == 0x85 || v == 0xa0 || v == 0x1680 || (0x2000 <= v && v
        <= 0x200a) || v == 0x2028 || v == 0x2029 || v == 0x202f || v == 0x205f || v == 0x3000
}

/// How many characters of white space `s` begins with.
pub open spec fn leading_white(s: Seq<char>) -> nat
    decreases s.len(),
{
    if s.len() == 0 || !is_white_space(s[0]) {
        0
    } else {
        1 + leading_white(s.drop_first())
    }
}

/// How many characters of white space `s` ends with.
pub open spec fn trailing_white(s: Seq<char>) -> nat
    decreases s.len(),
{
    if s.len() == 0 || !is_white_space(s.last()) {
        0
    } else {
        1 + trailing_white(s.drop_last())
    }
}

/// `s` with the white space at either end taken off.
pub open spec fn trimmed(s: Seq<char>) -> Seq<char> {
    if leading_white(s) >= s.len() {
        Seq::empty()
    } else {
        s.subrange(leading_white(s) as int, s.len() - trailing_white(s))
    }
}

proof fn lemma_leading_bound(s: Seq<char>)
    ensures
        leading_white(s) <= s.len(),
    decreases s.len(),
{
    if s.len() > 0 {
        lemma_leading_bound(s.drop_first());
    }
}

/// `s` with the white space at either end taken off, as [`trimmed`] says.
pub fn trim(s: &str) -> (r: String)
    ensures
        r@ == trimmed(s@),
{
    let t = chars_of(s);
    let n = t.len();
    let mut i: usize = 0;
    proof {
        assert(t@.skip(0) =~= t@);
    }
    while i < n && white_space(t[i])
        invariant
            n == t@.len(),
            i <= n,
            leading_white(t@) == i + leading_white(t@.skip(i as int)),
        decreases n - i,
    {
        proof {
            assert(t@.skip(i as int).drop_first() =~= t@.skip(i + 1));
            assert(t@.skip(i as int)[0] == t@[i as int]);
        }
        i = i + 1;
    }
    proof {
        if i < n {
            assert(t@.skip(i as int)[0] == t@[i as int]);
        } else {
            assert(t@.skip(i as int).len() == 0);
        }
    }
    let mut out = String::new();
    if i == n {
        return out;
    }
    let mut j: usize = n;
    proof {
        assert(t@.take(n as int) =~= t@);
    }
    while j > i + 1 && white_space(t[j - 1])
        invariant
            n == t@.len(),
            i < j <= n,
            trailing_white(t@) == (n - j) + trailing_white(t@.take(j as int)),
        decreases j,
    {
        proof {
            assert(t@.take(j as int).drop_last() =~= t@.take(j - 1));
            assert(t@.take(j as int).last() == t@[j - 1]);
        }
        j = j - 1;
    }
    proof {
        if j == i + 1 {
            assert(!is_white_space(t@[i as int]));
        }
        assert(t@.take(j as int).last() == t@[j - 1]);
        assert(!is_white_space(t@[j - 1]));
        assert(trailing_white(t@.take(j as int)) == 0);
    }
    let mut k: usize = i;
    while k < j
        invariant
            n == t@.len(),
            i <= k <= j <= n,
            out@ == t@.subrange(i as int, k as int),
        decreases j - k,
    {
        push_char(&mut out, t[k]);
        proof {
            assert(out@ =~= t@.subrange(i as int, k + 1));
        }
        k = k + 1;
    }
    out
}

/// What the standard library makes of bytes as text: the same text where
/// they are UTF-8, with each ill-formed sequence replaced where they are not.
pub uninterp spec fn lossy(bytes: Seq<u8>) -> Seq<char>;

/// Calls `String::from_utf8_lossy`, whose result depends on the bytes alone,
/// and is the text they encode where they are UTF-8: that is what this
/// claims. Which replacement an ill-formed sequence gets is not restated.
#[verifier::external_body]
fn lossy_text(bytes: &[u8]) -> (r: String)
    ensures
        r@ == lossy(bytes@),
        valid_utf8(bytes@) ==> r@ == decode_utf8(bytes@),
{
    String::from_utf8_lossy(bytes).into_owned()
}

/// What a tool said on each of its streams, as text, with the white space
/// at either end taken off, leaving out a stream that said nothing.
pub open spec fn said(streams: Seq<Seq<u8>>) -> Seq<Seq<char>>
    decreases streams.len(),
{
    if streams.len() == 0 {
        Seq::empty()
    } else {
        let t = trimmed(lossy(streams.last()));
        if t.len() == 0 {
            said(streams.drop_last())
        } else {
            said(streams.drop_last()).push(t)
        }
    }
}

/// Lines joined, one to a line.
pub open spec fn joined_lines(lines: Seq<Seq<char>>) -> Seq<char>
    decreases lines.len(),
{
    if lines.len() == 0 {
        Seq::empty()
    } else if lines.len() == 1 {
        lines[0]
    } else {
        joined_lines(lines.drop_last()) + seq!['\n'] + lines.last()
    }
}

/// The bytes of each stream.
pub open spec fn stream_bytes(streams: Seq<&[u8]>) -> Seq<Seq<u8>> {
    streams.map_values(|b: &[u8]| b@)
}

/// What `clang` said when it refused: what each stream said, as
/// [`said`] has it, one to a line.
pub fn refused(streams: &[&[u8]]) -> (r: Unmade)
    ensures
        r matches Unmade::Refused(text) && text@ == joined_lines(said(stream_bytes(streams@))),
{
    let ghost all = stream_bytes(streams@);
    let mut parts: Vec<String> = Vec::new();
    let mut k: usize = 0;
    proof {
        assert(all.take(0) =~= Seq::<Seq<u8>>::empty());
    }
    while k < streams.len()
        invariant
            all == stream_bytes(streams@),
            k <= streams@.len(),
            parts@.map_values(|p: String| p@) == said(all.take(k as int)),
        decreases streams@.len() - k,
    {
        let text = lossy_text(streams[k]);
        let t = trim(text.as_str());
        let ghost before = parts@;
        proof {
            let next = all.take(k + 1);
            assert(next.drop_last() =~= all.take(k as int));
            assert(next.last() == streams@[k as int]@);
        }
        if chars_of(t.as_str()).len() > 0 {
            parts.push(t);
            proof {
                assert(parts@.map_values(|p: String| p@) =~= before.map_values(|p: String| p@).push(
                    trimmed(lossy(all[k as int])),
                ));
            }
        }
        k = k + 1;
    }
    proof {
        assert(all.take(streams@.len() as int) =~= all);
    }
    let ghost lines = parts@.map_values(|p: String| p@);
    let mut out = String::new();
    let mut i: usize = 0;
    proof {
        assert(lines.take(0) =~= Seq::<Seq<char>>::empty());
    }
    while i < parts.len()
        invariant
            lines == parts@.map_values(|p: String| p@),
            i <= lines.len(),
            out@ == joined_lines(lines.take(i as int)),
        decreases lines.len() - i,
    {
        if i > 0 {
            push_char(&mut out, '\n');
        }
        out.append(parts[i].as_str());
        proof {
            let next = lines.take(i + 1);
            assert(next.drop_last() =~= lines.take(i as int));
            assert(next.last() == parts@[i as int]@);
            if i == 0 {
                assert(out@ =~= next[0]);
            } else {
                assert(out@ =~= joined_lines(next));
            }
        }
        i = i + 1;
    }
    assert(lines.take(lines.len() as int) =~= lines);
    Unmade::Refused(out)
}

// ---------------------------------------------------------------------------
// What a run makes of the inputs it read.
// ---------------------------------------------------------------------------

/// Every file read can be scanned: it is in `sources`, and small enough for
/// a span to point anywhere in it.
pub open spec fn scannable(sources: SourceMap, files: Seq<FileId>) -> bool {
    forall|k: int|
        0 <= k < files.len() ==> (#[trigger] files[k]).0 < sources.spec_files().len() && encode_utf8(
            sources.spec_files()[files[k].0 as int].text(),
        ).len() <= u32::MAX
}

/// The token dump of every file read, in order.
pub open spec fn loaded_dump(sources: SourceMap, files: Seq<FileId>) -> Seq<char>
    decreases files.len(),
{
    if files.len() == 0 {
        Seq::empty()
    } else {
        let f = files.last();
        let file = sources.spec_files()[f.0 as int];
        loaded_dump(sources, files.drop_last()) + token_dump(file, lexed(f, file.text()))
    }
}

/// What scanning every file read reports, in order.
pub open spec fn loaded_reports(sources: SourceMap, files: Seq<FileId>) -> Seq<DiagnosticModel>
    decreases files.len(),
{
    if files.len() == 0 {
        Seq::empty()
    } else {
        let f = files.last();
        loaded_reports(sources, files.drop_last()) + lex_reports(f, sources.spec_files()[f.0 as int].text())
    }
}

/// What a run is told that asked for a kind whose stages are not part of
/// this build: only the scanner is.
pub open spec fn missing_stages(emit: EmitKind) -> DiagnosticModel {
    error_with(
        "`--emit "@ + emit_spelling(emit) + "` needs the parser and the backend, which this build does not have"@,
        seq!["`--emit tokens` is what this build can produce"@],
    )
}

/// Make the artifact of a run from the files it read, in order: for
/// `--emit tokens`, each file's token dump, appended, with what each scan
/// reported; for any other kind, which needs stages this build does not
/// have, nothing, and an error saying so where there was a file to read.
pub fn emit_loaded(
    sources: &SourceMap,
    files: &[FileId],
    emit: EmitKind,
    diagnostics: &mut DiagnosticSink,
) -> (artifact: String)
    requires
        scannable(*sources, files@),
    ensures
        final(diagnostics).denies() == old(diagnostics).denies(),
        emit == EmitKind::Tokens ==> {
            &&& artifact@ == loaded_dump(*sources, files@)
            &&& final(diagnostics).reported() == old(diagnostics).reported() + loaded_reports(*sources, files@)
        },
        emit != EmitKind::Tokens ==> {
            &&& artifact@ == Seq::<char>::empty()
            &&& final(diagnostics).reported() == if files@.len() > 0 {
                old(diagnostics).reported().push(missing_stages(emit))
            } else {
                old(diagnostics).reported()
            }
        },
{
    let mut artifact = String::new();
    match emit {
        EmitKind::Tokens => {
            let ghost before = diagnostics.reported();
            let mut k: usize = 0;
            proof {
                assert(files@.take(0) =~= Seq::<FileId>::empty());
                assert(before + Seq::<DiagnosticModel>::empty() =~= before);
            }
            while k < files.len()
                invariant
                    scannable(*sources, files@),
                    k <= files@.len(),
                    artifact@ == loaded_dump(*sources, files@.take(k as int)),
                    diagnostics.reported() == before + loaded_reports(*sources, files@.take(k as int)),
                    diagnostics.denies() == old(diagnostics).denies(),
                    before == old(diagnostics).reported(),
                decreases files@.len() - k,
            {
                let f = files[k];
                assert(f.0 < sources.spec_files().len());
                emit_tokens(f, sources.file(f), diagnostics, &mut artifact);
                proof {
                    let next = files@.take(k + 1);
                    assert(next.drop_last() =~= files@.take(k as int));
                    assert(next.last() == f);
                    assert(diagnostics.reported() =~= before + loaded_reports(*sources, next));
                }
                k = k + 1;
            }
            assert(files@.take(files@.len() as int) =~= files@);
        },
        _ => {
            if files.len() > 0 {
                let kind = emit.spelling();
                let mut message = "`--emit ".to_owned();
                message.append(kind.as_str());
                message.append("` needs the parser and the backend, which this build does not have");
                let d = Diagnostic::error(message).with_note(
                    "`--emit tokens` is what this build can produce".to_owned(),
                );
                proof {
                    let expected = missing_stages(emit);
                    assert(d@.notes =~= expected.notes);
                    assert(d@.message =~= expected.message);
                    assert(d@ =~= expected);
                }
                diagnostics.report(d);
            }
            assert(artifact@ =~= Seq::<char>::empty());
        },
    }
    artifact
}

} // verus!
