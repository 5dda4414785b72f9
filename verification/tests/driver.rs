use safec::diagnostics::{Diagnostic, DiagnosticSink, Policy};
use safec::driver::{
    destination, dump_tokens, emit_loaded, emit_tokens, inputs_to_read, refused, trim, writes_artifact,
    Outcome, Unmade,
};
use safec::lexer::lex;
use safec::options::{ColorMode, EmitKind, Options};
use safec::safety::SafetyLevel;
use safec::source::SourceMap;

fn options(inputs: &[&str]) -> Options {
    Options {
        inputs: inputs.iter().map(|s| s.to_string()).collect(),
        output: None,
        safety: SafetyLevel::Memory,
        emit: EmitKind::Executable,
        target: "x86_64-pc-windows-msvc".to_string(),
        allow_unknown: false,
        color: ColorMode::Never,
    }
}

fn token_dump(name: &str, text: &str) -> String {
    let mut sources = SourceMap::new();
    let file = sources.add_file(name.to_string(), text.to_string());
    let mut diagnostics = DiagnosticSink::new();
    let mut out = String::new();
    emit_tokens(file, sources.file(file), &mut diagnostics, &mut out);
    out
}

#[test]
fn the_sink_is_built_from_the_resolved_options() {
    for allow_unknown in [false, true] {
        let mut options = options(&[]);
        options.allow_unknown = allow_unknown;
        let sink = DiagnosticSink::with_policy(Policy::from_options(&options));
        assert_eq!(sink.policy().deny_unknown(), !allow_unknown);
    }
}

#[test]
fn the_strictest_safety_level_denies_unknown_in_the_sink() {
    let mut options = options(&[]);
    options.safety = SafetyLevel::Strict;
    let sink = DiagnosticSink::with_policy(Policy::from_options(&options));
    assert!(sink.policy().deny_unknown());
}

#[test]
fn the_same_input_twice_is_read_once() {
    let mut diagnostics = DiagnosticSink::new();
    let read = inputs_to_read(&options(&["main.c", "main.c"]), None, &mut diagnostics);
    assert_eq!(read, Some(vec!["main.c".to_string()]));
    assert!(diagnostics.is_empty());
}

#[test]
fn two_spellings_are_one_input_only_when_their_components_match() {
    let mut diagnostics = DiagnosticSink::new();
    let read = inputs_to_read(&options(&["dir/main.c", "dir/./main.c"]), None, &mut diagnostics);
    assert_eq!(read, Some(vec!["dir/main.c".to_string()]));

    let read = inputs_to_read(
        &options(&["safec_driver_spelling_relative.c", "./safec_driver_spelling_relative.c"]),
        None,
        &mut diagnostics,
    );
    assert_eq!(read.map(|inputs| inputs.len()), Some(2));
}

#[test]
fn every_input_is_kept_in_the_order_it_was_given() {
    let mut diagnostics = DiagnosticSink::new();
    let read = inputs_to_read(&options(&["b.c", "a.c", "c.c", "a.c"]), None, &mut diagnostics);
    assert_eq!(
        read,
        Some(vec!["b.c".to_string(), "a.c".to_string(), "c.c".to_string()])
    );
}

#[test]
fn a_run_with_no_inputs_says_so() {
    let mut diagnostics = DiagnosticSink::new();
    let read = inputs_to_read(&options(&[]), None, &mut diagnostics);
    assert_eq!(read, Some(Vec::new()));
    assert!(diagnostics.diagnostics()[0].message().contains("no input files"));
    assert_eq!(Outcome::of(&diagnostics), Outcome::Failed);
}

#[test]
fn an_llvm_module_is_one_input_at_a_time() {
    let mut two = options(&["a.c", "b.c"]);
    two.emit = EmitKind::LlvmIr;
    let mut diagnostics = DiagnosticSink::new();
    assert_eq!(inputs_to_read(&two, None, &mut diagnostics), None);
    assert_eq!(
        diagnostics.diagnostics()[0].message(),
        "`--emit llvm-ir` takes one input at a time, and this run was given 2"
    );
    assert_eq!(
        diagnostics.diagnostics()[0].notes(),
        [
            "a module is one translation unit, and two appended into one is not a module",
            "run it once per input"
        ]
    );
    assert_eq!(Outcome::of(&diagnostics), Outcome::Failed);

    two.emit = EmitKind::SafetyIr;
    let mut diagnostics = DiagnosticSink::new();
    assert_eq!(inputs_to_read(&two, None, &mut diagnostics).map(|i| i.len()), Some(2));
    assert_eq!(Outcome::of(&diagnostics), Outcome::Succeeded);
}

#[test]
fn an_artifact_named_after_an_input_is_refused() {
    let mut run = options(&["main.c"]);
    run.emit = EmitKind::Tokens;
    let mut diagnostics = DiagnosticSink::new();
    assert_eq!(
        inputs_to_read(&run, Some("main.c".to_string()), &mut diagnostics),
        None
    );
    assert_eq!(
        diagnostics.diagnostics()[0].message(),
        "`--emit tokens` would write over its own input `main.c`"
    );
    assert_eq!(
        diagnostics.diagnostics()[0].notes()[0],
        "`--emit tokens` is named `main.c` when `-o` does not say otherwise"
    );

    run.output = Some("./main.c".to_string());
    let mut diagnostics = DiagnosticSink::new();
    assert_eq!(
        inputs_to_read(&run, Some("main.c".to_string()), &mut diagnostics),
        None
    );
    assert_eq!(
        diagnostics.diagnostics()[0].notes()[0],
        "`-o` named it, and it is one of the inputs"
    );

    let mut diagnostics = DiagnosticSink::new();
    assert_eq!(
        inputs_to_read(&run, Some("out.txt".to_string()), &mut diagnostics),
        Some(vec!["main.c".to_string()])
    );
}

#[test]
fn a_run_that_reported_an_error_failed() {
    let mut sink = DiagnosticSink::new();
    assert_eq!(Outcome::of(&sink), Outcome::Succeeded);
    sink.report(Diagnostic::warning("unused".to_string()));
    assert_eq!(Outcome::of(&sink), Outcome::Succeeded);
    sink.report(Diagnostic::error("boom".to_string()));
    assert_eq!(Outcome::of(&sink), Outcome::Failed);
}

#[test]
fn what_a_failed_run_still_writes() {
    assert!(writes_artifact(false, false, EmitKind::Executable));
    assert!(writes_artifact(false, true, EmitKind::Tokens));
    assert!(writes_artifact(true, false, EmitKind::Tokens));
    assert!(!writes_artifact(true, true, EmitKind::Tokens));
    assert!(!writes_artifact(true, false, EmitKind::LlvmIr));
}

#[test]
fn the_token_dump_has_one_exact_line_per_token() {
    assert_eq!(
        token_dump("test.c", "int x;\n"),
        "test.c:1:1 keyword \"int\"\n\
         test.c:1:5 identifier \"x\"\n\
         test.c:1:6 punct \";\"\n\
         test.c:2:1 eof\n"
    );
}

#[test]
fn asking_for_tokens_produces_them() {
    let artifact = token_dump("a.c", "int x;\n");
    let lines: Vec<_> = artifact
        .lines()
        .map(|line| line.split_once(' ').unwrap().1)
        .collect();
    assert_eq!(
        lines,
        ["keyword \"int\"", "identifier \"x\"", "punct \";\"", "eof",]
    );
}

#[test]
fn the_token_dump_counts_columns_in_characters() {
    let artifact = token_dump("c.c", "\tint caf\u{e9};\n");
    let columns: Vec<_> = artifact
        .lines()
        .map(|line| line.rsplit(':').next().unwrap().split(' ').next().unwrap())
        .collect();
    assert_eq!(columns, ["2", "6", "9", "10", "1"], "{artifact}");
}

#[test]
fn a_file_name_is_escaped_on_every_line_of_the_token_dump() {
    let mut sources = SourceMap::new();
    let file = sources.add_virtual("evil\u{1b}[31m.c".to_string(), "int x;\n".to_string());
    let mut diagnostics = DiagnosticSink::new();
    let tokens = lex(file, sources.file(file), &mut diagnostics);
    let mut out = String::new();
    dump_tokens(sources.file(file), &tokens, &mut out);
    assert!(out.contains("evil\\u{1b}"), "{out:?}");
    assert!(!out.contains('\u{1b}'), "{out:?}");
    assert_eq!(out.lines().count(), 4);
}

#[test]
fn the_token_dump_escapes_the_text_it_quotes() {
    let artifact = token_dump("e.c", "s = \"a\u{1b}[2Jb\"; c = '\\\"';\n");
    assert!(!artifact.contains('\u{1b}'), "{artifact:?}");
    assert!(
        artifact.contains(r#"string "\"a\u{1b}[2Jb\"""#),
        "{artifact:?}"
    );
}

#[test]
fn the_token_dump_names_the_kinds_this_scanner_makes() {
    let artifact = token_dump("k.c", "int x = 1 + 'c' + @; char *s = \"t\";\n");
    let named: Vec<_> = artifact
        .lines()
        .filter_map(|line| line.split(' ').nth(1))
        .collect();
    for kind in [
        "keyword",
        "identifier",
        "number",
        "string",
        "character",
        "punct",
        "unknown",
        "eof",
    ] {
        assert!(named.contains(&kind), "no {kind} in {artifact}");
    }
}

#[test]
fn a_lexical_error_does_not_withhold_the_tokens() {
    let mut sources = SourceMap::new();
    let file = sources.add_file("bad.c".to_string(), "int x = @;\n".to_string());
    let mut diagnostics = DiagnosticSink::new();
    let mut out = String::new();
    emit_tokens(file, sources.file(file), &mut diagnostics, &mut out);
    assert!(diagnostics.has_errors());
    assert!(out.contains("bad.c:1:9 unknown \"@\""), "{out}");
    assert!(out.ends_with("bad.c:2:1 eof\n"), "{out}");
}

#[test]
fn a_file_that_could_not_be_read_or_written_says_which_and_why() {
    let d = safec::driver::unreadable("missing.c", "No such file or directory (os error 2)".to_string());
    assert_eq!(d.message(), "cannot read `missing.c`");
    assert_eq!(d.notes(), ["No such file or directory (os error 2)"]);

    let d = safec::driver::not_utf8("latin1.c", "invalid utf-8 sequence of 1 bytes from index 3".to_string());
    assert_eq!(d.message(), "`latin1.c` is not valid UTF-8");
    assert_eq!(
        d.notes(),
        [
            "safec reads source files as UTF-8",
            "invalid utf-8 sequence of 1 bytes from index 3"
        ]
    );

    let d = safec::driver::unwritable("out/a.tok", "Permission denied (os error 13)".to_string());
    assert_eq!(d.message(), "cannot write `out/a.tok`");
    assert_eq!(d.notes(), ["Permission denied (os error 13)"]);
}

#[test]
fn an_artifact_goes_where_it_was_named_or_where_its_kind_puts_it() {
    let mut run = options(&["src/main.c", "b.c"]);
    run.emit = EmitKind::Tokens;
    assert_eq!(destination(&run, "a.out"), None);
    run.emit = EmitKind::Object;
    assert_eq!(destination(&run, "a.out"), Some("main.o".to_string()));
    run.emit = EmitKind::Executable;
    assert_eq!(destination(&run, "a.exe"), Some("a.exe".to_string()));
    run.output = Some("out.bin".to_string());
    assert_eq!(destination(&run, "a.exe"), Some("out.bin".to_string()));
    let mut none = options(&[]);
    none.emit = EmitKind::Object;
    assert_eq!(destination(&none, "a.out"), None);
}

#[test]
fn a_program_nobody_named_is_called_what_its_target_calls_one() {
    assert_eq!(safec::driver::program_name("x86_64-pc-windows-msvc"), "a.exe");
    assert_eq!(safec::driver::program_name("x86_64-unknown-linux-gnu"), "a.out");
    assert_eq!(safec::driver::program_name("window"), "a.out");
    assert_eq!(safec::driver::program_name(""), "a.out");
}

#[test]
fn what_clang_said_is_trimmed_and_joined_one_stream_to_a_line() {
    let out: &[u8] = b"  LINK : fatal error LNK1561\r\n";
    let err: &[u8] = b"clang: error: linker command failed\n";
    let empty: &[u8] = b" \n\t";
    assert_eq!(
        refused(&[out, empty, err]),
        Unmade::Refused("LINK : fatal error LNK1561\nclang: error: linker command failed".to_string())
    );
    assert_eq!(refused(&[empty]), Unmade::Refused(String::new()));
    let broken: &[u8] = b"bad \xff byte";
    assert_eq!(refused(&[broken]), Unmade::Refused("bad \u{fffd} byte".to_string()));
}

#[test]
fn trimming_takes_white_space_off_both_ends_only() {
    assert_eq!(trim("  a b \u{3000}"), "a b");
    assert_eq!(trim("\u{85}x"), "x");
    assert_eq!(trim("   "), "");
    assert_eq!(trim(""), "");
    assert_eq!(trim("x"), "x");
}

#[test]
fn only_the_tokens_are_made_in_this_build() {
    let mut sources = SourceMap::new();
    let a = sources.add_file("a.c".to_string(), "int a;\n".to_string());
    let b = sources.add_file("b.c".to_string(), "x @\n".to_string());
    let mut diagnostics = DiagnosticSink::new();
    let made = emit_loaded(&sources, &[a, b], EmitKind::Tokens, &mut diagnostics);
    assert!(made.starts_with("a.c:1:1 keyword \"int\"\n"), "{made}");
    assert!(made.ends_with("b.c:2:1 eof\n"), "{made}");
    assert_eq!(diagnostics.len(), 1);

    let mut diagnostics = DiagnosticSink::new();
    let made = emit_loaded(&sources, &[a], EmitKind::Ast, &mut diagnostics);
    assert_eq!(made, "");
    assert_eq!(
        diagnostics.diagnostics()[0].message(),
        "`--emit ast` needs the parser and the backend, which this build does not have"
    );
    let mut diagnostics = DiagnosticSink::new();
    assert_eq!(emit_loaded(&sources, &[], EmitKind::Object, &mut diagnostics), "");
    assert!(diagnostics.is_empty());
}
