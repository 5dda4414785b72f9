use safec::cli::{Cli, Refused};
use safec::options::{ColorMode, EmitKind, Options};
use safec::safety::SafetyLevel;

fn options(safety: SafetyLevel, emit: EmitKind) -> Options {
    Options {
        inputs: Vec::new(),
        output: None,
        safety,
        emit,
        target: "x86_64-pc-windows-msvc".to_string(),
        allow_unknown: false,
        color: ColorMode::Never,
    }
}

#[test]
fn a_kind_that_survives_an_error_is_a_kind_that_spans_inputs() {
    for kind in EmitKind::all() {
        assert!(
            !kind.survives_an_error() || kind.spans_inputs(),
            "{kind:?} is written when a run fails and cannot take several inputs"
        );
    }
}

#[test]
fn every_emit_kind_says_whether_it_reaches_the_ir() {
    let rows: [(EmitKind, bool); 6] = [
        (EmitKind::Tokens, false),
        (EmitKind::Ast, false),
        (EmitKind::SafetyIr, true),
        (EmitKind::LlvmIr, true),
        (EmitKind::Object, true),
        (EmitKind::Executable, true),
    ];

    assert_eq!(
        rows.len(),
        EmitKind::all().len(),
        "an emit kind was added and this table did not answer for it"
    );

    for (kind, reaches) in rows {
        assert_eq!(kind.reaches_the_ir(), reaches, "{kind:?}");
    }
}

#[test]
fn a_kind_that_is_a_program_reaches_the_ir() {
    for kind in EmitKind::all() {
        assert!(
            !kind.is_a_program() || kind.reaches_the_ir(),
            "{kind:?} is a program, and there is no route to one that goes round the IR"
        );
    }
}

#[test]
fn a_run_is_delivered_no_more_than_the_levels_with_checks_behind_it() {
    let rows: [(SafetyLevel, SafetyLevel, SafetyLevel); 6] = [
        (SafetyLevel::Off, SafetyLevel::Off, SafetyLevel::Off),
        (SafetyLevel::Memory, SafetyLevel::Memory, SafetyLevel::Off),
        (SafetyLevel::Lifetime, SafetyLevel::Memory, SafetyLevel::Off),
        (SafetyLevel::Ownership, SafetyLevel::Memory, SafetyLevel::Off),
        (SafetyLevel::Thread, SafetyLevel::Memory, SafetyLevel::Off),
        (SafetyLevel::Strict, SafetyLevel::Memory, SafetyLevel::Off),
    ];

    assert_eq!(
        rows.len(),
        SafetyLevel::all().len(),
        "a safety level was added and this table did not answer for it"
    );

    for (asked, reaching, stopping) in rows {
        assert_eq!(
            options(asked, EmitKind::SafetyIr).delivered(),
            reaching,
            "{asked:?}, artifact reaches the IR"
        );
        assert_eq!(
            options(asked, EmitKind::Ast).delivered(),
            stopping,
            "{asked:?}, artifact stops before the IR"
        );
    }
}

#[test]
fn each_emit_kind_answers_the_driver_s_three_questions() {
    // (kind, spans inputs, is a program, survives an error, default safety)
    let rows = [
        (EmitKind::Tokens, true, false, true, SafetyLevel::Off),
        (EmitKind::Ast, true, false, true, SafetyLevel::Off),
        (EmitKind::SafetyIr, true, false, true, SafetyLevel::Memory),
        (EmitKind::LlvmIr, false, false, false, SafetyLevel::Memory),
        (EmitKind::Object, false, false, false, SafetyLevel::Memory),
        (EmitKind::Executable, true, true, false, SafetyLevel::Memory),
    ];
    for (kind, spans, program, survives, safety) in rows {
        assert_eq!(kind.spans_inputs(), spans, "{kind:?}");
        assert_eq!(kind.is_a_program(), program, "{kind:?}");
        assert_eq!(kind.survives_an_error(), survives, "{kind:?}");
        assert_eq!(kind.default_safety(), safety, "{kind:?}");
    }
}

// The command line's values. Parsing `argv` is the argument parser's; these
// start from what it hands over.

fn invocation(safety: SafetyLevel, allow_unknown: bool) -> Cli {
    Cli {
        inputs: vec!["a.c".to_string()],
        output: None,
        safety,
        emit: EmitKind::Executable,
        allow_unknown,
        target: "x86_64-unknown-linux-gnu".to_string(),
        color: ColorMode::Auto,
    }
}

#[test]
fn safety_levels_are_spelled_in_kebab_case() {
    let names: Vec<&str> = SafetyLevel::all().into_iter().map(SafetyLevel::spelling).collect();
    assert_eq!(names, ["off", "memory", "lifetime", "ownership", "thread", "strict"]);
}

#[test]
fn emit_kinds_are_spelled_in_kebab_case() {
    let names: Vec<String> = EmitKind::all().into_iter().map(EmitKind::spelling).collect();
    assert_eq!(
        names,
        ["tokens", "ast", "safety-ir", "llvm-ir", "object", "executable"]
    );
}

#[test]
fn color_modes_are_spelled_in_kebab_case() {
    let names: Vec<&str> = ColorMode::all().into_iter().map(ColorMode::spelling).collect();
    assert_eq!(names, ["auto", "always", "never"]);
}

#[test]
fn every_safety_level_carries_the_request_across_the_boundary_unchanged() {
    for level in SafetyLevel::all() {
        for asked in [false, true] {
            let options = invocation(level, asked).into_options();
            assert_eq!(
                options.allow_unknown,
                asked,
                "--safety {} did not carry allow_unknown = {asked}",
                level.spelling()
            );
        }
    }
}

#[test]
fn allowing_unknown_is_refused_at_the_level_defined_as_leaving_none() {
    let cli = invocation(SafetyLevel::Strict, true);

    assert_eq!(cli.check(), Err(Refused::AllowUnknownAtStrict));
    assert_eq!(
        Refused::AllowUnknownAtStrict.message(),
        "--allow-unknown cannot be used with --safety strict, which is defined as leaving nothing unknown"
    );
}

#[test]
fn an_invocation_that_asks_for_only_one_of_the_two_is_accepted() {
    for level in SafetyLevel::all() {
        assert!(
            invocation(level, false).check().is_ok(),
            "--safety {} alone was refused",
            level.spelling()
        );
    }

    for level in [
        SafetyLevel::Off,
        SafetyLevel::Memory,
        SafetyLevel::Lifetime,
        SafetyLevel::Ownership,
        SafetyLevel::Thread,
    ] {
        assert!(
            invocation(level, true).check().is_ok(),
            "--safety {} with the flag was refused",
            level.spelling()
        );
    }
}

#[test]
fn every_argument_survives_the_trip_into_options() {
    let options = Cli {
        inputs: vec!["a.c".to_string(), "b.c".to_string()],
        output: Some("out.ir".to_string()),
        safety: SafetyLevel::Thread,
        emit: EmitKind::SafetyIr,
        allow_unknown: true,
        target: "wasm32-unknown-unknown".to_string(),
        color: ColorMode::Never,
    }
    .into_options();

    assert_eq!(
        options,
        Options {
            inputs: vec!["a.c".to_string(), "b.c".to_string()],
            output: Some("out.ir".to_string()),
            safety: SafetyLevel::Thread,
            emit: EmitKind::SafetyIr,
            target: "wasm32-unknown-unknown".to_string(),
            allow_unknown: true,
            color: ColorMode::Never,
        }
    );
}

#[test]
fn safety_levels_are_ordered_and_min_takes_the_lower() {
    assert!(SafetyLevel::Off < SafetyLevel::Memory);
    assert!(SafetyLevel::Thread < SafetyLevel::Strict);
    assert_eq!(SafetyLevel::Strict.min(SafetyLevel::Lifetime), SafetyLevel::Lifetime);
    assert_eq!(SafetyLevel::Off.min(SafetyLevel::Memory), SafetyLevel::Off);
    assert!(SafetyLevel::Strict.at_least(SafetyLevel::Thread));
    assert!(!SafetyLevel::Memory.at_least(SafetyLevel::Lifetime));
}
