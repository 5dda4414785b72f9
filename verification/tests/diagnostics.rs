use safec::diagnostics::{
    Certainty, Code, Conclusion, Diagnostic, DiagnosticSink, Label, Policy, Remedy, Severity,
};
use safec::options::{ColorMode, EmitKind, Options};
use safec::safety::SafetyLevel;
use safec::source::{SourceMap, Span};

fn unproven(message: &str) -> Diagnostic {
    Diagnostic::concluded(
        Conclusion::Unknown,
        message.to_string(),
        Remedy::new("say more about it".to_string()),
    )
    .expect("an unknown conclusion is reported")
}

fn span(start: u32, end: u32) -> Span {
    let mut sources = SourceMap::new();
    Span::new(sources.add_virtual("t.c".to_string(), String::new()), start, end)
}

#[test]
fn every_conclusion_is_reported_the_way_the_model_says() {
    assert!(Diagnostic::concluded(
        Conclusion::Safe,
        "nothing to say".to_string(),
        Remedy::new("nothing".to_string())
    )
    .is_none());

    let unsafe_ = Diagnostic::concluded(
        Conclusion::Unsafe,
        "use of freed value `p`".to_string(),
        Remedy::new("move the free after this use".to_string()),
    )
    .expect("an unsafe conclusion is reported");
    assert_eq!(unsafe_.severity(), Severity::Error);
    assert_eq!(unsafe_.certainty(), Certainty::Proven);
    assert_eq!(unsafe_.message(), "use of freed value `p`");
    assert_eq!(
        unsafe_.remedies().iter().map(Remedy::message).collect::<Vec<_>>(),
        ["move the free after this use"]
    );

    let unknown = Diagnostic::concluded(
        Conclusion::Unknown,
        "`p` may escape".to_string(),
        Remedy::new("keep `p` in one local".to_string()),
    )
    .expect("an unknown conclusion is reported");
    assert_eq!(unknown.severity(), Severity::Warning);
    assert_eq!(unknown.certainty(), Certainty::Unproven);
    assert_eq!(unknown.message(), "`p` may escape");
    assert_eq!(
        unknown.remedies().iter().map(Remedy::message).collect::<Vec<_>>(),
        ["keep `p` in one local"]
    );
}

#[test]
fn severities_are_ordered_from_least_to_most_serious() {
    assert!(Severity::Help < Severity::Note);
    assert!(Severity::Note < Severity::Warning);
    assert!(Severity::Warning < Severity::Error);
}

#[test]
fn the_worst_severity_in_a_set_is_its_maximum() {
    let reported = [Severity::Warning, Severity::Error, Severity::Note];

    assert_eq!(reported.iter().max(), Some(&Severity::Error));
    assert_eq!(reported.iter().min(), Some(&Severity::Note));

    let warning_or_worse: Vec<_> = reported
        .iter()
        .filter(|severity| **severity >= Severity::Warning)
        .collect();
    assert_eq!(warning_or_worse, [&Severity::Warning, &Severity::Error]);
}

#[test]
fn a_severity_at_or_above_error_fails_the_compilation() {
    for (severity, fails_the_build) in [
        (Severity::Help, false),
        (Severity::Note, false),
        (Severity::Warning, false),
        (Severity::Error, true),
    ] {
        assert_eq!(severity.is_error(), fails_the_build, "{severity:?}");
    }
}

#[test]
fn severities_are_spelled_the_way_a_header_spells_them() {
    assert_eq!(Severity::Error.as_str(), "error");
    assert_eq!(Severity::Warning.as_str(), "warning");
    assert_eq!(Severity::Note.as_str(), "note");
    assert_eq!(Severity::Help.as_str(), "help");
}

#[test]
fn a_diagnostic_carries_what_it_was_built_with() {
    let diagnostic = Diagnostic::error("use of freed value `p`".to_string())
        .with_code(Code::new("SC0601"))
        .with_label(Label::secondary(span(0, 4), "freed here".to_string()))
        .with_label(Label::primary(span(10, 12), "used here".to_string()))
        .with_note("`p` was moved into `consume`".to_string());

    assert_eq!(diagnostic.severity(), Severity::Error);
    assert_eq!(diagnostic.code().unwrap().as_str(), "SC0601");
    assert_eq!(diagnostic.message(), "use of freed value `p`");
    assert_eq!(diagnostic.labels().len(), 2);
    assert_eq!(diagnostic.notes(), ["`p` was moved into `consume`"]);
}

#[test]
fn the_caret_goes_on_the_primary_label_not_the_first_one() {
    let diagnostic = Diagnostic::error("use of freed value `p`".to_string())
        .with_label(Label::secondary(span(0, 4), "allocated here".to_string()))
        .with_label(Label::secondary(span(6, 10), "freed here".to_string()))
        .with_label(Label::primary(span(12, 14), "used here".to_string()));

    let primary = diagnostic.primary_label().unwrap();
    assert_eq!(primary.message(), "used here");
    assert_eq!(primary.span(), span(12, 14));
}

#[test]
fn a_diagnostic_with_no_primary_label_falls_back_to_the_first() {
    let diagnostic = Diagnostic::warning("suspect".to_string())
        .with_label(Label::secondary(span(0, 1), "here".to_string()));

    assert_eq!(diagnostic.primary_label().unwrap().message(), "here");
}

#[test]
fn a_diagnostic_without_labels_has_no_caret() {
    assert!(Diagnostic::error("no input files".to_string())
        .primary_label()
        .is_none());
}

#[test]
fn labels_and_notes_keep_the_order_they_were_attached_in() {
    let diagnostic = Diagnostic::error("use of freed value `p`".to_string())
        .with_label(Label::secondary(span(0, 4), "allocated here".to_string()))
        .with_label(Label::secondary(span(6, 10), "freed here".to_string()))
        .with_label(Label::primary(span(12, 14), "used here".to_string()))
        .with_note("first".to_string())
        .with_note("second".to_string());

    assert_eq!(
        diagnostic.labels().iter().map(Label::message).collect::<Vec<_>>(),
        ["allocated here", "freed here", "used here"]
    );
    assert_eq!(diagnostic.notes(), ["first", "second"]);
}

#[test]
fn a_sink_counts_only_the_diagnostics_that_fail_the_build() {
    let mut sink = DiagnosticSink::new();
    assert!(sink.is_empty());
    assert!(!sink.has_errors());

    sink.report(Diagnostic::warning("unused variable `x`".to_string()));
    assert_eq!(sink.len(), 1);
    assert_eq!(sink.error_count(), 0);
    assert!(!sink.has_errors());
    assert!(!sink.is_empty());

    sink.report(Diagnostic::error("use of freed value `p`".to_string()));
    assert_eq!(sink.len(), 2);
    assert_eq!(sink.error_count(), 1);
    assert!(sink.has_errors());
}

#[test]
fn a_sink_keeps_diagnostics_in_the_order_they_were_reported() {
    let mut sink = DiagnosticSink::new();
    sink.report(Diagnostic::error("first".to_string()));
    sink.report(Diagnostic::warning("second".to_string()));

    let messages: Vec<_> = sink.diagnostics().iter().map(Diagnostic::message).collect();
    assert_eq!(messages, ["first", "second"]);
}

#[test]
fn a_diagnostic_states_a_fact_unless_it_says_otherwise() {
    assert_eq!(
        Diagnostic::error("expected `;`".to_string()).certainty(),
        Certainty::Proven
    );
    assert_eq!(
        Diagnostic::warning("unused variable `x`".to_string()).certainty(),
        Certainty::Proven
    );
    assert_eq!(
        Diagnostic::new(Severity::Note, "for reference".to_string()).certainty(),
        Certainty::Proven
    );
}

#[test]
fn a_result_that_could_not_be_proven_starts_as_a_warning() {
    let diagnostic = unproven("`p` may escape the lifetime of `buf`");

    assert_eq!(diagnostic.certainty(), Certainty::Unproven);
    assert_eq!(diagnostic.severity(), Severity::Warning);
}

#[test]
fn a_sink_leaves_an_unproven_warning_alone_by_default() {
    let mut sink = DiagnosticSink::new();
    sink.report(unproven("`p` may escape"));

    assert_eq!(sink.diagnostics()[0].severity(), Severity::Warning);
    assert_eq!(sink.error_count(), 0);
    assert!(!sink.has_errors());
}

#[test]
fn a_sink_that_denies_unknown_raises_an_unproven_warning_to_an_error() {
    let mut sink = DiagnosticSink::with_policy(Policy::new(SafetyLevel::Memory, false));
    sink.report(unproven("`p` may escape"));

    assert_eq!(sink.diagnostics()[0].severity(), Severity::Error);
    assert_eq!(sink.error_count(), 1);
    assert!(sink.has_errors());
}

#[test]
fn a_sink_that_denies_unknown_leaves_a_proven_warning_alone() {
    let mut sink = DiagnosticSink::with_policy(Policy::new(SafetyLevel::Memory, false));
    sink.report(Diagnostic::warning("unused variable `x`".to_string()));

    assert_eq!(sink.diagnostics()[0].severity(), Severity::Warning);
    assert_eq!(sink.error_count(), 0);
    assert!(!sink.has_errors());
}

#[test]
fn the_error_count_agrees_with_the_diagnostics_under_either_policy() {
    for allow_unknown in [false, true] {
        let mut sink = DiagnosticSink::with_policy(Policy::new(SafetyLevel::Memory, allow_unknown));
        sink.report(Diagnostic::error("expected `;`".to_string()));
        sink.report(Diagnostic::warning("unused variable `x`".to_string()));
        sink.report(unproven("`p` may escape"));
        sink.report(unproven("`q` may escape"));

        let recount = sink
            .diagnostics()
            .iter()
            .filter(|diagnostic| diagnostic.severity().is_error())
            .count();
        assert_eq!(sink.error_count(), recount, "allow_unknown = {allow_unknown}");
        assert_eq!(sink.error_count(), if allow_unknown { 1 } else { 3 });
    }
}

#[test]
fn a_diagnostic_carries_the_safety_level_it_came_from() {
    let diagnostic = unproven("`p` may escape").with_safety_level(SafetyLevel::Lifetime);

    assert_eq!(diagnostic.safety_level(), Some(SafetyLevel::Lifetime));
    assert_eq!(
        Diagnostic::error("expected `;`".to_string()).safety_level(),
        None
    );
}

fn options_at(safety: SafetyLevel, allow_unknown: bool) -> Options {
    Options {
        inputs: Vec::new(),
        output: None,
        safety,
        emit: EmitKind::Executable,
        target: "x86_64-pc-windows-msvc".to_string(),
        allow_unknown,
        color: ColorMode::Never,
    }
}

#[test]
fn a_policy_is_read_from_the_options_the_run_was_given() {
    let mut options = options_at(SafetyLevel::Memory, false);
    assert!(Policy::from_options(&options).deny_unknown());

    options.allow_unknown = true;
    assert!(!Policy::from_options(&options).deny_unknown());
}

#[test]
fn every_level_that_runs_a_check_denies_unknown_unless_it_was_allowed() {
    let rows: [(SafetyLevel, bool, bool); 6] = [
        (SafetyLevel::Off, false, false),
        (SafetyLevel::Memory, true, false),
        (SafetyLevel::Lifetime, true, false),
        (SafetyLevel::Ownership, true, false),
        (SafetyLevel::Thread, true, false),
        (SafetyLevel::Strict, true, true),
    ];

    assert_eq!(
        rows.len(),
        SafetyLevel::all().len(),
        "a safety level was added and this table did not answer for it"
    );

    for (level, by_default, when_allowed) in rows {
        assert_eq!(
            Policy::new(level, false).deny_unknown(),
            by_default,
            "{level:?}, nothing asked"
        );
        assert_eq!(
            Policy::new(level, true).deny_unknown(),
            when_allowed,
            "{level:?}, asked to allow unknown"
        );
    }
}

#[test]
fn the_strictest_safety_level_denies_unknown_even_unresolved() {
    let options = options_at(SafetyLevel::Strict, true);

    assert!(Policy::from_options(&options).deny_unknown());

    let mut sink = DiagnosticSink::with_policy(Policy::from_options(&options));
    sink.report(unproven("`p` may escape"));
    assert_eq!(sink.diagnostics()[0].severity(), Severity::Error);
    assert!(sink.has_errors());
}

#[test]
fn the_strictest_safety_level_denies_unknown_however_the_policy_is_built() {
    let policy = Policy::new(SafetyLevel::Strict, true);

    assert!(policy.deny_unknown());

    let mut sink = DiagnosticSink::with_policy(policy);
    sink.report(unproven("`p` may escape"));
    assert_eq!(sink.diagnostics()[0].severity(), Severity::Error);
    assert!(sink.has_errors());
}

// Beyond the original's own tests.

#[test]
fn a_lenient_sink_never_promotes() {
    let mut sink = DiagnosticSink::with_policy(Policy::lenient());
    sink.report(unproven("`p` may escape"));
    sink.report(unproven("`q` may escape"));

    assert_eq!(sink.error_count(), 0);
    assert!(sink
        .diagnostics()
        .iter()
        .all(|d| d.severity() == Severity::Warning));
}

#[test]
fn a_promoted_diagnostic_keeps_everything_else_it_carried() {
    let mut sink = DiagnosticSink::with_policy(Policy::new(SafetyLevel::Strict, false));
    sink.report(
        unproven("`p` may escape")
            .with_label(Label::primary(span(3, 5), "here".to_string()))
            .with_note("a note".to_string()),
    );

    let kept = &sink.diagnostics()[0];
    assert_eq!(kept.severity(), Severity::Error);
    assert_eq!(kept.certainty(), Certainty::Unproven);
    assert_eq!(kept.message(), "`p` may escape");
    assert_eq!(kept.notes(), ["a note"]);
    assert_eq!(kept.labels()[0].span(), span(3, 5));
    assert_eq!(kept.remedies()[0].message(), "say more about it");
}

#[test]
fn a_code_keeps_its_spelling() {
    assert_eq!(Code::new("SC0301").as_str(), "SC0301");
    assert_eq!(Code::new("SC9999").as_str(), "SC9999");
}
