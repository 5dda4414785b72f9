use safec::diagnostics::{Code, Conclusion, Diagnostic, DiagnosticSink, Label, Policy, Remedy, Severity};
use safec::options::{ColorMode, EmitKind, Options};
use safec::render::{
    clamp, echoed, header, header_only_text, notes_text, plan, strip_header_escapes, Rendering,
};
use safec::safety::SafetyLevel;
use safec::source::{SourceMap, Span};

fn unproven(message: &str) -> Diagnostic {
    Diagnostic::concluded(
        Conclusion::Unknown,
        message.to_string(),
        Remedy::new("say more about it".to_string()),
    )
    .expect("an unknown conclusion is reported")
}

/// What is written for a diagnostic with nothing to point at.
fn unanchored(sources: &SourceMap, diagnostic: &Diagnostic) -> String {
    let rendering = plan(sources, diagnostic);
    assert_eq!(rendering.anchor, None);
    header_only_text(&rendering) + &notes_text(&rendering.notes)
}

fn one_label(text: &str, start: u32, end: u32) -> Rendering {
    let mut sources = SourceMap::new();
    let file = sources.add_virtual("main.c".to_string(), text.to_string());
    plan(
        &sources,
        &Diagnostic::error("boom".to_string())
            .with_label(Label::primary(Span::new(file, start, end), "here".to_string())),
    )
}

fn moved_value() -> (SourceMap, Diagnostic) {
    let mut sources = SourceMap::new();
    let file = sources.add_virtual(
        "main.c".to_string(),
        "int *p = alloc();\nconsume(p);\n*p = 42;\n".to_string(),
    );
    let diagnostic = Diagnostic::error("use of moved value `p`".to_string())
        .with_code(Code::new("SC0601"))
        .with_label(Label::secondary(Span::new(file, 5, 6), "move occurs here".to_string()))
        .with_label(Label::primary(Span::new(file, 30, 32), "value used here".to_string()))
        .with_note("`p` was moved into `consume`".to_string());
    (sources, diagnostic)
}

#[test]
fn a_diagnostic_without_a_label_still_reports_its_message() {
    let sources = SourceMap::new();
    let rendered = unanchored(
        &sources,
        &Diagnostic::error("no input files".to_string())
            .with_code(Code::new("SC0001"))
            .with_note("pass at least one `.c` file".to_string()),
    );
    assert_eq!(
        rendered,
        "error[SC0001]: no input files\n  = note: pass at least one `.c` file\n"
    );
}

#[test]
fn a_diagnostic_without_a_code_says_only_the_severity() {
    let sources = SourceMap::new();
    assert_eq!(
        unanchored(&sources, &Diagnostic::error("no input files".to_string())),
        "error: no input files\n"
    );
}

#[test]
fn both_rendering_paths_spell_the_header_the_same_way() {
    let mut sources = SourceMap::new();
    let file = sources.add_virtual("main.c".to_string(), "int x;\n".to_string());
    for severity in [Severity::Error, Severity::Warning, Severity::Note, Severity::Help] {
        let bare = Diagnostic::new(severity, "m".to_string()).with_code(Code::new("SC0001"));
        let anchored = bare
            .clone()
            .with_label(Label::primary(Span::new(file, 0, 3), "here".to_string()));
        let expected = format!("{}[SC0001]: m", severity.as_str());
        assert_eq!(unanchored(&sources, &bare).lines().next().unwrap(), expected);
        let drawn = plan(&sources, &anchored);
        assert_eq!(drawn.anchor, Some(0));
        assert_eq!(format!("{}: {}", drawn.header, drawn.message), expected);
        assert_eq!(header(&anchored), format!("{}[SC0001]", severity.as_str()));
    }
}

#[test]
fn a_rendered_diagnostic_names_its_file_and_says_what_is_wrong() {
    let (sources, diagnostic) = moved_value();
    let rendering = plan(&sources, &diagnostic);
    assert_eq!(rendering.header, "error[SC0601]");
    assert_eq!(rendering.message, "use of moved value `p`");
    let messages: Vec<_> = rendering.labels.iter().map(|l| l.message.as_str()).collect();
    assert_eq!(messages, ["move occurs here", "value used here"]);
    assert_eq!(rendering.anchor, Some(1));
    assert_eq!(
        notes_text(&rendering.notes),
        "  = note: `p` was moved into `consume`\n"
    );
}

#[test]
fn rendering_does_not_depend_on_the_order_labels_were_attached() {
    let mut sources = SourceMap::new();
    let file = sources.add_virtual(
        "main.c".to_string(),
        "int *p = alloc();\nconsume(p);\n*p = 42;\n".to_string(),
    );
    let moved = Label::secondary(Span::new(file, 5, 6), "move occurs here".to_string());
    let used = Label::primary(Span::new(file, 30, 32), "value used here".to_string());
    let source_order = Diagnostic::error("m".to_string())
        .with_label(moved.clone())
        .with_label(used.clone());
    let primary_first = Diagnostic::error("m".to_string()).with_label(used).with_label(moved);

    let a = plan(&sources, &source_order);
    let b = plan(&sources, &primary_first);
    let drawn = |r: &Rendering| {
        r.labels
            .iter()
            .map(|l| (l.file, l.start, l.end, l.message.clone(), l.primary))
            .collect::<Vec<_>>()
    };
    assert_eq!(drawn(&a), drawn(&b));
    assert_eq!(drawn(&a)[0].1, 5);
    let anchored = |r: &Rendering| r.anchor.map(|i| r.labels[i].start);
    assert_eq!(anchored(&a), Some(30));
    assert_eq!(anchored(&b), Some(30));
}

#[test]
fn a_span_past_the_end_of_its_file_is_moved_and_noted() {
    for end in [8, 600] {
        let rendering = one_label("int x;\n", 0, end);
        assert_eq!(rendering.labels.len(), 1);
        assert_eq!((rendering.labels[0].start, rendering.labels[0].end), (0, 7));
        assert_eq!(rendering.labels[0].message, "here");
        assert_eq!(
            rendering.notes,
            [format!(
                "the span 0..{end} for `here` reaches past the end of <main.c> (7 bytes), and was moved to fit"
            )]
        );
    }
}

#[test]
fn a_span_inside_a_character_is_moved_and_noted() {
    let rendering = one_label("/* 日本 */\n", 3, 4);
    assert_eq!((rendering.labels[0].start, rendering.labels[0].end), (3, 6));
    assert_eq!(
        rendering.notes,
        ["the span 3..4 for `here` ends inside a character, and was moved to fit"]
    );
}

#[test]
fn a_span_that_starts_inside_a_character_says_so_rather_than_blaming_the_end() {
    let rendering = one_label("/* 日本 */\n", 4, 9);
    assert_eq!((rendering.labels[0].start, rendering.labels[0].end), (3, 9));
    assert!(rendering.notes[0].contains("starts inside a character"));
    assert!(!rendering.notes[0].contains("ends inside a character"));
}

#[test]
fn a_span_split_at_both_ends_says_both() {
    let rendering = one_label("/* 日本 */\n", 4, 7);
    assert_eq!((rendering.labels[0].start, rendering.labels[0].end), (3, 9));
    assert!(rendering.notes[0].contains("starts and ends inside a character"));
}

#[test]
fn a_span_that_is_both_past_the_end_and_split_says_both() {
    let rendering = one_label("/* 日本 */\n", 4, 600);
    assert!(rendering.notes[0].contains("reaches past the end of"));
    assert!(rendering.notes[0].contains("starts inside a character"));
    assert_eq!(
        rendering.notes[0],
        "the span 4..600 for `here` reaches past the end of <main.c> (13 bytes) and starts inside a character, and was moved to fit"
    );
}

#[test]
fn a_span_that_fits_is_left_alone() {
    let mut sources = SourceMap::new();
    let file = sources.add_virtual("main.c".to_string(), "int x;\n".to_string());
    let (start, end, adjusted) = clamp(sources.file(file), Span::new(file, 4, 5));
    assert_eq!((start, end), (4, 5));
    assert!(!adjusted.any());
    let (start, end, adjusted) = clamp(sources.file(file), Span::new(file, 6, 2));
    assert_eq!((start, end), (6, 6));
    assert!(!adjusted.any());
}

#[test]
fn content_never_reaches_the_terminal_as_an_instruction() {
    let mut sources = SourceMap::new();
    let file = sources.add_virtual("main.c".to_string(), "int x;\n".to_string());
    let bare = Diagnostic::error("evil\u{1b}[31m".to_string()).with_note("note\u{1b}[33m".to_string());
    let anchored = Diagnostic::error("evil\u{1b}[31m".to_string())
        .with_label(Label::primary(Span::new(file, 0, 3), "here\u{1b}[32m".to_string()))
        .with_note("note\u{1b}[33m".to_string());

    let rendered = unanchored(&sources, &bare);
    assert!(!rendered.contains('\u{1b}'), "{rendered:?}");
    assert!(rendered.contains("evil\\u{1b}"), "{rendered:?}");

    let rendering = plan(&sources, &anchored);
    assert_eq!(rendering.message, "evil\\u{1b}[31m");
    assert_eq!(rendering.labels[0].message, "here\\u{1b}[32m");
    assert_eq!(notes_text(&rendering.notes), "  = note: note\\u{1b}[33m\n");
}

#[test]
fn source_text_is_echoed_without_the_control_characters_in_it() {
    let echo = echoed("int x = 1; /* \u{1b}[2J */\n");
    assert!(!echo.contains("\u{1b}[2J"), "{echo:?}");
    assert!(echo.contains("?[2J"), "{echo:?}");
}

#[test]
fn replacing_a_control_character_does_not_move_the_caret() {
    assert_eq!(echoed("/* \u{1b} */ int y;\n"), "/* ? */ int y;\n");
    let wide = "a\u{9b}b";
    assert_eq!(echoed(wide), "a??b");
    assert_eq!(echoed(wide).len(), wide.len());
}

#[test]
fn a_carriage_return_still_separates_lines() {
    assert_eq!(echoed("int a;\rint b;\n"), "int a;\rint b;\n");
    assert_eq!(echoed("int a;\r\nint b;\r\n"), "int a;\r\nint b;\r\n");
}

#[test]
fn a_newline_in_a_message_is_left_alone() {
    let sources = SourceMap::new();
    let rendered = unanchored(&sources, &Diagnostic::error("first\nsecond".to_string()));
    assert!(rendered.contains("first\nsecond"), "{rendered:?}");
}

#[test]
fn a_label_naming_a_file_this_renderer_does_not_have_is_noted() {
    let mut sources = SourceMap::new();
    sources.add_virtual("main.c".to_string(), "int x;\n".to_string());
    let mut elsewhere = SourceMap::new();
    elsewhere.add_virtual("a.c".to_string(), String::new());
    let foreign = elsewhere.add_virtual("b.c".to_string(), String::new());

    let rendered = unanchored(
        &sources,
        &Diagnostic::error("boom".to_string())
            .with_label(Label::primary(Span::new(foreign, 0, 3), "here".to_string())),
    );
    assert_eq!(
        rendered,
        "error: boom\n  = note: `here` points into a file this renderer does not have (index 1)\n"
    );
}

#[test]
fn every_label_and_note_reaches_the_output() {
    let mut sources = SourceMap::new();
    let file = sources.add_virtual(
        "main.c".to_string(),
        "int *p = alloc();\nconsume(p);\n*p = 42;\n".to_string(),
    );
    let rendering = plan(
        &sources,
        &Diagnostic::error("m".to_string())
            .with_label(Label::secondary(Span::new(file, 5, 6), "allocated here".to_string()))
            .with_label(Label::secondary(Span::new(file, 18, 25), "moved here".to_string()))
            .with_label(Label::primary(Span::new(file, 30, 32), "used here".to_string()))
            .with_note("first note".to_string())
            .with_note("second note".to_string()),
    );
    let messages: Vec<_> = rendering.labels.iter().map(|l| l.message.as_str()).collect();
    assert_eq!(messages, ["allocated here", "moved here", "used here"]);
    assert_eq!(
        notes_text(&rendering.notes),
        "  = note: first note\n  = note: second note\n"
    );
}

#[test]
fn an_unproven_diagnostic_says_that_it_could_not_be_proven() {
    let sources = SourceMap::new();
    let rendered = unanchored(&sources, &unproven("`p` may escape"));
    assert!(
        rendered.contains("  = note: this could not be proven; `--deny-unknown` makes it an error"),
        "{rendered}"
    );
    let proven = unanchored(&sources, &Diagnostic::warning("unused variable `x`".to_string()));
    assert!(!proven.contains("could not be proven"), "{proven}");
}

#[test]
fn a_promoted_diagnostic_does_not_name_a_flag_the_user_may_not_have_given() {
    for (safety, allow_unknown) in [(SafetyLevel::Strict, false), (SafetyLevel::Memory, false)] {
        let options = Options {
            inputs: vec!["a.c".to_string()],
            output: None,
            safety,
            emit: EmitKind::Executable,
            target: "x86_64-pc-windows-msvc".to_string(),
            allow_unknown,
            color: ColorMode::Auto,
        };
        let mut sink = DiagnosticSink::with_policy(Policy::from_options(&options));
        sink.report(unproven("`p` may escape"));
        let rendered = unanchored(&SourceMap::new(), &sink.diagnostics()[0]);
        assert!(rendered.starts_with("error: "), "{rendered}");
        assert!(
            rendered.contains(
                "  = note: this could not be proven, and unproven results are errors in this compilation"
            ),
            "{rendered}"
        );
        assert!(!rendered.contains("--deny-unknown"), "{rendered}");
    }
}

#[test]
fn a_diagnostic_says_which_safety_check_it_came_from() {
    let sources = SourceMap::new();
    let rendered = unanchored(
        &sources,
        &unproven("`p` may escape").with_safety_level(SafetyLevel::Lifetime),
    );
    assert!(
        rendered.contains("  = note: this check belongs to safety level 2"),
        "{rendered}"
    );
}

#[test]
fn a_header_loses_its_colour_and_keeps_the_rest() {
    let mut rendered = b"\x1b[31merror\x1b[0m: m\n\x1b[34mkept\x1b[0m\n".to_vec();
    strip_header_escapes(&mut rendered);
    assert_eq!(rendered, b"error: m\n\x1b[34mkept\x1b[0m\n".to_vec());

    let mut unterminated = b"a\x1b[31b".to_vec();
    strip_header_escapes(&mut unterminated);
    assert_eq!(unterminated, b"a\x1b[31b".to_vec());

    let mut plain = b"error: m".to_vec();
    strip_header_escapes(&mut plain);
    assert_eq!(plain, b"error: m".to_vec());
}

#[test]
fn a_label_is_coloured_by_its_diagnostic_only_when_it_is_primary() {
    assert_eq!(safec::render::hue_of(Severity::Error), safec::render::Hue::Red);
    assert_eq!(safec::render::hue_of(Severity::Warning), safec::render::Hue::Yellow);
    assert_eq!(safec::render::hue_of(Severity::Note), safec::render::Hue::Cyan);
    assert_eq!(safec::render::hue_of(Severity::Help), safec::render::Hue::Cyan);
    assert_eq!(safec::render::hue_of_label(true, Severity::Error), safec::render::Hue::Red);
    assert_eq!(safec::render::hue_of_label(false, Severity::Error), safec::render::Hue::Blue);
}
