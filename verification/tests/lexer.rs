use safec::diagnostics::DiagnosticSink;
use safec::lexer::lex;
use safec::source::{FileId, SourceMap, Span};
use safec::token::{Keyword, Punct, Token, TokenKind};

struct Scan {
    sources: SourceMap,
    file: FileId,
    tokens: Vec<Token>,
    diagnostics: DiagnosticSink,
}

impl Scan {
    fn kinds(&self) -> Vec<TokenKind> {
        self.tokens.iter().map(|token| token.kind).collect()
    }

    /// The text each token covers, `Eof` excluded.
    fn texts(&self) -> Vec<String> {
        self.tokens
            .iter()
            .filter(|token| !token.is_eof())
            .map(|token| self.sources.snippet(token.span))
            .collect()
    }

    fn messages(&self) -> Vec<String> {
        self.diagnostics
            .diagnostics()
            .iter()
            .map(|d| d.message().to_string())
            .collect()
    }
}

fn scan(text: &str) -> Scan {
    let mut sources = SourceMap::new();
    let file = sources.add_virtual("test.c".to_string(), text.to_string());
    let mut diagnostics = DiagnosticSink::new();
    let tokens = lex(file, sources.file(file), &mut diagnostics);

    Scan {
        sources,
        file,
        tokens,
        diagnostics,
    }
}

#[test]
fn an_empty_file_scans_to_nothing_but_the_end_of_it() {
    let scan = scan("");

    assert_eq!(scan.kinds(), [TokenKind::Eof]);
    assert_eq!(scan.tokens[0].span, Span::at(scan.file, 0));
    assert!(scan.diagnostics.is_empty());
}

#[test]
fn the_end_of_the_file_is_a_token_at_the_end_of_the_text() {
    for text in ["", "int", "int x;\n", "/* unterminated"] {
        let scan = scan(text);
        let last = *scan.tokens.last().expect("a stream is never empty");

        assert!(last.is_eof(), "{text:?}");
        assert_eq!(last.span, Span::at(scan.file, text.len() as u32), "{text:?}");
    }
}

#[test]
fn a_word_is_a_keyword_or_an_identifier() {
    let scan = scan("int main void_ x1 _y borrow");

    assert_eq!(
        scan.kinds(),
        [
            TokenKind::Keyword(Keyword::Int),
            TokenKind::Identifier,
            TokenKind::Identifier,
            TokenKind::Identifier,
            TokenKind::Identifier,
            TokenKind::Identifier,
            TokenKind::Eof,
        ]
    );
    assert_eq!(scan.texts(), ["int", "main", "void_", "x1", "_y", "borrow"]);
}

#[test]
fn a_number_runs_as_far_as_a_preprocessing_number_does() {
    for (text, expected) in [
        ("123", "123"),
        ("123abc", "123abc"),
        ("1.5e+10", "1.5e+10"),
        ("0x1p-3", "0x1p-3"),
        (".5f", ".5f"),
        ("0", "0"),
    ] {
        let scan = scan(text);
        assert_eq!(scan.kinds()[0], TokenKind::Number, "{text}");
        assert_eq!(scan.texts(), [expected], "{text}");
    }
}

#[test]
fn a_sign_is_part_of_a_number_only_after_an_exponent() {
    assert_eq!(scan("1e+5").texts(), ["1e+5"]);
    assert_eq!(scan("x+5").texts(), ["x", "+", "5"]);
}

#[test]
fn a_dot_is_a_number_before_a_digit_and_a_punctuator_otherwise() {
    assert_eq!(scan(".5").kinds()[0], TokenKind::Number);
    assert_eq!(scan("...").kinds()[0], TokenKind::Punct(Punct::Ellipsis));
    assert_eq!(scan("p.x").kinds()[1], TokenKind::Punct(Punct::Dot));
}

#[test]
fn the_scan_takes_the_longest_punctuator_that_fits() {
    assert_eq!(scan("a >>= b").texts(), ["a", ">>=", "b"]);
    assert_eq!(scan("a >> b").texts(), ["a", ">>", "b"]);
    assert_eq!(scan("a+++b").texts(), ["a", "++", "+", "b"]);
}

#[test]
fn whitespace_and_comments_do_not_reach_the_stream() {
    let scan = scan("int /* here */ x; // and here\ny\n");

    assert_eq!(scan.texts(), ["int", "x", ";", "y"]);
    assert!(scan.diagnostics.is_empty());
}

#[test]
fn a_string_and_a_character_constant_keep_their_quotes() {
    let scan = scan(r#"c = 'a'; s = "hi\"there";"#);

    assert!(scan.diagnostics.is_empty(), "{:?}", scan.messages());
    assert_eq!(
        scan.texts(),
        ["c", "=", "'a'", ";", "s", "=", r#""hi\"there""#, ";"]
    );
}

#[test]
fn an_unterminated_literal_ends_at_its_line() {
    let scan = scan("s = \"oops;\nint x;\n");

    assert_eq!(scan.messages(), ["unterminated string literal"]);
    assert_eq!(
        scan.texts(),
        ["s", "=", "\"oops;", "int", "x", ";"],
        "the next line was not scanned"
    );
}

#[test]
fn an_unterminated_block_comment_is_reported_and_ends_the_scan() {
    let scan = scan("int x;\n/* on and on");

    assert_eq!(scan.messages(), ["unterminated block comment"]);
    assert_eq!(scan.texts(), ["int", "x", ";"]);
    assert!(scan.tokens.last().unwrap().is_eof());
}

#[test]
fn a_run_of_unexpected_characters_is_one_token_and_one_diagnostic() {
    let scan = scan("int x = @@@@;");

    assert_eq!(scan.messages(), ["4 unexpected characters"]);
    assert_eq!(scan.texts(), ["int", "x", "=", "@@@@", ";"]);
    assert_eq!(scan.kinds()[3], TokenKind::Unknown);
}

#[test]
fn a_single_unexpected_character_is_said_in_the_singular() {
    assert_eq!(scan("@").messages(), ["unexpected character"]);
}

#[test]
fn the_scan_does_not_stop_at_the_first_thing_it_cannot_read() {
    let scan = scan("@ int x; ` y \"unclosed\n");

    assert_eq!(scan.diagnostics.error_count(), 3);
    assert!(scan.texts().contains(&"int".to_string()));
    assert!(scan.texts().contains(&"y".to_string()));
}

#[test]
fn a_directive_is_reported_once_and_its_line_is_still_scanned() {
    let scan = scan("#include <stdio.h>\nint x;\n");

    assert_eq!(scan.messages(), ["preprocessor directives are not supported yet"]);
    assert_eq!(
        scan.texts(),
        ["#", "include", "<", "stdio", ".", "h", ">", "int", "x", ";"],
        "the directive line is ordinary tokens"
    );
}

#[test]
fn a_hash_that_does_not_open_a_line_is_only_a_punctuator() {
    let scan = scan("a # b\n");

    assert!(scan.diagnostics.is_empty(), "{:?}", scan.messages());
    assert_eq!(scan.kinds()[1], TokenKind::Punct(Punct::Hash));
}

#[test]
fn a_directive_after_a_comment_still_opens_its_line() {
    let scan = scan("/* note */\n#define X 1\n");

    assert_eq!(scan.diagnostics.error_count(), 1);
}

#[test]
fn token_spans_run_forward_and_stay_inside_the_file() {
    let scan = scan("int f(void) { return 'a' + 1.5e-3; } @@ /* x */ #x\n");
    let length = scan.sources.file(scan.file).len();

    let mut previous_end = 0;
    for token in &scan.tokens {
        assert!(token.span.start() >= previous_end, "{token:?}");
        assert!(token.span.end() <= length, "{token:?}");
        previous_end = token.span.end();
    }
}

#[test]
fn a_scan_of_the_phase_one_target_produces_what_a_parser_needs() {
    let scan = scan("int add(int a, int b) { return a + b; }");

    assert!(scan.diagnostics.is_empty(), "{:?}", scan.messages());
    assert_eq!(
        scan.texts(),
        [
            "int", "add", "(", "int", "a", ",", "int", "b", ")", "{", "return", "a", "+", "b",
            ";", "}"
        ]
    );
}

// What the diagnostics of a scan carry, beyond their messages.

#[test]
fn each_lexical_problem_carries_its_code_and_points_at_itself() {
    let scan = scan("int x = @@;\n/* open");
    let reported = scan.diagnostics.diagnostics();

    assert_eq!(reported.len(), 2);
    assert_eq!(reported[0].code().unwrap().as_str(), "SC0103");
    let label = reported[0].primary_label().unwrap();
    assert_eq!(scan.sources.snippet(label.span()), "@@");
    assert_eq!(label.message(), "not part of any token");
    assert_eq!(reported[1].message(), "unterminated block comment");
}

#[test]
fn a_character_of_several_bytes_moves_the_next_span_by_its_width() {
    let scan = scan("caf\u{e9} x");

    assert_eq!(scan.texts(), ["caf", "\u{e9}", "x"]);
    assert_eq!(scan.tokens[2].span, Span::new(scan.file, 6, 7));
    assert_eq!(scan.messages(), ["unexpected character"]);
}
