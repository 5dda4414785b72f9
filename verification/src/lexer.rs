//! Turning source text into tokens.
//!
//! One rule shapes this module: **the scan does not stop, and every character
//! gets a place.** The end of the file is a token, so a parser asking for the
//! next one always gets one. A run of characters that can begin no token is
//! reported and kept as one token. A preprocessing directive is reported once
//! and its line is scanned like any other.
//!
//! What the scan does not do is decide meaning: a number names a span and
//! stops.
//!
//! The scan is stated as a set of recursive definitions over the text as a
//! sequence of characters: [`trivia`] for what is passed over, [`scan`] for
//! one token, and [`lex_from`] for the whole stream. [`lex`] is proved to
//! produce exactly what they describe, with every character position turned
//! into the byte offset [`byte_offset`] gives it.
use vstd::prelude::*;
use vstd::string::StringExecFns;
use vstd::utf8::encode_utf8;

use crate::diagnostics::{
    as_reported, fresh, Code, Diagnostic, DiagnosticModel, DiagnosticSink, Label, LabelModel,
    Severity,
};
use crate::print::decimal_text;
use crate::source::{
    byte_offset, char_width, lemma_byte_offset_mono, lemma_byte_offset_step, on_boundary, width_of, FileId,
    SourceFile, Span,
};
use crate::token::{keyword_of, punct_1, punct_at, punct_spelling, Keyword, Punct, Token, TokenKind};

verus! {

/// `a` to `z` and `A` to `Z`.
pub open spec fn is_ascii_alpha(c: char) -> bool {
    (97 <= (c as u32) <= 122) || (65 <= (c as u32) <= 90)
}

/// `0` to `9`.
pub open spec fn is_digit(c: char) -> bool {
    48 <= (c as u32) <= 57
}

/// ASCII only: a non-ASCII identifier is reported rather than accepted.
pub open spec fn is_identifier_start(c: char) -> bool {
    is_ascii_alpha(c) || c == '_'
}

pub open spec fn is_identifier_continue(c: char) -> bool {
    is_identifier_start(c) || is_digit(c)
}

/// Unicode's `White_Space` property, which is what `char::is_whitespace`
/// answers.
pub open spec fn is_white(c: char) -> bool {
    let v = c as u32;
    ||| 9 <= v <= 13
    ||| v == 0x20
    ||| v == 0x85
    ||| v == 0xA0
    ||| v == 0x1680
    ||| 0x2000 <= v <= 0x200A
    ||| v == 0x2028
    ||| v == 0x2029
    ||| v == 0x202F
    ||| v == 0x205F
    ||| v == 0x3000
}

/// Whether no token can begin with `c`.
pub open spec fn begins_no_token(c: char) -> bool {
    &&& !is_white(c)
    &&& !is_identifier_start(c)
    &&& !is_digit(c)
    &&& c != '"'
    &&& c != '\''
    &&& punct_1(c) is None
}

fn ascii_alpha(c: char) -> (r: bool)
    ensures
        r == is_ascii_alpha(c),
{
    let v = c as u32;
    (97 <= v && v <= 122) || (65 <= v && v <= 90)
}

fn digit(c: char) -> (r: bool)
    ensures
        r == is_digit(c),
{
    let v = c as u32;
    48 <= v && v <= 57
}

fn identifier_start(c: char) -> (r: bool)
    ensures
        r == is_identifier_start(c),
{
    ascii_alpha(c) || c == '_'
}

fn identifier_continue(c: char) -> (r: bool)
    ensures
        r == is_identifier_continue(c),
{
    identifier_start(c) || digit(c)
}

fn white(c: char) -> (r: bool)
    ensures
        r == is_white(c),
{
    let v = c as u32;
    (9 <= v && v <= 13) || v == 0x20 || v == 0x85 || v == 0xA0 || v == 0x1680 || (0x2000 <= v && v
        <= 0x200A) || v == 0x2028 || v == 0x2029 || v == 0x202F || v == 0x205F || v == 0x3000
}

fn no_token_begins_with(c: char) -> (r: bool)
    ensures
        r == begins_no_token(c),
{
    !white(c) && !identifier_start(c) && !digit(c) && c != '"' && c != '\'' && !Punct::can_start_with(
        c,
    )
}

/// What the scan passes over from `i`, outside any comment: where it stops,
/// whether a line has begun since the last token, and where an unterminated
/// block comment opened if one ran to the end of the file.
pub open spec fn trivia(t: Seq<char>, i: int, ls: bool) -> (int, bool, Option<int>)
    decreases t.len() - i,
{
    if i < 0 || i >= t.len() {
        (i, ls, None)
    } else if t[i] == '\n' {
        trivia(t, i + 1, true)
    } else if is_white(t[i]) {
        trivia(t, i + 1, ls)
    } else if t[i] == '/' && i + 1 < t.len() && t[i + 1] == '/' {
        line_comment(t, i + 2, ls)
    } else if t[i] == '/' && i + 1 < t.len() && t[i + 1] == '*' {
        block_comment(t, i + 2, ls, i)
    } else {
        (i, ls, None)
    }
}

/// The same, from inside a `//` comment, which runs to the end of its line.
pub open spec fn line_comment(t: Seq<char>, i: int, ls: bool) -> (int, bool, Option<int>)
    decreases t.len() - i,
{
    if i < 0 || i >= t.len() {
        (i, ls, None)
    } else if t[i] == '\n' {
        trivia(t, i + 1, true)
    } else {
        line_comment(t, i + 1, ls)
    }
}

/// The same, from inside a block comment opened at `opening`.
pub open spec fn block_comment(t: Seq<char>, i: int, ls: bool, opening: int) -> (
    int,
    bool,
    Option<int>,
)
    decreases t.len() - i,
{
    if i < 0 {
        (i, ls, None)
    } else if i + 1 < t.len() && t[i] == '*' && t[i + 1] == '/' {
        trivia(t, i + 2, ls)
    } else if i >= t.len() {
        (t.len() as int, ls, Some(opening))
    } else if t[i] == '\n' {
        block_comment(t, i + 1, true, opening)
    } else {
        block_comment(t, i + 1, ls, opening)
    }
}

/// The end of the run of identifier characters from `j`.
pub open spec fn word_end(t: Seq<char>, j: int) -> int
    decreases t.len() - j,
{
    if 0 <= j < t.len() && is_identifier_continue(t[j]) {
        word_end(t, j + 1)
    } else {
        j
    }
}

/// The end of a preprocessing number whose rest starts at `j`: digits,
/// letters, `_` and `.`, and a sign only right after an exponent marker.
pub open spec fn number_end(t: Seq<char>, j: int) -> int
    decreases t.len() - j,
{
    if j < 0 || j >= t.len() {
        j
    } else if t[j] == 'e' || t[j] == 'E' || t[j] == 'p' || t[j] == 'P' {
        if j + 1 < t.len() && (t[j + 1] == '+' || t[j + 1] == '-') {
            number_end(t, j + 2)
        } else {
            number_end(t, j + 1)
        }
    } else if t[j] == '.' || is_identifier_continue(t[j]) {
        number_end(t, j + 1)
    } else {
        j
    }
}

/// Where a literal opened before `j` and closed by `quote` ends, and whether
/// it was closed. It closes on the line it opens on or not at all, and a
/// backslash takes the next character with it unless that is a newline.
pub open spec fn quoted_end(t: Seq<char>, j: int, quote: char) -> (int, bool)
    decreases t.len() - j,
{
    if j < 0 || j >= t.len() || t[j] == '\n' {
        (j, false)
    } else if t[j] == '\\' {
        if j + 1 < t.len() && t[j + 1] != '\n' {
            quoted_end(t, j + 2, quote)
        } else {
            quoted_end(t, j + 1, quote)
        }
    } else if t[j] == quote {
        (j + 1, true)
    } else {
        quoted_end(t, j + 1, quote)
    }
}

/// The end of the run of characters that can begin no token, from `j`.
pub open spec fn unknown_end(t: Seq<char>, j: int) -> int
    decreases t.len() - j,
{
    if 0 <= j < t.len() && begins_no_token(t[j]) {
        unknown_end(t, j + 1)
    } else {
        j
    }
}

/// Something the scan could not make sense of, by character position.
pub ghost enum Problem {
    /// A block comment opened here and never closed.
    UnterminatedComment(int),
    /// A literal opened here and was not closed on its line; `true` for a
    /// string, `false` for a character constant.
    UnterminatedLiteral(bool, int),
    /// A run of characters that begin no token, from the first to the second.
    Unexpected(int, int),
    /// A `#` that opens its line, which would begin a directive.
    Directive(int),
}

/// One token, by character position.
pub ghost struct Scanned {
    pub kind: TokenKind,
    pub start: int,
    pub end: int,
}

/// The token that begins at `j`, where it ends, and what went wrong with it.
#[verifier::opaque]
pub open spec fn scan(t: Seq<char>, j: int) -> (TokenKind, int, Option<Problem>) {
    if is_identifier_start(t[j]) {
        let e = word_end(t, j + 1);
        (
            match keyword_of(t.subrange(j, e)) {
                Some(k) => TokenKind::Keyword(k),
                None => TokenKind::Identifier,
            },
            e,
            None,
        )
    } else if is_digit(t[j]) || (t[j] == '.' && j + 1 < t.len() && is_digit(t[j + 1])) {
        (TokenKind::Number, number_end(t, j + 1), None)
    } else if t[j] == '"' {
        let (e, closed) = quoted_end(t, j + 1, '"');
        (
            TokenKind::String,
            e,
            if closed {
                None
            } else {
                Some(Problem::UnterminatedLiteral(true, j))
            },
        )
    } else if t[j] == '\'' {
        let (e, closed) = quoted_end(t, j + 1, '\'');
        (
            TokenKind::Character,
            e,
            if closed {
                None
            } else {
                Some(Problem::UnterminatedLiteral(false, j))
            },
        )
    } else if punct_at(t, j) is Some {
        let p = punct_at(t, j)->0;
        (TokenKind::Punct(p), j + punct_spelling(p).len(), None)
    } else {
        let e = unknown_end(t, j + 1);
        (TokenKind::Unknown, e, Some(Problem::Unexpected(j, e)))
    }
}

/// The problems an optional one amounts to.
pub open spec fn problems_of(p: Option<Problem>) -> Seq<Problem> {
    match p {
        Some(p) => seq![p],
        None => Seq::empty(),
    }
}

/// Every token from position `i` on, the end of the file excluded, and every
/// problem met on the way, in the order they are met. `ls` says whether a line
/// has begun since the last token.
#[verifier::opaque]
pub open spec fn lex_from(t: Seq<char>, i: int, ls: bool) -> (Seq<Scanned>, Seq<Problem>)
    decreases t.len() - i,
{
    let tr = trivia(t, i, ls);
    let j = tr.0;
    let comment = match tr.2 {
        Some(o) => seq![Problem::UnterminatedComment(o)],
        None => Seq::empty(),
    };
    if i < 0 || j < i || j >= t.len() {
        (Seq::empty(), comment)
    } else {
        let directive = if tr.1 && t[j] == '#' {
            seq![Problem::Directive(j)]
        } else {
            Seq::empty()
        };
        let s = scan(t, j);
        if s.1 <= j || s.1 > t.len() {
            (Seq::empty(), comment)
        } else {
            let rest = lex_from(t, s.1, false);
            (
                seq![Scanned { kind: s.0, start: j, end: s.1 }] + rest.0,
                comment + directive + problems_of(s.2) + rest.1,
            )
        }
    }
}

/// A token, placed in `file` by byte offset.
pub open spec fn placed(file: FileId, t: Seq<char>, s: Scanned) -> Token {
    Token {
        kind: s.kind,
        span: Span { file, start: byte_offset(t, s.start) as u32, end: byte_offset(t, s.end) as u32 },
    }
}

/// The stream the scan of `t` produces: every token, then the end of the file
/// at the byte offset of the end of the text.
pub open spec fn lexed(file: FileId, t: Seq<char>) -> Seq<Token> {
    lex_from(t, 0, true).0.map_values(|s: Scanned| placed(file, t, s)).push(
        Token {
            kind: TokenKind::Eof,
            span: Span {
                file,
                start: byte_offset(t, t.len() as int) as u32,
                end: byte_offset(t, t.len() as int) as u32,
            },
        },
    )
}

/// The decimal digits of `n`.
pub open spec fn decimal(n: nat) -> Seq<char>
    decreases n,
{
    if n < 10 {
        seq![(48 + n) as char]
    } else {
        decimal(n / 10).push((48 + n % 10) as char)
    }
}

/// What a run of `count` unexpected characters is called.
pub open spec fn unexpected_message(count: nat) -> Seq<char> {
    if count == 1 {
        "unexpected character"@
    } else {
        decimal(count) + " unexpected characters"@
    }
}

/// A primary label in `file` from `start` to `end` bytes.
pub open spec fn primary_at(file: FileId, start: nat, end: nat, message: Seq<char>) -> LabelModel {
    LabelModel { span: Span { file, start: start as u32, end: end as u32 }, message, primary: true }
}

/// What is reported for a problem.
#[verifier::opaque]
pub open spec fn reported_for(file: FileId, t: Seq<char>, p: Problem) -> DiagnosticModel {
    match p {
        Problem::UnterminatedComment(o) => DiagnosticModel {
            code: Some("SC0101"@),
            labels: seq![
                primary_at(
                    file,
                    byte_offset(t, o),
                    byte_offset(t, o) + 2,
                    "unclosed from here"@,
                ),
            ],
            notes: seq!["the comment runs to the end of the file"@],
            ..fresh(Severity::Error, "unterminated block comment"@)
        },
        Problem::UnterminatedLiteral(string, o) => DiagnosticModel {
            code: Some("SC0102"@),
            labels: seq![
                primary_at(
                    file,
                    byte_offset(t, o),
                    byte_offset(t, o) + 1,
                    "unclosed from here"@,
                ),
            ],
            notes: seq![
                if string {
                    "a string literal has to be closed on the line it opens on"@
                } else {
                    "a character constant has to be closed on the line it opens on"@
                },
            ],
            ..fresh(
                Severity::Error,
                if string {
                    "unterminated string literal"@
                } else {
                    "unterminated character constant"@
                },
            )
        },
        Problem::Unexpected(s, e) => DiagnosticModel {
            code: Some("SC0103"@),
            labels: seq![
                primary_at(file, byte_offset(t, s), byte_offset(t, e), "not part of any token"@),
            ],
            ..fresh(Severity::Error, unexpected_message((e - s) as nat))
        },
        Problem::Directive(j) => DiagnosticModel {
            code: Some("SC0104"@),
            labels: seq![
                primary_at(
                    file,
                    byte_offset(t, j),
                    byte_offset(t, j) + 1,
                    "directive begins here"@,
                ),
            ],
            notes: seq![
                "the preprocessor arrives in stage 3; the line is scanned as ordinary tokens"@,
            ],
            ..fresh(Severity::Error, "preprocessor directives are not supported yet"@)
        },
    }
}

/// Everything the scan of `t` reports, in order.
pub open spec fn lex_reports(file: FileId, t: Seq<char>) -> Seq<DiagnosticModel> {
    lex_from(t, 0, true).1.map_values(|p: Problem| reported_for(file, t, p))
}

proof fn lemma_trivia_bounds(t: Seq<char>, i: int, ls: bool)
    requires
        0 <= i <= t.len(),
    ensures
        i <= trivia(t, i, ls).0 <= t.len(),
        trivia(t, i, ls).2 is Some ==> trivia(t, i, ls).0 == t.len(),
        trivia(t, i, ls).0 < t.len() ==> !is_white(t[trivia(t, i, ls).0]),
    decreases t.len() - i, 2int,
{
    if i < t.len() {
        if t[i] == '\n' || is_white(t[i]) {
            lemma_trivia_bounds(t, i + 1, if t[i] == '\n' {
                true
            } else {
                ls
            });
        } else if t[i] == '/' && i + 1 < t.len() && t[i + 1] == '/' {
            lemma_line_bounds(t, i + 2, ls);
        } else if t[i] == '/' && i + 1 < t.len() && t[i + 1] == '*' {
            lemma_block_bounds(t, i + 2, ls, i);
        }
    }
}

proof fn lemma_line_bounds(t: Seq<char>, i: int, ls: bool)
    requires
        0 <= i <= t.len(),
    ensures
        i <= line_comment(t, i, ls).0 <= t.len(),
        line_comment(t, i, ls).2 is Some ==> line_comment(t, i, ls).0 == t.len(),
        line_comment(t, i, ls).0 < t.len() ==> !is_white(t[line_comment(t, i, ls).0]),
    decreases t.len() - i, 1int,
{
    if i < t.len() {
        if t[i] == '\n' {
            lemma_trivia_bounds(t, i + 1, true);
        } else {
            lemma_line_bounds(t, i + 1, ls);
        }
    }
}

proof fn lemma_block_bounds(t: Seq<char>, i: int, ls: bool, o: int)
    requires
        0 <= i <= t.len(),
    ensures
        i <= block_comment(t, i, ls, o).0 <= t.len(),
        block_comment(t, i, ls, o).2 is Some ==> block_comment(t, i, ls, o).0 == t.len(),
        block_comment(t, i, ls, o).0 < t.len() ==> !is_white(t[block_comment(t, i, ls, o).0]),
    decreases t.len() - i, 0int,
{
    if i + 1 < t.len() && t[i] == '*' && t[i + 1] == '/' {
        lemma_trivia_bounds(t, i + 2, ls);
    } else if i < t.len() {
        lemma_block_bounds(t, i + 1, if t[i] == '\n' {
            true
        } else {
            ls
        }, o);
    }
}

/// Where the run of identifier characters from `j` ends: every character
/// before the end continues a word, and the one at the end does not.
proof fn lemma_word_end(t: Seq<char>, j: int)
    requires
        0 <= j <= t.len(),
    ensures
        j <= word_end(t, j) <= t.len(),
        forall|i: int| j <= i < word_end(t, j) ==> is_identifier_continue(#[trigger] t[i]),
        word_end(t, j) == t.len() || !is_identifier_continue(t[word_end(t, j)]),
    decreases t.len() - j,
{
    if j < t.len() && is_identifier_continue(t[j]) {
        lemma_word_end(t, j + 1);
    }
}

/// Where a preprocessing number from `j` ends: the character at the end can
/// neither continue it nor be a dot.
proof fn lemma_number_end(t: Seq<char>, j: int)
    requires
        0 <= j <= t.len(),
    ensures
        j <= number_end(t, j) <= t.len(),
        number_end(t, j) == t.len() || !(t[number_end(t, j)] == '.' || is_identifier_continue(
            t[number_end(t, j)],
        )),
    decreases t.len() - j,
{
    if j < t.len() {
        if t[j] == 'e' || t[j] == 'E' || t[j] == 'p' || t[j] == 'P' {
            if j + 1 < t.len() && (t[j + 1] == '+' || t[j + 1] == '-') {
                lemma_number_end(t, j + 2);
            } else {
                lemma_number_end(t, j + 1);
            }
        } else if t[j] == '.' || is_identifier_continue(t[j]) {
            lemma_number_end(t, j + 1);
        }
    }
}

proof fn lemma_quoted_end(t: Seq<char>, j: int, q: char)
    requires
        0 <= j <= t.len(),
    ensures
        j <= quoted_end(t, j, q).0 <= t.len(),
    decreases t.len() - j,
{
    if j < t.len() && t[j] != '\n' {
        if t[j] == '\\' {
            if j + 1 < t.len() && t[j + 1] != '\n' {
                lemma_quoted_end(t, j + 2, q);
            } else {
                lemma_quoted_end(t, j + 1, q);
            }
        } else if t[j] != q {
            lemma_quoted_end(t, j + 1, q);
        }
    }
}

proof fn lemma_unknown_end(t: Seq<char>, j: int)
    requires
        0 <= j <= t.len(),
    ensures
        j <= unknown_end(t, j) <= t.len(),
    decreases t.len() - j,
{
    if j < t.len() && begins_no_token(t[j]) {
        lemma_unknown_end(t, j + 1);
    }
}

/// A token always takes at least one character, and never reaches past the
/// text.
pub proof fn lemma_scan_progress(t: Seq<char>, j: int)
    requires
        0 <= j < t.len(),
    ensures
        j < scan(t, j).1 <= t.len(),
{
    reveal(scan);
    lemma_word_end(t, j + 1);
    lemma_number_end(t, j + 1);
    lemma_quoted_end(t, j + 1, '"');
    lemma_quoted_end(t, j + 1, '\'');
    lemma_unknown_end(t, j + 1);
    if punct_at(t, j) is Some {
        crate::token::lemma_punct_at_spelled(t, j);
    }
}

/// The scanner's state: the text, the character position and its byte
/// offset, and whether a line has begun since the last token.
struct Lexer<'a> {
    file: FileId,
    text: &'a [char],
    pos: usize,
    offset: usize,
    at_line_start: bool,
}

impl<'a> Lexer<'a> {
    spec fn wf(&self) -> bool {
        &&& self.pos <= self.text@.len()
        &&& self.offset == byte_offset(self.text@, self.pos as int)
        &&& byte_offset(self.text@, self.text@.len() as int) <= u32::MAX
    }

    /// Step past one character.
    fn bump(&mut self) -> (c: char)
        requires
            old(self).wf(),
            old(self).pos < old(self).text@.len(),
        ensures
            final(self).wf(),
            final(self).pos == old(self).pos + 1,
            c == old(self).text@[old(self).pos as int],
            final(self).text == old(self).text,
            final(self).file == old(self).file,
            final(self).at_line_start == old(self).at_line_start,
    {
        let c = self.text[self.pos];
        proof {
            lemma_byte_offset_step(self.text@, self.pos as int);
            lemma_byte_offset_mono(self.text@, self.pos + 1, self.text@.len() as int);
        }
        let w = width_of(c);
        self.offset = self.offset + w;
        self.pos = self.pos + 1;
        c
    }

    /// The byte offset as a span endpoint.
    fn here(&self) -> (r: u32)
        requires
            self.wf(),
        ensures
            r == byte_offset(self.text@, self.pos as int),
    {
        proof {
            lemma_byte_offset_mono(self.text@, self.pos as int, self.text@.len() as int);
        }
        self.offset as u32
    }

    /// Pass over whitespace and comments.
    fn skip_trivia(&mut self, diagnostics: &mut DiagnosticSink)
        requires
            old(self).wf(),
        ensures
            final(self).wf(),
            final(self).text == old(self).text,
            final(self).file == old(self).file,
            final(self).pos == trivia(old(self).text@, old(self).pos as int, old(self).at_line_start).0,
            final(self).at_line_start == trivia(
                old(self).text@,
                old(self).pos as int,
                old(self).at_line_start,
            ).1,
            final(diagnostics).denies() == old(diagnostics).denies(),
            final(diagnostics).reported() == old(diagnostics).reported() + match trivia(
                old(self).text@,
                old(self).pos as int,
                old(self).at_line_start,
            ).2 {
                Some(o) => seq![
                    reported_for(
                        old(self).file,
                        old(self).text@,
                        Problem::UnterminatedComment(o),
                    ),
                ],
                None => Seq::empty(),
            },
    {
        reveal(reported_for);
        let ghost t = old(self).text@;
        let ghost target = trivia(t, old(self).pos as int, old(self).at_line_start);
        let ghost base = diagnostics.reported();
        let ghost mut opened: Option<int> = None;
        let ghost mut opening: int = 0;
        // 0 outside a comment, 1 inside a line comment, 2 inside a block one.
        let mut mode: u8 = 0;
        let mut opening_at: u32 = 0;
        loop
            invariant
                self.wf(),
                t == self.text@,
                self.text == old(self).text,
                self.file == old(self).file,
                mode <= 2,
                ({
                    let r = if mode == 0 {
                        trivia(t, self.pos as int, self.at_line_start)
                    } else if mode == 1 {
                        line_comment(t, self.pos as int, self.at_line_start)
                    } else {
                        block_comment(t, self.pos as int, self.at_line_start, opening)
                    };
                    &&& r.0 == target.0
                    &&& r.1 == target.1
                    &&& target.2 == (if opened is Some {
                        opened
                    } else {
                        r.2
                    })
                }),
                opened is Some ==> mode == 0 && self.pos == t.len(),
                opened is Some ==> 0 <= opened->0 && opened->0 + 2 <= t.len() && t[opened->0]
                    == '/' && t[opened->0 + 1] == '*',
                mode == 2 ==> 0 <= opening && opening + 2 <= self.pos && t[opening] == '/'
                    && t[opening + 1] == '*' && opening_at == byte_offset(t, opening),
                diagnostics.denies() == old(diagnostics).denies(),
                diagnostics.reported() == base + match opened {
                    Some(o) => seq![
                        reported_for(self.file, t, Problem::UnterminatedComment(o)),
                    ],
                    None => Seq::<DiagnosticModel>::empty(),
                },
                base == old(diagnostics).reported(),
            ensures
                self.wf(),
                self.text == old(self).text,
                self.file == old(self).file,
                self.pos == target.0,
                self.at_line_start == target.1,
                diagnostics.denies() == old(diagnostics).denies(),
                diagnostics.reported() == base + match target.2 {
                    Some(o) => seq![
                        reported_for(self.file, t, Problem::UnterminatedComment(o)),
                    ],
                    None => Seq::<DiagnosticModel>::empty(),
                },
            decreases t.len() - self.pos,
        {
            let len = self.text.len();
            if mode == 0 {
                if self.pos >= len {
                    assert(trivia(t, self.pos as int, self.at_line_start).0 == self.pos);
                    assert(target.0 == self.pos);
                    break;
                }
                let c = self.text[self.pos];
                if c == '\n' {
                    self.bump();
                    self.at_line_start = true;
                } else if white(c) {
                    self.bump();
                } else if c == '/' && self.pos + 1 < len && self.text[self.pos + 1] == '/' {
                    self.bump();
                    self.bump();
                    mode = 1;
                } else if c == '/' && self.pos + 1 < len && self.text[self.pos + 1] == '*' {
                    proof {
                        opening = self.pos as int;
                    }
                    opening_at = self.here();
                    self.bump();
                    self.bump();
                    mode = 2;
                } else {
                    break;
                }
            } else if mode == 1 {
                if self.pos >= len {
                    mode = 0;
                    break;
                }
                if self.text[self.pos] == '\n' {
                    self.bump();
                    self.at_line_start = true;
                    mode = 0;
                } else {
                    self.bump();
                }
            } else {
                if len - self.pos >= 2 && self.text[self.pos] == '*' && self.text[self.pos + 1]
                    == '/' {
                    self.bump();
                    self.bump();
                    mode = 0;
                } else if self.pos >= len {
                    proof {
                        lemma_byte_offset_step(t, opening);
                        lemma_byte_offset_step(t, opening + 1);
                        lemma_byte_offset_mono(t, opening + 2, t.len() as int);
                    }
                    let at = opening_at;
                    let code = {
                        proof {
                            reveal_strlit("SC0101");
                        }
                        Code::new("SC0101")
                    };
                    let d = Diagnostic::error("unterminated block comment".to_owned()).with_code(
                        code,
                    ).with_label(Label::primary(Span::new(self.file, at, at + 2), "unclosed from here".to_owned())).with_note(
                        "the comment runs to the end of the file".to_owned(),
                    );
                    diagnostics.report(d);
                    proof {
                        reveal(reported_for);
                        opened = Some(opening);
                    }
                    mode = 0;
                    break;
                } else {
                    let c = self.bump();
                    if c == '\n' {
                        self.at_line_start = true;
                    }
                }
            }
        }
    }

    /// An identifier, or the keyword it is spelled the same as.
    fn scan_word(&mut self) -> (k: TokenKind)
        requires
            old(self).wf(),
            old(self).pos < old(self).text@.len(),
            is_identifier_start(old(self).text@[old(self).pos as int]),
        ensures
            final(self).wf(),
            final(self).text == old(self).text,
            final(self).file == old(self).file,
            final(self).at_line_start == old(self).at_line_start,
            k == scan(old(self).text@, old(self).pos as int).0,
            final(self).pos == scan(old(self).text@, old(self).pos as int).1,
    {
        reveal(scan);
        let ghost t = self.text@;
        let start = self.pos;
        self.bump();
        while self.pos < self.text.len() && identifier_continue(self.text[self.pos])
            invariant
                self.wf(),
                t == self.text@,
                self.text == old(self).text,
                self.file == old(self).file,
                self.at_line_start == old(self).at_line_start,
                start < self.pos <= t.len(),
                start == old(self).pos,
                word_end(t, self.pos as int) == word_end(t, start + 1),
            decreases t.len() - self.pos,
        {
            self.bump();
        }
        let word = &self.text[start..self.pos];
        match Keyword::from_spelling(word) {
            Some(k) => TokenKind::Keyword(k),
            None => TokenKind::Identifier,
        }
    }

    /// A preprocessing number, which is wider than the set of valid constants:
    /// `123abc` is one token, so whatever rejects it has all of it to point at.
    fn scan_number(&mut self) -> (k: TokenKind)
        requires
            old(self).wf(),
            old(self).pos < old(self).text@.len(),
        ensures
            final(self).wf(),
            final(self).text == old(self).text,
            final(self).file == old(self).file,
            final(self).at_line_start == old(self).at_line_start,
            k == TokenKind::Number,
            final(self).pos == number_end(old(self).text@, old(self).pos + 1),
    {
        let ghost t = self.text@;
        let ghost start = self.pos as int;
        self.bump();
        while self.pos < self.text.len() && continues_number(self.text[self.pos])
            invariant
                self.wf(),
                t == self.text@,
                self.text == old(self).text,
                self.file == old(self).file,
                self.at_line_start == old(self).at_line_start,
                start + 1 <= self.pos <= t.len(),
                start == old(self).pos,
                number_end(t, self.pos as int) == number_end(t, start + 1),
            decreases t.len() - self.pos,
        {
            let c = self.bump();
            // A sign is part of the number only after an exponent marker,
            // which is why `1e+5` is one token and `x+5` is three.
            if (c == 'e' || c == 'E' || c == 'p' || c == 'P') && self.pos < self.text.len() && (
            self.text[self.pos] == '+' || self.text[self.pos] == '-') {
                self.bump();
            }
        }
        TokenKind::Number
    }

    /// A string literal or a character constant, closed by `quote`.
    ///
    /// A literal closes on the line it opens on. Reporting at the newline
    /// rather than running to the end of the file keeps one missing quote from
    /// swallowing the rest of the program.
    fn scan_quoted(&mut self, quote: char, diagnostics: &mut DiagnosticSink) -> (k: TokenKind)
        requires
            old(self).wf(),
            old(self).pos < old(self).text@.len(),
            quote == '"' || quote == '\'',
            old(self).text@[old(self).pos as int] == quote,
        ensures
            final(self).wf(),
            final(self).text == old(self).text,
            final(self).file == old(self).file,
            final(self).at_line_start == old(self).at_line_start,
            k == scan(old(self).text@, old(self).pos as int).0,
            final(self).pos == scan(old(self).text@, old(self).pos as int).1,
            final(diagnostics).denies() == old(diagnostics).denies(),
            final(diagnostics).reported() == old(diagnostics).reported() + problems_of(
                scan(old(self).text@, old(self).pos as int).2,
            ).map_values(|p: Problem| reported_for(old(self).file, old(self).text@, p)),
    {
        reveal(reported_for);
        reveal(scan);
        let ghost t = self.text@;
        let ghost opening = self.pos as int;
        let opening_at = self.here();
        proof {
            lemma_byte_offset_step(t, opening);
            lemma_byte_offset_mono(t, opening + 1, t.len() as int);
        }
        self.bump();
        let mut closed = false;
        loop
            invariant_except_break
                !closed,
                quoted_end(t, self.pos as int, quote) == quoted_end(t, opening + 1, quote),
            invariant
                self.wf(),
                t == self.text@,
                self.text == old(self).text,
                self.file == old(self).file,
                self.at_line_start == old(self).at_line_start,
                opening + 1 <= self.pos <= t.len(),
                opening == old(self).pos,
                opening_at == byte_offset(t, opening),
                opening_at + 1 <= u32::MAX,
                diagnostics.reported() == old(diagnostics).reported(),
                diagnostics.denies() == old(diagnostics).denies(),
            ensures
                self.wf(),
                self.text == old(self).text,
                self.file == old(self).file,
                self.at_line_start == old(self).at_line_start,
                diagnostics.reported() == old(diagnostics).reported(),
                diagnostics.denies() == old(diagnostics).denies(),
                quoted_end(t, opening + 1, quote) == (self.pos as int, closed),
            decreases t.len() - self.pos,
        {
            if self.pos >= self.text.len() || self.text[self.pos] == '\n' {
                break;
            }
            let c = self.bump();
            if c == '\\' {
                // Not past a newline: that would be a line splice, which is
                // not implemented, and consuming it here would hide the
                // unterminated literal instead of reporting it.
                if self.pos < self.text.len() && self.text[self.pos] != '\n' {
                    self.bump();
                }
            } else if c == quote {
                closed = true;
                break;
            }
        }
        if !closed {
            let string = quote == '"';
            let code = {
                proof {
                    reveal_strlit("SC0102");
                }
                Code::new("SC0102")
            };
            let (message, note) = if string {
                (
                    "unterminated string literal".to_owned(),
                    "a string literal has to be closed on the line it opens on".to_owned(),
                )
            } else {
                (
                    "unterminated character constant".to_owned(),
                    "a character constant has to be closed on the line it opens on".to_owned(),
                )
            };
            let d = Diagnostic::error(message).with_code(code).with_label(
                Label::primary(
                    Span::new(self.file, opening_at, opening_at + 1),
                    "unclosed from here".to_owned(),
                ),
            ).with_note(note);
            let ghost before = diagnostics.reported();
            diagnostics.report(d);
            proof {
                let p = Problem::UnterminatedLiteral(string, opening);
                assert(problems_of(Some(p)).map_values(
                    |p: Problem| reported_for(self.file, t, p),
                ) =~= seq![reported_for(self.file, t, p)]);
            }
        } else {
            proof {
                assert(problems_of(None).map_values(|p: Problem| reported_for(self.file, t, p))
                    =~= Seq::<DiagnosticModel>::empty());
                assert(old(diagnostics).reported() + Seq::<DiagnosticModel>::empty()
                    =~= old(diagnostics).reported());
            }
        }
        if quote == '"' {
            TokenKind::String
        } else {
            TokenKind::Character
        }
    }

    /// A run of characters that can begin no token: one token and one
    /// diagnostic for the whole run, not one per character.
    fn scan_unknown(&mut self, diagnostics: &mut DiagnosticSink) -> (k: TokenKind)
        requires
            old(self).wf(),
            old(self).pos < old(self).text@.len(),
        ensures
            final(self).wf(),
            final(self).text == old(self).text,
            final(self).file == old(self).file,
            final(self).at_line_start == old(self).at_line_start,
            k == TokenKind::Unknown,
            final(self).pos == unknown_end(old(self).text@, old(self).pos + 1),
            final(diagnostics).denies() == old(diagnostics).denies(),
            final(diagnostics).reported() == old(diagnostics).reported().push(
                reported_for(
                    old(self).file,
                    old(self).text@,
                    Problem::Unexpected(
                        old(self).pos as int,
                        unknown_end(old(self).text@, old(self).pos + 1),
                    ),
                ),
            ),
    {
        reveal(reported_for);
        let ghost t = self.text@;
        let start = self.pos;
        let start_at = self.here();
        self.bump();
        while self.pos < self.text.len() && no_token_begins_with(self.text[self.pos])
            invariant
                self.wf(),
                t == self.text@,
                self.text == old(self).text,
                self.file == old(self).file,
                self.at_line_start == old(self).at_line_start,
                start < self.pos <= t.len(),
                start == old(self).pos,
                unknown_end(t, self.pos as int) == unknown_end(t, start + 1),
            decreases t.len() - self.pos,
        {
            self.bump();
        }
        let end_at = self.here();
        let count = self.pos - start;
        // The characters themselves are shown by the quoted source line, not
        // spelled into the message.
        let message = if count == 1 {
            "unexpected character".to_owned()
        } else {
            let mut said = decimal_text(count as u64);
            said.append(" unexpected characters");
            said
        };
        let code = {
            proof {
                reveal_strlit("SC0103");
            }
            Code::new("SC0103")
        };
        let d = Diagnostic::error(message).with_code(code).with_label(
            Label::primary(Span::new(self.file, start_at, end_at), "not part of any token".to_owned()),
        );
        diagnostics.report(d);
        TokenKind::Unknown
    }

    /// A `#` that opens its line, which the scan cannot treat as a directive.
    fn report_directive(&self, diagnostics: &mut DiagnosticSink)
        requires
            self.wf(),
            self.pos < self.text@.len(),
            self.text@[self.pos as int] == '#',
        ensures
            final(diagnostics).denies() == old(diagnostics).denies(),
            final(diagnostics).reported() == old(diagnostics).reported().push(
                reported_for(self.file, self.text@, Problem::Directive(self.pos as int)),
            ),
    {
        reveal(reported_for);
        proof {
            lemma_byte_offset_step(self.text@, self.pos as int);
            lemma_byte_offset_mono(self.text@, self.pos + 1, self.text@.len() as int);
        }
        let at = self.here();
        let code = {
            proof {
                reveal_strlit("SC0104");
            }
            Code::new("SC0104")
        };
        let d = Diagnostic::error("preprocessor directives are not supported yet".to_owned()).with_code(
            code,
        ).with_label(Label::primary(Span::new(self.file, at, at + 1), "directive begins here".to_owned())).with_note(
            "the preprocessor arrives in stage 3; the line is scanned as ordinary tokens".to_owned(),
        );
        diagnostics.report(d);
    }

    /// The token at the current position.
    fn scan(&mut self, diagnostics: &mut DiagnosticSink) -> (k: TokenKind)
        requires
            old(self).wf(),
            old(self).pos < old(self).text@.len(),
        ensures
            final(self).wf(),
            final(self).text == old(self).text,
            final(self).file == old(self).file,
            final(self).at_line_start == old(self).at_line_start,
            k == scan(old(self).text@, old(self).pos as int).0,
            final(self).pos == scan(old(self).text@, old(self).pos as int).1,
            final(diagnostics).denies() == old(diagnostics).denies(),
            final(diagnostics).reported() == old(diagnostics).reported() + problems_of(
                scan(old(self).text@, old(self).pos as int).2,
            ).map_values(|p: Problem| reported_for(old(self).file, old(self).text@, p)),
    {
        reveal(scan);
        let ghost t = self.text@;
        let ghost j = self.pos as int;
        let len = self.text.len();
        let c = self.text[self.pos];
        proof {
            assert(problems_of(None).map_values(|p: Problem| reported_for(self.file, t, p))
                =~= Seq::<DiagnosticModel>::empty());
            assert(old(diagnostics).reported() + Seq::<DiagnosticModel>::empty()
                =~= old(diagnostics).reported());
        }
        if identifier_start(c) {
            return self.scan_word();
        }
        if digit(c) || (c == '.' && len - self.pos >= 2 && digit(self.text[self.pos + 1])) {
            return self.scan_number();
        }
        if c == '"' {
            return self.scan_quoted('"', diagnostics);
        }
        if c == '\'' {
            return self.scan_quoted('\'', diagnostics);
        }
        // Checked after the cases above so that `.5` is a number and `...` is
        // a punctuator, and within itself longest-first, which is C's rule.
        match Punct::starting(self.text, self.pos) {
            Some(p) => {
                proof {
                    crate::token::lemma_punct_at_spelled(t, j);
                }
                let n = p.len();
                let mut i: usize = 0;
                while i < n
                    invariant
                        self.wf(),
                        t == self.text@,
                        self.text == old(self).text,
                        self.file == old(self).file,
                        self.at_line_start == old(self).at_line_start,
                        i <= n,
                        self.pos == j + i,
                        j + n <= t.len(),
                    decreases n - i,
                {
                    self.bump();
                    i = i + 1;
                }
                return TokenKind::Punct(p);
            },
            None => {},
        }
        let k = self.scan_unknown(diagnostics);
        proof {
            let p = Problem::Unexpected(j, unknown_end(t, j + 1));
            assert(problems_of(Some(p)).map_values(|p: Problem| reported_for(self.file, t, p))
                =~= seq![reported_for(self.file, t, p)]);
        }
        k
    }
}

/// One turn of [`lex_from`], unfolded.
proof fn lemma_lex_from_unfold(t: Seq<char>, i: int, ls: bool)
    requires
        0 <= i <= t.len(),
    ensures
        ({
            let tr = trivia(t, i, ls);
            let j = tr.0;
            let comment = match tr.2 {
                Some(o) => seq![Problem::UnterminatedComment(o)],
                None => Seq::<Problem>::empty(),
            };
            &&& i <= j <= t.len()
            &&& j >= t.len() ==> lex_from(t, i, ls) == (Seq::<Scanned>::empty(), comment)
            &&& j < t.len() ==> {
                let sc = scan(t, j);
                let directive = if tr.1 && t[j] == '#' {
                    seq![Problem::Directive(j)]
                } else {
                    Seq::<Problem>::empty()
                };
                &&& tr.2 is None
                &&& j < sc.1 <= t.len()
                &&& lex_from(t, i, ls) == (
                    seq![Scanned { kind: sc.0, start: j, end: sc.1 }] + lex_from(t, sc.1, false).0,
                    directive + problems_of(sc.2) + lex_from(t, sc.1, false).1,
                )
            }
        }),
{
    reveal(lex_from);
    lemma_trivia_bounds(t, i, ls);
    let tr = trivia(t, i, ls);
    if tr.0 < t.len() {
        lemma_scan_progress(t, tr.0);
        let sc = scan(t, tr.0);
        let directive = if tr.1 && t[tr.0] == '#' {
            seq![Problem::Directive(tr.0)]
        } else {
            Seq::<Problem>::empty()
        };
        assert(Seq::<Problem>::empty() + directive + problems_of(sc.2) + lex_from(t, sc.1, false).1
            =~= directive + problems_of(sc.2) + lex_from(t, sc.1, false).1);
    }
}

/// Reporting a list of problems one after another reports their
/// concatenation.
proof fn lemma_reports_concat(file: FileId, t: Seq<char>, a: Seq<Problem>, b: Seq<Problem>)
    ensures
        (a + b).map_values(|p: Problem| reported_for(file, t, p)) == a.map_values(
            |p: Problem| reported_for(file, t, p),
        ) + b.map_values(|p: Problem| reported_for(file, t, p)),
{
    assert((a + b).map_values(|p: Problem| reported_for(file, t, p)) =~= a.map_values(
        |p: Problem| reported_for(file, t, p),
    ) + b.map_values(|p: Problem| reported_for(file, t, p)));
}

/// A proven error is kept as it is by any sink.
proof fn lemma_problem_kept(file: FileId, t: Seq<char>, p: Problem, deny: bool)
    ensures
        as_reported(deny, reported_for(file, t, p)) == reported_for(file, t, p),
{
    reveal(reported_for);
}

/// Scan `source` into tokens, reporting what it could not make sense of.
///
/// Always returns a stream, and the stream always ends with the end of the
/// file. A caller learns whether the scan found anything wrong from the sink,
/// not from the return value, because the tokens are still worth having when
/// it did.
///
/// A span is a byte offset held in a `u32`, so the text is at most that long.
pub fn lex(file: FileId, source: &SourceFile, diagnostics: &mut DiagnosticSink) -> (tokens: Vec<Token>)
    requires
        encode_utf8(source.text()).len() <= u32::MAX,
    ensures
        tokens@ == lexed(file, source.text()),
        final(diagnostics).reported() == old(diagnostics).reported() + lex_reports(
            file,
            source.text(),
        ),
        final(diagnostics).denies() == old(diagnostics).denies(),
{
    let text = source.chars();
    let ghost t = text@;
    proof {
        crate::source::lemma_byte_offset_end(t);
        assert(t.take(0) =~= Seq::<char>::empty());
    }
    let mut lexer = Lexer { file, text: text.as_slice(), pos: 0, offset: 0, at_line_start: true };
    let mut tokens: Vec<Token> = Vec::new();
    let ghost base = diagnostics.reported();
    let ghost mut done_t: Seq<Scanned> = Seq::empty();
    let ghost mut done_p: Seq<Problem> = Seq::empty();
    proof {
        assert(done_t + lex_from(t, 0, true).0 =~= lex_from(t, 0, true).0);
        assert(done_p + lex_from(t, 0, true).1 =~= lex_from(t, 0, true).1);
        assert(base + done_p.map_values(|p: Problem| reported_for(file, t, p)) =~= base);
    }
    loop
        invariant_except_break
            lexer.wf(),
            lexer.text@ == t,
            lexer.file == file,
            lex_from(t, 0, true) == (
                done_t + lex_from(t, lexer.pos as int, lexer.at_line_start).0,
                done_p + lex_from(t, lexer.pos as int, lexer.at_line_start).1,
            ),
            tokens@ == done_t.map_values(|s: Scanned| placed(file, t, s)),
            diagnostics.reported() == base + done_p.map_values(
                |p: Problem| reported_for(file, t, p),
            ),
            diagnostics.denies() == old(diagnostics).denies(),
        ensures
            lexer.wf(),
            lexer.text@ == t,
            lexer.pos == t.len(),
            lex_from(t, 0, true) == (done_t, done_p),
            tokens@ == done_t.map_values(|s: Scanned| placed(file, t, s)),
            diagnostics.reported() == base + done_p.map_values(
                |p: Problem| reported_for(file, t, p),
            ),
            diagnostics.denies() == old(diagnostics).denies(),
        decreases t.len() - lexer.pos,
    {
        let ghost i = lexer.pos as int;
        let ghost ls = lexer.at_line_start;
        let ghost tr = trivia(t, i, ls);
        proof {
            lemma_lex_from_unfold(t, i, ls);
        }
        let ghost comment: Seq<Problem> = match tr.2 {
            Some(o) => seq![Problem::UnterminatedComment(o)],
            None => Seq::empty(),
        };
        lexer.skip_trivia(diagnostics);
        if lexer.pos >= lexer.text.len() {
            proof {
                assert(comment.map_values(|p: Problem| reported_for(file, t, p)) =~= match tr.2 {
                    Some(o) => seq![reported_for(file, t, Problem::UnterminatedComment(o))],
                    None => Seq::<DiagnosticModel>::empty(),
                });
                lemma_reports_concat(file, t, done_p, comment);
                assert(done_t + Seq::<Scanned>::empty() =~= done_t);
                done_p = done_p + comment;
            }
            break;
        }
        let ghost j = lexer.pos as int;
        let ghost directive: Seq<Problem> = if lexer.at_line_start && t[j] == '#' {
            seq![Problem::Directive(j)]
        } else {
            Seq::empty()
        };
        proof {
            assert(diagnostics.reported() =~= base + done_p.map_values(
                |p: Problem| reported_for(file, t, p),
            ));
        }
        let start_at = lexer.here();
        if lexer.at_line_start && lexer.text[lexer.pos] == '#' {
            lexer.report_directive(diagnostics);
            proof {
                lemma_problem_kept(file, t, Problem::Directive(j), old(diagnostics).denies());
            }
        }
        proof {
            assert(directive.map_values(|p: Problem| reported_for(file, t, p)) =~= if tr.1 && t[j]
                == '#' {
                seq![reported_for(file, t, Problem::Directive(j))]
            } else {
                Seq::<DiagnosticModel>::empty()
            });
            lemma_reports_concat(file, t, done_p, directive);
            assert(diagnostics.reported() =~= base + (done_p + directive).map_values(
                |p: Problem| reported_for(file, t, p),
            ));
        }
        let kind = lexer.scan(diagnostics);
        let ghost sc = scan(t, j);
        let end_at = lexer.here();
        let token = Token::new(kind, Span::new(file, start_at, end_at));
        tokens.push(token);
        lexer.at_line_start = false;
        proof {
            let tok = Scanned { kind: sc.0, start: j, end: sc.1 };
            let rest = lex_from(t, sc.1, false);
            let new_t = done_t.push(tok);
            let new_p = done_p + directive + problems_of(sc.2);
            assert(done_t + (seq![tok] + rest.0) =~= new_t + rest.0);
            assert(done_p + (directive + problems_of(sc.2) + rest.1) =~= new_p + rest.1);
            assert(tokens@ =~= new_t.map_values(|s: Scanned| placed(file, t, s)));
            lemma_reports_concat(file, t, done_p + directive, problems_of(sc.2));
            done_t = new_t;
            done_p = new_p;
        }
    }
    let eof_at = lexer.here();
    tokens.push(Token::new(TokenKind::Eof, Span::at(file, eof_at)));
    proof {
        assert(tokens@ =~= lexed(file, t));
        assert(diagnostics.reported() =~= old(diagnostics).reported() + lex_reports(file, t));
    }
    tokens
}

/// The tokens from `i` on lie in order between `i` and the end of the text,
/// each takes at least one character, and none is the end of the file.
pub proof fn lemma_lex_from_shape(t: Seq<char>, i: int, ls: bool)
    requires
        0 <= i <= t.len(),
    ensures
        forall|k: int|
            0 <= k < lex_from(t, i, ls).0.len() ==> i <= (#[trigger] lex_from(t, i, ls).0[k]).start
                < lex_from(t, i, ls).0[k].end <= t.len() && lex_from(t, i, ls).0[k].kind
                != TokenKind::Eof,
        forall|a: int, b: int|
            0 <= a < b < lex_from(t, i, ls).0.len() ==> (#[trigger] lex_from(t, i, ls).0[a]).end
                <= (#[trigger] lex_from(t, i, ls).0[b]).start,
    decreases t.len() - i,
{
    lemma_lex_from_unfold(t, i, ls);
    let tr = trivia(t, i, ls);
    let all = lex_from(t, i, ls).0;
    if tr.0 < t.len() {
        let j = tr.0;
        let sc = scan(t, j);
        lemma_scan_never_eof(t, j);
        let next = sc.1;
        lemma_lex_from_shape(t, next, false);
        let rest = lex_from(t, next, false).0;
        let first = Scanned { kind: sc.0, start: j, end: next };
        assert(all == seq![first] + rest);
        assert(forall|k: int| 0 <= k < rest.len() ==> next <= (#[trigger] rest[k]).start < rest[k].end
            <= t.len() && rest[k].kind != TokenKind::Eof);
        assert(forall|a: int, b: int| 0 <= a < b < rest.len() ==> (#[trigger] rest[a]).end <= (#[trigger] rest[b]).start);
        assert forall|k: int| 0 <= k < all.len() implies i <= (#[trigger] all[k]).start < all[k].end
            <= t.len() && all[k].kind != TokenKind::Eof by {
            if k > 0 {
                assert(all[k] == rest[k - 1]);
            }
        }
        assert forall|a: int, b: int| 0 <= a < b < all.len() implies (#[trigger] all[a]).end <= (#[trigger] all[b]).start by {
            assert(all[b] == rest[b - 1]);
            assert(next <= rest[b - 1].start);
            if a > 0 {
                assert(all[a] == rest[a - 1]);
            }
        }
    } else {
        assert(all.len() == 0);
    }
}

/// A word takes the longest run of identifier characters, letters, digits
/// and `_`, that starts at it, and it is a keyword exactly where that run
/// spells one. A number takes every digit, letter, `_` and `.` that follows
/// it. Neither is a problem.
pub proof fn law_words_and_numbers_take_the_longest_run(t: Seq<char>, j: int)
    requires
        0 <= j < t.len(),
    ensures
        is_identifier_start(t[j]) ==> ({
            let (kind, e, problem) = scan(t, j);
            &&& j < e <= t.len()
            &&& forall|i: int| j <= i < e ==> is_identifier_continue(#[trigger] t[i])
            &&& e == t.len() || !is_identifier_continue(t[e])
            &&& problem is None
            &&& kind == match keyword_of(t.subrange(j, e)) {
                Some(k) => TokenKind::Keyword(k),
                None => TokenKind::Identifier,
            }
        }),
        is_digit(t[j]) ==> ({
            let (kind, e, problem) = scan(t, j);
            &&& kind == TokenKind::Number
            &&& j < e <= t.len()
            &&& e == t.len() || !(t[e] == '.' || is_identifier_continue(t[e]))
            &&& problem is None
        }),
{
    reveal(scan);
    lemma_word_end(t, j + 1);
    lemma_number_end(t, j + 1);
}

/// The scan never makes an end of file out of text.
proof fn lemma_scan_never_eof(t: Seq<char>, j: int)
    requires
        0 <= j < t.len(),
    ensures
        scan(t, j).0 != TokenKind::Eof,
{
    reveal(scan);
}

/// The scan's stream as the parser sees it: it is never empty, it ends with
/// the end of the file at the end of the text and has no other end of file in
/// it, every other token covers at least one byte, and the spans run forward
/// without overlapping and stay inside the file.
pub proof fn law_tokens_run_forward(file: FileId, t: Seq<char>)
    requires
        encode_utf8(t).len() <= u32::MAX,
    ensures
        ({
            let toks = lexed(file, t);
            let n = toks.len();
            &&& n >= 1
            &&& toks[n - 1].kind == TokenKind::Eof
            &&& toks[n - 1].span.start == encode_utf8(t).len()
            &&& toks[n - 1].span.end == encode_utf8(t).len()
            &&& forall|k: int| 0 <= k < n - 1 ==> (#[trigger] toks[k]).kind != TokenKind::Eof
            &&& forall|k: int|
                0 <= k < n - 1 ==> (#[trigger] toks[k]).span.start < toks[k].span.end
                    <= encode_utf8(t).len()
            &&& forall|a: int, b: int| 0 <= a < b < n ==> (#[trigger] toks[a]).span.end <= (#[trigger] toks[b]).span.start
            &&& forall|k: int| 0 <= k < n ==> (#[trigger] toks[k]).span.file == file
            &&& forall|k: int|
                0 <= k < n ==> on_boundary(t, (#[trigger] toks[k]).span.start as int) && on_boundary(
                    t,
                    toks[k].span.end as int,
                )
        }),
{
    crate::source::lemma_byte_offset_end(t);
    lemma_lex_from_shape(t, 0, true);
    let all = lex_from(t, 0, true).0;
    let toks = lexed(file, t);
    let len = t.len() as int;
    assert(toks.len() == all.len() + 1);
    assert forall|k: int| 0 <= k < all.len() implies (#[trigger] toks[k]) == placed(file, t, all[k]) by {
    }
    assert forall|k: int| 0 <= k < all.len() implies (#[trigger] toks[k]).span.start < toks[k].span.end
        <= encode_utf8(t).len() by {
        lemma_byte_offset_mono(t, all[k].start, all[k].end);
        lemma_byte_offset_mono(t, all[k].end, len);
        lemma_byte_offset_mono(t, 0, all[k].start);
    }
    assert forall|k: int| 0 <= k < toks.len() implies on_boundary(t, (#[trigger] toks[k]).span.start as int)
        && on_boundary(t, toks[k].span.end as int) by {
        if k < all.len() {
            lemma_byte_offset_mono(t, all[k].start, len);
            lemma_byte_offset_mono(t, all[k].end, len);
            assert(byte_offset(t, all[k].start) == toks[k].span.start);
            assert(byte_offset(t, all[k].end) == toks[k].span.end);
        } else {
            assert(byte_offset(t, len) == toks[k].span.start);
        }
    }
    assert forall|a: int, b: int| 0 <= a < b < toks.len() implies (#[trigger] toks[a]).span.end <= (#[trigger] toks[b]).span.start by {
        if b < all.len() {
            lemma_byte_offset_mono(t, all[a].end, all[b].start);
            lemma_byte_offset_mono(t, all[b].start, len);
            lemma_byte_offset_mono(t, all[a].end, len);
        } else {
            lemma_byte_offset_mono(t, all[a].end, len);
        }
    }
}

/// Whether `c` carries a preprocessing number on.
fn continues_number(c: char) -> (r: bool)
    ensures
        r == (c == 'e' || c == 'E' || c == 'p' || c == 'P' || c == '.' || is_identifier_continue(c)),
{
    c == 'e' || c == 'E' || c == 'p' || c == 'P' || c == '.' || identifier_continue(c)
}

} // verus!
