//! What a diagnostic looks like on a terminal, short of drawing it.
//!
//! Drawing the source lines, the carets and the gutter is the report
//! drawer's; everything it is handed is decided here: the header, the
//! message, every label placed in its file and in drawing order, which label
//! the report is anchored on, and the notes that follow. Text from a source
//! file or a command line is made safe to print on the way.
use vstd::prelude::*;
use vstd::string::StringExecFns;
use vstd::utf8::{encode_scalar, encode_utf8};

use crate::diagnostics::{
    caret_index, fails_the_build, severity_spelling, Certainty, Diagnostic, DiagnosticModel, Label,
    LabelModel, Severity,
};
use crate::lexer::decimal;
use crate::print::{decimal_text, is_obeyed, obeyed, push_char, shown, shown_text};
use crate::safety::{level_rank, SafetyLevel};
use crate::source::{
    byte_offset, char_width, chars_of, lemma_byte_offset_step, lemma_encode_concat,
    lemma_position_on_boundary, on_boundary, position_of, width_of, FileId,
    SourceFile, SourceMap, Span,
};

verus! {

// ---------------------------------------------------------------------------
// A label's span, made safe to draw.
// ---------------------------------------------------------------------------

/// What had to be done to a label's span before it could be drawn.
#[derive(Clone, Copy, Debug, PartialEq, Eq, Structural)]
pub struct Adjusted {
    /// An endpoint reached past the end of the file and was pulled back.
    pub past_the_end: bool,
    /// The start fell inside a character and was moved down to its start.
    pub start_split: bool,
    /// The end fell inside a character and was moved up to its end.
    pub end_split: bool,
}

impl Adjusted {
    /// Whether anything had to move at all.
    pub fn any(self) -> (r: bool)
        ensures
            r == (self.past_the_end || self.start_split || self.end_split),
    {
        self.past_the_end || self.start_split || self.end_split
    }
}

/// The smallest character boundary of `text` at or after byte `offset`.
#[verifier::opaque]
pub open spec fn ceil_boundary(text: Seq<char>, offset: int) -> int {
    byte_offset(text, position_of(text, offset)) as int
}

/// The largest character boundary of `text` at or before byte `offset`.
#[verifier::opaque]
pub open spec fn floor_boundary(text: Seq<char>, offset: int) -> int {
    let p = position_of(text, offset);
    if byte_offset(text, p) == offset {
        offset
    } else {
        byte_offset(text, p - 1) as int
    }
}

/// A span clamped to the text it points into: each end pulled back to the
/// end of the text where it reaches past it, then the start moved down and
/// the end moved up to the nearest character boundary, and the end never
/// before the start. With it, what had to move.
pub open spec fn clamped(text: Seq<char>, span: Span) -> (int, int, Adjusted) {
    let len = encode_utf8(text).len() as int;
    let s0 = if span.start > len {
        len
    } else {
        span.start as int
    };
    let e0 = if span.end > len {
        len
    } else {
        span.end as int
    };
    let s = floor_boundary(text, s0);
    let e = ceil_boundary(text, e0);
    (
        s,
        if e < s {
            s
        } else {
            e
        },
        Adjusted { past_the_end: s0 != span.start || e0 != span.end, start_split: s != s0, end_split: e != e0 },
    )
}

/// The largest character boundary of `file` at or before byte `offset`.
#[verifier::spinoff_prover]
fn floor_at(file: &SourceFile, offset: u32) -> (r: u64)
    requires
        offset <= encode_utf8(file.text()).len(),
    ensures
        r == floor_boundary(file.text(), offset as int),
{
    proof {
        reveal(floor_boundary);
    }
    let (p, b) = file.boundary(offset);
    if b == offset as u64 {
        offset as u64
    } else {
        let ghost t = file.text();
        proof {
            position_after_start(t, offset as int, p as int);
            lemma_byte_offset_step(t, p - 1);
        }
        let chars = file.chars();
        b - width_of(chars[p - 1]) as u64
    }
}

/// The smallest character boundary of `file` at or after byte `offset`.
fn ceil_at(file: &SourceFile, offset: u32) -> (r: u64)
    requires
        offset <= encode_utf8(file.text()).len(),
    ensures
        r == ceil_boundary(file.text(), offset as int),
        r <= encode_utf8(file.text()).len(),
{
    proof {
        reveal(ceil_boundary);
        bounded_by_text(file.text(), offset as int);
    }
    file.boundary(offset).1
}

/// Clamp `span` to `file`, as [`clamped`] says.
pub fn clamp(file: &SourceFile, span: Span) -> (r: (usize, usize, Adjusted))
    requires
        encode_utf8(file.text()).len() <= u32::MAX,
    ensures
        r.0 == clamped(file.text(), span).0,
        r.1 == clamped(file.text(), span).1,
        r.2 == clamped(file.text(), span).2,
{
    let len = file.len();
    let s0: u32 = if span.start > len {
        len
    } else {
        span.start
    };
    let e0: u32 = if span.end > len {
        len
    } else {
        span.end
    };
    let start = floor_at(file, s0);
    let end = ceil_at(file, e0);
    proof {
        floor_within(file.text(), s0 as int);
    }
    let last = if end < start {
        start
    } else {
        end
    };
    let adjusted = Adjusted {
        past_the_end: s0 != span.start || e0 != span.end,
        start_split: start != s0 as u64,
        end_split: end != e0 as u64,
    };
    (start as usize, last as usize, adjusted)
}

/// The boundary at or before a byte of the text is no further than it.
proof fn floor_within(t: Seq<char>, offset: int)
    requires
        0 <= offset <= encode_utf8(t).len(),
    ensures
        0 <= floor_boundary(t, offset) <= offset,
{
    reveal(floor_boundary);
    let p = position_of(t, offset);
    lemma_position(t, offset);
    if byte_offset(t, p) != offset {
        position_after_start(t, offset, p);
    }
}

/// Some character position is the first whose byte offset is at least
/// `offset`, where one at or after `k` is and none before `k` is.
proof fn lemma_first_at_least(t: Seq<char>, offset: int, k: int)
    requires
        0 <= k <= t.len(),
        forall|j: int| 0 <= j < k ==> byte_offset(t, j) < offset,
        byte_offset(t, t.len() as int) >= offset,
    ensures
        exists|i: int|
            0 <= i <= t.len() && byte_offset(t, i) >= offset && forall|j: int|
                0 <= j < i ==> byte_offset(t, j) < offset,
    decreases t.len() - k,
{
    if byte_offset(t, k) >= offset {
        assert(0 <= k <= t.len() && byte_offset(t, k) >= offset && forall|j: int|
            0 <= j < k ==> byte_offset(t, j) < offset);
    } else {
        assert(forall|j: int| 0 <= j < k + 1 ==> byte_offset(t, j) < offset);
        lemma_first_at_least(t, offset, k + 1);
    }
}

/// For a byte within the text, [`position_of`] finds the first character
/// position at or after it.
proof fn lemma_position(t: Seq<char>, offset: int)
    requires
        0 <= offset <= encode_utf8(t).len(),
    ensures
        0 <= position_of(t, offset) <= t.len(),
        byte_offset(t, position_of(t, offset)) >= offset,
        forall|j: int| 0 <= j < position_of(t, offset) ==> byte_offset(t, j) < offset,
{
    crate::source::lemma_byte_offset_end(t);
    lemma_first_at_least(t, offset, 0);
    assert(exists|i: int| 0 <= i <= t.len() && byte_offset(t, i) >= offset);
}

/// Where the first boundary at or after a byte inside the text is not that
/// byte, it is a character after the first.
proof fn position_after_start(t: Seq<char>, offset: int, p: int)
    requires
        0 <= offset <= encode_utf8(t).len(),
        p == position_of(t, offset),
        byte_offset(t, p) != offset,
    ensures
        0 < p <= t.len(),
{
    lemma_position(t, offset);
    assert(t.take(0) =~= Seq::<char>::empty());
}

/// A boundary found for a byte within the text is within the text.
proof fn bounded_by_text(t: Seq<char>, offset: int)
    requires
        0 <= offset <= encode_utf8(t).len(),
    ensures
        byte_offset(t, position_of(t, offset)) <= encode_utf8(t).len(),
        position_of(t, offset) <= t.len(),
{
    lemma_position(t, offset);
    crate::source::lemma_byte_offset_end(t);
    crate::source::lemma_byte_offset_mono(t, position_of(t, offset), t.len() as int);
}


// ---------------------------------------------------------------------------
// What a diagnostic says besides its labels.
// ---------------------------------------------------------------------------

/// The header a diagnostic is introduced by: its severity, and its code in
/// brackets where it has one.
pub open spec fn header_text(d: DiagnosticModel) -> Seq<char> {
    match d.code {
        Some(code) => severity_spelling(d.severity) + "["@ + code + "]"@,
        None => severity_spelling(d.severity),
    }
}

/// The note that names the safety level a diagnostic came from.
pub open spec fn level_note(d: DiagnosticModel) -> Seq<Seq<char>> {
    match d.level {
        Some(level) => seq!["this check belongs to safety level "@ + decimal(level_rank(level))],
        None => Seq::empty(),
    }
}

/// The note that says a result could not be proven: why it is an error where
/// it is one, and what would make it one where it is not.
pub open spec fn certainty_note(d: DiagnosticModel) -> Seq<Seq<char>> {
    if d.certainty == Certainty::Unproven {
        if fails_the_build(d.severity) {
            seq!["this could not be proven, and unproven results are errors in this compilation"@]
        } else {
            seq!["this could not be proven; `--deny-unknown` makes it an error"@]
        }
    } else {
        Seq::empty()
    }
}

/// Which end of a span fell inside a character, in words.
pub open spec fn split_phrase(a: Adjusted) -> Seq<char> {
    if a.start_split && a.end_split {
        "starts and ends inside a character"@
    } else if a.start_split {
        "starts inside a character"@
    } else if a.end_split {
        "ends inside a character"@
    } else {
        Seq::empty()
    }
}

/// Everything that had to move, in words, joined by ` and `.
pub open spec fn reasons(file: SourceFile, a: Adjusted) -> Seq<char> {
    if a.past_the_end {
        let past = "reaches past the end of "@ + file.spec_name() + " ("@ + decimal(
            encode_utf8(file.text()).len(),
        ) + " bytes)"@;
        if a.start_split || a.end_split {
            past + " and "@ + split_phrase(a)
        } else {
            past
        }
    } else {
        split_phrase(a)
    }
}

/// The note for a label whose span had to move to be drawn, if it did.
pub open spec fn adjustment_note(label: LabelModel, file: SourceFile, a: Adjusted) -> Option<Seq<char>> {
    if a.past_the_end || a.start_split || a.end_split {
        Some(
            "the span "@ + decimal(label.span.start as nat) + ".."@ + decimal(label.span.end as nat)
                + " for `"@ + label.message + "` "@ + reasons(file, a) + ", and was moved to fit"@,
        )
    } else {
        None
    }
}

/// The note for a label that points into a file the map does not have.
pub open spec fn missing_file_note(label: LabelModel) -> Seq<char> {
    "`"@ + label.message + "` points into a file this renderer does not have (index "@ + decimal(
        label.span.file.0 as nat,
    ) + ")"@
}

fn append_decimal(out: &mut String, n: u64)
    ensures
        final(out)@ == old(out)@ + decimal(n as nat),
{
    let digits = decimal_text(n);
    out.append(digits.as_str());
}

/// The header, as [`header_text`] says.
pub fn header(diagnostic: &Diagnostic) -> (s: String)
    ensures
        s@ == header_text(diagnostic@),
{
    let mut s = diagnostic.severity().as_str().to_owned();
    match diagnostic.code() {
        Some(code) => {
            s.append("[");
            s.append(code.as_str());
            s.append("]");
        },
        None => {},
    }
    s
}

fn adjustment_text(label: &Label, file: &SourceFile, a: Adjusted) -> (s: String)
    requires
        a.past_the_end || a.start_split || a.end_split,
        encode_utf8(file.text()).len() <= u32::MAX,
    ensures
        adjustment_note(label@, *file, a) == Some(s@),
{
    let mut split = String::new();
    if a.start_split && a.end_split {
        split.append("starts and ends inside a character");
    } else if a.start_split {
        split.append("starts inside a character");
    } else if a.end_split {
        split.append("ends inside a character");
    }
    let mut why = String::new();
    if a.past_the_end {
        why.append("reaches past the end of ");
        why.append(file.name());
        why.append(" (");
        append_decimal(&mut why, file.len() as u64);
        why.append(" bytes)");
        if a.start_split || a.end_split {
            why.append(" and ");
            why.append(split.as_str());
        }
    } else {
        why.append(split.as_str());
    }
    assert(why@ =~= reasons(*file, a));
    let mut s = "the span ".to_owned();
    append_decimal(&mut s, label.span().start as u64);
    s.append("..");
    append_decimal(&mut s, label.span().end as u64);
    s.append(" for `");
    s.append(label.message());
    s.append("` ");
    s.append(why.as_str());
    s.append(", and was moved to fit");
    s
}

fn missing_file_text(label: &Label) -> (s: String)
    ensures
        s@ == missing_file_note(label@),
{
    let mut s = "`".to_owned();
    s.append(label.message());
    s.append("` points into a file this renderer does not have (index ");
    append_decimal(&mut s, label.span().file.0 as u64);
    s.append(")");
    s
}


// ---------------------------------------------------------------------------
// The labels, placed.
// ---------------------------------------------------------------------------

/// A label placed in its file: which label it is, the file, the byte range
/// to draw, what it says, and whether it is primary.
#[derive(Clone, Debug, PartialEq, Eq)]
pub struct Placed {
    /// Its position among the diagnostic's labels.
    pub label: usize,
    /// The file it is drawn in.
    pub file: FileId,
    /// Where the range to draw starts, in bytes.
    pub start: usize,
    /// Where it ends.
    pub end: usize,
    /// What it says, made safe to print.
    pub message: String,
    /// Whether it is a primary label.
    pub primary: bool,
}

/// A [`Placed`] as values.
pub ghost struct PlacedModel {
    pub label: int,
    pub file: FileId,
    pub start: int,
    pub end: int,
    pub message: Seq<char>,
    pub primary: bool,
}

impl View for Placed {
    type V = PlacedModel;

    open spec fn view(&self) -> PlacedModel {
        PlacedModel {
            label: self.label as int,
            file: self.file,
            start: self.start as int,
            end: self.end as int,
            message: self.message@,
            primary: self.primary,
        }
    }
}

/// Every file of `sources` can be addressed by a span.
pub open spec fn addressable(sources: SourceMap) -> bool {
    forall|i: int|
        0 <= i < sources.spec_files().len() ==> encode_utf8((#[trigger] sources.spec_files()[i]).text()).len()
            <= u32::MAX
}

/// Label `k`, placed in its file, where its file is in `sources`.
pub open spec fn place(sources: SourceMap, k: int, label: LabelModel) -> Option<PlacedModel> {
    if label.span.file.0 < sources.spec_files().len() {
        let c = clamped(sources.spec_files()[label.span.file.0 as int].text(), label.span);
        Some(
            PlacedModel {
                label: k,
                file: label.span.file,
                start: c.0,
                end: c.1,
                message: shown_text(label.message),
                primary: label.primary,
            },
        )
    } else {
        None
    }
}

/// Every label whose file is in `sources`, placed, in the order written.
pub open spec fn placements(sources: SourceMap, labels: Seq<LabelModel>) -> Seq<PlacedModel>
    decreases labels.len(),
{
    if labels.len() == 0 {
        Seq::empty()
    } else {
        let rest = placements(sources, labels.drop_last());
        match place(sources, labels.len() - 1, labels.last()) {
            Some(p) => rest.push(p),
            None => rest,
        }
    }
}

/// The notes the labels add, in the order written: one for each label whose
/// span had to move, and one for each whose file is not in `sources`.
pub open spec fn label_notes(sources: SourceMap, labels: Seq<LabelModel>) -> Seq<Seq<char>>
    decreases labels.len(),
{
    if labels.len() == 0 {
        Seq::empty()
    } else {
        let rest = label_notes(sources, labels.drop_last());
        let label = labels.last();
        if label.span.file.0 < sources.spec_files().len() {
            let file = sources.spec_files()[label.span.file.0 as int];
            match adjustment_note(label, file, clamped(file.text(), label.span).2) {
                Some(n) => rest.push(n),
                None => rest,
            }
        } else {
            rest.push(missing_file_note(label))
        }
    }
}

/// `a` is drawn no later than `b`: by file, then by where it starts.
pub open spec fn drawn_before(a: PlacedModel, b: PlacedModel) -> bool {
    a.file.0 < b.file.0 || (a.file.0 == b.file.0 && a.start <= b.start)
}

/// `x` inserted into `s` after every label drawn no later than it.
pub open spec fn insert_in_order(s: Seq<PlacedModel>, x: PlacedModel) -> Seq<PlacedModel>
    decreases s.len(),
{
    if s.len() == 0 {
        seq![x]
    } else if drawn_before(s.last(), x) {
        s.push(x)
    } else {
        insert_in_order(s.drop_last(), x).push(s.last())
    }
}

/// The labels in drawing order: sorted by file and then by start, and in the
/// order written where two tie.
pub open spec fn in_drawing_order(s: Seq<PlacedModel>) -> Seq<PlacedModel>
    decreases s.len(),
{
    if s.len() == 0 {
        Seq::empty()
    } else {
        insert_in_order(in_drawing_order(s.drop_last()), s.last())
    }
}

/// Where, counting back from the end of `s`, `x` goes.
pub open spec fn insertion_point(s: Seq<PlacedModel>, x: PlacedModel) -> int
    decreases s.len(),
{
    if s.len() == 0 {
        0
    } else if drawn_before(s.last(), x) {
        s.len() as int
    } else {
        insertion_point(s.drop_last(), x)
    }
}

proof fn lemma_insert_at_point(s: Seq<PlacedModel>, x: PlacedModel)
    ensures
        0 <= insertion_point(s, x) <= s.len(),
        insert_in_order(s, x) == s.insert(insertion_point(s, x), x),
    decreases s.len(),
{
    if s.len() == 0 {
        assert(s.insert(0, x) =~= seq![x]);
    } else if drawn_before(s.last(), x) {
        assert(s.insert(s.len() as int, x) =~= s.push(x));
    } else {
        lemma_insert_at_point(s.drop_last(), x);
        let p = insertion_point(s.drop_last(), x);
        assert(s.drop_last().insert(p, x).push(s.last()) =~= s.insert(p, x));
    }
}

/// Drawing order holds every label it was given and nothing else.
proof fn lemma_drawing_order_keeps_members(s: Seq<PlacedModel>, p: PlacedModel)
    ensures
        in_drawing_order(s).contains(p) <==> s.contains(p),
    decreases s.len(),
{
    if s.len() > 0 {
        let rest = in_drawing_order(s.drop_last());
        lemma_drawing_order_keeps_members(s.drop_last(), p);
        lemma_insert_at_point(rest, s.last());
        let at = insertion_point(rest, s.last());
        let ins = rest.insert(at, s.last());
        assert(s =~= s.drop_last().push(s.last()));
        if ins.contains(p) {
            let i = choose|i: int| 0 <= i < ins.len() && ins[i] == p;
            if i < at {
                assert(rest[i] == p);
            } else if i > at {
                assert(rest[i - 1] == p);
            }
            if p != s.last() {
                assert(rest.contains(p));
                let j = choose|j: int| 0 <= j < s.drop_last().len() && s.drop_last()[j] == p;
                assert(s[j] == p);
            } else {
                assert(s[s.len() - 1] == p);
            }
        }
        if s.contains(p) {
            let j = choose|j: int| 0 <= j < s.len() && s[j] == p;
            if j == s.len() - 1 {
                assert(ins[at] == p);
            } else {
                assert(s.drop_last()[j] == p);
                assert(rest.contains(p));
                let i = choose|i: int| 0 <= i < rest.len() && rest[i] == p;
                if i < at {
                    assert(ins[i] == p);
                } else {
                    assert(ins[i + 1] == p);
                }
            }
        }
    }
}

/// A label whose file is in `sources` is among the placements.
proof fn lemma_placed_when_its_file_is_there(sources: SourceMap, labels: Seq<LabelModel>, k: int)
    requires
        0 <= k < labels.len(),
        labels[k].span.file.0 < sources.spec_files().len(),
    ensures
        placements(sources, labels).contains(place(sources, k, labels[k])->Some_0),
    decreases labels.len(),
{
    let rest = placements(sources, labels.drop_last());
    if k == labels.len() - 1 {
        let ps = placements(sources, labels);
        assert(ps[ps.len() - 1] == place(sources, k, labels[k])->Some_0);
    } else {
        assert(labels.drop_last()[k] == labels[k]);
        lemma_placed_when_its_file_is_there(sources, labels.drop_last(), k);
        let i = choose|i: int| 0 <= i < rest.len() && rest[i] == place(sources, k, labels[k])->Some_0;
        let ps = placements(sources, labels);
        assert(ps[i] == rest[i]);
    }
}

/// Every placement is one label placed.
proof fn lemma_placements_are_placed(sources: SourceMap, labels: Seq<LabelModel>, p: PlacedModel)
    requires
        placements(sources, labels).contains(p),
    ensures
        0 <= p.label < labels.len(),
        place(sources, p.label, labels[p.label]) == Some(p),
    decreases labels.len(),
{
    let rest = placements(sources, labels.drop_last());
    let ps = placements(sources, labels);
    let i = choose|i: int| 0 <= i < ps.len() && ps[i] == p;
    if i < rest.len() {
        assert(rest[i] == p);
        lemma_placements_are_placed(sources, labels.drop_last(), p);
        assert(labels.drop_last()[p.label] == labels[p.label]);
    }
}

/// A label whose file is not in `sources` adds the note saying so.
proof fn lemma_missing_file_noted(sources: SourceMap, labels: Seq<LabelModel>, k: int)
    requires
        0 <= k < labels.len(),
        !(labels[k].span.file.0 < sources.spec_files().len()),
    ensures
        label_notes(sources, labels).contains(missing_file_note(labels[k])),
    decreases labels.len(),
{
    let rest = label_notes(sources, labels.drop_last());
    let ns = label_notes(sources, labels);
    if k == labels.len() - 1 {
        assert(ns[ns.len() - 1] == missing_file_note(labels[k]));
    } else {
        assert(labels.drop_last()[k] == labels[k]);
        lemma_missing_file_noted(sources, labels.drop_last(), k);
        let i = choose|i: int| 0 <= i < rest.len() && rest[i] == missing_file_note(labels[k]);
        assert(rest.is_prefix_of(ns));
        assert(ns[i] == rest[i]);
    }
}

/// No label vanishes from a rendering: one whose file is in `sources` is
/// drawn, in that file, and one whose file is not is named in a note.
pub proof fn law_every_label_is_drawn_or_noted(sources: SourceMap, d: DiagnosticModel, k: int)
    requires
        0 <= k < d.labels.len(),
    ensures
        d.labels[k].span.file.0 < sources.spec_files().len() ==> exists|i: int|
            0 <= i < rendering_of(sources, d).labels.len() && (#[trigger] rendering_of(sources, d).labels[i]).label == k
                && rendering_of(sources, d).labels[i].file == d.labels[k].span.file,
        !(d.labels[k].span.file.0 < sources.spec_files().len()) ==> rendering_of(sources, d).notes.contains(
            missing_file_note(d.labels[k]),
        ),
{
    let r = rendering_of(sources, d);
    if d.labels[k].span.file.0 < sources.spec_files().len() {
        let p = place(sources, k, d.labels[k])->Some_0;
        lemma_placed_when_its_file_is_there(sources, d.labels, k);
        lemma_drawing_order_keeps_members(placements(sources, d.labels), p);
        let i = choose|i: int| 0 <= i < r.labels.len() && r.labels[i] == p;
        assert(r.labels[i].label == k);
    } else {
        lemma_missing_file_noted(sources, d.labels, k);
        let own = d.notes + level_note(d) + certainty_note(d);
        let ns = label_notes(sources, d.labels);
        let i = choose|i: int| 0 <= i < ns.len() && ns[i] == missing_file_note(d.labels[k]);
        assert(r.notes[own.len() + i] == ns[i]);
    }
}

/// Every label drawn is one of the diagnostic's, shown safely, in a file
/// of `sources`, over a stretch of its text a drawer can slice.
pub proof fn law_every_drawn_label_fits(sources: SourceMap, d: DiagnosticModel, i: int)
    requires
        0 <= i < rendering_of(sources, d).labels.len(),
    ensures
        ({
            let p = rendering_of(sources, d).labels[i];
            let text = sources.spec_files()[p.file.0 as int].text();
            &&& 0 <= p.label < d.labels.len()
            &&& p.file == d.labels[p.label].span.file
            &&& p.file.0 < sources.spec_files().len()
            &&& p.message == shown_text(d.labels[p.label].message)
            &&& p.primary == d.labels[p.label].primary
            &&& 0 <= p.start <= p.end <= encode_utf8(text).len()
            &&& on_boundary(text, p.start)
            &&& on_boundary(text, p.end)
        }),
{
    let r = rendering_of(sources, d);
    let p = r.labels[i];
    let ps = placements(sources, d.labels);
    lemma_drawing_order_keeps_members(ps, p);
    assert(in_drawing_order(ps).contains(p));
    lemma_placements_are_placed(sources, d.labels, p);
    let label = d.labels[p.label];
    law_clamped_span_can_be_drawn(sources.spec_files()[label.span.file.0 as int].text(), label.span);
}

/// What of a placed label reaches the drawing: everything but which label
/// of the diagnostic it was.
pub open spec fn drawn_as(p: PlacedModel) -> (FileId, int, int, Seq<char>, bool) {
    (p.file, p.start, p.end, p.message, p.primary)
}

/// What reaches the drawing of each label of `s`, in order.
pub open spec fn drawing(s: Seq<PlacedModel>) -> Seq<(FileId, int, int, Seq<char>, bool)> {
    s.map_values(|p: PlacedModel| drawn_as(p))
}

/// No two of `s` are drawn at one place: each file and starting byte holds
/// one label at most.
pub open spec fn apart(s: Seq<PlacedModel>) -> bool {
    forall|i: int, j: int|
        0 <= i < s.len() && 0 <= j < s.len() && i != j ==> !(s[i].file == s[j].file && s[i].start
            == s[j].start)
}

/// Every label of `s` is drawn no later than every one after it.
pub open spec fn in_order(s: Seq<PlacedModel>) -> bool {
    forall|i: int, j: int| 0 <= i < j < s.len() ==> drawn_before(s[i], s[j])
}

proof fn lemma_insert_keeps_order(s: Seq<PlacedModel>, x: PlacedModel)
    requires
        in_order(s),
    ensures
        in_order(insert_in_order(s, x)),
    decreases s.len(),
{
    if s.len() > 0 && !drawn_before(s.last(), x) {
        let inner = insert_in_order(s.drop_last(), x);
        lemma_insert_keeps_order(s.drop_last(), x);
        lemma_insert_at_point(s.drop_last(), x);
        let at = insertion_point(s.drop_last(), x);
        assert forall|i: int| 0 <= i < inner.len() implies drawn_before(inner[i], s.last()) by {
            if i < at {
                assert(inner[i] == s[i]);
            } else if i > at {
                assert(inner[i] == s[i - 1]);
            }
        }
        let r = insert_in_order(s, x);
        assert(r =~= inner.push(s.last()));
        assert forall|i: int, j: int| 0 <= i < j < r.len() implies drawn_before(r[i], r[j]) by {
            if j == r.len() - 1 {
                assert(r[i] == inner[i]);
            } else {
                assert(r[i] == inner[i] && r[j] == inner[j]);
            }
        }
    } else if s.len() > 0 {
        let r = insert_in_order(s, x);
        assert forall|i: int, j: int| 0 <= i < j < r.len() implies drawn_before(r[i], r[j]) by {
            if j == r.len() - 1 {
                if i < s.len() - 1 {
                    assert(drawn_before(s[i], s[s.len() - 1]));
                }
            }
        }
    }
}

proof fn lemma_drawing_order_in_order(s: Seq<PlacedModel>)
    ensures
        in_order(in_drawing_order(s)),
    decreases s.len(),
{
    if s.len() > 0 {
        lemma_drawing_order_in_order(s.drop_last());
        lemma_insert_keeps_order(in_drawing_order(s.drop_last()), s.last());
    }
}

proof fn lemma_drawing_order_apart(s: Seq<PlacedModel>)
    requires
        apart(s),
    ensures
        apart(in_drawing_order(s)),
    decreases s.len(),
{
    if s.len() > 0 {
        let head = s.drop_last();
        let x = s.last();
        assert(apart(head)) by {
            assert forall|i: int, j: int|
                0 <= i < head.len() && 0 <= j < head.len() && i != j implies !(head[i].file
                == head[j].file && head[i].start == head[j].start) by {
                assert(head[i] == s[i] && head[j] == s[j]);
            }
        }
        lemma_drawing_order_apart(head);
        let rest = in_drawing_order(head);
        lemma_insert_at_point(rest, x);
        let at = insertion_point(rest, x);
        let r = rest.insert(at, x);
        assert forall|i: int| 0 <= i < rest.len() implies !(rest[i].file == x.file && rest[i].start
            == x.start) by {
            assert(rest.contains(rest[i]));
            lemma_drawing_order_keeps_members(head, rest[i]);
            let j = choose|j: int| 0 <= j < head.len() && head[j] == rest[i];
            assert(s[j] == rest[i] && s[s.len() - 1] == x);
        }
        assert forall|i: int, j: int|
            0 <= i < r.len() && 0 <= j < r.len() && i != j implies !(r[i].file == r[j].file && r[i].start
            == r[j].start) by {
            let a = if i < at { i } else { i - 1 };
            let b = if j < at { j } else { j - 1 };
            if i != at && j != at {
                assert(r[i] == rest[a] && r[j] == rest[b]);
            } else if i == at {
                assert(r[j] == rest[b]);
            } else {
                assert(r[i] == rest[a]);
            }
        }
    }
}

/// Two sequences, each in drawing order with no two labels at one place,
/// that hold the same drawn labels are the same sequence.
proof fn lemma_one_drawing(t1: Seq<PlacedModel>, t2: Seq<PlacedModel>)
    requires
        in_order(t1),
        in_order(t2),
        apart(t1),
        apart(t2),
        forall|x: (FileId, int, int, Seq<char>, bool)|
            #![trigger drawing(t1).contains(x)]
            #![trigger drawing(t2).contains(x)]
            drawing(t1).contains(x) <==> drawing(t2).contains(x),
    ensures
        drawing(t1) == drawing(t2),
    decreases t1.len() + t2.len(),
{
    let m1 = drawing(t1);
    let m2 = drawing(t2);
    if t1.len() == 0 || t2.len() == 0 {
        if t1.len() > 0 {
            assert(m1.contains(m1[0]));
        }
        if t2.len() > 0 {
            assert(m2.contains(m2[0]));
        }
        assert(m1 =~= m2);
    } else {
        let a = t1.last();
        let b = t2.last();
        assert(m1.contains(m1[t1.len() - 1]));
        let j = choose|j: int| 0 <= j < m2.len() && m2[j] == m1[t1.len() - 1];
        assert(m2.contains(m2[t2.len() - 1]));
        let i = choose|i: int| 0 <= i < m1.len() && m1[i] == m2[t2.len() - 1];
        // The last of each is the latest of both, so they are at one place.
        if j < t2.len() - 1 {
            assert(drawn_before(t2[j], b));
        }
        if i < t1.len() - 1 {
            assert(drawn_before(t1[i], a));
        }
        assert(a.file == b.file && a.start == b.start);
        assert(i == t1.len() - 1);
        assert(drawn_as(a) == drawn_as(b));
        let h1 = t1.drop_last();
        let h2 = t2.drop_last();
        assert(in_order(h1) && in_order(h2));
        assert(apart(h1)) by {
            assert forall|p: int, q: int|
                0 <= p < h1.len() && 0 <= q < h1.len() && p != q implies !(h1[p].file == h1[q].file
                && h1[p].start == h1[q].start) by {
                assert(h1[p] == t1[p] && h1[q] == t1[q]);
            }
        }
        assert(apart(h2)) by {
            assert forall|p: int, q: int|
                0 <= p < h2.len() && 0 <= q < h2.len() && p != q implies !(h2[p].file == h2[q].file
                && h2[p].start == h2[q].start) by {
                assert(h2[p] == t2[p] && h2[q] == t2[q]);
            }
        }
        let n1 = drawing(h1);
        let n2 = drawing(h2);
        assert forall|x: (FileId, int, int, Seq<char>, bool)| n1.contains(x) <==> n2.contains(x) by {
            if n1.contains(x) {
                let p = choose|p: int| 0 <= p < n1.len() && n1[p] == x;
                assert(m1[p] == x);
                assert(m1.contains(x));
                let q = choose|q: int| 0 <= q < m2.len() && m2[q] == x;
                if q == t2.len() - 1 {
                    assert(t1[p].file == a.file && t1[p].start == a.start);
                }
                assert(n2[q] == x);
            }
            if n2.contains(x) {
                let q = choose|q: int| 0 <= q < n2.len() && n2[q] == x;
                assert(m2[q] == x);
                assert(m2.contains(x));
                let p = choose|p: int| 0 <= p < m1.len() && m1[p] == x;
                if p == t1.len() - 1 {
                    assert(t2[q].file == b.file && t2[q].start == b.start);
                }
                assert(n1[p] == x);
            }
        }
        lemma_one_drawing(h1, h2);
        assert(m1 =~= n1.push(drawn_as(a)));
        assert(m2 =~= n2.push(drawn_as(b)));
    }
}

/// The labels a diagnostic draws do not depend on the order they were
/// attached in: two label lists holding the same labels, where no two are
/// drawn at one place, are drawn alike.
pub proof fn law_drawing_ignores_attachment_order(sources: SourceMap, l1: Seq<LabelModel>, l2: Seq<LabelModel>)
    requires
        forall|l: LabelModel| l1.contains(l) <==> l2.contains(l),
        apart(placements(sources, l1)),
        apart(placements(sources, l2)),
    ensures
        drawing(in_drawing_order(placements(sources, l1)))
            == drawing(in_drawing_order(placements(sources, l2))),
{
    let s1 = placements(sources, l1);
    let s2 = placements(sources, l2);
    let t1 = in_drawing_order(s1);
    let t2 = in_drawing_order(s2);
    lemma_drawing_order_in_order(s1);
    lemma_drawing_order_in_order(s2);
    lemma_drawing_order_apart(s1);
    lemma_drawing_order_apart(s2);
    let m1 = drawing(t1);
    let m2 = drawing(t2);
    assert forall|x: (FileId, int, int, Seq<char>, bool)| m1.contains(x) implies m2.contains(x) by {
        lemma_drawn_in_the_other(sources, l1, l2, x);
    }
    assert forall|x: (FileId, int, int, Seq<char>, bool)| m2.contains(x) implies m1.contains(x) by {
        lemma_drawn_in_the_other(sources, l2, l1, x);
    }
    lemma_one_drawing(t1, t2);
}

proof fn lemma_drawn_in_the_other(
    sources: SourceMap,
    l1: Seq<LabelModel>,
    l2: Seq<LabelModel>,
    x: (FileId, int, int, Seq<char>, bool),
)
    requires
        forall|l: LabelModel| l1.contains(l) ==> l2.contains(l),
        drawing(in_drawing_order(placements(sources, l1))).contains(x),
    ensures
        drawing(in_drawing_order(placements(sources, l2))).contains(x),
{
    let t1 = in_drawing_order(placements(sources, l1));
    let m1 = drawing(t1);
    let i = choose|i: int| 0 <= i < m1.len() && m1[i] == x;
    let p = t1[i];
    lemma_drawing_order_keeps_members(placements(sources, l1), p);
    assert(t1.contains(p));
    lemma_placements_are_placed(sources, l1, p);
    let label = l1[p.label];
    assert(l1.contains(label));
    let k = choose|k: int| 0 <= k < l2.len() && l2[k] == label;
    lemma_placed_when_its_file_is_there(sources, l2, k);
    let q = place(sources, k, l2[k])->Some_0;
    lemma_drawing_order_keeps_members(placements(sources, l2), q);
    let t2 = in_drawing_order(placements(sources, l2));
    let j = choose|j: int| 0 <= j < t2.len() && t2[j] == q;
    let m2 = drawing(t2);
    assert(m2[j] == x);
}

/// A report is anchored on a label its drawing holds.
proof fn lemma_anchor_at(t: Seq<PlacedModel>, k: int, i: int)
    requires
        0 <= i < t.len(),
        t[i].label == k,
    ensures
        anchor_of(t, Some(k)) matches Some(a) && 0 <= a < t.len() && t[a].label == k,
    decreases i,
{
    if exists|j: int| 0 <= j < i && t[j].label == k {
        let j = choose|j: int| 0 <= j < i && t[j].label == k;
        lemma_anchor_at(t, k, j);
    } else {
        assert(0 <= i < t.len() && t[i].label == k && forall|j: int| 0 <= j < i ==> t[j].label != k);
    }
}

/// Where the label at `k` of `labels` is drawn, if it is: the position in
/// the drawing that holds it.
#[verifier::spinoff_prover]
proof fn lemma_anchor_holds_the_caret(sources: SourceMap, labels: Seq<LabelModel>, k: int)
    requires
        0 <= k < labels.len(),
        labels[k].span.file.0 < sources.spec_files().len(),
    ensures
        anchor_of(in_drawing_order(placements(sources, labels)), Some(k)) matches Some(a) && 0 <= a
            < in_drawing_order(placements(sources, labels)).len() && in_drawing_order(
            placements(sources, labels),
        )[a] == place(sources, k, labels[k])->Some_0,
{
    let ps = placements(sources, labels);
    let t = in_drawing_order(ps);
    let p = place(sources, k, labels[k])->Some_0;
    lemma_placed_when_its_file_is_there(sources, labels, k);
    lemma_drawing_order_keeps_members(ps, p);
    let i = choose|i: int| 0 <= i < t.len() && t[i] == p;
    lemma_anchor_at(t, k, i);
    let a = anchor_of(t, Some(k))->Some_0;
    assert(t.contains(t[a]));
    lemma_drawing_order_keeps_members(ps, t[a]);
    lemma_placements_are_placed(sources, labels, t[a]);
}

/// A label whose file is not in `sources` is nowhere in the drawing.
proof fn lemma_unplaced_not_drawn(sources: SourceMap, labels: Seq<LabelModel>, k: int)
    requires
        0 <= k < labels.len(),
        !(labels[k].span.file.0 < sources.spec_files().len()),
    ensures
        forall|i: int|
            0 <= i < in_drawing_order(placements(sources, labels)).len() ==> (#[trigger] in_drawing_order(
                placements(sources, labels),
            )[i]).label != k,
{
    let t = in_drawing_order(placements(sources, labels));
    assert forall|i: int| 0 <= i < t.len() implies (#[trigger] t[i]).label != k by {
        assert(t.contains(t[i]));
        lemma_drawing_order_keeps_members(placements(sources, labels), t[i]);
        lemma_placements_are_placed(sources, labels, t[i]);
    }
}

/// A list with a primary label has its caret on a primary label.
proof fn lemma_caret_is_primary(labels: Seq<LabelModel>, i: int)
    requires
        0 <= i < labels.len(),
        labels[i].primary,
    ensures
        caret_index(labels) matches Some(k) && 0 <= k < labels.len() && labels[k].primary,
    decreases i,
{
    if exists|j: int| 0 <= j < i && labels[j].primary {
        let j = choose|j: int| 0 <= j < i && labels[j].primary;
        lemma_caret_is_primary(labels, j);
    } else {
        assert(0 <= i < labels.len() && labels[i].primary && forall|j: int|
            0 <= j < i ==> !labels[j].primary);
    }
}

/// In a list holding the same labels as one whose only primary label is
/// `primary`, the caret is on `primary` too.
proof fn lemma_caret_on_the_primary(l1: Seq<LabelModel>, l2: Seq<LabelModel>, primary: LabelModel)
    requires
        forall|l: LabelModel| l1.contains(l) <==> l2.contains(l),
        primary.primary,
        l1.contains(primary),
        forall|i: int| 0 <= i < l1.len() && (#[trigger] l1[i]).primary ==> l1[i] == primary,
    ensures
        caret_index(l2) matches Some(k) && 0 <= k < l2.len() && l2[k] == primary,
{
    assert(l2.contains(primary));
    let i = choose|i: int| 0 <= i < l2.len() && l2[i] == primary;
    lemma_caret_is_primary(l2, i);
    let k = caret_index(l2)->Some_0;
    assert(l1.contains(l2[k]));
    let j = choose|j: int| 0 <= j < l1.len() && l1[j] == l2[k];
    assert(l1[j].primary);
}

/// Which label a report is anchored on does not depend on the order the
/// labels were attached in either, where one label is the primary one: two
/// label lists holding the same labels, no two drawn at one place, with one
/// primary label between them, are anchored at one place in one drawing.
#[verifier::spinoff_prover]
pub proof fn law_anchor_ignores_attachment_order(
    sources: SourceMap,
    l1: Seq<LabelModel>,
    l2: Seq<LabelModel>,
    primary: LabelModel,
)
    requires
        forall|l: LabelModel| l1.contains(l) <==> l2.contains(l),
        apart(placements(sources, l1)),
        apart(placements(sources, l2)),
        primary.primary,
        l1.contains(primary),
        forall|i: int| 0 <= i < l1.len() && (#[trigger] l1[i]).primary ==> l1[i] == primary,
    ensures
        anchor_of(in_drawing_order(placements(sources, l1)), caret_index(l1)) == anchor_of(
            in_drawing_order(placements(sources, l2)),
            caret_index(l2),
        ),
{
    let t1 = in_drawing_order(placements(sources, l1));
    let t2 = in_drawing_order(placements(sources, l2));
    law_drawing_ignores_attachment_order(sources, l1, l2);
    lemma_drawing_order_apart(placements(sources, l2));
    assert(drawing(t1).len() == t1.len() && drawing(t2).len() == t2.len());
    lemma_caret_on_the_primary(l1, l1, primary);
    lemma_caret_on_the_primary(l1, l2, primary);
    let k1 = caret_index(l1)->Some_0;
    let k2 = caret_index(l2)->Some_0;
    if primary.span.file.0 < sources.spec_files().len() {
        lemma_anchor_holds_the_caret(sources, l1, k1);
        lemma_anchor_holds_the_caret(sources, l2, k2);
        let a1 = anchor_of(t1, Some(k1))->Some_0;
        let a2 = anchor_of(t2, Some(k2))->Some_0;
        assert(drawn_as(t1[a1]) == drawn_as(t2[a2]));
        assert(drawing(t1)[a1] == drawing(t2)[a1]);
        assert(drawn_as(t2[a1]) == drawn_as(t2[a2]));
        assert(a1 == a2);
    } else {
        lemma_unplaced_not_drawn(sources, l1, k1);
        lemma_unplaced_not_drawn(sources, l2, k2);
    }
}

/// Where a span is clamped to, a drawer can slice: both ends lie within the
/// text, in order, where a character begins or the text ends. A span that
/// already did is left as it was, with nothing said about it.
pub proof fn law_clamped_span_can_be_drawn(text: Seq<char>, span: Span)
    ensures
        0 <= clamped(text, span).0 <= clamped(text, span).1 <= encode_utf8(text).len(),
        on_boundary(text, clamped(text, span).0),
        on_boundary(text, clamped(text, span).1),
        span.start <= span.end <= encode_utf8(text).len() && on_boundary(text, span.start as int)
            && on_boundary(text, span.end as int) ==> clamped(text, span) == (
            span.start as int,
            span.end as int,
            Adjusted { past_the_end: false, start_split: false, end_split: false },
        ),
{
    reveal(floor_boundary);
    reveal(ceil_boundary);
    let len = encode_utf8(text).len() as int;
    let s0 = if span.start > len { len } else { span.start as int };
    let e0 = if span.end > len { len } else { span.end as int };
    floor_within(text, s0);
    let ps = position_of(text, s0);
    lemma_position(text, s0);
    if byte_offset(text, ps) != s0 {
        position_after_start(text, s0, ps);
        assert(byte_offset(text, ps - 1) < s0);
        assert(0 <= ps - 1 <= text.len() && byte_offset(text, ps - 1) == floor_boundary(text, s0));
    } else {
        assert(0 <= ps <= text.len() && byte_offset(text, ps) == floor_boundary(text, s0));
    }
    let pe = position_of(text, e0);
    lemma_position(text, e0);
    bounded_by_text(text, e0);
    assert(0 <= pe <= text.len() && byte_offset(text, pe) == ceil_boundary(text, e0));
    if span.start <= span.end <= len && on_boundary(text, span.start as int) && on_boundary(
        text,
        span.end as int,
    ) {
        let i = choose|i: int| 0 <= i <= text.len() && byte_offset(text, i) == span.start;
        let j = choose|j: int| 0 <= j <= text.len() && byte_offset(text, j) == span.end;
        lemma_position_on_boundary(text, i);
        lemma_position_on_boundary(text, j);
    }
}

/// The label a report is anchored on: the diagnostic's caret label where it
/// was placed, and otherwise the first label drawn.
pub open spec fn anchor_of(drawn: Seq<PlacedModel>, caret: Option<int>) -> Option<int> {
    if caret is Some && exists|i: int| 0 <= i < drawn.len() && drawn[i].label == caret->Some_0 {
        Some(
            choose|i: int|
                0 <= i < drawn.len() && drawn[i].label == caret->Some_0 && forall|j: int|
                    0 <= j < i ==> drawn[j].label != caret->Some_0,
        )
    } else if drawn.len() > 0 {
        Some(0)
    } else {
        None
    }
}

/// Put `x` into `drawn`, as [`insert_in_order`] says.
fn insert_placed(drawn: &mut Vec<Placed>, x: Placed)
    ensures
        final(drawn)@.map_values(|p: Placed| p@) == insert_in_order(old(drawn)@.map_values(|p: Placed| p@), x@),
{
    let ghost s = drawn@.map_values(|p: Placed| p@);
    let ghost xv = x@;
    let mut j: usize = drawn.len();
    proof {
        assert(s.take(j as int) =~= s);
    }
    while j > 0 && !(drawn[j - 1].file.0 < x.file.0 || (drawn[j - 1].file.0 == x.file.0 && drawn[j - 1].start
        <= x.start))
        invariant
            s == drawn@.map_values(|p: Placed| p@),
            xv == x@,
            j <= drawn@.len(),
            insertion_point(s, xv) == insertion_point(s.take(j as int), xv),
        decreases j,
    {
        proof {
            assert(s.take(j as int).drop_last() =~= s.take(j - 1));
            assert(s.take(j as int).last() == s[j - 1]);
        }
        j = j - 1;
    }
    proof {
        if j > 0 {
            assert(s.take(j as int).last() == s[j - 1]);
        }
        lemma_insert_at_point(s, xv);
    }
    drawn.insert(j, x);
    proof {
        assert(drawn@.map_values(|p: Placed| p@) =~= s.insert(j as int, xv));
    }
}


// ---------------------------------------------------------------------------
// Everything the drawer is handed.
// ---------------------------------------------------------------------------

/// Everything a report drawer is handed for one diagnostic.
#[derive(Clone, Debug)]
pub struct Rendering {
    /// The header: severity, and code where there is one.
    pub header: String,
    /// The severity, which decides the colour of the header and of the
    /// primary labels.
    pub severity: Severity,
    /// The message, made safe to print.
    pub message: String,
    /// The labels whose file is known, placed, in drawing order.
    pub labels: Vec<Placed>,
    /// Which of them the report is anchored on; none where there is none to
    /// anchor on, and the header is written on its own.
    pub anchor: Option<usize>,
    /// The notes, in order, as they were written.
    pub notes: Vec<String>,
}

/// A [`Rendering`] as values.
pub ghost struct RenderingModel {
    pub header: Seq<char>,
    pub severity: Severity,
    pub message: Seq<char>,
    pub labels: Seq<PlacedModel>,
    pub anchor: Option<int>,
    pub notes: Seq<Seq<char>>,
}

impl View for Rendering {
    type V = RenderingModel;

    open spec fn view(&self) -> RenderingModel {
        RenderingModel {
            header: self.header@,
            severity: self.severity,
            message: self.message@,
            labels: self.labels@.map_values(|p: Placed| p@),
            anchor: match self.anchor {
                Some(i) => Some(i as int),
                None => None,
            },
            notes: self.notes@.map_values(|n: String| n@),
        }
    }
}

/// What a report of `d` against `sources` is drawn from: the header, the
/// message, the placed labels in drawing order and the one anchored on, and
/// the notes: the diagnostic's own, then the safety level it came from, then
/// what could not be proven, then what each label needed said about it.
pub open spec fn rendering_of(sources: SourceMap, d: DiagnosticModel) -> RenderingModel {
    let drawn = in_drawing_order(placements(sources, d.labels));
    RenderingModel {
        header: header_text(d),
        severity: d.severity,
        message: shown_text(d.message),
        labels: drawn,
        anchor: anchor_of(drawn, caret_index(d.labels)),
        notes: d.notes + level_note(d) + certainty_note(d) + label_notes(sources, d.labels),
    }
}

/// A diagnostic that came from a safety level always names it, whatever its
/// certainty and severity: right after the diagnostic's own notes comes
/// "this check belongs to safety level " and the level's number.
pub proof fn law_level_is_always_noted(sources: SourceMap, d: DiagnosticModel, l: SafetyLevel)
    requires
        d.level == Some(l),
    ensures
        rendering_of(sources, d).notes.len() > d.notes.len(),
        rendering_of(sources, d).notes.subrange(0, d.notes.len() as int) == d.notes,
        rendering_of(sources, d).notes[d.notes.len() as int] == "this check belongs to safety level "@
            + decimal(level_rank(l)),
        rendering_of(sources, d).notes.contains(
            "this check belongs to safety level "@ + decimal(level_rank(l)),
        ),
{
    let notes = rendering_of(sources, d).notes;
    let rest = certainty_note(d) + label_notes(sources, d.labels);
    let said = "this check belongs to safety level "@ + decimal(level_rank(l));
    assert(level_note(d) =~= seq![said]);
    assert(notes =~= d.notes + seq![said] + rest);
    assert(notes.subrange(0, d.notes.len() as int) =~= d.notes);
    assert(notes[d.notes.len() as int] == said);
}

/// An unproven result always says so, after the safety level's note where
/// there is one: as an error where unproven results fail the build, and
/// otherwise naming the flag that would make it one. A proven one says
/// nothing of the kind: after the diagnostic's own notes and the level's
/// come the notes of its labels.
pub proof fn law_unproven_is_always_noted(sources: SourceMap, d: DiagnosticModel)
    ensures
        ({
            let notes = rendering_of(sources, d).notes;
            let at = d.notes.len() + if d.level is Some { 1int } else { 0int };
            &&& d.certainty == Certainty::Unproven ==> notes.len() > at && notes[at] == if fails_the_build(
                d.severity,
            ) {
                "this could not be proven, and unproven results are errors in this compilation"@
            } else {
                "this could not be proven; `--deny-unknown` makes it an error"@
            }
            &&& d.certainty != Certainty::Unproven ==> notes.len() >= at && notes.subrange(at, notes.len() as int)
                == label_notes(sources, d.labels)
        }),
{
    let notes = rendering_of(sources, d).notes;
    let at = d.notes.len() + if d.level is Some { 1int } else { 0int };
    let head = d.notes + level_note(d);
    assert(head.len() == at);
    assert(notes =~= head + certainty_note(d) + label_notes(sources, d.labels));
    if d.certainty != Certainty::Unproven {
        assert(notes.subrange(at, notes.len() as int) =~= label_notes(sources, d.labels));
    }
}

fn caret_of(labels: &[Label]) -> (r: Option<usize>)
    ensures
        match r {
            Some(i) => caret_index(labels@.map_values(|l: Label| l@)) == Some(i as int),
            None => caret_index(labels@.map_values(|l: Label| l@)) is None,
        },
{
    let ghost model = labels@.map_values(|l: Label| l@);
    let mut i: usize = 0;
    while i < labels.len()
        invariant
            model == labels@.map_values(|l: Label| l@),
            i <= labels@.len(),
            forall|j: int| 0 <= j < i ==> !model[j].primary,
        decreases labels@.len() - i,
    {
        if labels[i].is_primary() {
            proof {
                let k = i as int;
                assert(0 <= k < model.len() && model[k].primary);
                let c = caret_index(model)->0;
                if c < k {
                    assert(!model[c].primary);
                } else if c > k {
                }
            }
            return Some(i);
        }
        i = i + 1;
    }
    if labels.len() > 0 {
        Some(0)
    } else {
        None
    }
}

fn anchor_in(drawn: &Vec<Placed>, caret: Option<usize>) -> (r: Option<usize>)
    ensures
        match r {
            Some(i) => anchor_of(drawn@.map_values(|p: Placed| p@), match caret {
                Some(c) => Some(c as int),
                None => None,
            }) == Some(i as int),
            None => anchor_of(drawn@.map_values(|p: Placed| p@), match caret {
                Some(c) => Some(c as int),
                None => None,
            }) is None,
        },
{
    let ghost model = drawn@.map_values(|p: Placed| p@);
    if let Some(c) = caret {
        let mut i: usize = 0;
        while i < drawn.len()
            invariant
                model == drawn@.map_values(|p: Placed| p@),
                caret == Some(c),
                i <= drawn@.len(),
                forall|j: int| 0 <= j < i ==> model[j].label != c,
            decreases drawn@.len() - i,
        {
            if drawn[i].label == c {
                proof {
                    let k = i as int;
                    assert(0 <= k < model.len() && model[k].label == c);
                    let a = choose|a: int|
                        0 <= a < model.len() && model[a].label == c && forall|j: int|
                            0 <= j < a ==> model[j].label != c;
                    assert(0 <= k < model.len() && model[k].label == c && forall|j: int|
                        0 <= j < k ==> model[j].label != c);
                    if a < k {
                        assert(model[a].label != c);
                    } else if a > k {
                        assert(model[k].label != c);
                    }
                }
                return Some(i);
            }
            i = i + 1;
        }
    }
    if drawn.len() > 0 {
        Some(0)
    } else {
        None
    }
}

/// Decide everything a report of `diagnostic` is drawn from, as
/// [`rendering_of`] says.
#[verifier::spinoff_prover]
#[verifier::rlimit(40)]
pub fn plan(sources: &SourceMap, diagnostic: &Diagnostic) -> (r: Rendering)
    requires
        addressable(*sources),
    ensures
        r@ == rendering_of(*sources, diagnostic@),
{
    let ghost d = diagnostic@;
    let own = diagnostic.notes();
    let mut notes: Vec<String> = Vec::new();
    let mut i: usize = 0;
    while i < own.len()
        invariant
            own@.map_values(|x: String| x@) == d.notes,
            i <= own@.len(),
            notes@.map_values(|n: String| n@) == d.notes.take(i as int),
        decreases own@.len() - i,
    {
        let ghost before = notes@;
        let note = own[i].clone();
        proof {
            assert(note@ == own@[i as int]@);
            assert(d.notes[i as int] == own@[i as int]@);
        }
        notes.push(note);
        proof {
            assert(notes@ == before.push(note));
            assert(notes@.map_values(|n: String| n@) =~= before.map_values(|n: String| n@).push(note@));
            assert(d.notes.take(i + 1) =~= d.notes.take(i as int).push(d.notes[i as int]));
        }
        i = i + 1;
    }
    assert(d.notes.take(d.notes.len() as int) =~= d.notes);
    if let Some(level) = diagnostic.safety_level() {
        let mut n = "this check belongs to safety level ".to_owned();
        append_decimal(&mut n, level.rank() as u64);
        notes.push(n);
    }
    if diagnostic.certainty() == Certainty::Unproven {
        if diagnostic.severity().is_error() {
            notes.push(
                "this could not be proven, and unproven results are errors in this compilation".to_owned(),
            );
        } else {
            notes.push("this could not be proven; `--deny-unknown` makes it an error".to_owned());
        }
    }
    let ghost before_labels = notes@.map_values(|n: String| n@);
    proof {
        assert(before_labels =~= d.notes + level_note(d) + certainty_note(d));
    }

    let labels = diagnostic.labels();
    let mut drawn: Vec<Placed> = Vec::new();
    let mut k: usize = 0;
    proof {
        assert(d.labels.take(0) =~= Seq::<LabelModel>::empty());
        assert(before_labels + Seq::<Seq<char>>::empty() =~= before_labels);
    }
    while k < labels.len()
        invariant
            addressable(*sources),
            labels@.map_values(|l: Label| l@) == d.labels,
            k <= labels@.len(),
            drawn@.map_values(|p: Placed| p@) == in_drawing_order(placements(*sources, d.labels.take(k as int))),
            notes@.map_values(|n: String| n@) == before_labels + label_notes(*sources, d.labels.take(k as int)),
        decreases labels@.len() - k,
    {
        let label = &labels[k];
        let span = label.span();
        let ghost prefix = d.labels.take(k as int);
        let ghost next = d.labels.take(k + 1);
        proof {
            assert(next.drop_last() =~= prefix);
            assert(next.last() == label@);
        }
        if (span.file.0 as usize) < sources.len() {
            let file = sources.file(span.file);
            proof {
                assert(encode_utf8(sources.spec_files()[span.file.0 as int].text()).len() <= u32::MAX);
            }
            let (start, end, adjusted) = clamp(file, span);
            let ghost notes_before = notes@;
            proof {
                assert(*file == sources.spec_files()[span.file.0 as int]);
                assert(span == label@.span);
            }
            if adjusted.any() {
                let note = adjustment_text(label, file, adjusted);
                notes.push(note);
                proof {
                    assert(notes@ == notes_before.push(note));
                    assert(notes@.map_values(|n: String| n@) =~= notes_before.map_values(|n: String| n@).push(
                        note@,
                    ));
                }
            }
            proof {
                assert(notes@.map_values(|n: String| n@) =~= before_labels + label_notes(*sources, next));
            }
            let placed = Placed {
                label: k,
                file: span.file,
                start,
                end,
                message: shown(label.message()),
                primary: label.is_primary(),
            };
            let ghost pv = placed@;
            proof {
                assert(place(*sources, k as int, label@) == Some(pv));
                assert(placements(*sources, next) == placements(*sources, prefix).push(pv));
                assert(placements(*sources, next).drop_last() =~= placements(*sources, prefix));
            }
            insert_placed(&mut drawn, placed);
            proof {
                assert(in_drawing_order(placements(*sources, next)) == insert_in_order(
                    in_drawing_order(placements(*sources, prefix)),
                    pv,
                ));
            }
        } else {
            let ghost notes_before = notes@;
            let note = missing_file_text(label);
            notes.push(note);
            proof {
                assert(notes@ == notes_before.push(note));
                assert(notes@.map_values(|n: String| n@) =~= notes_before.map_values(|n: String| n@).push(
                    note@,
                ));
                assert(notes@.map_values(|n: String| n@) =~= before_labels + label_notes(*sources, next));
                assert(placements(*sources, next) == placements(*sources, prefix));
            }
        }
        k = k + 1;
    }
    proof {
        assert(d.labels.take(d.labels.len() as int) =~= d.labels);
    }
    let caret = caret_of(labels);
    let anchor = anchor_in(&drawn, caret);
    Rendering {
        header: header(diagnostic),
        severity: diagnostic.severity(),
        message: shown(diagnostic.message()),
        labels: drawn,
        anchor,
        notes,
    }
}


// ---------------------------------------------------------------------------
// The text around the drawing.
// ---------------------------------------------------------------------------

/// The lines the notes are written as, after the drawing: each one indented
/// under `= note:` and shown safely.
pub open spec fn notes_lines(notes: Seq<Seq<char>>) -> Seq<char>
    decreases notes.len(),
{
    if notes.len() == 0 {
        Seq::empty()
    } else {
        notes_lines(notes.drop_last()) + "  = note: "@ + shown_text(notes.last()) + seq!['\n']
    }
}

/// The notes of a rendering as the text that follows it, one line each, in
/// order.
pub fn notes_text(notes: &[String]) -> (s: String)
    ensures
        s@ == notes_lines(notes@.map_values(|n: String| n@)),
{
    let ghost all = notes@.map_values(|n: String| n@);
    let mut out = String::new();
    let mut i: usize = 0;
    proof {
        assert(all.take(0) =~= Seq::<Seq<char>>::empty());
    }
    while i < notes.len()
        invariant
            all == notes@.map_values(|n: String| n@),
            i <= notes@.len(),
            out@ == notes_lines(all.take(i as int)),
        decreases notes@.len() - i,
    {
        let shown_note = shown(notes[i].as_str());
        out.append("  = note: ");
        out.append(shown_note.as_str());
        push_char(&mut out, '\n');
        proof {
            let next = all.take(i + 1);
            assert(next.drop_last() =~= all.take(i as int));
            assert(next.last() == notes@[i as int]@);
            reveal_strlit("  = note: ");
            assert(out@ =~= notes_lines(next));
        }
        i = i + 1;
    }
    assert(all.take(notes@.len() as int) =~= all);
    out
}

/// The one line a diagnostic is written as when it has nothing to point at:
/// its header, a colon, and its message.
pub open spec fn header_line(r: RenderingModel) -> Seq<char> {
    r.header + ": "@ + r.message + seq!['\n']
}

/// The line written, uncoloured, for a rendering with no label to anchor a
/// drawing on.
pub fn header_only_text(rendering: &Rendering) -> (s: String)
    ensures
        s@ == header_line(rendering@),
{
    let mut out = rendering.header.clone();
    out.append(": ");
    out.append(rendering.message.as_str());
    push_char(&mut out, '\n');
    proof {
        reveal_strlit(": ");
        assert(out@ =~= header_line(rendering@));
    }
    out
}

/// The escape byte that starts a colour sequence.
pub const ESCAPE: u8 = 0x1b;

/// The bytes of a line outside any colour sequence: each sequence, from the
/// escape byte up to and including the `m` that ends it, is dropped.
pub open spec fn outside_escapes(s: Seq<u8>) -> Seq<u8>
    decreases s.len(),
{
    if s.len() == 0 {
        Seq::empty()
    } else if s[0] == ESCAPE {
        inside_escape(s.drop_first(), s)
    } else {
        seq![s[0]] + outside_escapes(s.drop_first())
    }
}

/// The rest of a line after an escape byte: whatever follows the `m` that
/// ends the sequence, without its escapes; or, where no `m` comes, the
/// sequence as it stood from its escape byte, `from`, on.
pub open spec fn inside_escape(s: Seq<u8>, from: Seq<u8>) -> Seq<u8>
    decreases s.len(),
{
    if s.len() == 0 {
        from
    } else if s[0] == 0x6d {
        outside_escapes(s.drop_first())
    } else {
        inside_escape(s.drop_first(), from)
    }
}

/// Where the first line of `s` ends: at its first `'\n'`, or at the end.
pub open spec fn first_line_end(s: Seq<u8>) -> int {
    if exists|i: int| 0 <= i < s.len() && s[i] == 0x0a {
        choose|i: int|
            0 <= i < s.len() && s[i] == 0x0a && forall|j: int| 0 <= j < i ==> s[j] != 0x0a
    } else {
        s.len() as int
    }
}

/// A rendering with the colour sequences taken out of its first line; the
/// rest of it is left as it was.
pub open spec fn stripped_header(s: Seq<u8>) -> Seq<u8> {
    let end = first_line_end(s);
    outside_escapes(s.take(end)) + s.skip(end)
}

proof fn lemma_first_line_end(s: Seq<u8>, end: int)
    requires
        0 <= end <= s.len(),
        end < s.len() ==> s[end] == 0x0a,
        forall|j: int| 0 <= j < end ==> s[j] != 0x0a,
    ensures
        first_line_end(s) == end,
{
    if exists|i: int| 0 <= i < s.len() && s[i] == 0x0a {
        assert(s[end] == 0x0a);
        let c = choose|i: int|
            0 <= i < s.len() && s[i] == 0x0a && forall|j: int| 0 <= j < i ==> s[j] != 0x0a;
        assert(0 <= c < s.len() && s[c] == 0x0a && forall|j: int| 0 <= j < c ==> s[j] != 0x0a);
        if c < end {
            assert(s[c] != 0x0a);
        }
        if end < c {
            assert(s[end] != 0x0a);
        }
    }
}

/// Takes out the colour sequences the report drawer puts on the first line
/// of a rendering, for output that was asked to have no colour. A sequence
/// runs from the escape byte to the first `m` after it; one that the line
/// ends before closing is left as it stands.
pub fn strip_header_escapes(rendered: &mut Vec<u8>)
    ensures
        final(rendered)@ == stripped_header(old(rendered)@),
{
    let ghost all = rendered@;
    let mut end: usize = 0;
    while end < rendered.len() && rendered[end] != 0x0a
        invariant
            all == rendered@,
            end <= rendered@.len(),
            forall|j: int| 0 <= j < end ==> all[j] != 0x0a,
        decreases rendered@.len() - end,
    {
        end = end + 1;
    }
    proof {
        lemma_first_line_end(all, end as int);
    }
    let ghost head = all.take(end as int);
    let mut out: Vec<u8> = Vec::new();
    let mut i: usize = 0;
    let mut inside = false;
    let mut from: usize = 0;
    proof {
        assert(head.skip(0) =~= head);
    }
    while i < end
        invariant
            all == rendered@,
            end <= rendered@.len(),
            head == all.take(end as int),
            i <= end,
            inside ==> from < i,
            outside_escapes(head) == out@ + (if inside {
                inside_escape(head.skip(i as int), head.skip(from as int))
            } else {
                outside_escapes(head.skip(i as int))
            }),
        decreases end - i,
    {
        let b = rendered[i];
        proof {
            assert(head.skip(i as int).drop_first() =~= head.skip(i + 1));
            assert(head.skip(i as int)[0] == b);
        }
        if inside {
            if b == 0x6d {
                inside = false;
            }
        } else if b == ESCAPE {
            inside = true;
            from = i;
        } else {
            let ghost before = out@;
            out.push(b);
            proof {
                assert(before + (seq![b] + outside_escapes(head.skip(i + 1))) =~= out@
                    + outside_escapes(head.skip(i + 1)));
            }
        }
        i = i + 1;
    }
    if inside {
        let mut k: usize = from;
        let ghost base = out@;
        proof {
            assert(head.skip(from as int).take(0) =~= Seq::<u8>::empty());
        }
        while k < end
            invariant
                all == rendered@,
                end <= rendered@.len(),
                head == all.take(end as int),
                from <= k <= end,
                out@ == base + head.skip(from as int).take(k - from),
            decreases end - k,
        {
            out.push(rendered[k]);
            proof {
                assert(head.skip(from as int).take(k + 1 - from) =~= head.skip(from as int).take(
                    k - from,
                ).push(all[k as int]));
            }
            k = k + 1;
        }
        proof {
            assert(head.skip(from as int).take(end - from) =~= head.skip(from as int));
            assert(head.skip(end as int) =~= Seq::<u8>::empty());
        }
    } else {
        proof {
            assert(head.skip(end as int) =~= Seq::<u8>::empty());
        }
    }
    let ghost stripped = out@;
    let mut k: usize = end;
    while k < rendered.len()
        invariant
            all == rendered@,
            end <= k <= rendered@.len(),
            out@ == stripped + all.subrange(end as int, k as int),
        decreases rendered@.len() - k,
    {
        out.push(rendered[k]);
        proof {
            assert(all.subrange(end as int, k + 1) =~= all.subrange(end as int, k as int).push(
                all[k as int],
            ));
        }
        k = k + 1;
    }
    proof {
        assert(all.subrange(end as int, all.len() as int) =~= all.skip(end as int));
    }
    *rendered = out;
}

/// What a source character is echoed as: one `'?'` for each of its bytes if
/// a terminal would act on it, other than `'\r'`, which the drawer breaks
/// lines on and never prints; itself otherwise.
pub open spec fn echoed_char(c: char) -> Seq<char> {
    if obeyed(c) && c != '\r' {
        Seq::new(char_width(c), |k: int| '?')
    } else {
        seq![c]
    }
}

/// A source text as it is echoed: each character as [`echoed_char`] echoes
/// it.
pub open spec fn echoed_text(s: Seq<char>) -> Seq<char>
    decreases s.len(),
{
    if s.len() == 0 {
        Seq::empty()
    } else {
        echoed_text(s.drop_last()) + echoed_char(s.last())
    }
}

proof fn lemma_question_marks(n: nat)
    ensures
        encode_utf8(Seq::new(n, |k: int| '?')).len() == n,
    decreases n,
{
    let q = Seq::new(n, |k: int| '?');
    if n > 0 {
        lemma_question_marks((n - 1) as nat);
        assert(q.drop_first() =~= Seq::new((n - 1) as nat, |k: int| '?'));
        assert(encode_utf8(q) =~= encode_scalar(q[0] as u32) + encode_utf8(q.drop_first()));
    } else {
        assert(q =~= Seq::<char>::empty());
    }
}

proof fn lemma_echoed_char_width(c: char)
    ensures
        encode_utf8(echoed_char(c)).len() == char_width(c),
{
    if obeyed(c) && c != '\r' {
        lemma_question_marks(char_width(c));
    } else {
        let one = seq![c];
        assert(one.drop_first() =~= Seq::<char>::empty());
        assert(encode_utf8(one) =~= encode_scalar(c as u32) + encode_utf8(Seq::<char>::empty()));
    }
}

proof fn lemma_echoed_concat(a: Seq<char>, b: Seq<char>)
    ensures
        echoed_text(a + b) == echoed_text(a) + echoed_text(b),
    decreases b.len(),
{
    if b.len() == 0 {
        assert(a + b =~= a);
        assert(echoed_text(a) + echoed_text(b) =~= echoed_text(a));
    } else {
        assert((a + b).drop_last() =~= a + b.drop_last());
        assert((a + b).last() == b.last());
        lemma_echoed_concat(a, b.drop_last());
        assert(echoed_text(a + b) =~= echoed_text(a) + echoed_text(b));
    }
}

/// Echoing a text keeps its length in bytes, and every prefix of it echoes
/// as a prefix of the echo: so the byte offset of every position is the same
/// in the echo as in the text, and no caret drawn at one moves.
pub proof fn law_echo_keeps_every_offset(s: Seq<char>, i: int)
    requires
        0 <= i <= s.len(),
    ensures
        echoed_text(s) == echoed_text(s.take(i)) + echoed_text(s.skip(i)),
        encode_utf8(echoed_text(s.take(i))).len() == byte_offset(s, i),
        encode_utf8(echoed_text(s)).len() == encode_utf8(s).len(),
{
    assert(s =~= s.take(i) + s.skip(i));
    lemma_echoed_concat(s.take(i), s.skip(i));
    lemma_echo_width(s.take(i));
    lemma_echo_width(s);
}

proof fn lemma_echo_width(s: Seq<char>)
    ensures
        encode_utf8(echoed_text(s)).len() == encode_utf8(s).len(),
    decreases s.len(),
{
    if s.len() > 0 {
        lemma_echo_width(s.drop_last());
        lemma_echoed_char_width(s.last());
        lemma_encode_concat(echoed_text(s.drop_last()), echoed_char(s.last()));
        let one = seq![s.last()];
        assert(s =~= s.drop_last() + one);
        lemma_encode_concat(s.drop_last(), one);
        assert(one.drop_first() =~= Seq::<char>::empty());
        assert(encode_utf8(one) =~= encode_scalar(s.last() as u32) + encode_utf8(
            Seq::<char>::empty(),
        ));
    } else {
        assert(echoed_text(s) =~= Seq::<char>::empty());
    }
}

/// A file's text made safe to echo under a drawing, at the same size in
/// bytes: each character a terminal would act on, other than `'\r'`,
/// becomes one `'?'` for each of its bytes.
pub fn echoed(text: &str) -> (r: String)
    ensures
        r@ == echoed_text(text@),
        encode_utf8(r@).len() == encode_utf8(text@).len(),
{
    let chars = chars_of(text);
    let mut out = String::new();
    let mut i: usize = 0;
    proof {
        assert(chars@.take(0) =~= Seq::<char>::empty());
    }
    while i < chars.len()
        invariant
            chars@ == text@,
            i <= chars@.len(),
            out@ == echoed_text(chars@.take(i as int)),
        decreases chars@.len() - i,
    {
        let c = chars[i];
        let ghost before = out@;
        if is_obeyed(c) && c != '\r' {
            let w = width_of(c);
            let mut n: usize = 0;
            while n < w
                invariant
                    n <= w,
                    w == char_width(c),
                    out@ == before + Seq::new(n as nat, |k: int| '?'),
                decreases w - n,
            {
                push_char(&mut out, '?');
                assert(out@ =~= before + Seq::new((n + 1) as nat, |k: int| '?'));
                n = n + 1;
            }
        } else {
            push_char(&mut out, c);
        }
        proof {
            let next = chars@.take(i + 1);
            assert(next.drop_last() =~= chars@.take(i as int));
            assert(next.last() == c);
            assert(out@ =~= echoed_text(next));
        }
        i = i + 1;
    }
    proof {
        assert(chars@.take(chars@.len() as int) =~= chars@);
        lemma_echo_width(text@);
    }
    out
}

// ---------------------------------------------------------------------------
// Colour.
// ---------------------------------------------------------------------------

/// A colour the drawing is done in.
#[derive(Clone, Copy, Debug, PartialEq, Eq, Structural)]
pub enum Hue {
    Red,
    Yellow,
    Cyan,
    Blue,
}

/// The colour of a severity: red for an error, yellow for a warning, cyan
/// for a note or a help.
pub open spec fn severity_hue(severity: Severity) -> Hue {
    match severity {
        Severity::Error => Hue::Red,
        Severity::Warning => Hue::Yellow,
        Severity::Note | Severity::Help => Hue::Cyan,
    }
}

/// The colour of a label: its diagnostic's for the primary one, blue for
/// the others.
pub open spec fn label_hue(primary: bool, severity: Severity) -> Hue {
    if primary {
        severity_hue(severity)
    } else {
        Hue::Blue
    }
}

/// The colour of `severity`, as [`severity_hue`] says.
pub fn hue_of(severity: Severity) -> (h: Hue)
    ensures
        h == severity_hue(severity),
{
    match severity {
        Severity::Error => Hue::Red,
        Severity::Warning => Hue::Yellow,
        Severity::Note | Severity::Help => Hue::Cyan,
    }
}

/// The colour of a label of a diagnostic at `severity`, as [`label_hue`]
/// says.
pub fn hue_of_label(primary: bool, severity: Severity) -> (h: Hue)
    ensures
        h == label_hue(primary, severity),
{
    if primary {
        hue_of(severity)
    } else {
        Hue::Blue
    }
}

} // verus!
