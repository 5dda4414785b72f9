//! Diagnostics: what the compiler reports, and how it is collected.
//!
//! A [`Diagnostic`] describes *what* is wrong. Nothing here decides how it
//! looks; rendering belongs to whoever writes to a terminal.
//!
//! A [`DiagnosticSink`] is where every pass reports, and the one place a
//! [`Policy`] decides what a result the analysis could not prove means for the
//! build.
use vstd::prelude::*;

use crate::safety::{level_rank, SafetyLevel};
use crate::source::Span;

verus! {

/// How serious a diagnostic is, from least to most.
#[derive(Clone, Copy, Debug, PartialEq, Eq, PartialOrd, Ord, Hash, Structural)]
pub enum Severity {
    /// A help diagnostic standing on its own. Nothing emits one.
    Help,
    /// Context the user asked for, or that a check offers.
    Note,
    /// Something is suspect, but compilation continues.
    Warning,
    /// The compilation cannot produce an artifact.
    Error,
}

/// Where a severity stands, least serious first.
pub open spec fn severity_rank(s: Severity) -> nat {
    match s {
        Severity::Help => 0,
        Severity::Note => 1,
        Severity::Warning => 2,
        Severity::Error => 3,
    }
}

/// Whether a diagnostic at this severity fails the compilation: it does at
/// `Error` and above.
pub open spec fn fails_the_build(s: Severity) -> bool {
    severity_rank(s) >= severity_rank(Severity::Error)
}

/// The word a severity is spelled with in a header.
pub open spec fn severity_spelling(s: Severity) -> Seq<char> {
    match s {
        Severity::Error => seq!['e', 'r', 'r', 'o', 'r'],
        Severity::Warning => seq!['w', 'a', 'r', 'n', 'i', 'n', 'g'],
        Severity::Note => seq!['n', 'o', 't', 'e'],
        Severity::Help => seq!['h', 'e', 'l', 'p'],
    }
}

impl Severity {
    /// The word this severity is spelled with in a diagnostic header.
    pub fn as_str(self) -> (s: &'static str)
        ensures
            s@ == severity_spelling(self),
    {
        match self {
            Severity::Error => {
                proof {
                    reveal_strlit("error");
                }
                "error"
            },
            Severity::Warning => {
                proof {
                    reveal_strlit("warning");
                }
                "warning"
            },
            Severity::Note => {
                proof {
                    reveal_strlit("note");
                }
                "note"
            },
            Severity::Help => {
                proof {
                    reveal_strlit("help");
                }
                "help"
            },
        }
    }

    /// Where this severity stands, least serious first.
    pub fn rank(self) -> (r: u8)
        ensures
            r == severity_rank(self),
    {
        match self {
            Severity::Help => 0,
            Severity::Note => 1,
            Severity::Warning => 2,
            Severity::Error => 3,
        }
    }

    /// Whether a diagnostic at this severity means compilation has failed.
    ///
    /// Answered by the order the severities are declared in, so a more serious
    /// severity added above `Error` fails the build without anybody having to
    /// remember to say so.
    pub fn is_error(self) -> (r: bool)
        ensures
            r == fails_the_build(self),
    {
        self.rank() >= Severity::Error.rank()
    }
}

/// What an analysis concluded about a program.
#[derive(Clone, Copy, Debug, PartialEq, Eq, Hash, Structural)]
pub enum Conclusion {
    /// The program is safe, and nothing is reported.
    Safe,
    /// The program is unsafe, and that is proven.
    Unsafe,
    /// Neither could be proven.
    Unknown,
}

/// Whether an analysis could prove what a diagnostic reports.
#[derive(Clone, Copy, Debug, PartialEq, Eq, Hash, Structural)]
pub enum Certainty {
    /// The problem is real.
    Proven,
    /// The analysis could not prove the code safe, nor prove it wrong.
    Unproven,
}

/// Whether `s` is `SC` and four digits, the shape of a diagnostic code.
pub open spec fn is_code_spelling(s: Seq<char>) -> bool {
    &&& s.len() == 6
    &&& s[0] == 'S'
    &&& s[1] == 'C'
    &&& forall|i: int| 2 <= i < 6 ==> '0' <= #[trigger] s[i] <= '9'
}

/// A stable identifier for a class of diagnostic, such as `SC0601`.
#[derive(Clone, Copy, Debug)]
pub struct Code(&'static str);

impl View for Code {
    type V = Seq<char>;

    closed spec fn view(&self) -> Seq<char> {
        self.0@
    }
}

impl Code {
    /// A diagnostic code. Its spelling must be `SC` and four digits.
    pub fn new(code: &'static str) -> (c: Code)
        requires
            is_code_spelling(code@),
        ensures
            c@ == code@,
            is_code_spelling(c@),
    {
        Code(code)
    }

    /// The code as it is spelled in a diagnostic header.
    pub fn as_str(self) -> (s: &'static str)
        ensures
            s@ == self@,
    {
        self.0
    }
}

/// A span with something to say about it.
#[derive(Clone, Debug)]
pub struct Label {
    span: Span,
    message: String,
    primary: bool,
}

/// What a label is: where, what it says, and whether it is the one the
/// diagnostic is really about.
pub ghost struct LabelModel {
    pub span: Span,
    pub message: Seq<char>,
    pub primary: bool,
}

impl View for Label {
    type V = LabelModel;

    closed spec fn view(&self) -> LabelModel {
        LabelModel { span: self.span, message: self.message@, primary: self.primary }
    }
}

impl Label {
    /// The label for the place a diagnostic is really about.
    pub fn primary(span: Span, message: String) -> (l: Label)
        ensures
            l@ == (LabelModel { span, message: message@, primary: true }),
    {
        Label { span, message, primary: true }
    }

    /// A label for a place that explains the primary one.
    pub fn secondary(span: Span, message: String) -> (l: Label)
        ensures
            l@ == (LabelModel { span, message: message@, primary: false }),
    {
        Label { span, message, primary: false }
    }

    /// Where this label points.
    pub fn span(&self) -> (s: Span)
        ensures
            s == self@.span,
    {
        self.span
    }

    /// What this label says.
    pub fn message(&self) -> (m: &str)
        ensures
            m@ == self@.message,
    {
        self.message.as_str()
    }

    /// Whether this is the place the diagnostic is really about.
    pub fn is_primary(&self) -> (r: bool)
        ensures
            r == self@.primary,
    {
        self.primary
    }
}

/// A change that would make the program compile, or what a check would need
/// in order to conclude.
#[derive(Clone, Debug)]
pub struct Remedy {
    message: String,
}

impl View for Remedy {
    type V = Seq<char>;

    closed spec fn view(&self) -> Seq<char> {
        self.message@
    }
}

impl Remedy {
    /// What the reader should do next.
    pub fn new(message: String) -> (r: Remedy)
        ensures
            r@ == message@,
    {
        Remedy { message }
    }

    /// What this remedy asks for.
    pub fn message(&self) -> (m: &str)
        ensures
            m@ == self@,
    {
        self.message.as_str()
    }
}

/// Something the compiler has to say about the program.
#[derive(Clone, Debug)]
pub struct Diagnostic {
    severity: Severity,
    certainty: Certainty,
    level: Option<SafetyLevel>,
    code: Option<Code>,
    message: String,
    labels: Vec<Label>,
    notes: Vec<String>,
    remedies: Vec<Remedy>,
}

/// What a diagnostic says, as values.
#[verifier::ext_equal]
pub ghost struct DiagnosticModel {
    pub severity: Severity,
    pub certainty: Certainty,
    pub level: Option<SafetyLevel>,
    pub code: Option<Seq<char>>,
    pub message: Seq<char>,
    pub labels: Seq<LabelModel>,
    pub notes: Seq<Seq<char>>,
    pub remedies: Seq<Seq<char>>,
}

/// The view of an optional code.
pub open spec fn code_view(code: Option<Code>) -> Option<Seq<char>> {
    match code {
        Some(c) => Some(c@),
        None => None,
    }
}

impl View for Diagnostic {
    type V = DiagnosticModel;

    closed spec fn view(&self) -> DiagnosticModel {
        DiagnosticModel {
            severity: self.severity,
            certainty: self.certainty,
            level: self.level,
            code: code_view(self.code),
            message: self.message@,
            labels: self.labels@.map_values(|l: Label| l@),
            notes: self.notes@.map_values(|n: String| n@),
            remedies: self.remedies@.map_values(|r: Remedy| r@),
        }
    }
}

/// A fresh diagnostic at `severity`, proven, with nothing attached.
pub open spec fn fresh(severity: Severity, message: Seq<char>) -> DiagnosticModel {
    DiagnosticModel {
        severity,
        certainty: Certainty::Proven,
        level: None,
        code: None,
        message,
        labels: Seq::empty(),
        notes: Seq::empty(),
        remedies: Seq::empty(),
    }
}

/// What a check's conclusion is reported as: nothing for a safe result, a
/// proven error for an unsafe one, and an unproven warning for an unknown one,
/// each carrying its remedy.
pub open spec fn concluded_as(what: Conclusion, message: Seq<char>, remedy: Seq<char>) -> Option<
    DiagnosticModel,
> {
    match what {
        Conclusion::Safe => None,
        Conclusion::Unsafe => Some(
            DiagnosticModel {
                remedies: seq![remedy],
                ..fresh(Severity::Error, message)
            },
        ),
        Conclusion::Unknown => Some(
            DiagnosticModel {
                certainty: Certainty::Unproven,
                remedies: seq![remedy],
                ..fresh(Severity::Warning, message)
            },
        ),
    }
}

/// The index of the label the caret belongs on: the first primary one, or
/// the first of any kind.
pub open spec fn caret_index(labels: Seq<LabelModel>) -> Option<int> {
    if exists|i: int| 0 <= i < labels.len() && labels[i].primary {
        Some(
            choose|i: int|
                0 <= i < labels.len() && labels[i].primary && forall|j: int|
                    0 <= j < i ==> !labels[j].primary,
        )
    } else if labels.len() > 0 {
        Some(0)
    } else {
        None
    }
}

impl Diagnostic {
    /// A diagnostic at the given severity.
    pub fn new(severity: Severity, message: String) -> (d: Diagnostic)
        ensures
            d@ == fresh(severity, message@),
    {
        let d = Diagnostic {
            severity,
            certainty: Certainty::Proven,
            level: None,
            code: None,
            message,
            labels: Vec::new(),
            notes: Vec::new(),
            remedies: Vec::new(),
        };
        assert(d@.labels =~= Seq::<LabelModel>::empty());
        assert(d@.notes =~= Seq::<Seq<char>>::empty());
        assert(d@.remedies =~= Seq::<Seq<char>>::empty());
        d
    }

    /// A diagnostic that means compilation has failed.
    pub fn error(message: String) -> (d: Diagnostic)
        ensures
            d@ == fresh(Severity::Error, message@),
    {
        Self::new(Severity::Error, message)
    }

    /// A diagnostic that reports something suspect without failing.
    pub fn warning(message: String) -> (d: Diagnostic)
        ensures
            d@ == fresh(Severity::Warning, message@),
    {
        Self::new(Severity::Warning, message)
    }

    /// What a check concluded, as what is reported about it.
    ///
    /// The only way to build an unproven diagnostic, and it starts as a
    /// warning: whether it fails the build is the sink's to decide.
    pub fn concluded(what: Conclusion, message: String, remedy: Remedy) -> (d: Option<Diagnostic>)
        ensures
            d is Some <==> concluded_as(what, message@, remedy@) is Some,
            d is Some ==> d->0@ == concluded_as(what, message@, remedy@)->0,
    {
        match what {
            Conclusion::Safe => None,
            Conclusion::Unsafe => Some(Self::error(message).with_remedy(remedy)),
            Conclusion::Unknown => {
                let mut d = Self::new(Severity::Warning, message);
                d.certainty = Certainty::Unproven;
                Some(d.with_remedy(remedy))
            },
        }
    }

    /// Attach a stable code, such as `SC0601`.
    pub fn with_code(self, code: Code) -> (d: Diagnostic)
        ensures
            d@ == (DiagnosticModel { code: Some(code@), ..self@ }),
    {
        let mut d = self;
        d.code = Some(code);
        d
    }

    /// Point at a place in the source.
    pub fn with_label(self, label: Label) -> (d: Diagnostic)
        ensures
            d@ == (DiagnosticModel { labels: self@.labels.push(label@), ..self@ }),
    {
        let mut d = self;
        let ghost before = d.labels@;
        d.labels.push(label);
        proof {
            assert(d.labels@ == before.push(label));
            assert(d.labels@.map_values(|l: Label| l@) =~= before.map_values(|l: Label| l@).push(
                label@,
            ));
        }
        d
    }

    /// Add a remark that stands on its own, with no span to point at.
    pub fn with_note(self, note: String) -> (d: Diagnostic)
        ensures
            d@ == (DiagnosticModel { notes: self@.notes.push(note@), ..self@ }),
    {
        let mut d = self;
        let ghost before = d.notes@;
        d.notes.push(note);
        proof {
            assert(d.notes@.map_values(|n: String| n@) =~= before.map_values(|n: String| n@).push(
                note@,
            ));
        }
        d
    }

    /// Ask for a change that would make the program compile.
    fn with_remedy(self, remedy: Remedy) -> (d: Diagnostic)
        ensures
            d@ == (DiagnosticModel { remedies: self@.remedies.push(remedy@), ..self@ }),
    {
        let mut d = self;
        let ghost before = d.remedies@;
        d.remedies.push(remedy);
        proof {
            assert(d.remedies@.map_values(|r: Remedy| r@) =~= before.map_values(|r: Remedy| r@).push(
                remedy@,
            ));
        }
        d
    }

    /// Record which safety check this came from. It does not affect the
    /// severity.
    pub fn with_safety_level(self, level: SafetyLevel) -> (d: Diagnostic)
        ensures
            d@ == (DiagnosticModel { level: Some(level), ..self@ }),
    {
        let mut d = self;
        d.level = Some(level);
        d
    }

    /// How serious this diagnostic is.
    pub fn severity(&self) -> (s: Severity)
        ensures
            s == self@.severity,
    {
        self.severity
    }

    /// The code, if this diagnostic has one.
    pub fn code(&self) -> (c: Option<Code>)
        ensures
            code_view(c) == self@.code,
    {
        self.code
    }

    /// The headline message.
    pub fn message(&self) -> (m: &str)
        ensures
            m@ == self@.message,
    {
        self.message.as_str()
    }

    /// Every label, in the order they were attached.
    pub fn labels(&self) -> (l: &[Label])
        ensures
            l@.map_values(|x: Label| x@) == self@.labels,
    {
        self.labels.as_slice()
    }

    /// Every note, in the order they were attached.
    pub fn notes(&self) -> (n: &[String])
        ensures
            n@.map_values(|x: String| x@) == self@.notes,
    {
        self.notes.as_slice()
    }

    /// Every remedy, in the order they were attached.
    pub fn remedies(&self) -> (r: &[Remedy])
        ensures
            r@.map_values(|x: Remedy| x@) == self@.remedies,
    {
        self.remedies.as_slice()
    }

    /// Whether the analysis could prove what this reports.
    pub fn certainty(&self) -> (c: Certainty)
        ensures
            c == self@.certainty,
    {
        self.certainty
    }

    /// Which safety check this came from, if it came from one.
    pub fn safety_level(&self) -> (l: Option<SafetyLevel>)
        ensures
            l == self@.level,
    {
        self.level
    }

    /// Raise an unproven warning to an error.
    fn promote_to_error(&mut self)
        ensures
            final(self)@ == (DiagnosticModel { severity: Severity::Error, ..old(self)@ }),
    {
        self.severity = Severity::Error;
    }

    /// The label the caret belongs on: the first primary label, or the first
    /// label of any kind when there is none.
    pub fn primary_label(&self) -> (l: Option<&Label>)
        ensures
            caret_index(self@.labels) is None <==> l is None,
            l is Some ==> l->0@ == self@.labels[caret_index(self@.labels)->0],
    {
        let ghost model = self@.labels;
        let mut i: usize = 0;
        while i < self.labels.len()
            invariant
                model == self@.labels,
                model.len() == self.labels@.len(),
                i <= self.labels.len(),
                forall|j: int| 0 <= j < i ==> !model[j].primary,
            decreases self.labels.len() - i,
        {
            assert(model[i as int] == self.labels@[i as int]@);
            if self.labels[i].is_primary() {
                proof {
                    let k = i as int;
                    assert(0 <= k < model.len() && model[k].primary);
                    let c = caret_index(model)->0;
                    if c < k {
                        assert(!model[c].primary);
                    } else if c > k {
                    }
                }
                return Some(&self.labels[i]);
            }
            i = i + 1;
        }
        if self.labels.len() > 0 {
            assert(model[0] == self.labels@[0]@);
            Some(&self.labels[0])
        } else {
            None
        }
    }
}

/// What a sink does with a result the analysis could not prove.
#[derive(Clone, Copy, Debug, PartialEq, Eq, Structural)]
pub struct Policy {
    deny_unknown: bool,
}

/// The policy a run at `safety` is entitled to, having asked or not asked to
/// be left its unproven conclusions: level 0 runs no check and has nothing to
/// promote, the strictest level leaves nothing unknown whatever was asked, and
/// every level between denies unless the run asked otherwise.
pub open spec fn denies_unknown(safety: SafetyLevel, allow_unknown: bool) -> bool {
    level_rank(safety) > level_rank(SafetyLevel::Off) && (!allow_unknown || level_rank(safety)
        >= level_rank(SafetyLevel::Strict))
}

impl View for Policy {
    type V = bool;

    closed spec fn view(&self) -> bool {
        self.deny_unknown
    }
}

impl Policy {
    /// The policy a run at `safety`, having asked or not to `allow_unknown`,
    /// is entitled to.
    pub fn new(safety: SafetyLevel, allow_unknown: bool) -> (p: Policy)
        ensures
            p@ == denies_unknown(safety, allow_unknown),
    {
        Policy {
            deny_unknown: safety.rank() > SafetyLevel::Off.rank() && (!allow_unknown
                || safety.at_least(SafetyLevel::Strict)),
        }
    }

    /// The policy of a sink that names no safety level: unproven results stay
    /// warnings.
    pub fn lenient() -> (p: Policy)
        ensures
            !p@,
    {
        Policy { deny_unknown: false }
    }

    /// Whether an unproven result is an error rather than a warning.
    pub fn deny_unknown(self) -> (r: bool)
        ensures
            r == self@,
    {
        self.deny_unknown
    }
}

/// What a diagnostic becomes once a sink applies `deny_unknown` to it.
pub open spec fn as_reported(deny_unknown: bool, d: DiagnosticModel) -> DiagnosticModel {
    if deny_unknown && d.certainty == Certainty::Unproven {
        DiagnosticModel { severity: Severity::Error, ..d }
    } else {
        d
    }
}

/// How many of `ds` fail the build.
pub open spec fn count_errors(ds: Seq<DiagnosticModel>) -> nat
    decreases ds.len(),
{
    if ds.len() == 0 {
        0
    } else {
        count_errors(ds.drop_last()) + if fails_the_build(ds.last().severity) {
            1nat
        } else {
            0nat
        }
    }
}

/// Appending one diagnostic adds one to the count exactly when it fails the
/// build.
pub proof fn lemma_count_errors_push(ds: Seq<DiagnosticModel>, d: DiagnosticModel)
    ensures
        count_errors(ds.push(d)) == count_errors(ds) + if fails_the_build(d.severity) {
            1nat
        } else {
            0nat
        },
{
    assert(ds.push(d).drop_last() =~= ds);
}

/// There are never more errors than diagnostics.
pub proof fn lemma_count_errors_bound(ds: Seq<DiagnosticModel>)
    ensures
        count_errors(ds) <= ds.len(),
    decreases ds.len(),
{
    if ds.len() > 0 {
        lemma_count_errors_bound(ds.drop_last());
    }
}

/// Where diagnostics are collected, and where policy is applied to them.
#[derive(Debug)]
pub struct DiagnosticSink {
    diagnostics: Vec<Diagnostic>,
    policy: Policy,
}

impl DiagnosticSink {
    /// Everything reported so far, in order, as values.
    pub closed spec fn reported(self) -> Seq<DiagnosticModel> {
        self.diagnostics@.map_values(|d: Diagnostic| d@)
    }

    /// Whether this sink turns unproven results into errors.
    pub closed spec fn denies(self) -> bool {
        self.policy@
    }

    /// An empty sink that reports an unprovable result as a warning.
    pub fn new() -> (s: DiagnosticSink)
        ensures
            s.reported() == Seq::<DiagnosticModel>::empty(),
            !s.denies(),
    {
        let s = DiagnosticSink { diagnostics: Vec::new(), policy: Policy::lenient() };
        assert(s.reported() =~= Seq::<DiagnosticModel>::empty());
        s
    }

    /// An empty sink that applies `policy` to everything reported into it.
    pub fn with_policy(policy: Policy) -> (s: DiagnosticSink)
        ensures
            s.reported() == Seq::<DiagnosticModel>::empty(),
            s.denies() == policy@,
    {
        let s = DiagnosticSink { diagnostics: Vec::new(), policy };
        assert(s.reported() =~= Seq::<DiagnosticModel>::empty());
        s
    }

    /// What this sink does with a result the analysis could not prove.
    pub fn policy(&self) -> (p: Policy)
        ensures
            p@ == self.denies(),
    {
        self.policy
    }

    /// Record a diagnostic, raising an unproven one to an error where the
    /// policy denies unknown results.
    pub fn report(&mut self, diagnostic: Diagnostic)
        ensures
            final(self).reported() == old(self).reported().push(
                as_reported(old(self).denies(), diagnostic@),
            ),
            final(self).denies() == old(self).denies(),
    {
        let mut diagnostic = diagnostic;
        if self.policy.deny_unknown() && diagnostic.certainty() == Certainty::Unproven {
            diagnostic.promote_to_error();
        }
        let ghost before = self.diagnostics@;
        self.diagnostics.push(diagnostic);
        proof {
            assert(self.diagnostics@.map_values(|d: Diagnostic| d@) =~= before.map_values(
                |d: Diagnostic| d@,
            ).push(diagnostic@));
        }
    }

    /// Everything reported so far, in the order it was reported.
    pub fn diagnostics(&self) -> (r: &[Diagnostic])
        ensures
            r@.map_values(|d: Diagnostic| d@) == self.reported(),
    {
        self.diagnostics.as_slice()
    }

    /// The number of diagnostics that mean compilation has failed.
    pub fn error_count(&self) -> (n: usize)
        ensures
            n == count_errors(self.reported()),
    {
        let ghost all = self.reported();
        let mut n: usize = 0;
        let mut i: usize = 0;
        while i < self.diagnostics.len()
            invariant
                all == self.reported(),
                all.len() == self.diagnostics@.len(),
                i <= self.diagnostics.len(),
                n == count_errors(all.take(i as int)),
                n <= i,
            decreases self.diagnostics.len() - i,
        {
            proof {
                assert(all.take(i + 1) =~= all.take(i as int).push(all[i as int]));
                lemma_count_errors_push(all.take(i as int), all[i as int]);
                assert(all[i as int] == self.diagnostics@[i as int]@);
            }
            if self.diagnostics[i].severity().is_error() {
                n = n + 1;
            }
            i = i + 1;
        }
        assert(all.take(i as int) =~= all);
        n
    }

    /// Whether compilation has failed.
    pub fn has_errors(&self) -> (r: bool)
        ensures
            r == (count_errors(self.reported()) > 0),
    {
        self.error_count() > 0
    }

    /// Whether nothing has been reported.
    pub fn is_empty(&self) -> (r: bool)
        ensures
            r == (self.reported().len() == 0),
    {
        self.diagnostics.len() == 0
    }

    /// The number of diagnostics reported, at any severity.
    pub fn len(&self) -> (n: usize)
        ensures
            n == self.reported().len(),
    {
        self.diagnostics.len()
    }
}

/// The count a sink answers is the number of reported diagnostics that fail
/// the build, under either policy, because the promotion happens before the
/// diagnostic is kept: reporting adds one to `error_count` exactly when what
/// was kept is an error.
pub proof fn law_report_counts_what_it_kept(
    before: Seq<DiagnosticModel>,
    deny_unknown: bool,
    d: DiagnosticModel,
)
    ensures
        count_errors(before.push(as_reported(deny_unknown, d))) == count_errors(before) + if fails_the_build(
            as_reported(deny_unknown, d).severity,
        ) {
            1nat
        } else {
            0nat
        },
{
    lemma_count_errors_push(before, as_reported(deny_unknown, d));
}

/// A sink that denies unknown raises exactly the unproven diagnostics to
/// errors: a proven warning stays a warning, and nothing but the severity
/// changes.
pub proof fn law_promotion_touches_only_unproven(deny_unknown: bool, d: DiagnosticModel)
    ensures
        d.certainty == Certainty::Proven ==> as_reported(deny_unknown, d) == d,
        !deny_unknown ==> as_reported(deny_unknown, d) == d,
        deny_unknown && d.certainty == Certainty::Unproven ==> as_reported(deny_unknown, d)
            == (DiagnosticModel { severity: Severity::Error, ..d }),
{
}

/// The strictest level denies unknown results whatever the run asked for, and
/// a level that runs no check denies nothing.
pub proof fn law_policy_at_the_ends(allow_unknown: bool)
    ensures
        denies_unknown(SafetyLevel::Strict, allow_unknown),
        !denies_unknown(SafetyLevel::Off, allow_unknown),
{
}

/// Every level that runs a check denies unknown results unless the run asked
/// to be left them.
pub proof fn law_checked_levels_deny_by_default(safety: SafetyLevel)
    requires
        safety != SafetyLevel::Off,
    ensures
        denies_unknown(safety, false),
{
}

/// The worst severity in a set is its maximum: ranks strictly order the
/// severities, and only the top one fails the build.
pub proof fn law_severity_order(a: Severity, b: Severity)
    ensures
        severity_rank(a) == severity_rank(b) ==> a == b,
        fails_the_build(a) <==> a == Severity::Error,
        severity_rank(Severity::Help) < severity_rank(Severity::Note) < severity_rank(
            Severity::Warning,
        ) < severity_rank(Severity::Error),
{
}

} // verus!
