//! Running the Safety IR, so that a program can be tested without a backend.
//!
//! **It stops rather than answering, wherever it cannot be honest.** Two kinds
//! of thing reach [`Trap`] and they are deliberately one type: what C leaves
//! undefined, and what this interpreter has not implemented.
//!
//! **A pointer is a place in a frame.** Every place in this IR is rooted at a
//! local, so a pointer is a place and the frame it belongs to. Carrying the
//! frame is what lets a read through a pointer into a function that has
//! returned be reported rather than answered.
//!
//! What a run means is written down below as a machine that steps one block at
//! a time ([`outcome`]); [`run`] is proved to answer exactly that.
use vstd::prelude::*;

use crate::ir::{
    BinOp, Block, BlockId, FuncId, Function, Operand, OperandModel, Operation, Origin, Place,
    PlaceModel, Projection, Rvalue, Step, Terminator, TranslationUnit, UnOp, origin_span,
    lemma_steps_of, same_place, step_of,
};
use crate::source::Span;

verus! {

/// How many frames a run may create before it is stopped. A frame is kept
/// after it returns, so this bounds what a run holds as well as how deep its
/// calls go.
pub const MAX_FRAMES: usize = 65536;

/// How many blocks a run may execute before it is stopped. A program is free
/// to loop forever; this is what makes every run end.
pub const MAX_STEPS: u64 = 0xffff_ffff_ffff_ffff;

/// What a local holds while a program runs.
#[derive(Debug, PartialEq, Eq)]
pub enum Value {
    /// An integer, as wide as the IR's own constants.
    Int(i128),
    /// A pointer: which place, in which frame.
    Pointer {
        /// The frame the place belongs to, as an index into the frames of
        /// the run.
        frame: usize,
        /// The place itself, in that frame's function.
        place: Place,
    },
}

/// A [`Value`] as the machine sees it.
pub ghost enum ValueModel {
    Int(i128),
    Pointer { frame: int, place: PlaceModel },
}

impl View for Value {
    type V = ValueModel;

    open spec fn view(&self) -> ValueModel {
        match self {
            Value::Int(n) => ValueModel::Int(*n),
            Value::Pointer { frame, place } => ValueModel::Pointer { frame: *frame as int, place: place@ },
        }
    }
}

impl Clone for Value {
    fn clone(&self) -> (r: Self)
        ensures
            r@ == self@,
    {
        match self {
            Value::Int(n) => Value::Int(*n),
            Value::Pointer { frame, place } => Value::Pointer { frame: *frame, place: place.clone() },
        }
    }
}

/// Why a run stopped.
#[derive(Clone, Debug, PartialEq, Eq)]
pub struct Trap {
    /// What happened, as a sentence a reader can act on.
    pub why: String,
    /// Where the operation was, where the operation had a span.
    pub at: Option<Span>,
}

/// A [`Trap`] as the machine sees it.
pub ghost struct TrapModel {
    pub why: Seq<char>,
    pub at: Option<Span>,
}

impl View for Trap {
    type V = TrapModel;

    open spec fn view(&self) -> TrapModel {
        TrapModel { why: self.why@, at: self.at }
    }
}

/// A stop with nowhere to point.
pub open spec fn stop(why: Seq<char>) -> TrapModel {
    TrapModel { why, at: None }
}

/// The same stop, pointing at what stopped the run.
pub open spec fn stop_at(t: TrapModel, at: Span) -> TrapModel {
    TrapModel { why: t.why, at: Some(at) }
}

impl Trap {
    /// A trap with nowhere to point.
    fn new(why: &str) -> (t: Trap)
        ensures
            t@ == stop(why@),
    {
        Trap { why: why.to_owned(), at: None }
    }

    /// The same, pointing at the operation that stopped the run.
    fn at(self, at: Span) -> (t: Trap)
        ensures
            t@ == stop_at(self@, at),
    {
        Trap { why: self.why, at: Some(at) }
    }
}

/// Why a read found nothing.
pub open spec fn unwritten() -> Seq<char> {
    "a read of a local nothing has written"@
}

/// Why a `*` found no pointer.
pub open spec fn not_a_pointer() -> Seq<char> {
    "a dereference of something that is not a pointer"@
}

/// Why a pointer could not be followed.
pub open spec fn returned() -> Seq<char> {
    "a read through a pointer into a function that has returned"@
}

/// Why a walk along pointers stopped: it came back to a pointer it was
/// already following, so following it again would start the same walk over
/// and never end.
pub open spec fn chain_loops() -> Seq<char> {
    "a chain of pointers that leads back into itself"@
}

/// Why an index could not be followed.
pub open spec fn index_unbuilt() -> Seq<char> {
    "an index, which nothing builds yet"@
}

/// Why arithmetic refused a pointer.
pub open spec fn pointer_arithmetic() -> Seq<char> {
    "arithmetic on a pointer, which counts elements and so needs a width"@
}

/// Why a negation stopped.
pub open spec fn negation_overflow() -> Seq<char> {
    "a negation whose result does not fit"@
}

/// Why an operator stopped on a result too large.
pub open spec fn overflow() -> Seq<char> {
    "an arithmetic result that does not fit"@
}

/// Why a division stopped.
pub open spec fn division_by_zero() -> Seq<char> {
    "a division by zero"@
}

/// Why a remainder stopped.
pub open spec fn remainder_by_zero() -> Seq<char> {
    "a remainder by zero"@
}

/// Why a shift stopped.
pub open spec fn bad_shift() -> Seq<char> {
    "a shift by a negative or enormous amount"@
}

/// Why a branch stopped.
pub open spec fn branch_on_pointer() -> Seq<char> {
    "a branch on a pointer, which needs a width"@
}

/// Why a call stopped.
pub open spec fn too_many_frames() -> Seq<char> {
    "a call stack deeper than 65536 frames"@
}

/// Why a return stopped.
pub open spec fn no_return_value() -> Seq<char> {
    "a function returned without writing its return place"@
}

/// Why an abnormal edge stopped the run.
pub open spec fn abnormal_edge() -> Seq<char> {
    "an edge no statement produced, which nothing builds yet"@
}

/// Why a call to a declaration stopped.
pub open spec fn undefined_callee() -> Seq<char> {
    "a call to a function whose body is not in this translation unit"@
}

/// Why a run that went on too long stopped.
pub open spec fn too_many_steps() -> Seq<char> {
    "a run longer than 18446744073709551615 blocks"@
}

// ---------------------------------------------------------------------------
// The machine.
// ---------------------------------------------------------------------------

/// One call, as the machine sees it.
#[verifier::ext_equal]
pub ghost struct FrameModel {
    /// Which function it runs.
    pub function: FuncId,
    /// One slot per local, empty until something writes it.
    pub locals: Seq<Option<ValueModel>>,
    /// Which block is running.
    pub block: BlockId,
    /// Where this frame's callee writes its answer.
    pub destination: Option<PlaceModel>,
    /// Which block this frame resumes at when its callee returns.
    pub resume: Option<BlockId>,
    /// The frame that called this one; none for the frame the run began with.
    pub caller: Option<int>,
    /// Whether it has not returned yet.
    pub live: bool,
}

/// Every frame the run has made, and which one is running.
#[verifier::ext_equal]
pub ghost struct Machine {
    pub frames: Seq<FrameModel>,
    pub current: int,
}

/// What one block of a run leads to.
pub ghost enum Next {
    /// The run goes on from here.
    Running(Machine),
    /// The run is over, with this answer.
    Finished(Result<ValueModel, TrapModel>),
}

/// The function `id` names.
pub open spec fn function_of(unit: TranslationUnit, id: FuncId) -> Function {
    unit.spec_functions()[id.0 as int]
}

/// The block `id` names in `f`.
pub open spec fn block_of(f: Function, id: BlockId) -> Block {
    f.spec_blocks()[id.0 as int]
}

/// `m` with `v` written into local `local` of frame `frame`; where there is
/// no such local, `m` as it was.
pub open spec fn write(m: Machine, frame: int, local: int, v: ValueModel) -> Machine {
    if 0 <= frame < m.frames.len() && 0 <= local < m.frames[frame].locals.len() {
        Machine {
            frames: m.frames.update(
                frame,
                FrameModel { locals: m.frames[frame].locals.update(local, Some(v)), ..m.frames[frame] },
            ),
            current: m.current,
        }
    } else {
        m
    }
}

/// `m` with frame `frame` about to run block `to`.
pub open spec fn goto(m: Machine, frame: int, to: BlockId) -> Machine {
    Machine {
        frames: m.frames.update(frame, FrameModel { block: to, ..m.frames[frame] }),
        current: m.current,
    }
}

/// How many locals the frames hold between them.
pub open spec fn cells(frames: Seq<FrameModel>) -> nat
    decreases frames.len(),
{
    if frames.len() == 0 {
        0
    } else {
        cells(frames.drop_last()) + frames.last().locals.len()
    }
}

/// The frame and local a place names, reached from local `local` of frame
/// `frame` by `steps`. Each dereference follows the pointer held where the
/// walk is, through the place it names, in the frame it belongs to. `chain`
/// holds the frame and local of every pointer being followed on the way
/// here; a pointer among them is not followed again, because the walk from
/// it is the one already under way and would come back to it for ever. (The
/// frames hold fewer locals than such a chain would need to grow past, so
/// the last test never decides a walk from a machine whose pointers fit.)
pub open spec fn resolve(m: Machine, frame: int, local: int, steps: Seq<Step>, chain: Seq<(int, int)>) -> Result<
    (int, int),
    TrapModel,
>
    decreases cells(m.frames) - chain.len(), steps.len(),
{
    if steps.len() == 0 {
        Ok((frame, local))
    } else {
        match steps[0] {
            Step::Index(_) => Err(stop(index_unbuilt())),
            Step::Deref => match m.frames[frame].locals[local] {
                None => Err(stop(unwritten())),
                Some(ValueModel::Int(_)) => Err(stop(not_a_pointer())),
                Some(ValueModel::Pointer { frame: at, place }) => {
                    if !m.frames[at].live {
                        Err(stop(returned()))
                    } else if chain.contains((frame, local)) || chain.len() >= cells(m.frames) {
                        Err(stop(chain_loops()))
                    } else {
                        match resolve(m, at, place.local.0 as int, place.steps, chain.push((frame, local))) {
                            Err(t) => Err(t),
                            Ok((f, l)) => resolve(m, f, l, steps.drop_first(), chain),
                        }
                    }
                },
            },
        }
    }
}

/// Where a place of the running frame leads.
pub open spec fn resolve_place(m: Machine, frame: int, place: PlaceModel) -> Result<(int, int), TrapModel> {
    resolve(m, frame, place.local.0 as int, place.steps, Seq::empty())
}

/// A frame and local of the machine.
pub open spec fn is_cell(frames: Seq<FrameModel>, c: (int, int)) -> bool {
    0 <= c.0 < frames.len() && 0 <= c.1 < frames[c.0].locals.len()
}

/// Where a cell comes when the locals of all frames are counted in order.
pub open spec fn cell_number(frames: Seq<FrameModel>, c: (int, int)) -> int {
    cells(frames.take(c.0)) + c.1
}

/// A chain of pointers being followed: cells of the machine, none twice.
pub open spec fn chain_fits(frames: Seq<FrameModel>, chain: Seq<(int, int)>) -> bool {
    &&& chain.no_duplicates()
    &&& forall|k: int| 0 <= k < chain.len() ==> is_cell(frames, #[trigger] chain[k])
}

proof fn lemma_cells_take(frames: Seq<FrameModel>, i: int, j: int)
    requires
        0 <= i <= j <= frames.len(),
    ensures
        cells(frames.take(i)) <= cells(frames.take(j)),
        i < j ==> cells(frames.take(i)) + frames[i].locals.len() <= cells(frames.take(j)),
    decreases j - i,
{
    if i < j {
        lemma_cells_take(frames, i, j - 1);
        assert(frames.take(j).drop_last() =~= frames.take(j - 1));
    }
}

proof fn lemma_cell_number(frames: Seq<FrameModel>, c: (int, int), d: (int, int))
    requires
        is_cell(frames, c),
        is_cell(frames, d),
    ensures
        0 <= cell_number(frames, c) < cells(frames),
        c != d ==> cell_number(frames, c) != cell_number(frames, d),
{
    lemma_cells_take(frames, c.0, frames.len() as int);
    assert(frames.take(frames.len() as int) =~= frames);
    if c.0 < d.0 {
        lemma_cells_take(frames, c.0, d.0);
    } else if d.0 < c.0 {
        lemma_cells_take(frames, d.0, c.0);
    }
}

/// Distinct numbers below `n` are at most `n` of them.
proof fn lemma_few_below(s: Seq<int>, n: int)
    requires
        n >= 0,
        s.no_duplicates(),
        forall|k: int| 0 <= k < s.len() ==> 0 <= #[trigger] s[k] < n,
    ensures
        s.len() <= n,
    decreases n,
{
    if n <= 0 {
        if s.len() > 0 {
            assert(0 <= s[0] < n);
        }
    } else if s.contains(n - 1) {
        let j = choose|j: int| 0 <= j < s.len() && s[j] == n - 1;
        let t = s.remove(j);
        assert forall|k: int| 0 <= k < t.len() implies 0 <= #[trigger] t[k] < n - 1 by {
            if k < j {
                assert(t[k] == s[k]);
            } else {
                assert(t[k] == s[k + 1]);
            }
        }
        assert(t.no_duplicates()) by {
            assert forall|a: int, b: int| 0 <= a < t.len() && 0 <= b < t.len() && a != b implies t[a] != t[b] by {
                let a2 = if a < j { a } else { a + 1 };
                let b2 = if b < j { b } else { b + 1 };
                assert(t[a] == s[a2] && t[b] == s[b2]);
            }
        }
        lemma_few_below(t, n - 1);
    } else {
        assert forall|k: int| 0 <= k < s.len() implies 0 <= #[trigger] s[k] < n - 1 by {
            assert(s[k] != n - 1);
        }
        lemma_few_below(s, n - 1);
    }
}

/// A chain of pointers being followed, with one more cell that is not in
/// it, is shorter than the machine holds locals: so the walk never runs out
/// of room before it comes back to a pointer it is following.
pub proof fn law_a_walk_has_room(frames: Seq<FrameModel>, chain: Seq<(int, int)>, c: (int, int))
    requires
        chain_fits(frames, chain),
        is_cell(frames, c),
        !chain.contains(c),
    ensures
        chain.len() < cells(frames),
{
    let longer = chain.push(c);
    let numbers = longer.map_values(|x: (int, int)| cell_number(frames, x));
    assert forall|k: int| 0 <= k < numbers.len() implies 0 <= #[trigger] numbers[k] < cells(frames) by {
        assert(is_cell(frames, longer[k]));
        lemma_cell_number(frames, longer[k], longer[k]);
    }
    assert(numbers.no_duplicates()) by {
        assert forall|a: int, b: int| 0 <= a < numbers.len() && 0 <= b < numbers.len() && a != b implies numbers[a]
            != numbers[b] by {
            assert(is_cell(frames, longer[a]) && is_cell(frames, longer[b]));
            if a < chain.len() && b < chain.len() {
                assert(longer[a] == chain[a] && longer[b] == chain[b]);
            } else if a < chain.len() {
                assert(longer[a] == chain[a]);
                assert(chain.contains(longer[a]));
            } else if b < chain.len() {
                assert(longer[b] == chain[b]);
                assert(chain.contains(longer[b]));
            }
            lemma_cell_number(frames, longer[a], longer[b]);
        }
    }
    lemma_few_below(numbers, cells(frames) as int);
}

/// What an operand reads in frame `frame`.
pub open spec fn read(m: Machine, frame: int, o: OperandModel) -> Result<ValueModel, TrapModel> {
    match o {
        OperandModel::Constant(n) => Ok(ValueModel::Int(n)),
        OperandModel::Copy(place) => match resolve_place(m, frame, place) {
            Err(t) => Err(t),
            Ok((f, l)) => match m.frames[f].locals[l] {
                Some(v) => Ok(v),
                None => Err(stop(unwritten())),
            },
        },
    }
}

/// The number a value holds.
pub open spec fn number(v: ValueModel) -> Result<i128, TrapModel> {
    match v {
        ValueModel::Int(n) => Ok(n),
        ValueModel::Pointer { .. } => Err(stop(pointer_arithmetic())),
    }
}

/// 1 for true and 0 for false, as C's comparisons answer.
pub open spec fn truth(b: bool) -> i128 {
    if b {
        1
    } else {
        0
    }
}

/// What an operator with one operand does to a number.
pub open spec fn unary(op: UnOp, v: i128) -> Result<i128, TrapModel> {
    match op {
        UnOp::Neg => if v == i128::MIN {
            Err(stop(negation_overflow()))
        } else {
            Ok((-v) as i128)
        },
        UnOp::Not => Ok(truth(v == 0)),
        UnOp::BitNot => Ok(!v),
    }
}

/// What a checked operation's answer means here.
pub open spec fn checked(r: Option<i128>, why: Seq<char>) -> Result<i128, TrapModel> {
    match r {
        Some(v) => Ok(v),
        None => Err(stop(why)),
    }
}

/// What an operator with two operands does to two numbers. Division and
/// remainder truncate toward zero, as C's do; a result that does not fit, a
/// division by zero and a shift by a negative amount or by the width or more
/// stop the run.
pub open spec fn binary(op: BinOp, lhs: i128, rhs: i128) -> Result<i128, TrapModel> {
    match op {
        BinOp::Mul => checked(lhs.checked_mul(rhs), overflow()),
        BinOp::Div => checked(lhs.checked_div(rhs), division_by_zero()),
        BinOp::Rem => checked(lhs.checked_rem(rhs), remainder_by_zero()),
        BinOp::Add => checked(lhs.checked_add(rhs), overflow()),
        BinOp::Sub => checked(lhs.checked_sub(rhs), overflow()),
        BinOp::Shl => if 0 <= rhs < 128 {
            Ok(lhs << (rhs as u32))
        } else {
            Err(stop(bad_shift()))
        },
        BinOp::Shr => if 0 <= rhs < 128 {
            Ok(lhs >> (rhs as u32))
        } else {
            Err(stop(bad_shift()))
        },
        BinOp::Lt => Ok(truth(lhs < rhs)),
        BinOp::Gt => Ok(truth(lhs > rhs)),
        BinOp::Le => Ok(truth(lhs <= rhs)),
        BinOp::Ge => Ok(truth(lhs >= rhs)),
        BinOp::Eq => Ok(truth(lhs == rhs)),
        BinOp::Ne => Ok(truth(lhs != rhs)),
        BinOp::BitAnd => Ok(lhs & rhs),
        BinOp::BitXor => Ok(lhs ^ rhs),
        BinOp::BitOr => Ok(lhs | rhs),
    }
}

/// What an operation computes in frame `frame`.
pub open spec fn compute(m: Machine, frame: int, value: Rvalue) -> Result<ValueModel, TrapModel> {
    match value {
        Rvalue::Use(o) => read(m, frame, o@),
        Rvalue::Address(place) => Ok(ValueModel::Pointer { frame, place: place@ }),
        Rvalue::Unary { op, operand } => match read(m, frame, operand@) {
            Err(t) => Err(t),
            Ok(v) => match number(v) {
                Err(t) => Err(t),
                Ok(n) => match unary(op, n) {
                    Err(t) => Err(t),
                    Ok(r) => Ok(ValueModel::Int(r)),
                },
            },
        },
        Rvalue::Binary { op, lhs, rhs } => match read(m, frame, lhs@) {
            Err(t) => Err(t),
            Ok(a) => match number(a) {
                Err(t) => Err(t),
                Ok(x) => match read(m, frame, rhs@) {
                    Err(t) => Err(t),
                    Ok(b) => match number(b) {
                        Err(t) => Err(t),
                        Ok(y) => match binary(op, x, y) {
                            Err(t) => Err(t),
                            Ok(r) => Ok(ValueModel::Int(r)),
                        },
                    },
                },
            },
        },
    }
}

/// The machine after operations `k..` of `ops` run in the current frame, in
/// order: each computes its value, then writes it where its place leads. A
/// stop points at the operation that made it.
pub open spec fn perform(m: Machine, ops: Seq<Operation>, k: int) -> Result<Machine, TrapModel>
    decreases ops.len() - k,
{
    if k < 0 || k >= ops.len() {
        Ok(m)
    } else {
        let op = ops[k];
        let at = origin_span(op.origin);
        match compute(m, m.current, op.value) {
            Err(t) => Err(stop_at(t, at)),
            Ok(v) => match resolve_place(m, m.current, op.place@) {
                Err(t) => Err(stop_at(t, at)),
                Ok((f, l)) => perform(write(m, f, l, v), ops, k + 1),
            },
        }
    }
}

/// What operands `k..` read, in order, or the first stop.
pub open spec fn read_all(m: Machine, frame: int, args: Seq<Operand>, k: int) -> Result<
    Seq<ValueModel>,
    TrapModel,
>
    decreases args.len() - k,
{
    if k < 0 || k >= args.len() {
        Ok(Seq::empty())
    } else {
        match read(m, frame, args[k]@) {
            Err(t) => Err(t),
            Ok(v) => match read_all(m, frame, args, k + 1) {
                Err(t) => Err(t),
                Ok(rest) => Ok(seq![v] + rest),
            },
        }
    }
}

/// A frame for a call to `id`, with the arguments bound to its parameters in
/// order: parameter `i` is local `i + 1`. An argument without a parameter is
/// dropped, and a parameter without an argument is left empty.
pub open spec fn enter(unit: TranslationUnit, id: FuncId, args: Seq<ValueModel>, caller: Option<int>) -> Result<
    FrameModel,
    TrapModel,
> {
    let f = function_of(unit, id);
    if f.spec_blocks().len() == 0 {
        Err(stop(undefined_callee()))
    } else {
        Ok(
            FrameModel {
                function: id,
                locals: Seq::new(
                    f.spec_locals().len(),
                    |i: int|
                        if 1 <= i <= f.spec_parameters() && i - 1 < args.len() {
                            Some(args[i - 1])
                        } else {
                            None
                        },
                ),
                block: BlockId(0),
                destination: None,
                resume: None,
                caller,
                live: true,
            },
        )
    }
}

/// Where a terminator takes the machine, once its block's operations have run.
pub open spec fn terminate(unit: TranslationUnit, m: Machine, t: Terminator) -> Next {
    let cur = m.current;
    match t {
        Terminator::Goto(to) => Next::Running(goto(m, cur, to)),
        Terminator::Branch { condition, then, otherwise } => match read(m, cur, condition@) {
            Err(e) => Next::Finished(Err(e)),
            Ok(ValueModel::Int(n)) => Next::Running(
                goto(
                    m,
                    cur,
                    if n == 0 {
                        otherwise
                    } else {
                        then
                    },
                ),
            ),
            Ok(ValueModel::Pointer { .. }) => Next::Finished(Err(stop(branch_on_pointer()))),
        },
        Terminator::Call { callee, arguments, destination, then, origin } => {
            let at = origin_span(origin);
            match read_all(m, cur, arguments@, 0) {
                Err(e) => Next::Finished(Err(stop_at(e, at))),
                Ok(passed) => {
                    let waiting = FrameModel {
                        destination: match destination {
                            Some(p) => Some(p@),
                            None => None,
                        },
                        resume: Some(then),
                        ..m.frames[cur]
                    };
                    let frames = m.frames.update(cur, waiting);
                    if frames.len() >= MAX_FRAMES {
                        Next::Finished(Err(stop_at(stop(too_many_frames()), at)))
                    } else {
                        match enter(unit, callee, passed, Some(cur)) {
                            Err(e) => Next::Finished(Err(stop_at(e, at))),
                            Ok(callee_frame) => Next::Running(
                                Machine {
                                    frames: frames.push(callee_frame),
                                    current: frames.len() as int,
                                },
                            ),
                        }
                    }
                },
            }
        },
        Terminator::Return => {
            let answer = m.frames[cur].locals[0];
            let done = Machine {
                frames: m.frames.update(cur, FrameModel { live: false, ..m.frames[cur] }),
                current: cur,
            };
            match m.frames[cur].caller {
                None => Next::Finished(
                    match answer {
                        Some(v) => Ok(v),
                        None => Err(stop(no_return_value())),
                    },
                ),
                Some(below) => {
                    let resumed = |mm: Machine|
                        Machine {
                            frames: mm.frames.update(
                                below,
                                FrameModel {
                                    block: mm.frames[below].resume.unwrap(),
                                    ..mm.frames[below]
                                },
                            ),
                            current: below,
                        };
                    match done.frames[below].destination {
                        None => Next::Running(resumed(done)),
                        Some(dest) => match answer {
                            None => Next::Finished(Err(stop(no_return_value()))),
                            Some(v) => match resolve_place(done, below, dest) {
                                Err(e) => Next::Finished(Err(e)),
                                Ok((f, l)) => Next::Running(resumed(write(done, f, l, v))),
                            },
                        },
                    }
                },
            }
        },
        Terminator::Abnormal { .. } => Next::Finished(Err(stop(abnormal_edge()))),
    }
}

/// One block of a run: the running frame's block, its operations and then its
/// terminator.
pub open spec fn step(unit: TranslationUnit, m: Machine) -> Next {
    let frame = m.frames[m.current];
    let block = block_of(function_of(unit, frame.function), frame.block);
    match perform(m, block.operations@, 0) {
        Err(t) => Next::Finished(Err(t)),
        Ok(after) => terminate(unit, after, block.terminator),
    }
}

/// Where a run goes from `m`, given `fuel` more blocks.
pub open spec fn finish(unit: TranslationUnit, m: Machine, fuel: nat) -> Result<
    ValueModel,
    TrapModel,
>
    decreases fuel,
{
    if fuel == 0 {
        Err(stop(too_many_steps()))
    } else {
        match step(unit, m) {
            Next::Finished(r) => r,
            Next::Running(next) => finish(unit, next, (fuel - 1) as nat),
        }
    }
}

/// What a run of `entry` on `args` answers: the value its return place holds
/// when it returns, or why it stopped.
pub open spec fn outcome(unit: TranslationUnit, entry: FuncId, args: Seq<ValueModel>) -> Result<
    ValueModel,
    TrapModel,
> {
    match enter(unit, entry, args, None) {
        Err(t) => Err(t),
        Ok(frame) => finish(unit, Machine { frames: seq![frame], current: 0 }, MAX_STEPS as nat),
    }
}


// ---------------------------------------------------------------------------
// What a unit must be for a run of it to be safe.
// ---------------------------------------------------------------------------

/// A place of function `f` names one of its locals.
pub open spec fn place_fits(f: Function, p: PlaceModel) -> bool {
    p.local.0 < f.spec_locals().len()
}

/// What an operand of `f` reads is in `f`.
pub open spec fn operand_fits(f: Function, o: OperandModel) -> bool {
    match o {
        OperandModel::Copy(p) => place_fits(f, p),
        OperandModel::Constant(_) => true,
    }
}

/// Every place an operation of `f` names is in `f`.
pub open spec fn operation_fits(f: Function, op: Operation) -> bool {
    &&& place_fits(f, op.place@)
    &&& match op.value {
        Rvalue::Use(o) => operand_fits(f, o@),
        Rvalue::Address(p) => place_fits(f, p@),
        Rvalue::Unary { op, operand } => operand_fits(f, operand@),
        Rvalue::Binary { op, lhs, rhs } => operand_fits(f, lhs@) && operand_fits(f, rhs@),
    }
}

/// Every block a terminator of `f` names is in `f`, every place is, and a
/// callee is in `unit`.
pub open spec fn terminator_fits(unit: TranslationUnit, f: Function, t: Terminator) -> bool {
    let blocks = f.spec_blocks().len();
    match t {
        Terminator::Goto(to) => to.0 < blocks,
        Terminator::Branch { condition, then, otherwise } => {
            &&& operand_fits(f, condition@)
            &&& then.0 < blocks
            &&& otherwise.0 < blocks
        },
        Terminator::Call { callee, arguments, destination, then, origin } => {
            &&& callee.0 < unit.spec_functions().len()
            &&& forall|k: int| 0 <= k < arguments@.len() ==> operand_fits(f, #[trigger] arguments@[k]@)
            &&& (destination matches Some(p) ==> place_fits(f, p@))
            &&& then.0 < blocks
        },
        Terminator::Return => true,
        Terminator::Abnormal { to } => to.0 < blocks,
    }
}

/// A function refers only to its own locals and blocks, and to functions of
/// `unit`.
pub open spec fn function_fits(unit: TranslationUnit, f: Function) -> bool {
    &&& f.wf()
    &&& forall|b: int| 0 <= b < f.spec_blocks().len() ==> {
        let block = #[trigger] f.spec_blocks()[b];
        &&& forall|k: int|
            0 <= k < block.operations@.len() ==> operation_fits(f, #[trigger] block.operations@[k])
        &&& terminator_fits(unit, f, block.terminator)
    }
}

/// Every function of `unit` refers only to what is there: the IR a run can
/// follow without falling off it.
pub open spec fn unit_fits(unit: TranslationUnit) -> bool {
    forall|i: int|
        0 <= i < unit.spec_functions().len() ==> function_fits(unit, #[trigger] unit.spec_functions()[i])
}

/// A value names a frame and a local that exist.
pub open spec fn value_fits(m: Machine, v: ValueModel) -> bool {
    match v {
        ValueModel::Int(_) => true,
        ValueModel::Pointer { frame, place } => {
            &&& 0 <= frame < m.frames.len()
            &&& place.local.0 < m.frames[frame].locals.len()
        },
    }
}

/// Every value the machine holds names something that exists.
pub open spec fn values_fit(m: Machine) -> bool {
    forall|i: int, l: int|
        0 <= i < m.frames.len() && 0 <= l < m.frames[i].locals.len() ==> (
        #[trigger] m.frames[i].locals[l] matches Some(v) ==> value_fits(m, v))
}

/// A frame runs a function of `unit`, holds a slot per local, and every
/// block, place and frame it names exists.
pub open spec fn frame_fits(unit: TranslationUnit, m: Machine, fr: FrameModel) -> bool {
    let f = function_of(unit, fr.function);
    &&& fr.function.0 < unit.spec_functions().len()
    &&& fr.locals.len() == f.spec_locals().len()
    &&& fr.block.0 < f.spec_blocks().len()
    &&& (fr.resume matches Some(b) ==> b.0 < f.spec_blocks().len())
    &&& (fr.destination matches Some(p) ==> p.local.0 < fr.locals.len())
    &&& (fr.caller matches Some(c) ==> 0 <= c < m.frames.len() && m.frames[c].resume is Some)
}

/// The machine is one a run of `unit` can be in.
pub open spec fn machine_fits(unit: TranslationUnit, m: Machine) -> bool {
    &&& unit_fits(unit)
    &&& 0 <= m.current < m.frames.len()
    &&& forall|i: int| 0 <= i < m.frames.len() ==> frame_fits(unit, m, #[trigger] m.frames[i])
    &&& values_fit(m)
}

// ---------------------------------------------------------------------------
// The run.
// ---------------------------------------------------------------------------

/// One call, while it is running.
struct Frame {
    function: FuncId,
    locals: Vec<Option<Value>>,
    block: BlockId,
    destination: Option<Place>,
    resume: Option<BlockId>,
    caller: Option<usize>,
    live: bool,
}

spec fn slot(o: Option<Value>) -> Option<ValueModel> {
    match o {
        Some(v) => Some(v@),
        None => None,
    }
}

spec fn where_to(o: Option<Place>) -> Option<PlaceModel> {
    match o {
        Some(p) => Some(p@),
        None => None,
    }
}

impl View for Frame {
    type V = FrameModel;

    closed spec fn view(&self) -> FrameModel {
        FrameModel {
            function: self.function,
            locals: self.locals@.map_values(|o: Option<Value>| slot(o)),
            block: self.block,
            destination: where_to(self.destination),
            resume: self.resume,
            caller: match self.caller {
                Some(c) => Some(c as int),
                None => None,
            },
            live: self.live,
        }
    }
}

spec fn machine(frames: Seq<Frame>, current: int) -> Machine {
    Machine { frames: frames.map_values(|f: Frame| f@), current }
}

/// What a run's answer is, as the machine sees it.
pub open spec fn answer(r: Result<Value, Trap>) -> Result<ValueModel, TrapModel> {
    match r {
        Ok(v) => Ok(v@),
        Err(t) => Err(t@),
    }
}

fn integer(v: Value) -> (r: Result<i128, Trap>)
    ensures
        match r {
            Ok(n) => number(v@) == Ok::<i128, TrapModel>(n),
            Err(t) => number(v@) == Err::<i128, TrapModel>(t@),
        },
{
    match v {
        Value::Int(n) => Ok(n),
        Value::Pointer { .. } => Err(
            Trap::new("arithmetic on a pointer, which counts elements and so needs a width"),
        ),
    }
}

fn truth_of(b: bool) -> (r: i128)
    ensures
        r == truth(b),
{
    if b {
        1
    } else {
        0
    }
}

fn apply_unary(op: UnOp, v: i128) -> (r: Result<i128, Trap>)
    ensures
        match r {
            Ok(n) => unary(op, v) == Ok::<i128, TrapModel>(n),
            Err(t) => unary(op, v) == Err::<i128, TrapModel>(t@),
        },
{
    match op {
        UnOp::Neg => if v == i128::MIN {
            Err(Trap::new("a negation whose result does not fit"))
        } else {
            Ok(-v)
        },
        UnOp::Not => Ok(truth_of(v == 0)),
        UnOp::BitNot => Ok(!v),
    }
}

fn apply_checked(r: Option<i128>, why: &str) -> (out: Result<i128, Trap>)
    ensures
        match out {
            Ok(n) => checked(r, why@) == Ok::<i128, TrapModel>(n),
            Err(t) => checked(r, why@) == Err::<i128, TrapModel>(t@),
        },
{
    match r {
        Some(v) => Ok(v),
        None => Err(Trap::new(why)),
    }
}

fn apply_binary(op: BinOp, lhs: i128, rhs: i128) -> (r: Result<i128, Trap>)
    ensures
        match r {
            Ok(n) => binary(op, lhs, rhs) == Ok::<i128, TrapModel>(n),
            Err(t) => binary(op, lhs, rhs) == Err::<i128, TrapModel>(t@),
        },
{
    match op {
        BinOp::Mul => apply_checked(lhs.checked_mul(rhs), "an arithmetic result that does not fit"),
        BinOp::Div => apply_checked(lhs.checked_div(rhs), "a division by zero"),
        BinOp::Rem => apply_checked(lhs.checked_rem(rhs), "a remainder by zero"),
        BinOp::Add => apply_checked(lhs.checked_add(rhs), "an arithmetic result that does not fit"),
        BinOp::Sub => apply_checked(lhs.checked_sub(rhs), "an arithmetic result that does not fit"),
        BinOp::Shl => if 0 <= rhs && rhs < 128 {
            let by: u32 = rhs as u32;
            Ok(lhs << by)
        } else {
            Err(Trap::new("a shift by a negative or enormous amount"))
        },
        BinOp::Shr => if 0 <= rhs && rhs < 128 {
            let by: u32 = rhs as u32;
            Ok(lhs >> by)
        } else {
            Err(Trap::new("a shift by a negative or enormous amount"))
        },
        BinOp::Lt => Ok(truth_of(lhs < rhs)),
        BinOp::Gt => Ok(truth_of(lhs > rhs)),
        BinOp::Le => Ok(truth_of(lhs <= rhs)),
        BinOp::Ge => Ok(truth_of(lhs >= rhs)),
        BinOp::Eq => Ok(truth_of(lhs == rhs)),
        BinOp::Ne => Ok(truth_of(lhs != rhs)),
        BinOp::BitAnd => Ok(lhs & rhs),
        BinOp::BitXor => Ok(lhs ^ rhs),
        BinOp::BitOr => Ok(lhs | rhs),
    }
}


/// Unfolds one step of a walk: what `resolve` says of `steps.skip(i)` is what
/// it says of step `i` and then of `steps.skip(i + 1)`.
proof fn lemma_resolve_skip(steps: Seq<Step>, i: int)
    requires
        0 <= i < steps.len(),
    ensures
        steps.skip(i).len() > 0,
        steps.skip(i)[0] == steps[i],
        steps.skip(i).drop_first() == steps.skip(i + 1),
{
    assert(steps.skip(i).drop_first() =~= steps.skip(i + 1));
}

/// The cells of a chain held as indexes.
spec fn chain_view(chain: Seq<(usize, usize)>) -> Seq<(int, int)> {
    chain.map_values(|c: (usize, usize)| (c.0 as int, c.1 as int))
}

/// Where a place leads from frame `start`, as [`resolve`] says, while the
/// pointers at `chain` are being followed.
fn walk(
    frames: &Vec<Frame>,
    Ghost(current): Ghost<int>,
    start: usize,
    place: &Place,
    chain: &mut Vec<(usize, usize)>,
) -> (r: Result<(usize, usize), Trap>)
    requires
        values_fit(machine(frames@, current)),
        start < frames@.len(),
        place.local.0 < frames@[start as int].locals@.len(),
        chain_fits(machine(frames@, current).frames, chain_view(old(chain)@)),
    ensures
        final(chain)@ == old(chain)@,
        match r {
            Ok((f, l)) => {
                &&& resolve(
                    machine(frames@, current),
                    start as int,
                    place.local.0 as int,
                    place@.steps,
                    chain_view(old(chain)@),
                ) == Ok::<(int, int), TrapModel>((f as int, l as int))
                &&& f < frames@.len()
                &&& l < frames@[f as int].locals@.len()
            },
            Err(t) => resolve(
                machine(frames@, current),
                start as int,
                place.local.0 as int,
                place@.steps,
                chain_view(old(chain)@),
            ) == Err::<(int, int), TrapModel>(t@),
        },
    decreases cells(machine(frames@, current).frames) - old(chain)@.len(),
{
    let ghost m = machine(frames@, current);
    let ghost steps = place@.steps;
    let ghost held = chain_view(chain@);
    let ghost before = chain@;
    let mut frame: usize = start;
    let mut local: usize = place.local.index();
    let mut i: usize = 0;
    proof {
        lemma_steps_of(place.projection@);
    }
    assert(steps.skip(0) =~= steps);
    while i < place.projection.len()
        invariant
            m == machine(frames@, current),
            values_fit(m),
            steps == place@.steps,
            steps.len() == place.projection@.len(),
            i <= place.projection@.len(),
            frame < frames@.len(),
            local < frames@[frame as int].locals@.len(),
            chain@ == before,
            before == old(chain)@,
            held == chain_view(before),
            chain_fits(m.frames, held),
            resolve(m, start as int, place.local.0 as int, steps, held) == resolve(
                m,
                frame as int,
                local as int,
                steps.skip(i as int),
                held,
            ),
        decreases place.projection@.len() - i,
    {
        proof {
            lemma_resolve_skip(steps, i as int);
            lemma_steps_of(place.projection@);
        }
        assert(steps[i as int] == step_of(place.projection@[i as int]));
        match &place.projection[i] {
            Projection::Index(_) => {
                return Err(Trap::new("an index, which nothing builds yet"));
            },
            Projection::Deref => {
                assert(m.frames[frame as int].locals[local as int] == slot(
                    frames@[frame as int].locals@[local as int],
                ));
                match &frames[frame].locals[local] {
                    None => {
                        return Err(Trap::new("a read of a local nothing has written"));
                    },
                    Some(Value::Int(_)) => {
                        return Err(Trap::new("a dereference of something that is not a pointer"));
                    },
                    Some(Value::Pointer { frame: at, place: pointee }) => {
                        assert(value_fits(m, m.frames[frame as int].locals[local as int]->Some_0));
                        if !frames[*at].live {
                            return Err(
                                Trap::new("a read through a pointer into a function that has returned"),
                            );
                        }
                        let mut seen = false;
                        let mut k: usize = 0;
                        while k < chain.len()
                            invariant
                                chain@ == before,
                                held == chain_view(before),
                                k <= before.len(),
                                seen == exists|j: int| 0 <= j < k && held[j] == (frame as int, local as int),
                            decreases before.len() - k,
                        {
                            assert(held[k as int] == (chain@[k as int].0 as int, chain@[k as int].1 as int));
                            if chain[k].0 == frame && chain[k].1 == local {
                                seen = true;
                            }
                            k = k + 1;
                        }
                        if seen {
                            return Err(Trap::new("a chain of pointers that leads back into itself"));
                        }
                        let ghost cell = (frame as int, local as int);
                        proof {
                            assert(!held.contains(cell));
                            assert(is_cell(m.frames, cell));
                            law_a_walk_has_room(m.frames, held, cell);
                        }
                        chain.push((frame, local));
                        proof {
                            assert(chain_view(chain@) =~= held.push(cell));
                            assert(chain_fits(m.frames, held.push(cell))) by {
                                let longer = held.push(cell);
                                assert forall|a: int, b: int|
                                    0 <= a < longer.len() && 0 <= b < longer.len() && a != b implies longer[a]
                                    != longer[b] by {
                                    if a < held.len() && b < held.len() {
                                    } else if a < held.len() {
                                        assert(held.contains(longer[a]));
                                    } else {
                                        assert(held.contains(longer[b]));
                                    }
                                }
                                assert forall|k: int| 0 <= k < longer.len() implies is_cell(
                                    m.frames,
                                    #[trigger] longer[k],
                                ) by {
                                    if k < held.len() {
                                        assert(longer[k] == held[k]);
                                    }
                                }
                            }
                        }
                        let followed = walk(frames, Ghost(current), *at, pointee, chain);
                        chain.pop();
                        proof {
                            assert(chain@ =~= before);
                        }
                        match followed {
                            Err(t) => {
                                return Err(t);
                            },
                            Ok((f, l)) => {
                                frame = f;
                                local = l;
                            },
                        }
                    },
                }
            },
        }
        i = i + 1;
    }
    assert(steps.skip(i as int).len() == 0);
    Ok((frame, local))
}

/// Where a place of frame `frame` leads, as [`resolve_place`] says.
fn locate(frames: &Vec<Frame>, Ghost(current): Ghost<int>, frame: usize, place: &Place) -> (r: Result<
    (usize, usize),
    Trap,
>)
    requires
        values_fit(machine(frames@, current)),
        frame < frames@.len(),
        place.local.0 < frames@[frame as int].locals@.len(),
    ensures
        match r {
            Ok((f, l)) => {
                &&& resolve_place(machine(frames@, current), frame as int, place@) == Ok::<(int, int), TrapModel>(
                    (f as int, l as int),
                )
                &&& f < frames@.len()
                &&& l < frames@[f as int].locals@.len()
            },
            Err(t) => resolve_place(machine(frames@, current), frame as int, place@) == Err::<(int, int), TrapModel>(
                t@,
            ),
        },
{
    let mut chain: Vec<(usize, usize)> = Vec::new();
    proof {
        assert(chain_view(chain@) =~= Seq::<(int, int)>::empty());
    }
    walk(frames, Ghost(current), frame, place, &mut chain)
}

/// What an operand of frame `frame` reads, as [`read`] says.
fn fetch(frames: &Vec<Frame>, Ghost(current): Ghost<int>, frame: usize, o: &Operand) -> (r: Result<Value, Trap>)
    requires
        values_fit(machine(frames@, current)),
        frame < frames@.len(),
        o@ matches OperandModel::Copy(p) ==> p.local.0 < frames@[frame as int].locals@.len(),
    ensures
        answer(r) == read(machine(frames@, current), frame as int, o@),
        r matches Ok(v) ==> value_fits(machine(frames@, current), v@),
{
    let ghost m = machine(frames@, current);
    match o {
        Operand::Constant(n) => Ok(Value::Int(*n)),
        Operand::Copy(place) => {
            match locate(frames, Ghost(current), frame, place) {
                Err(t) => Err(t),
                Ok((f, l)) => {
                    assert(m.frames[f as int].locals[l as int] == slot(frames@[f as int].locals@[l as int]));
                    match &frames[f].locals[l] {
                        Some(v) => {
                            let v = v.clone();
                            Ok(v)
                        },
                        None => Err(Trap::new("a read of a local nothing has written")),
                    }
                },
            }
        },
    }
}

/// The number an operand of frame `frame` reads.
fn fetch_number(frames: &Vec<Frame>, Ghost(current): Ghost<int>, frame: usize, o: &Operand) -> (r: Result<
    i128,
    Trap,
>)
    requires
        values_fit(machine(frames@, current)),
        frame < frames@.len(),
        o@ matches OperandModel::Copy(p) ==> p.local.0 < frames@[frame as int].locals@.len(),
    ensures
        match r {
            Ok(n) => read(machine(frames@, current), frame as int, o@) matches Ok(v) && number(v) == Ok::<
                i128,
                TrapModel,
            >(n),
            Err(t) => match read(machine(frames@, current), frame as int, o@) {
                Err(e) => e == t@,
                Ok(v) => number(v) == Err::<i128, TrapModel>(t@),
            },
        },
{
    match fetch(frames, Ghost(current), frame, o) {
        Err(t) => Err(t),
        Ok(v) => integer(v),
    }
}

/// What an operation of the running frame computes, as [`compute`] says.
fn evaluate(frames: &Vec<Frame>, current: usize, value: &Rvalue) -> (r: Result<Value, Trap>)
    requires
        values_fit(machine(frames@, current as int)),
        current < frames@.len(),
        match *value {
            Rvalue::Use(o) => o@ matches OperandModel::Copy(p) ==> p.local.0 < frames@[current as int].locals@.len(),
            Rvalue::Address(p) => p@.local.0 < frames@[current as int].locals@.len(),
            Rvalue::Unary { op, operand } => operand@ matches OperandModel::Copy(p) ==> p.local.0
                < frames@[current as int].locals@.len(),
            Rvalue::Binary { op, lhs, rhs } => {
                &&& lhs@ matches OperandModel::Copy(p) ==> p.local.0 < frames@[current as int].locals@.len()
                &&& rhs@ matches OperandModel::Copy(q) ==> q.local.0 < frames@[current as int].locals@.len()
            },
        },
    ensures
        answer(r) == compute(machine(frames@, current as int), current as int, *value),
        r matches Ok(v) ==> value_fits(machine(frames@, current as int), v@),
{
    let ghost m = machine(frames@, current as int);
    match value {
        Rvalue::Use(from) => fetch(frames, Ghost(current as int), current, from),
        Rvalue::Address(place) => Ok(Value::Pointer { frame: current, place: place.clone() }),
        Rvalue::Unary { op, operand } => {
            match fetch_number(frames, Ghost(current as int), current, operand) {
                Err(t) => Err(t),
                Ok(n) => match apply_unary(*op, n) {
                    Err(t) => Err(t),
                    Ok(r) => Ok(Value::Int(r)),
                },
            }
        },
        Rvalue::Binary { op, lhs, rhs } => {
            match fetch_number(frames, Ghost(current as int), current, lhs) {
                Err(t) => Err(t),
                Ok(x) => match fetch_number(frames, Ghost(current as int), current, rhs) {
                    Err(t) => Err(t),
                    Ok(y) => match apply_binary(*op, x, y) {
                        Err(t) => Err(t),
                        Ok(r) => Ok(Value::Int(r)),
                    },
                },
            }
        },
    }
}


/// Two machines hold the same frames, each with the same function, block,
/// resume point, destination and caller, and the same number of slots:
/// they differ at most in what the slots hold and in which frames are live.
spec fn same_shape(a: Machine, b: Machine) -> bool {
    &&& a.frames.len() == b.frames.len()
    &&& a.current == b.current
    &&& forall|i: int|
        0 <= i < a.frames.len() ==> {
            &&& (#[trigger] a.frames[i]).locals.len() == b.frames[i].locals.len()
            &&& a.frames[i].function == b.frames[i].function
            &&& a.frames[i].block == b.frames[i].block
            &&& a.frames[i].resume == b.frames[i].resume
            &&& a.frames[i].destination == b.frames[i].destination
            &&& a.frames[i].caller == b.frames[i].caller
        }
}

/// A machine shaped like one that fits, whose every value fits, fits.
proof fn lemma_same_shape_fits(unit: TranslationUnit, a: Machine, b: Machine)
    requires
        machine_fits(unit, a),
        same_shape(a, b),
        forall|i: int, l: int|
            0 <= i < b.frames.len() && 0 <= l < b.frames[i].locals.len() ==> (
            #[trigger] b.frames[i].locals[l] matches Some(v) ==> value_fits(a, v)),
    ensures
        machine_fits(unit, b),
{
    assert forall|i: int| 0 <= i < b.frames.len() implies frame_fits(unit, b, #[trigger] b.frames[i]) by {
        assert(frame_fits(unit, a, a.frames[i]));
        let fr = b.frames[i];
        if fr.caller is Some {
            let c = fr.caller->Some_0;
            assert(a.frames[c].resume == b.frames[c].resume);
        }
    }
    assert forall|i: int, l: int|
        0 <= i < b.frames.len() && 0 <= l < b.frames[i].locals.len() implies (
        #[trigger] b.frames[i].locals[l] matches Some(v) ==> value_fits(b, v)) by {
        if b.frames[i].locals[l] is Some {
            let v = b.frames[i].locals[l]->Some_0;
            assert(value_fits(a, v));
            if v is Pointer {
                let at = v->Pointer_frame;
                assert(a.frames[at].locals.len() == b.frames[at].locals.len());
            }
        }
    }
}

/// Write `v` into local `l` of frame `f`, as [`write`] says.
fn store(frames: &mut Vec<Frame>, Ghost(unit): Ghost<TranslationUnit>, Ghost(current): Ghost<int>, f: usize, l: usize, v: Value)
    requires
        machine_fits(unit, machine(old(frames)@, current)),
        f < old(frames)@.len(),
        l < old(frames)@[f as int].locals@.len(),
        value_fits(machine(old(frames)@, current), v@),
    ensures
        machine(final(frames)@, current) == write(machine(old(frames)@, current), f as int, l as int, v@),
        machine_fits(unit, machine(final(frames)@, current)),
        final(frames)@.len() == old(frames)@.len(),
{
    let ghost before = machine(frames@, current);
    let ghost vv = v@;
    frames[f].locals.set(l, Some(v));
    proof {
        let after = machine(frames@, current);
        let expected = write(before, f as int, l as int, vv);
        assert(frames@[f as int].locals@.map_values(|o: Option<Value>| slot(o)) =~= before.frames[f as int].locals.update(
            l as int,
            Some(vv),
        ));
        assert(after.frames =~= expected.frames);
        assert forall|i: int| 0 <= i < after.frames.len() implies #[trigger] after.frames[i] == expected.frames[i] by {
            if i == f {
                assert(after.frames[i] =~= expected.frames[i]);
            }
        }
        assert(after == expected);
        assert(same_shape(before, after));
        assert forall|i: int, k: int|
            0 <= i < after.frames.len() && 0 <= k < after.frames[i].locals.len() implies (
            #[trigger] after.frames[i].locals[k] matches Some(w) ==> value_fits(before, w)) by {
            if i != f || k != l {
                assert(after.frames[i].locals[k] == before.frames[i].locals[k]);
            }
        }
        lemma_same_shape_fits(unit, before, after);
    }
}


/// Run the operations of the running frame's block, as [`perform`] says.
fn perform_all(frames: &mut Vec<Frame>, Ghost(unit): Ghost<TranslationUnit>, current: usize, ops: &Vec<Operation>) -> (r:
    Result<(), Trap>)
    requires
        machine_fits(unit, machine(old(frames)@, current as int)),
        current < old(frames)@.len(),
        forall|k: int|
            0 <= k < ops@.len() ==> operation_fits(
                function_of(unit, old(frames)@[current as int]@.function),
                #[trigger] ops@[k],
            ),
    ensures
        final(frames)@.len() == old(frames)@.len(),
        final(frames)@[current as int]@.function == old(frames)@[current as int]@.function,
        match r {
            Ok(()) => {
                &&& perform(machine(old(frames)@, current as int), ops@, 0) == Ok::<Machine, TrapModel>(
                    machine(final(frames)@, current as int),
                )
                &&& machine_fits(unit, machine(final(frames)@, current as int))
            },
            Err(t) => perform(machine(old(frames)@, current as int), ops@, 0) == Err::<Machine, TrapModel>(t@),
        },
{
    let ghost m0 = machine(frames@, current as int);
    let ghost func = function_of(unit, frames@[current as int]@.function);
    let mut i: usize = 0;
    while i < ops.len()
        invariant
            machine_fits(unit, machine(frames@, current as int)),
            current < frames@.len(),
            frames@.len() == old(frames)@.len(),
            func == function_of(unit, frames@[current as int]@.function),
            frames@[current as int]@.function == old(frames)@[current as int]@.function,
            i <= ops@.len(),
            forall|k: int| 0 <= k < ops@.len() ==> operation_fits(func, #[trigger] ops@[k]),
            m0 == machine(old(frames)@, current as int),
            perform(m0, ops@, 0) == perform(machine(frames@, current as int), ops@, i as int),
        decreases ops@.len() - i,
    {
        let ghost m = machine(frames@, current as int);
        let op = &ops[i];
        assert(operation_fits(func, ops@[i as int]));
        assert(frame_fits(unit, m, m.frames[current as int]));
        let at = op.origin.span();
        let value = match evaluate(frames, current, &op.value) {
            Err(t) => {
                return Err(t.at(at));
            },
            Ok(v) => v,
        };
        let (f, l) = match locate(frames, Ghost(current as int), current, &op.place) {
            Err(t) => {
                return Err(t.at(at));
            },
            Ok(fl) => fl,
        };
        store(frames, Ghost(unit), Ghost(current as int), f, l, value);
        assert(machine(frames@, current as int).frames[current as int].function == m.frames[current as int].function);
        i = i + 1;
    }
    Ok(())
}


/// What each value is, as the machine sees it.
pub open spec fn values(args: Seq<Value>) -> Seq<ValueModel> {
    args.map_values(|v: Value| v@)
}

spec fn caller_of(c: Option<usize>) -> Option<int> {
    match c {
        Some(c) => Some(c as int),
        None => None,
    }
}

/// A frame for a call to `id`, as [`enter`] says.
fn enter_frame(unit: &TranslationUnit, id: FuncId, args: &[Value], caller: Option<usize>) -> (r: Result<
    Frame,
    Trap,
>)
    requires
        unit_fits(*unit),
        id.0 < unit.spec_functions().len(),
    ensures
        match r {
            Ok(fr) => enter(*unit, id, values(args@), caller_of(caller)) == Ok::<FrameModel, TrapModel>(fr@),
            Err(t) => enter(*unit, id, values(args@), caller_of(caller)) == Err::<FrameModel, TrapModel>(t@),
        },
{
    let function = unit.function(id);
    assert(function_fits(*unit, unit.spec_functions()[id.0 as int]));
    if !function.is_defined() {
        return Err(Trap::new("a call to a function whose body is not in this translation unit"));
    }
    let n = function.locals();
    let ghost p = function.spec_parameters();
    let mut locals: Vec<Option<Value>> = Vec::new();
    let mut i: usize = 0;
    while i < n
        invariant
            i <= n,
            locals@.len() == i,
            forall|j: int| 0 <= j < i ==> locals@[j] is None,
        decreases n - i,
    {
        locals.push(None);
        i = i + 1;
    }
    let parameters = function.parameters();
    let mut k: usize = 0;
    while k < parameters.len() && k < args.len()
        invariant
            function.wf(),
            parameters@.len() == p,
            p + 1 <= n,
            n <= u32::MAX,
            forall|j: int| 0 <= j < parameters@.len() ==> parameters@[j] == crate::ir::LocalId((j + 1) as u32),
            k <= parameters@.len(),
            locals@.len() == n,
            forall|j: int|
                0 <= j < n ==> slot(#[trigger] locals@[j]) == (if 1 <= j <= k && j - 1 < args@.len() {
                    Some(args@[j - 1]@)
                } else {
                    None::<ValueModel>
                }),
        decreases parameters@.len() - k,
    {
        let at = parameters[k].index();
        let v = args[k].clone();
        let ghost before = locals@;
        locals.set(at, Some(v));
        assert(at == k + 1);
        assert forall|j: int| 0 <= j < n implies slot(#[trigger] locals@[j]) == (if 1 <= j <= k + 1 && j - 1
            < args@.len() {
            Some(args@[j - 1]@)
        } else {
            None::<ValueModel>
        }) by {
            if j != k + 1 {
                assert(locals@[j] == before[j]);
            }
        }
        k = k + 1;
    }
    let frame = Frame {
        function: id,
        locals,
        block: function.entry(),
        destination: None,
        resume: None,
        caller,
        live: true,
    };
    proof {
        let vs = values(args@);
        let f = function_of(*unit, id);
        assert(frame@.locals =~= Seq::new(
            f.spec_locals().len(),
            |i: int|
                if 1 <= i <= f.spec_parameters() && i - 1 < vs.len() {
                    Some(vs[i - 1])
                } else {
                    None
                },
        ));
    }
    Ok(frame)
}


/// Send frame `frame` to block `to`, as [`goto`] says.
fn jump(frames: &mut Vec<Frame>, Ghost(unit): Ghost<TranslationUnit>, Ghost(current): Ghost<int>, frame: usize, to: BlockId)
    requires
        machine_fits(unit, machine(old(frames)@, current)),
        frame < old(frames)@.len(),
        to.0 < function_of(unit, old(frames)@[frame as int]@.function).spec_blocks().len(),
    ensures
        machine(final(frames)@, current) == goto(machine(old(frames)@, current), frame as int, to),
        machine_fits(unit, machine(final(frames)@, current)),
        final(frames)@.len() == old(frames)@.len(),
{
    let ghost before = machine(frames@, current);
    frames[frame].block = to;
    proof {
        let after = machine(frames@, current);
        let expected = goto(before, frame as int, to);
        assert(after.frames =~= expected.frames) by {
            assert forall|i: int| 0 <= i < after.frames.len() implies #[trigger] after.frames[i]
                == expected.frames[i] by {
                if i == frame {
                    assert(after.frames[i] =~= expected.frames[i]);
                }
            }
        }
        assert(after == expected);
        assert forall|i: int| 0 <= i < after.frames.len() implies frame_fits(unit, after, #[trigger] after.frames[i]) by {
            assert(frame_fits(unit, before, before.frames[i]));
            if after.frames[i].caller is Some {
                let c = after.frames[i].caller->Some_0;
                assert(after.frames[c].resume == before.frames[c].resume);
            }
        }
        assert forall|i: int, l: int|
            0 <= i < after.frames.len() && 0 <= l < after.frames[i].locals.len() implies (
            #[trigger] after.frames[i].locals[l] matches Some(v) ==> value_fits(after, v)) by {
            assert(after.frames[i].locals[l] == before.frames[i].locals[l]);
            if after.frames[i].locals[l] is Some {
                let v = after.frames[i].locals[l]->Some_0;
                assert(value_fits(before, v));
                if v is Pointer {
                    let at = v->Pointer_frame;
                    assert(after.frames[at].locals.len() == before.frames[at].locals.len());
                }
            }
        }
    }
}

/// What a terminator did: the run goes on in this frame, or it is over.
enum Flow {
    Continue(usize),
    Finish(Result<Value, Trap>),
}

/// The terminator's verdict, as [`terminate`] says it.
spec fn flowed(unit: TranslationUnit, before: Machine, t: Terminator, r: Flow, after: Seq<Frame>) -> bool {
    match r {
        Flow::Continue(next) => {
            &&& terminate(unit, before, t) == Next::Running(machine(after, next as int))
            &&& machine_fits(unit, machine(after, next as int))
        },
        Flow::Finish(res) => terminate(unit, before, t) == Next::Finished(answer(res)),
    }
}

/// An operand reads only locals below `n`.
spec fn reads_within(o: OperandModel, n: nat) -> bool {
    match o {
        OperandModel::Copy(p) => p.local.0 < n,
        OperandModel::Constant(_) => true,
    }
}

/// Read every argument of a call, as [`read_all`] says.
fn fetch_all(frames: &Vec<Frame>, current: usize, arguments: &Vec<Operand>) -> (r: Result<Vec<Value>, Trap>)
    requires
        values_fit(machine(frames@, current as int)),
        current < frames@.len(),
        forall|k: int|
            0 <= k < arguments@.len() ==> reads_within((#[trigger] arguments@[k])@, frames@[current as int].locals@.len()),
    ensures
        match r {
            Ok(passed) => {
                &&& read_all(machine(frames@, current as int), current as int, arguments@, 0) == Ok::<
                    Seq<ValueModel>,
                    TrapModel,
                >(values(passed@))
                &&& forall|j: int|
                    0 <= j < passed@.len() ==> value_fits(machine(frames@, current as int), #[trigger] passed@[j]@)
            },
            Err(t) => read_all(machine(frames@, current as int), current as int, arguments@, 0) == Err::<
                Seq<ValueModel>,
                TrapModel,
            >(t@),
        },
{
    let ghost m = machine(frames@, current as int);
    let mut passed: Vec<Value> = Vec::new();
    let mut k: usize = 0;
    while k < arguments.len()
        invariant
            m == machine(frames@, current as int),
            values_fit(m),
            current < frames@.len(),
            forall|k: int|
                0 <= k < arguments@.len() ==> reads_within(
                    (#[trigger] arguments@[k])@,
                    frames@[current as int].locals@.len(),
                ),
            k <= arguments@.len(),
            passed@.len() == k,
            forall|j: int| 0 <= j < passed@.len() ==> value_fits(m, #[trigger] passed@[j]@),
            read_all(m, current as int, arguments@, 0) == match read_all(m, current as int, arguments@, k as int) {
                Ok(rest) => Ok::<Seq<ValueModel>, TrapModel>(values(passed@) + rest),
                Err(e) => Err(e),
            },
        decreases arguments@.len() - k,
    {
        let ghost before = passed@;
        let v = match fetch(frames, Ghost(current as int), current, &arguments[k]) {
            Err(t) => {
                return Err(t);
            },
            Ok(v) => v,
        };
        passed.push(v);
        proof {
            assert(values(passed@) =~= values(before).push(passed@[k as int]@));
            match read_all(m, current as int, arguments@, k + 1) {
                Ok(rest) => {
                    assert(values(passed@) + rest =~= values(before) + (seq![passed@[k as int]@] + rest));
                },
                Err(e) => {},
            }
        }
        k = k + 1;
    }
    proof {
        assert(values(passed@) + Seq::<ValueModel>::empty() =~= values(passed@));
    }
    Ok(passed)
}


/// A value that fits a machine fits one with the same frames and more after
/// them.
proof fn lemma_fits_grown(a: Machine, b: Machine, v: ValueModel)
    requires
        value_fits(a, v),
        a.frames.len() <= b.frames.len(),
        forall|i: int| 0 <= i < a.frames.len() ==> (#[trigger] b.frames[i]).locals.len() == a.frames[i].locals.len(),
    ensures
        value_fits(b, v),
{
    if v is Pointer {
        let at = v->Pointer_frame;
        assert(b.frames[at].locals.len() == a.frames[at].locals.len());
    }
}

/// Enter the callee of a call, as [`terminate`] says of one.
fn call_into(unit: &TranslationUnit, frames: &mut Vec<Frame>, current: usize, t: &Terminator) -> (r: Flow)
    requires
        machine_fits(*unit, machine(old(frames)@, current as int)),
        current < old(frames)@.len(),
        t is Call,
        terminator_fits(*unit, function_of(*unit, old(frames)@[current as int]@.function), *t),
    ensures
        flowed(*unit, machine(old(frames)@, current as int), *t, r, final(frames)@),
{
    let ghost m = machine(frames@, current as int);
    let ghost func = function_of(*unit, frames@[current as int]@.function);
    proof {
        assert(frame_fits(*unit, m, m.frames[current as int]));
    }
    match t {
        Terminator::Call { callee, arguments, destination, then, origin } => {
            let at = origin.span();
            proof {
                assert forall|k: int| 0 <= k < arguments@.len() implies reads_within(
                    (#[trigger] arguments@[k])@,
                    frames@[current as int].locals@.len(),
                ) by {
                    assert(operand_fits(func, arguments@[k]@));
                }
            }
            let passed = match fetch_all(frames, current, arguments) {
                Err(e) => {
                    return Flow::Finish(Err(e.at(at)));
                },
                Ok(p) => p,
            };
            let dest: Option<Place> = match destination {
                Some(p) => Some(p.clone()),
                None => None,
            };
            assert(where_to(dest) == where_to(*destination));
            frames[current].destination = dest;
            frames[current].resume = Some(*then);
            let ghost waiting = FrameModel {
                destination: where_to(*destination),
                resume: Some(*then),
                ..m.frames[current as int]
            };
            let ghost mid = m.frames.update(current as int, waiting);
            proof {
                assert(machine(frames@, current as int).frames =~= mid) by {
                    assert forall|i: int| 0 <= i < mid.len() implies #[trigger] machine(
                        frames@,
                        current as int,
                    ).frames[i] == mid[i] by {
                        if i == current {
                            assert(machine(frames@, current as int).frames[i] =~= mid[i]);
                        }
                    }
                }
            }
            if frames.len() >= MAX_FRAMES {
                return Flow::Finish(Err(Trap::new("a call stack deeper than 65536 frames").at(at)));
            }
            match enter_frame(unit, *callee, passed.as_slice(), Some(current)) {
                Err(e) => Flow::Finish(Err(e.at(at))),
                Ok(fr) => {
                    let ghost callee_frame = fr@;
                    frames.push(fr);
                    let next = frames.len() - 1;
                    proof {
                        let after = machine(frames@, next as int);
                        assert(after.frames =~= mid.push(callee_frame));
                        assert forall|i: int| 0 <= i < after.frames.len() implies frame_fits(
                            *unit,
                            after,
                            #[trigger] after.frames[i],
                        ) by {
                            if i < m.frames.len() {
                                assert(frame_fits(*unit, m, m.frames[i]));
                                if after.frames[i].caller is Some {
                                    let c = after.frames[i].caller->Some_0;
                                    if c != current {
                                        assert(after.frames[c].resume == m.frames[c].resume);
                                    }
                                }
                            }
                        }
                        assert forall|i: int, l: int|
                            0 <= i < after.frames.len() && 0 <= l < after.frames[i].locals.len() implies (
                            #[trigger] after.frames[i].locals[l] matches Some(v) ==> value_fits(after, v)) by {
                            if after.frames[i].locals[l] is Some {
                                let v = after.frames[i].locals[l]->Some_0;
                                if i < m.frames.len() {
                                    assert(after.frames[i].locals[l] == m.frames[i].locals[l]);
                                    assert(value_fits(m, v));
                                } else {
                                    let j = l - 1;
                                    assert(v == values(passed@)[j]);
                                    assert(value_fits(m, passed@[j]@));
                                }
                                lemma_fits_grown(m, after, v);
                            }
                        }
                    }
                    Flow::Continue(next)
                },
            }
        },
        _ => {
            proof {
                assert(false);
            }
            Flow::Continue(current)
        },
    }
}


/// Leave the running frame, as [`terminate`] says of a return.
fn return_from(unit: &TranslationUnit, frames: &mut Vec<Frame>, current: usize, t: &Terminator) -> (r: Flow)
    requires
        machine_fits(*unit, machine(old(frames)@, current as int)),
        current < old(frames)@.len(),
        *t is Return,
    ensures
        flowed(*unit, machine(old(frames)@, current as int), *t, r, final(frames)@),
{
    let ghost m = machine(frames@, current as int);
    proof {
        let fr = m.frames[current as int];
        assert(frame_fits(*unit, m, fr));
        assert(function_fits(*unit, unit.spec_functions()[fr.function.0 as int]));
    }
    let answer: Option<Value> = match &frames[current].locals[0] {
        Some(v) => Some(v.clone()),
        None => None,
    };
    assert(slot(answer) == m.frames[current as int].locals[0]);
    frames[current].live = false;
    let ghost done = Machine {
        frames: m.frames.update(current as int, FrameModel { live: false, ..m.frames[current as int] }),
        current: current as int,
    };
    proof {
        let after = machine(frames@, current as int);
        assert(after.frames =~= done.frames) by {
            assert forall|i: int| 0 <= i < done.frames.len() implies #[trigger] after.frames[i] == done.frames[i] by {
                if i == current {
                    assert(after.frames[i] =~= done.frames[i]);
                }
            }
        }
        assert(after == done);
        assert(same_shape(m, done));
        assert forall|i: int, l: int|
            0 <= i < done.frames.len() && 0 <= l < done.frames[i].locals.len() implies (
            #[trigger] done.frames[i].locals[l] matches Some(v) ==> value_fits(m, v)) by {
            assert(done.frames[i].locals[l] == m.frames[i].locals[l]);
        }
        lemma_same_shape_fits(*unit, m, done);
        if answer is Some {
            assert(value_fits(m, answer->Some_0@));
            lemma_fits_grown(m, done, answer->Some_0@);
        }
    }
    match frames[current].caller {
        None => match answer {
            Some(v) => Flow::Finish(Ok(v)),
            None => Flow::Finish(Err(Trap::new("a function returned without writing its return place"))),
        },
        Some(below) => {
            let dest: Option<Place> = match &frames[below].destination {
                Some(p) => Some(p.clone()),
                None => None,
            };
            assert(where_to(dest) == done.frames[below as int].destination);
            assert(frame_fits(*unit, done, done.frames[below as int]));
            let ghost mm = done;
            match dest {
                None => {},
                Some(d) => {
                    let v = match answer {
                        None => {
                            return Flow::Finish(
                                Err(Trap::new("a function returned without writing its return place")),
                            );
                        },
                        Some(v) => v,
                    };
                    let (f, l) = match locate(frames, Ghost(current as int), below, &d) {
                        Err(e) => {
                            return Flow::Finish(Err(e));
                        },
                        Ok(fl) => fl,
                    };
                    store(frames, Ghost(*unit), Ghost(current as int), f, l, v);
                    proof {
                        mm = machine(frames@, current as int);
                    }
                },
            }
            assert(mm == machine(frames@, current as int));
            assert(mm.frames[below as int].resume == done.frames[below as int].resume);
            assert(frame_fits(*unit, mm, mm.frames[below as int]));
            let to = frames[below].resume.unwrap();
            jump(frames, Ghost(*unit), Ghost(current as int), below, to);
            proof {
                let after = machine(frames@, below as int);
                assert(after.frames == machine(frames@, current as int).frames);
                assert forall|i: int| 0 <= i < after.frames.len() implies frame_fits(
                    *unit,
                    after,
                    #[trigger] after.frames[i],
                ) by {
                    assert(frame_fits(*unit, machine(frames@, current as int), after.frames[i]));
                }
            }
            Flow::Continue(below)
        },
    }
}


/// Where the running frame's terminator takes the run, as [`terminate`] says.
fn transfer(unit: &TranslationUnit, frames: &mut Vec<Frame>, current: usize, t: &Terminator) -> (r: Flow)
    requires
        machine_fits(*unit, machine(old(frames)@, current as int)),
        current < old(frames)@.len(),
        terminator_fits(*unit, function_of(*unit, old(frames)@[current as int]@.function), *t),
    ensures
        flowed(*unit, machine(old(frames)@, current as int), *t, r, final(frames)@),
{
    let ghost m = machine(frames@, current as int);
    proof {
        assert(frame_fits(*unit, m, m.frames[current as int]));
    }
    match t {
        Terminator::Goto(to) => {
            jump(frames, Ghost(*unit), Ghost(current as int), current, *to);
            Flow::Continue(current)
        },
        Terminator::Branch { condition, then, otherwise } => {
            match fetch(frames, Ghost(current as int), current, condition) {
                Err(e) => Flow::Finish(Err(e)),
                Ok(Value::Int(n)) => {
                    let to = if n == 0 {
                        *otherwise
                    } else {
                        *then
                    };
                    jump(frames, Ghost(*unit), Ghost(current as int), current, to);
                    Flow::Continue(current)
                },
                Ok(Value::Pointer { .. }) => Flow::Finish(
                    Err(Trap::new("a branch on a pointer, which needs a width")),
                ),
            }
        },
        Terminator::Call { .. } => call_into(unit, frames, current, t),
        Terminator::Return => return_from(unit, frames, current, t),
        Terminator::Abnormal { .. } => Flow::Finish(
            Err(Trap::new("an edge no statement produced, which nothing builds yet")),
        ),
    }
}

/// Run one block of the running frame, as [`step`] says.
fn step_block(unit: &TranslationUnit, frames: &mut Vec<Frame>, current: usize) -> (r: Flow)
    requires
        machine_fits(*unit, machine(old(frames)@, current as int)),
        current < old(frames)@.len(),
    ensures
        match r {
            Flow::Continue(next) => {
                &&& step(*unit, machine(old(frames)@, current as int)) == Next::Running(machine(final(frames)@, next as int))
                &&& machine_fits(*unit, machine(final(frames)@, next as int))
                &&& next < final(frames)@.len()
            },
            Flow::Finish(res) => step(*unit, machine(old(frames)@, current as int)) == Next::Finished(answer(res)),
        },
{
    let ghost m = machine(frames@, current as int);
    let ghost fr = m.frames[current as int];
    proof {
        assert(frame_fits(*unit, m, fr));
        assert(function_fits(*unit, unit.spec_functions()[fr.function.0 as int]));
    }
    let function = unit.function(frames[current].function);
    let block = function.block(frames[current].block);
    proof {
        let b = block_of(function_of(*unit, fr.function), fr.block);
        assert(*block == b);
        assert(forall|k: int| 0 <= k < b.operations@.len() ==> operation_fits(function_of(*unit, fr.function), #[trigger] b.operations@[k]));
    }
    match perform_all(frames, Ghost(*unit), current, &block.operations) {
        Err(t) => {
            return Flow::Finish(Err(t));
        },
        Ok(()) => {},
    }
    transfer(unit, frames, current, &block.terminator)
}

/// An argument to a run either is a number or points at a local of the
/// frame the run begins with.
pub open spec fn argument_fits(unit: TranslationUnit, entry: FuncId, v: ValueModel) -> bool {
    match v {
        ValueModel::Int(_) => true,
        ValueModel::Pointer { frame, place } => frame == 0 && place.local.0 < function_of(
            unit,
            entry,
        ).spec_locals().len(),
    }
}

/// Run `entry`, and answer what it returned.
///
/// The arguments are bound to the entry function's parameters in order; a
/// program's `main` takes none. What comes back is the value in the return
/// place, or the reason the run stopped: exactly what [`outcome`] says.
pub fn run(unit: &TranslationUnit, entry: FuncId, arguments: &[Value]) -> (r: Result<Value, Trap>)
    requires
        unit_fits(*unit),
        entry.0 < unit.spec_functions().len(),
        forall|i: int|
            0 <= i < arguments@.len() && i < function_of(*unit, entry).spec_parameters() ==> argument_fits(
                *unit,
                entry,
                #[trigger] arguments@[i]@,
            ),
    ensures
        answer(r) == outcome(*unit, entry, values(arguments@)),
{
    let first = match enter_frame(unit, entry, arguments, None) {
        Err(t) => {
            return Err(t);
        },
        Ok(f) => f,
    };
    let ghost start = first@;
    let mut frames: Vec<Frame> = Vec::new();
    frames.push(first);
    let mut current: usize = 0;
    let mut fuel: u64 = MAX_STEPS;
    proof {
        let m = machine(frames@, 0);
        assert(m.frames =~= seq![start]);
        assert(function_fits(*unit, unit.spec_functions()[entry.0 as int]));
        assert(frame_fits(*unit, m, m.frames[0]));
        assert forall|i: int, l: int|
            0 <= i < m.frames.len() && 0 <= l < m.frames[i].locals.len() implies (
            #[trigger] m.frames[i].locals[l] matches Some(v) ==> value_fits(m, v)) by {
            if m.frames[i].locals[l] is Some {
                assert(argument_fits(*unit, entry, arguments@[l - 1]@));
            }
        }
    }
    loop
        invariant
            machine_fits(*unit, machine(frames@, current as int)),
            current < frames@.len(),
            outcome(*unit, entry, values(arguments@)) == finish(*unit, machine(frames@, current as int), fuel as nat),
        decreases fuel,
    {
        if fuel == 0 {
            return Err(Trap::new("a run longer than 18446744073709551615 blocks"));
        }
        match step_block(unit, &mut frames, current) {
            Flow::Finish(res) => {
                return res;
            },
            Flow::Continue(next) => {
                current = next;
            },
        }
        fuel = fuel - 1;
    }
}


// ---------------------------------------------------------------------------
// What every run keeps.
// ---------------------------------------------------------------------------

/// Running operations makes no frame, drops none, and brings none back, and
/// changes nothing but what locals hold.
proof fn lemma_perform_keeps_frames(m: Machine, ops: Seq<Operation>, k: int)
    requires
        perform(m, ops, k) is Ok,
    ensures
        same_shape(m, perform(m, ops, k)->Ok_0),
        forall|i: int|
            0 <= i < m.frames.len() ==> (#[trigger] perform(m, ops, k)->Ok_0.frames[i]).live
                == m.frames[i].live,
    decreases ops.len() - k,
{
    if 0 <= k < ops.len() {
        let op = ops[k];
        match compute(m, m.current, op.value) {
            Err(t) => {},
            Ok(v) => match resolve_place(m, m.current, op.place@) {
                Err(t) => {},
                Ok((f, l)) => {
                    let w = write(m, f, l, v);
                    lemma_perform_keeps_frames(w, ops, k + 1);
                    let r = perform(w, ops, k + 1)->Ok_0;
                    assert(same_shape(m, w));
                    assert forall|i: int| 0 <= i < m.frames.len() implies (#[trigger] r.frames[i]).live
                        == m.frames[i].live by {
                        assert(r.frames[i].live == w.frames[i].live);
                    }
                    assert forall|i: int| 0 <= i < m.frames.len() implies {
                        &&& (#[trigger] m.frames[i]).locals.len() == r.frames[i].locals.len()
                        &&& m.frames[i].function == r.frames[i].function
                        &&& m.frames[i].block == r.frames[i].block
                        &&& m.frames[i].resume == r.frames[i].resume
                        &&& m.frames[i].destination == r.frames[i].destination
                        &&& m.frames[i].caller == r.frames[i].caller
                    } by {
                        assert(w.frames[i].locals.len() == r.frames[i].locals.len());
                    }
                },
            },
        }
    } else {
        assert(same_shape(m, m));
    }
}

/// A caller, where there is one, is a frame of `n`.
spec fn caller_within(c: Option<int>, n: nat) -> bool {
    match c {
        Some(c) => 0 <= c < n,
        None => true,
    }
}

/// Every frame's caller is a frame of the machine.
spec fn callers_exist(m: Machine) -> bool {
    forall|i: int| 0 <= i < m.frames.len() ==> caller_within((#[trigger] m.frames[i]).caller, m.frames.len())
}

/// What the terminator of a block does to the frames: it keeps every frame,
/// adds at most one and only below [`MAX_FRAMES`], and the only frame it
/// marks returned is the running one.
proof fn lemma_terminate_keeps_frames(unit: TranslationUnit, m: Machine, t: Terminator)
    requires
        0 <= m.current < m.frames.len(),
        callers_exist(m),
        terminate(unit, m, t) is Running,
    ensures
        m.frames.len() <= terminate(unit, m, t)->Running_0.frames.len(),
        terminate(unit, m, t)->Running_0.frames.len() <= m.frames.len() || terminate(
            unit,
            m,
            t,
        )->Running_0.frames.len() == m.frames.len() + 1 <= MAX_FRAMES,
        forall|i: int|
            0 <= i < m.frames.len() && !m.frames[i].live ==> !(#[trigger] terminate(
                unit,
                m,
                t,
            )->Running_0.frames[i]).live,
{
    let cur = m.current;
    assert(caller_within(m.frames[cur].caller, m.frames.len()));
}

/// A frame is kept after it returns: no block of a run removes a frame, and
/// a frame that has returned stays returned, so a pointer into it is caught
/// however long the run goes on.
pub proof fn law_returned_frames_stay_returned(unit: TranslationUnit, m: Machine, i: int)
    requires
        machine_fits(unit, m),
        step(unit, m) is Running,
        0 <= i < m.frames.len(),
        !m.frames[i].live,
    ensures
        m.frames.len() <= step(unit, m)->Running_0.frames.len(),
        !step(unit, m)->Running_0.frames[i].live,
{
    let fr = m.frames[m.current];
    let block = block_of(function_of(unit, fr.function), fr.block);
    lemma_perform_keeps_frames(m, block.operations@, 0);
    let after = perform(m, block.operations@, 0)->Ok_0;
    assert forall|j: int| 0 <= j < after.frames.len() implies caller_within(
        (#[trigger] after.frames[j]).caller,
        after.frames.len(),
    ) by {
        assert(frame_fits(unit, m, m.frames[j]));
    }
    lemma_terminate_keeps_frames(unit, after, block.terminator);
}

/// A run never holds more than [`MAX_FRAMES`] frames: a call that would make
/// one more stops the run instead.
pub proof fn law_frames_are_bounded(unit: TranslationUnit, m: Machine)
    requires
        machine_fits(unit, m),
        step(unit, m) is Running,
        m.frames.len() <= MAX_FRAMES,
    ensures
        step(unit, m)->Running_0.frames.len() <= MAX_FRAMES,
{
    let fr = m.frames[m.current];
    let block = block_of(function_of(unit, fr.function), fr.block);
    lemma_perform_keeps_frames(m, block.operations@, 0);
    let after = perform(m, block.operations@, 0)->Ok_0;
    assert forall|j: int| 0 <= j < after.frames.len() implies caller_within(
        (#[trigger] after.frames[j]).caller,
        after.frames.len(),
    ) by {
        assert(frame_fits(unit, m, m.frames[j]));
    }
    lemma_terminate_keeps_frames(unit, after, block.terminator);
}

/// A read through a pointer into a frame that has returned is reported, never
/// answered.
pub proof fn law_no_read_after_return(m: Machine, frame: int, local: int, steps: Seq<Step>, chain: Seq<(int, int)>)
    requires
        steps.len() > 0,
        steps[0] == Step::Deref,
        m.frames[frame].locals[local] matches Some(ValueModel::Pointer { frame: at, place }) && !m.frames[at].live,
    ensures
        resolve(m, frame, local, steps, chain) == Err::<(int, int), TrapModel>(stop(returned())),
{
}

/// What C leaves undefined stops the run: a division or remainder by zero, and
/// a result that does not fit.
pub proof fn law_undefined_arithmetic_stops(x: i128, y: i128)
    ensures
        binary(BinOp::Div, x, 0) == Err::<i128, TrapModel>(stop(division_by_zero())),
        binary(BinOp::Rem, x, 0) == Err::<i128, TrapModel>(stop(remainder_by_zero())),
        x + y > i128::MAX ==> binary(BinOp::Add, x, y) == Err::<i128, TrapModel>(stop(overflow())),
        x * y < i128::MIN ==> binary(BinOp::Mul, x, y) == Err::<i128, TrapModel>(stop(overflow())),
        binary(BinOp::Div, i128::MIN, -1i128) is Err,
{
}

/// Addition, subtraction and multiplication answer the exact result wherever
/// it fits; a shift by a negative amount or by the width or more stops the
/// run; `!` answers 1 for 0 and 0 for anything else; negation answers the
/// negated number wherever it fits.
pub proof fn law_arithmetic_answers_exact_results(x: i128, y: i128)
    ensures
        i128::MIN <= x + y <= i128::MAX ==> binary(BinOp::Add, x, y) == Ok::<i128, TrapModel>((x + y) as i128),
        i128::MIN <= x - y <= i128::MAX ==> binary(BinOp::Sub, x, y) == Ok::<i128, TrapModel>((x - y) as i128),
        i128::MIN <= x * y <= i128::MAX ==> binary(BinOp::Mul, x, y) == Ok::<i128, TrapModel>((x * y) as i128),
        x - y > i128::MAX ==> binary(BinOp::Sub, x, y) == Err::<i128, TrapModel>(stop(overflow())),
        y < 0 || y >= 128 ==> binary(BinOp::Shl, x, y) == Err::<i128, TrapModel>(stop(bad_shift())),
        y < 0 || y >= 128 ==> binary(BinOp::Shr, x, y) == Err::<i128, TrapModel>(stop(bad_shift())),
        unary(UnOp::Not, x) == Ok::<i128, TrapModel>(if x == 0 { 1 } else { 0 }),
        x != i128::MIN ==> unary(UnOp::Neg, x) == Ok::<i128, TrapModel>((-x) as i128),
        unary(UnOp::Neg, i128::MIN) == Err::<i128, TrapModel>(stop(negation_overflow())),
{
}

/// Division and remainder truncate toward zero, as C17 6.5.5 p6 says: the
/// quotient times the divisor plus the remainder is the dividend, the
/// remainder is smaller than the divisor, and it has the dividend's sign.
pub proof fn law_division_truncates_toward_zero(x: i128, y: i128)
    requires
        y != 0,
        !(x == i128::MIN && y == -1),
    ensures
        binary(BinOp::Div, x, y) is Ok,
        binary(BinOp::Rem, x, y) is Ok,
        binary(BinOp::Div, x, y)->Ok_0 * y + binary(BinOp::Rem, x, y)->Ok_0 == x,
        y > 0 ==> -y < binary(BinOp::Rem, x, y)->Ok_0 < y,
        y < 0 ==> y < binary(BinOp::Rem, x, y)->Ok_0 < -y,
        x >= 0 ==> binary(BinOp::Rem, x, y)->Ok_0 >= 0,
        x <= 0 ==> binary(BinOp::Rem, x, y)->Ok_0 <= 0,
{
    let a = x as int;
    let d = y as int;
    let q = binary(BinOp::Div, x, y)->Ok_0 as int;
    let r = binary(BinOp::Rem, x, y)->Ok_0 as int;
    if a > 0 && d > 0 {
        vstd::arithmetic::div_mod::lemma_fundamental_div_mod(a, d);
        vstd::arithmetic::div_mod::lemma_mod_bound(a, d);
        vstd::arithmetic::div_mod::lemma_div_pos_is_pos(a, d);
        vstd::arithmetic::div_mod::lemma_div_is_ordered_by_denominator(a, 1, d);
        assert(q == a / d && r == a % d);
        assert(q * d + r == a) by (nonlinear_arith)
            requires
                a == d * (a / d) + a % d,
                q == a / d,
                r == a % d,
        ;
    } else if a < 0 && d < 0 {
        vstd::arithmetic::div_mod::lemma_fundamental_div_mod(-a, -d);
        vstd::arithmetic::div_mod::lemma_mod_bound(-a, -d);
        vstd::arithmetic::div_mod::lemma_div_pos_is_pos(-a, -d);
        vstd::arithmetic::div_mod::lemma_div_is_ordered_by_denominator(-a, 1, -d);
        if d < -1 {
            vstd::arithmetic::div_mod::lemma_div_is_ordered_by_denominator(-a, 2, -d);
        }
        assert(q == (-a) / (-d) && r == -((-a) % (-d)));
        assert(q * d + r == a) by (nonlinear_arith)
            requires
                -a == (-d) * ((-a) / (-d)) + (-a) % (-d),
                q == (-a) / (-d),
                r == -((-a) % (-d)),
        ;
    } else if a < 0 && d > 0 {
        vstd::arithmetic::div_mod::lemma_fundamental_div_mod(-a, d);
        vstd::arithmetic::div_mod::lemma_mod_bound(-a, d);
        vstd::arithmetic::div_mod::lemma_div_pos_is_pos(-a, d);
        vstd::arithmetic::div_mod::lemma_div_is_ordered_by_denominator(-a, 1, d);
        assert(q == -((-a) / d) && r == -((-a) % d));
        assert(q * d + r == a) by (nonlinear_arith)
            requires
                -a == d * ((-a) / d) + (-a) % d,
                q == -((-a) / d),
                r == -((-a) % d),
        ;
    } else if a > 0 && d < 0 {
        vstd::arithmetic::div_mod::lemma_fundamental_div_mod(a, -d);
        vstd::arithmetic::div_mod::lemma_mod_bound(a, -d);
        vstd::arithmetic::div_mod::lemma_div_pos_is_pos(a, -d);
        vstd::arithmetic::div_mod::lemma_div_is_ordered_by_denominator(a, 1, -d);
        assert(q == -(a / (-d)) && r == a % (-d));
        assert(q * d + r == a) by (nonlinear_arith)
            requires
                a == (-d) * (a / (-d)) + a % (-d),
                q == -(a / (-d)),
                r == a % (-d),
        ;
    }
}

/// Each comparison answers C's truth value: 1 where the comparison holds of the
/// two numbers and 0 where it does not, and never stops the run. So a number is
/// at least, at most and equal to itself, and neither less nor greater.
pub proof fn law_comparisons_answer_truth(x: i128, y: i128)
    ensures
        binary(BinOp::Lt, x, y) == Ok::<i128, TrapModel>(if x < y { 1 } else { 0 }),
        binary(BinOp::Gt, x, y) == Ok::<i128, TrapModel>(if x > y { 1 } else { 0 }),
        binary(BinOp::Le, x, y) == Ok::<i128, TrapModel>(if x <= y { 1 } else { 0 }),
        binary(BinOp::Ge, x, y) == Ok::<i128, TrapModel>(if x >= y { 1 } else { 0 }),
        binary(BinOp::Eq, x, y) == Ok::<i128, TrapModel>(if x == y { 1 } else { 0 }),
        binary(BinOp::Ne, x, y) == Ok::<i128, TrapModel>(if x != y { 1 } else { 0 }),
        binary(BinOp::Ge, x, x) == Ok::<i128, TrapModel>(1),
        binary(BinOp::Le, x, x) == Ok::<i128, TrapModel>(1),
        binary(BinOp::Eq, x, x) == Ok::<i128, TrapModel>(1),
        binary(BinOp::Lt, x, x) == Ok::<i128, TrapModel>(0),
        binary(BinOp::Gt, x, x) == Ok::<i128, TrapModel>(0),
        binary(BinOp::Ne, x, x) == Ok::<i128, TrapModel>(0),
{
}

} // verus!
