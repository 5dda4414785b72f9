//! The Safety IR: what every analysis walks and every backend reads.
//!
//! **An operation writes to a place; it does not define a value.** The
//! analyses this project exists to write ask "is this place still allocated"
//! and "who is responsible for it", which are questions about places.
//!
//! **A block ends with a terminator, and a call is one**, because control can
//! leave a function abnormally where a callee is entered.
use vstd::prelude::*;

use crate::source::Span;

verus! {

/// Which function, within one [`TranslationUnit`].
#[derive(Clone, Copy, Debug, PartialEq, Eq, Hash, Structural)]
pub struct FuncId(pub u32);

/// Which type, within one [`TranslationUnit`]. Two are equal exactly when the
/// types are the same.
#[derive(Clone, Copy, Debug, PartialEq, Eq, Hash, Structural)]
pub struct TyId(pub u32);

/// Which block, within one [`Function`].
#[derive(Clone, Copy, Debug, PartialEq, Eq, Hash, Structural)]
pub struct BlockId(pub u32);

/// Which local, within one [`Function`].
#[derive(Clone, Copy, Debug, PartialEq, Eq, Hash, Structural)]
pub struct LocalId(pub u32);

impl LocalId {
    /// The index this handle refers to, for a side table with a slot per
    /// local.
    pub fn index(self) -> (r: usize)
        ensures
            r == self.0,
    {
        self.0 as usize
    }
}

impl BlockId {
    /// The index this handle refers to, for a side table with a slot per
    /// block.
    pub fn index(self) -> (r: usize)
        ensures
            r == self.0,
    {
        self.0 as usize
    }
}

impl FuncId {
    /// The index this handle refers to.
    pub fn index(self) -> (r: usize)
        ensures
            r == self.0,
    {
        self.0 as usize
    }
}

/// A type, as the IR holds one. No widths: an `Int` is C's `int`.
#[derive(Clone, Copy, Debug, PartialEq, Eq, Hash, Structural)]
pub enum Ty {
    /// `int`.
    Int,
    /// `char`.
    Char,
    /// `void`.
    Void,
    /// A pointer to the type this id names.
    Pointer(TyId),
}

/// A step from a local towards the thing an operation means.
#[derive(Debug, PartialEq, Eq)]
pub enum Projection {
    /// What the pointer points at.
    Deref,
    /// The element this operand selects.
    Index(Operand),
}

/// Somewhere a value can be read from or written to: a local, and how to get
/// from there to what is meant. `p` and `*p` are two places.
#[derive(Debug, PartialEq, Eq)]
pub struct Place {
    /// Where it starts.
    pub local: LocalId,
    /// How to get from there to what is meant. Empty is the local itself.
    pub projection: Vec<Projection>,
}

/// What an operation reads.
#[derive(Debug, PartialEq, Eq)]
pub enum Operand {
    /// The value held in a place.
    Copy(Place),
    /// A constant, as the source wrote it.
    Constant(i128),
}

/// A [`Projection`] as a walk along a place sees it: a dereference, or an
/// index by what its operand reads.
pub ghost enum Step {
    Deref,
    Index(OperandModel),
}

/// A [`Place`] as the walk along it sees it: where it starts, and every step
/// it takes.
pub ghost struct PlaceModel {
    pub local: LocalId,
    pub steps: Seq<Step>,
}

/// An [`Operand`] as a reader of it sees it.
pub ghost enum OperandModel {
    Copy(PlaceModel),
    Constant(i128),
}

/// The step a projection is.
pub open spec fn step_of(p: Projection) -> Step
    decreases p,
{
    match p {
        Projection::Deref => Step::Deref,
        Projection::Index(o) => Step::Index(operand_model(o)),
    }
}

/// What an operand reads, as a reader of it sees it.
pub open spec fn operand_model(o: Operand) -> OperandModel
    decreases o,
{
    match o {
        Operand::Copy(p) => OperandModel::Copy(place_model(p)),
        Operand::Constant(c) => OperandModel::Constant(c),
    }
}

/// Where a place starts and every step it takes.
pub open spec fn place_model(p: Place) -> PlaceModel
    decreases p,
{
    PlaceModel { local: p.local, steps: steps_of(p.projection@) }
}

/// The steps of `ps`, in order.
pub open spec fn steps_of(ps: Seq<Projection>) -> Seq<Step>
    decreases ps,
{
    if ps.len() == 0 {
        Seq::empty()
    } else {
        steps_of(ps.subrange(0, ps.len() - 1)).push(step_of(ps[ps.len() - 1]))
    }
}

/// The steps of a sequence of projections are its projections' steps, one
/// for one.
pub proof fn lemma_steps_of(ps: Seq<Projection>)
    ensures
        steps_of(ps).len() == ps.len(),
        forall|i: int| 0 <= i < ps.len() ==> #[trigger] steps_of(ps)[i] == step_of(ps[i]),
    decreases ps.len(),
{
    if ps.len() > 0 {
        let front = ps.subrange(0, ps.len() - 1);
        lemma_steps_of(front);
        assert forall|i: int| 0 <= i < ps.len() implies #[trigger] steps_of(ps)[i] == step_of(ps[i]) by {
            if i < ps.len() - 1 {
                assert(front[i] == ps[i]);
            }
        }
    }
}

impl View for Place {
    type V = PlaceModel;

    open spec fn view(&self) -> PlaceModel {
        place_model(*self)
    }
}

impl View for Operand {
    type V = OperandModel;

    open spec fn view(&self) -> OperandModel {
        operand_model(*self)
    }
}

/// Two projections are the same step: both dereferences, or both indexes by
/// operands that read the same.
pub open spec fn same_projection(a: Projection, b: Projection) -> bool {
    step_of(a) == step_of(b)
}

/// Two places start at the same local and take the same steps.
pub open spec fn same_place(a: Place, b: Place) -> bool {
    a@ == b@
}

fn copy_operand(o: &Operand) -> (r: Operand)
    ensures
        r@ == o@,
    decreases o,
{
    match o {
        Operand::Copy(p) => Operand::Copy(copy_place(p)),
        Operand::Constant(c) => Operand::Constant(*c),
    }
}

fn copy_projection(x: &Projection) -> (r: Projection)
    ensures
        same_projection(r, *x),
    decreases x,
{
    match x {
        Projection::Deref => Projection::Deref,
        Projection::Index(o) => Projection::Index(copy_operand(o)),
    }
}

fn copy_place(p: &Place) -> (r: Place)
    ensures
        same_place(r, *p),
    decreases p,
{
    let mut out: Vec<Projection> = Vec::new();
    let mut i: usize = 0;
    while i < p.projection.len()
        invariant
            i <= p.projection@.len(),
            out@.len() == i,
            forall|k: int| 0 <= k < i ==> #[trigger] same_projection(out@[k], p.projection@[k]),
        decreases p.projection@.len() - i,
    {
        proof {
            vstd::std_specs::vec::axiom_vec_index_decreases(p.projection, i as int);
        }
        let step = copy_projection(&p.projection[i]);
        out.push(step);
        i = i + 1;
    }
    let r = Place { local: p.local, projection: out };
    proof {
        lemma_steps_of(out@);
        lemma_steps_of(p.projection@);
        assert forall|k: int| 0 <= k < out@.len() implies steps_of(out@)[k] == steps_of(
            p.projection@,
        )[k] by {
            assert(same_projection(out@[k], p.projection@[k]));
        }
        assert(steps_of(out@) =~= steps_of(p.projection@));
    }
    r
}

impl Clone for Projection {
    fn clone(&self) -> (r: Self)
        ensures
            same_projection(r, *self),
    {
        copy_projection(self)
    }
}

impl Clone for Operand {
    fn clone(&self) -> (r: Self)
        ensures
            r@ == self@,
    {
        copy_operand(self)
    }
}

impl Clone for Place {
    fn clone(&self) -> (r: Self)
        ensures
            same_place(r, *self),
    {
        copy_place(self)
    }
}

impl Place {
    /// The local itself, with nothing between.
    pub fn local(local: LocalId) -> (p: Place)
        ensures
            p.local == local,
            p.projection@ == Seq::<Projection>::empty(),
    {
        Place { local, projection: Vec::new() }
    }
}

/// An operator with one operand.
#[derive(Clone, Copy, Debug, PartialEq, Eq, Structural)]
pub enum UnOp {
    /// `-`
    Neg,
    /// `!`
    Not,
    /// `~`
    BitNot,
}

/// An operator with two operands. `&&` and `||` are control flow, and are
/// not here.
#[derive(Clone, Copy, Debug, PartialEq, Eq, Structural)]
pub enum BinOp {
    Mul,
    Div,
    Rem,
    Add,
    Sub,
    Shl,
    Shr,
    Lt,
    Gt,
    Le,
    Ge,
    Eq,
    Ne,
    BitAnd,
    BitXor,
    BitOr,
}

/// What an operation computes.
#[derive(Clone, Debug, PartialEq)]
pub enum Rvalue {
    /// The operand itself.
    Use(Operand),
    /// One operand under an operator.
    Unary { op: UnOp, operand: Operand },
    /// Two operands under an operator.
    Binary { op: BinOp, lhs: Operand, rhs: Operand },
    /// The address of a place.
    Address(Place),
}

/// Whether the source wrote an operation, or something else caused it. Both
/// carry a span, because both have somewhere to point.
#[derive(Clone, Copy, Debug, PartialEq, Eq, Structural)]
pub enum Origin {
    /// The source wrote this, here.
    Written(Span),
    /// Nobody wrote this. It exists because of what is at this span.
    Generated(Span),
}

impl Origin {
    /// Where to point, whichever kind it is.
    pub fn span(self) -> (s: Span)
        ensures
            s == origin_span(self),
    {
        match self {
            Origin::Written(span) | Origin::Generated(span) => span,
        }
    }
}

/// Where an origin points.
pub open spec fn origin_span(o: Origin) -> Span {
    match o {
        Origin::Written(s) => s,
        Origin::Generated(s) => s,
    }
}

/// One step: a place, and what is written into it.
#[derive(Clone, Debug, PartialEq)]
pub struct Operation {
    /// What is written to.
    pub place: Place,
    /// What is computed.
    pub value: Rvalue,
    /// Where it came from.
    pub origin: Origin,
}

/// How a block ends, and where control goes from it.
#[derive(Clone, Debug, PartialEq)]
pub enum Terminator {
    /// Straight on.
    Goto(BlockId),
    /// To `then` on a non-zero condition, to `otherwise` on zero.
    Branch { condition: Operand, then: BlockId, otherwise: BlockId },
    /// Enter another function, and come back to `then`.
    Call {
        /// Which function.
        callee: FuncId,
        /// What it is passed.
        arguments: Vec<Operand>,
        /// Where its result is written, if anywhere.
        destination: Option<Place>,
        /// Where control goes when it returns normally.
        then: BlockId,
        /// Where the call was written.
        origin: Origin,
    },
    /// Leave the function. The value is in local 0.
    Return,
    /// An edge no statement produced. Nothing builds one yet; every walk has
    /// to answer for it all the same.
    Abnormal { to: BlockId },
}

/// Every block `t` can reach, in order.
pub open spec fn successors_of(t: Terminator) -> Seq<BlockId> {
    match t {
        Terminator::Goto(to) => seq![to],
        Terminator::Branch { then, otherwise, .. } => seq![then, otherwise],
        Terminator::Call { then, .. } => seq![then],
        Terminator::Return => Seq::empty(),
        Terminator::Abnormal { to } => seq![to],
    }
}

impl Terminator {
    /// Every block this one can reach, appended to `out`.
    pub fn successors(&self, out: &mut Vec<BlockId>)
        ensures
            final(out)@ == old(out)@ + successors_of(*self),
    {
        match self {
            Terminator::Goto(to) | Terminator::Abnormal { to } => {
                out.push(*to);
                assert(final(out)@ =~= old(out)@ + successors_of(*self));
            },
            Terminator::Branch { condition: _, then, otherwise } => {
                out.push(*then);
                out.push(*otherwise);
                assert(final(out)@ =~= old(out)@ + successors_of(*self));
            },
            Terminator::Call { callee: _, arguments: _, destination: _, then, origin: _ } => {
                out.push(*then);
                assert(final(out)@ =~= old(out)@ + successors_of(*self));
            },
            Terminator::Return => {
                assert(old(out)@ + successors_of(*self) =~= old(out)@);
            },
        }
    }
}

/// A straight run of operations with one way in and one way out.
#[derive(Clone, Debug, PartialEq)]
pub struct Block {
    /// What happens, in order.
    pub operations: Vec<Operation>,
    /// How it ends.
    pub terminator: Terminator,
}

/// One function's IR: local 0 is the return place, then the parameters, then
/// the rest. A function with no blocks is a declaration.
#[derive(Clone, Debug)]
pub struct Function {
    /// The span of its name, which is not its identity: [`FuncId`] is.
    pub name: Span,
    locals: Vec<TyId>,
    parameters: usize,
    blocks: Vec<Block>,
}

impl Function {
    /// The span of its name.
    pub closed spec fn spec_name(self) -> Span {
        self.name
    }

    /// The type of every local, the return place first.
    pub closed spec fn spec_locals(self) -> Seq<TyId> {
        self.locals@
    }

    /// How many parameters follow the return place.
    pub closed spec fn spec_parameters(self) -> nat {
        self.parameters as nat
    }

    /// Every block, in the order their ids were handed out.
    pub closed spec fn spec_blocks(self) -> Seq<Block> {
        self.blocks@
    }

    /// The parameters come right after the return place, and every local
    /// can be named by a [`LocalId`].
    pub open spec fn wf(self) -> bool {
        &&& self.spec_parameters() + 1 <= self.spec_locals().len()
        &&& self.spec_locals().len() <= u32::MAX
    }

    /// A function with a return place, its parameters, and no blocks yet.
    pub fn new(name: Span, return_ty: TyId, parameters: Vec<TyId>) -> (f: Function)
        requires
            parameters@.len() < u32::MAX,
        ensures
            f.spec_name() == name,
            f.spec_locals() == seq![return_ty] + parameters@,
            f.spec_parameters() == parameters@.len(),
            f.spec_blocks() == Seq::<Block>::empty(),
            f.wf(),
    {
        let mut locals: Vec<TyId> = Vec::new();
        locals.push(return_ty);
        let mut i: usize = 0;
        while i < parameters.len()
            invariant
                i <= parameters.len(),
                locals@ == seq![return_ty] + parameters@.take(i as int),
            decreases parameters.len() - i,
        {
            locals.push(parameters[i]);
            i = i + 1;
            assert(locals@ =~= seq![return_ty] + parameters@.take(i as int));
        }
        assert(parameters@.take(parameters.len() as int) =~= parameters@);
        let count = parameters.len();
        Function { name, locals, parameters: count, blocks: Vec::new() }
    }

    /// A function whose body is not in this unit.
    pub fn declaration(name: Span, return_ty: TyId, parameters: Vec<TyId>) -> (f: Function)
        requires
            parameters@.len() < u32::MAX,
        ensures
            f.spec_name() == name,
            f.spec_locals() == seq![return_ty] + parameters@,
            f.spec_parameters() == parameters@.len(),
            f.spec_blocks() == Seq::<Block>::empty(),
            f.wf(),
    {
        Self::new(name, return_ty, parameters)
    }

    /// Where a `return` leaves its value.
    pub fn return_place(&self) -> (r: LocalId)
        ensures
            r == LocalId(0),
    {
        LocalId(0)
    }

    /// The parameters, in the order they were declared.
    pub fn parameters(&self) -> (r: Vec<LocalId>)
        requires
            self.wf(),
        ensures
            r@.len() == self.spec_parameters(),
            forall|i: int| 0 <= i < r@.len() ==> r@[i] == LocalId((i + 1) as u32),
    {
        let mut out: Vec<LocalId> = Vec::new();
        let mut i: usize = 0;
        while i < self.parameters
            invariant
                i <= self.parameters,
                self.parameters + 1 <= self.locals@.len(),
                self.locals@.len() <= u32::MAX,
                out@.len() == i,
                forall|k: int| 0 <= k < i ==> out@[k] == LocalId((k + 1) as u32),
            decreases self.parameters - i,
        {
            out.push(LocalId((i + 1) as u32));
            i = i + 1;
        }
        out
    }

    /// Add a local, and hand back the id that names it.
    pub fn push_local(&mut self, ty: TyId) -> (id: LocalId)
        requires
            old(self).spec_locals().len() < u32::MAX,
        ensures
            id == LocalId(old(self).spec_locals().len() as u32),
            final(self).spec_locals() == old(self).spec_locals().push(ty),
            final(self).spec_blocks() == old(self).spec_blocks(),
            final(self).spec_parameters() == old(self).spec_parameters(),
            final(self).spec_name() == old(self).spec_name(),
            old(self).wf() ==> final(self).wf(),
    {
        let id = LocalId(self.locals.len() as u32);
        self.locals.push(ty);
        id
    }

    /// Add a block, and hand back the id that names it. The id is taken
    /// before the push.
    pub fn push_block(&mut self, block: Block) -> (id: BlockId)
        requires
            old(self).spec_blocks().len() < u32::MAX,
        ensures
            id == BlockId(old(self).spec_blocks().len() as u32),
            final(self).spec_blocks() == old(self).spec_blocks().push(block),
            final(self).spec_locals() == old(self).spec_locals(),
            final(self).spec_parameters() == old(self).spec_parameters(),
            final(self).spec_name() == old(self).spec_name(),
            old(self).wf() ==> final(self).wf(),
    {
        let id = BlockId(self.blocks.len() as u32);
        self.blocks.push(block);
        id
    }

    /// Hand out the id of a block whose contents come later, so that it can
    /// be the entry while the blocks it reaches are built first. Until it is
    /// filled it returns at once.
    pub fn reserve_block(&mut self) -> (id: BlockId)
        requires
            old(self).spec_blocks().len() < u32::MAX,
        ensures
            id == BlockId(old(self).spec_blocks().len() as u32),
            final(self).spec_blocks().len() == old(self).spec_blocks().len() + 1,
            final(self).spec_blocks().take(old(self).spec_blocks().len() as int) == old(
                self,
            ).spec_blocks(),
            final(self).spec_blocks().last().operations@ == Seq::<Operation>::empty(),
            final(self).spec_blocks().last().terminator == Terminator::Return,
            final(self).spec_locals() == old(self).spec_locals(),
            final(self).spec_parameters() == old(self).spec_parameters(),
            final(self).spec_name() == old(self).spec_name(),
            old(self).wf() ==> final(self).wf(),
    {
        self.push_block(Block { operations: Vec::new(), terminator: Terminator::Return })
    }

    /// Give a reserved block its contents.
    pub fn fill_block(&mut self, id: BlockId, block: Block)
        requires
            id.0 < old(self).spec_blocks().len(),
        ensures
            final(self).spec_blocks() == old(self).spec_blocks().update(id.0 as int, block),
            final(self).spec_locals() == old(self).spec_locals(),
            final(self).spec_parameters() == old(self).spec_parameters(),
            final(self).spec_name() == old(self).spec_name(),
            old(self).wf() ==> final(self).wf(),
    {
        self.blocks.set(id.0 as usize, block);
    }

    /// The type of the local `id` names.
    pub fn local(&self, id: LocalId) -> (t: TyId)
        requires
            id.0 < self.spec_locals().len(),
        ensures
            t == self.spec_locals()[id.0 as int],
    {
        self.locals[id.index()]
    }

    /// How many locals there are, the return place included.
    pub fn locals(&self) -> (n: usize)
        ensures
            n == self.spec_locals().len(),
    {
        self.locals.len()
    }

    /// The block `id` names.
    pub fn block(&self, id: BlockId) -> (b: &Block)
        requires
            id.0 < self.spec_blocks().len(),
        ensures
            *b == self.spec_blocks()[id.0 as int],
    {
        &self.blocks[id.index()]
    }

    /// Every block, in the order they were pushed.
    pub fn blocks(&self) -> (b: &[Block])
        ensures
            b@ == self.spec_blocks(),
    {
        self.blocks.as_slice()
    }

    /// Whether the body is in this unit.
    pub fn is_defined(&self) -> (r: bool)
        ensures
            r == (self.spec_blocks().len() > 0),
    {
        self.blocks.len() > 0
    }

    /// Where a call begins: the block whose id came first.
    pub fn entry(&self) -> (b: BlockId)
        ensures
            b == BlockId(0),
    {
        BlockId(0)
    }
}

/// One `.c` file's worth of IR.
#[derive(Clone, Debug)]
pub struct TranslationUnit {
    functions: Vec<Function>,
    types: Vec<Ty>,
}

impl TranslationUnit {
    /// Every function, in the order they were pushed.
    pub closed spec fn spec_functions(self) -> Seq<Function> {
        self.functions@
    }

    /// Every type, by id.
    pub closed spec fn spec_types(self) -> Seq<Ty> {
        self.types@
    }

    /// One type has one id: no type is held twice.
    pub open spec fn interned(self) -> bool {
        forall|i: int, j: int|
            0 <= i < j < self.spec_types().len() ==> self.spec_types()[i] != self.spec_types()[j]
    }

    /// An empty unit.
    pub fn new() -> (u: TranslationUnit)
        ensures
            u.spec_functions() == Seq::<Function>::empty(),
            u.spec_types() == Seq::<Ty>::empty(),
            u.interned(),
    {
        TranslationUnit { functions: Vec::new(), types: Vec::new() }
    }

    /// The id for this type, which is the one it already had if it has one.
    pub fn push_type(&mut self, ty: Ty) -> (id: TyId)
        requires
            old(self).interned(),
            old(self).spec_types().len() < u32::MAX,
        ensures
            final(self).interned(),
            id.0 < final(self).spec_types().len(),
            final(self).spec_types()[id.0 as int] == ty,
            old(self).spec_types().contains(ty) ==> final(self).spec_types() == old(
                self,
            ).spec_types(),
            !old(self).spec_types().contains(ty) ==> final(self).spec_types() == old(
                self,
            ).spec_types().push(ty),
            final(self).spec_functions() == old(self).spec_functions(),
    {
        let mut i: usize = 0;
        while i < self.types.len()
            invariant
                i <= self.types.len(),
                self.types@.len() < u32::MAX,
                self.interned(),
                *self == *old(self),
                forall|k: int| 0 <= k < i ==> self.types@[k] != ty,
            decreases self.types.len() - i,
        {
            if self.types[i] == ty {
                return TyId(i as u32);
            }
            i = i + 1;
        }
        let id = TyId(self.types.len() as u32);
        self.types.push(ty);
        id
    }

    /// Add a function, and hand back the id that names it.
    pub fn push_function(&mut self, function: Function) -> (id: FuncId)
        requires
            old(self).spec_functions().len() < u32::MAX,
        ensures
            id == FuncId(old(self).spec_functions().len() as u32),
            final(self).spec_functions() == old(self).spec_functions().push(function),
            final(self).spec_types() == old(self).spec_types(),
    {
        let id = FuncId(self.functions.len() as u32);
        self.functions.push(function);
        id
    }

    /// The type `id` names.
    pub fn ty(&self, id: TyId) -> (t: Ty)
        requires
            id.0 < self.spec_types().len(),
        ensures
            t == self.spec_types()[id.0 as int],
    {
        self.types[id.0 as usize]
    }

    /// The function `id` names.
    pub fn function(&self, id: FuncId) -> (f: &Function)
        requires
            id.0 < self.spec_functions().len(),
        ensures
            *f == self.spec_functions()[id.0 as int],
    {
        &self.functions[id.0 as usize]
    }

    /// Every function, in the order they were pushed.
    pub fn functions(&self) -> (f: &[Function])
        ensures
            f@ == self.spec_functions(),
    {
        self.functions.as_slice()
    }
}

/// One type has one id: asking twice for the same type hands back the same id,
/// and two ids name the same type only if they are the same id.
pub proof fn law_one_type_one_id(unit: TranslationUnit, a: TyId, b: TyId)
    requires
        unit.interned(),
        a.0 < unit.spec_types().len(),
        b.0 < unit.spec_types().len(),
    ensures
        unit.spec_types()[a.0 as int] == unit.spec_types()[b.0 as int] <==> a == b,
{
    if a != b && unit.spec_types()[a.0 as int] == unit.spec_types()[b.0 as int] {
        if a.0 < b.0 {
            assert(unit.spec_types()[a.0 as int] != unit.spec_types()[b.0 as int]);
        } else {
            assert(unit.spec_types()[b.0 as int] != unit.spec_types()[a.0 as int]);
        }
    }
}

} // verus!
