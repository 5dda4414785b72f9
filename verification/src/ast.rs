//! The tree the parser builds, one arena per kind of node.
//!
//! A node refers to another by an id into its arena, and an id is meaningful
//! only in the [`Ast`] that handed it out. Every node keeps the span it was
//! written at.
use vstd::prelude::*;


use vstd::string::{StrSliceExecFns, StringExecFns};

use crate::source::{SourceMap, Span, readable, snippet_of};

verus! {

/// Which expression, within one [`Ast`].
#[derive(Clone, Copy, Debug, PartialEq, Eq, Hash, Structural)]
pub struct ExprId(pub u32);

impl ExprId {
    /// The index this handle refers to, for a side table with a slot per
    /// expression.
    pub fn index(self) -> (r: usize)
        ensures
            r == self.0,
    {
        self.0 as usize
    }
}

/// Which statement, within one [`Ast`].
#[derive(Clone, Copy, Debug, PartialEq, Eq, Structural)]
pub struct StmtId(pub u32);

/// Which item, within one [`Ast`].
#[derive(Clone, Copy, Debug, PartialEq, Eq, Structural)]
pub struct ItemId(pub u32);

/// Which type, within one [`Ast`]. Two ids can name two equal types: a type
/// is pushed wherever it is written.
#[derive(Clone, Copy, Debug, PartialEq, Eq, Structural)]
pub struct TypeId(pub u32);

/// A type as it was written.
#[derive(Clone, Debug)]
pub enum Type {
    /// `int`.
    Int,
    /// `char`.
    Char,
    /// `void`.
    Void,
    /// A pointer to the type this id names.
    Pointer(TypeId),
    /// An array of `element`, with the expression that gives its length
    /// where one was written.
    Array { element: TypeId, length: Option<ExprId> },
    /// A function returning `result`, taking `parameters`.
    Function { result: TypeId, parameters: Parameters },
}

/// What a function declarator says of its parameters.
#[derive(Clone, Debug, PartialEq, Eq)]
pub enum Parameters {
    /// A prototype: these parameters, in order. `(void)` is an empty one.
    Prototype(Vec<Declaration>),
    /// `()`: nothing said.
    Unspecified,
}

/// A name and the type it is declared with.
#[derive(Clone, Debug, PartialEq, Eq)]
pub struct Declaration {
    /// The name, where one was written.
    pub name: Option<Span>,
    /// The declared type.
    pub ty: TypeId,
    /// The whole declarator.
    pub span: Span,
}

/// A declaration and the value it is initialised with, where it has one.
#[derive(Clone, Debug, PartialEq, Eq)]
pub struct InitDeclarator {
    pub declaration: Declaration,
    pub init: Option<ExprId>,
}

/// An operator with two operands.
#[derive(Clone, Copy, Debug, PartialEq, Eq, Structural)]
pub enum BinOp {
    /// `*`
    Mul,
    /// `/`
    Div,
    /// `%`
    Rem,
    /// `+`
    Add,
    /// `-`
    Sub,
    /// `<<`
    Shl,
    /// `>>`
    Shr,
    /// `<`
    Lt,
    /// `>`
    Gt,
    /// `<=`
    Le,
    /// `>=`
    Ge,
    /// `==`
    Eq,
    /// `!=`
    Ne,
    /// `&`
    BitAnd,
    /// `^`
    BitXor,
    /// `|`
    BitOr,
    /// `&&`, which evaluates its right operand only where its left is non-zero
    LogAnd,
    /// `||`, which evaluates its right operand only where its left is zero
    LogOr,
}

/// An operator with one operand.
#[derive(Clone, Copy, Debug, PartialEq, Eq, Structural)]
pub enum UnOp {
    /// `+x`
    Plus,
    /// `-x`
    Minus,
    /// `!x`
    Not,
    /// `~x`
    BitNot,
    /// `*p`
    Deref,
    /// `&x`
    AddrOf,
    /// `++x`
    PreInc,
    /// `--x`
    PreDec,
    /// `x++`
    PostInc,
    /// `x--`
    PostDec,
}

/// How C spells an operator with two operands.
pub open spec fn binop_spelling(op: BinOp) -> Seq<char> {
    match op {
        BinOp::Mul => "*"@,
        BinOp::Div => "/"@,
        BinOp::Rem => "%"@,
        BinOp::Add => "+"@,
        BinOp::Sub => "-"@,
        BinOp::Shl => "<<"@,
        BinOp::Shr => ">>"@,
        BinOp::Lt => "<"@,
        BinOp::Gt => ">"@,
        BinOp::Le => "<="@,
        BinOp::Ge => ">="@,
        BinOp::Eq => "=="@,
        BinOp::Ne => "!="@,
        BinOp::BitAnd => "&"@,
        BinOp::BitXor => "^"@,
        BinOp::BitOr => "|"@,
        BinOp::LogAnd => "&&"@,
        BinOp::LogOr => "||"@,
    }
}

/// How C spells an operator with one operand.
pub open spec fn unop_spelling(op: UnOp) -> Seq<char> {
    match op {
        UnOp::Plus => "+"@,
        UnOp::Minus => "-"@,
        UnOp::Not => "!"@,
        UnOp::BitNot => "~"@,
        UnOp::Deref => "*"@,
        UnOp::AddrOf => "&"@,
        UnOp::PreInc => "++"@,
        UnOp::PreDec => "--"@,
        UnOp::PostInc => "++"@,
        UnOp::PostDec => "--"@,
    }
}

/// Which side of its operand an increment or decrement stands on; none for
/// the other operators, whose side is never in doubt.
pub open spec fn unop_fixity(op: UnOp) -> Option<Seq<char>> {
    match op {
        UnOp::Plus => None,
        UnOp::Minus => None,
        UnOp::Not => None,
        UnOp::BitNot => None,
        UnOp::Deref => None,
        UnOp::AddrOf => None,
        UnOp::PreInc => Some("prefix"@),
        UnOp::PreDec => Some("prefix"@),
        UnOp::PostInc => Some("postfix"@),
        UnOp::PostDec => Some("postfix"@),
    }
}

impl BinOp {
    /// How C spells it.
    pub fn as_str(self) -> (s: &'static str)
        ensures
            s@ == binop_spelling(self),
    {
        match self {
            BinOp::Mul => "*",
            BinOp::Div => "/",
            BinOp::Rem => "%",
            BinOp::Add => "+",
            BinOp::Sub => "-",
            BinOp::Shl => "<<",
            BinOp::Shr => ">>",
            BinOp::Lt => "<",
            BinOp::Gt => ">",
            BinOp::Le => "<=",
            BinOp::Ge => ">=",
            BinOp::Eq => "==",
            BinOp::Ne => "!=",
            BinOp::BitAnd => "&",
            BinOp::BitXor => "^",
            BinOp::BitOr => "|",
            BinOp::LogAnd => "&&",
            BinOp::LogOr => "||",
        }
    }
}

impl UnOp {
    /// How C spells it. Pre- and post-increment share a spelling, as do the
    /// decrements: [`UnOp::fixity`] tells them apart.
    pub fn as_str(self) -> (s: &'static str)
        ensures
            s@ == unop_spelling(self),
    {
        match self {
            UnOp::Plus => "+",
            UnOp::Minus => "-",
            UnOp::Not => "!",
            UnOp::BitNot => "~",
            UnOp::Deref => "*",
            UnOp::AddrOf => "&",
            UnOp::PreInc => "++",
            UnOp::PreDec => "--",
            UnOp::PostInc => "++",
            UnOp::PostDec => "--",
        }
    }

    /// `prefix` or `postfix` for an increment or a decrement, and nothing for
    /// the rest.
    pub fn fixity(self) -> (r: Option<&'static str>)
        ensures
            match r {
                Some(s) => unop_fixity(self) == Some(s@),
                None => unop_fixity(self) is None,
            },
    {
        match self {
            UnOp::Plus => None,
            UnOp::Minus => None,
            UnOp::Not => None,
            UnOp::BitNot => None,
            UnOp::Deref => None,
            UnOp::AddrOf => None,
            UnOp::PreInc => Some("prefix"),
            UnOp::PreDec => Some("prefix"),
            UnOp::PostInc => Some("postfix"),
            UnOp::PostDec => Some("postfix"),
        }
    }
}

/// An expression.
#[derive(Clone, Debug, PartialEq, Eq)]
pub enum Expr {
    /// An integer constant.
    Number { span: Span },
    /// A name.
    Identifier { span: Span },
    /// An operator applied to one operand.
    Unary { op: UnOp, operand: ExprId, span: Span },
    /// An operator applied to two operands.
    Binary { op: BinOp, lhs: ExprId, rhs: ExprId, span: Span },
    /// `place = value`, or `place op= value` where `op` is given.
    Assign { op: Option<BinOp>, place: ExprId, value: ExprId, span: Span },
    /// `condition ? then : otherwise`.
    Conditional { condition: ExprId, then: ExprId, otherwise: ExprId, span: Span },
    /// `callee(arguments...)`.
    Call { callee: ExprId, arguments: Vec<ExprId>, span: Span },
    /// `base[index]`.
    Subscript { base: ExprId, index: ExprId, span: Span },
    /// `lhs, rhs`.
    Comma { lhs: ExprId, rhs: ExprId, span: Span },
    /// Where the parser could not make sense of what was written.
    Error { span: Span },
}

/// A statement.
#[derive(Clone, Debug, PartialEq, Eq)]
pub enum Stmt {
    /// `{ body... }`.
    Compound { body: Vec<StmtId>, span: Span },
    /// `return value;`.
    Return { value: Option<ExprId>, span: Span },
    /// A declaration inside a block.
    Declaration { declarators: Vec<InitDeclarator>, span: Span },
    /// `value;`, or `;` alone.
    Expression { value: Option<ExprId>, span: Span },
    /// `if (condition) then else otherwise`.
    If { condition: ExprId, then: StmtId, otherwise: Option<StmtId>, span: Span },
    /// `while (condition) body`.
    While { condition: ExprId, body: StmtId, span: Span },
    /// `for (initialiser; condition; step) body`.
    For {
        initialiser: Option<ExprId>,
        condition: Option<ExprId>,
        step: Option<ExprId>,
        body: StmtId,
        span: Span,
    },
    /// Where the parser could not make sense of what was written.
    Error { span: Span },
}

/// A function definition.
#[derive(Clone, Debug, PartialEq, Eq)]
pub struct Function {
    /// Its type, a [`Type::Function`].
    pub ty: TypeId,
    /// Its name.
    pub name: Span,
    /// Its body, a compound statement.
    pub body: StmtId,
    /// The whole definition.
    pub span: Span,
}

/// Something at file scope.
#[derive(Clone, Debug, PartialEq, Eq)]
pub enum Item {
    /// A function definition.
    Function(Function),
    /// A declaration at file scope.
    Declaration { declarators: Vec<InitDeclarator>, span: Span },
    /// Where the parser could not make sense of what was written.
    Error { span: Span },
}

/// The name of an expression's kind.
pub open spec fn expr_name(e: Expr) -> Seq<char> {
    match e {
        Expr::Number { .. } => "Number"@,
        Expr::Identifier { .. } => "Identifier"@,
        Expr::Unary { .. } => "Unary"@,
        Expr::Binary { .. } => "Binary"@,
        Expr::Assign { .. } => "Assign"@,
        Expr::Conditional { .. } => "Conditional"@,
        Expr::Call { .. } => "Call"@,
        Expr::Subscript { .. } => "Subscript"@,
        Expr::Comma { .. } => "Comma"@,
        Expr::Error { .. } => "Error"@,
    }
}

/// Where an expression was written.
pub open spec fn expr_span(e: Expr) -> Span {
    match e {
        Expr::Number { span } => span,
        Expr::Identifier { span } => span,
        Expr::Unary { span, .. } => span,
        Expr::Binary { span, .. } => span,
        Expr::Assign { span, .. } => span,
        Expr::Conditional { span, .. } => span,
        Expr::Call { span, .. } => span,
        Expr::Subscript { span, .. } => span,
        Expr::Comma { span, .. } => span,
        Expr::Error { span } => span,
    }
}

/// The expressions an expression is made of, in the order they were written.
pub open spec fn expr_children(e: Expr) -> Seq<ExprId> {
    match e {
        Expr::Number { .. } | Expr::Identifier { .. } | Expr::Error { .. } => Seq::empty(),
        Expr::Unary { operand, .. } => seq![operand],
        Expr::Binary { lhs, rhs, .. } => seq![lhs, rhs],
        Expr::Assign { place, value, .. } => seq![place, value],
        Expr::Comma { lhs, rhs, .. } => seq![lhs, rhs],
        Expr::Subscript { base, index, .. } => seq![base, index],
        Expr::Conditional { condition, then, otherwise, .. } => seq![condition, then, otherwise],
        Expr::Call { callee, arguments, .. } => seq![callee] + arguments@,
    }
}

impl Expr {
    /// The name of its kind, as a dump of the tree spells it.
    pub fn name(&self) -> (s: &'static str)
        ensures
            s@ == expr_name(*self),
    {
        match self {
            Expr::Number { .. } => "Number",
            Expr::Identifier { .. } => "Identifier",
            Expr::Unary { .. } => "Unary",
            Expr::Binary { .. } => "Binary",
            Expr::Assign { .. } => "Assign",
            Expr::Conditional { .. } => "Conditional",
            Expr::Call { .. } => "Call",
            Expr::Subscript { .. } => "Subscript",
            Expr::Comma { .. } => "Comma",
            Expr::Error { .. } => "Error",
        }
    }

    /// Where it was written.
    pub fn span(&self) -> (s: Span)
        ensures
            s == expr_span(*self),
    {
        match self {
            Expr::Number { span, .. }
            | Expr::Identifier { span, .. }
            | Expr::Unary { span, .. }
            | Expr::Binary { span, .. }
            | Expr::Assign { span, .. }
            | Expr::Conditional { span, .. }
            | Expr::Call { span, .. }
            | Expr::Subscript { span, .. }
            | Expr::Comma { span, .. }
            | Expr::Error { span, .. } => *span,
        }
    }

    /// Append the expressions it is made of to `out`, in the order they were
    /// written: the one step a walk over the tree needs.
    pub fn extend_children(&self, out: &mut Vec<ExprId>)
        ensures
            final(out)@ == old(out)@ + expr_children(*self),
    {
        let ghost before = out@;
        match self {
            Expr::Number { .. } | Expr::Identifier { .. } | Expr::Error { .. } => {},
            Expr::Unary { operand, .. } => out.push(*operand),
            Expr::Binary { lhs, rhs, .. } => {
                out.push(*lhs);
                out.push(*rhs);
            },
            Expr::Assign { place, value, .. } => {
                out.push(*place);
                out.push(*value);
            },
            Expr::Comma { lhs, rhs, .. } => {
                out.push(*lhs);
                out.push(*rhs);
            },
            Expr::Subscript { base, index, .. } => {
                out.push(*base);
                out.push(*index);
            },
            Expr::Conditional { condition, then, otherwise, .. } => {
                out.push(*condition);
                out.push(*then);
                out.push(*otherwise);
            },
            Expr::Call { callee, arguments, .. } => {
                out.push(*callee);
                let mut i: usize = 0;
                while i < arguments.len()
                    invariant
                        i <= arguments@.len(),
                        out@ == before + seq![*callee] + arguments@.take(i as int),
                    decreases arguments@.len() - i,
                {
                    out.push(arguments[i]);
                    i = i + 1;
                    assert(out@ =~= before + seq![*callee] + arguments@.take(i as int));
                }
                assert(arguments@.take(arguments@.len() as int) =~= arguments@);
            },
        }
        assert(out@ =~= before + expr_children(*self));
    }
}

/// The name of a statement's kind.
pub open spec fn stmt_name(s: Stmt) -> Seq<char> {
    match s {
        Stmt::Compound { .. } => "Compound"@,
        Stmt::Return { .. } => "Return"@,
        Stmt::Declaration { .. } => "Declaration"@,
        Stmt::Expression { .. } => "Expression"@,
        Stmt::If { .. } => "If"@,
        Stmt::While { .. } => "While"@,
        Stmt::For { .. } => "For"@,
        Stmt::Error { .. } => "Error"@,
    }
}

/// Where a statement was written.
pub open spec fn stmt_span(s: Stmt) -> Span {
    match s {
        Stmt::Compound { span, .. } => span,
        Stmt::Return { span, .. } => span,
        Stmt::Declaration { span, .. } => span,
        Stmt::Expression { span, .. } => span,
        Stmt::If { span, .. } => span,
        Stmt::While { span, .. } => span,
        Stmt::For { span, .. } => span,
        Stmt::Error { span } => span,
    }
}

impl Stmt {
    /// The name of its kind, as a dump of the tree spells it.
    pub fn name(&self) -> (s: &'static str)
        ensures
            s@ == stmt_name(*self),
    {
        match self {
            Stmt::Compound { .. } => "Compound",
            Stmt::Return { .. } => "Return",
            Stmt::Declaration { .. } => "Declaration",
            Stmt::Expression { .. } => "Expression",
            Stmt::If { .. } => "If",
            Stmt::While { .. } => "While",
            Stmt::For { .. } => "For",
            Stmt::Error { .. } => "Error",
        }
    }

    /// Where it was written.
    pub fn span(&self) -> (s: Span)
        ensures
            s == stmt_span(*self),
    {
        match self {
            Stmt::Compound { span, .. }
            | Stmt::Return { span, .. }
            | Stmt::Expression { span, .. }
            | Stmt::If { span, .. }
            | Stmt::While { span, .. }
            | Stmt::For { span, .. }
            | Stmt::Declaration { span, .. }
            | Stmt::Error { span } => *span,
        }
    }
}

/// The name of an item's kind.
pub open spec fn item_name(i: Item) -> Seq<char> {
    match i {
        Item::Function(_) => "Function"@,
        Item::Declaration { .. } => "Declaration"@,
        Item::Error { .. } => "Error"@,
    }
}

/// Where an item was written.
pub open spec fn item_span(i: Item) -> Span {
    match i {
        Item::Function(f) => f.span,
        Item::Declaration { span, .. } => span,
        Item::Error { span } => span,
    }
}

impl Item {
    /// The name of its kind, as a dump of the tree spells it.
    pub fn name(&self) -> (s: &'static str)
        ensures
            s@ == item_name(*self),
    {
        match self {
            Item::Function(_) => "Function",
            Item::Declaration { .. } => "Declaration",
            Item::Error { .. } => "Error",
        }
    }

    /// Where it was written.
    pub fn span(&self) -> (s: Span)
        ensures
            s == item_span(*self),
    {
        match self {
            Item::Function(function) => function.span,
            Item::Declaration { span, .. } | Item::Error { span } => *span,
        }
    }
}


/// Every expression, statement, item and type of one translation unit, in
/// the order the parser pushed them.
#[derive(Clone, Debug)]
pub struct Ast {
    exprs: Vec<Expr>,
    stmts: Vec<Stmt>,
    items: Vec<Item>,
    types: Vec<Type>,
}

/// Every type id a type names refers to a type pushed before index `i`.
pub open spec fn refers_below(t: Type, i: int) -> bool {
    match t {
        Type::Int | Type::Char | Type::Void => true,
        Type::Pointer(p) => p.0 < i,
        Type::Array { element, .. } => element.0 < i,
        Type::Function { result, parameters } => {
            &&& result.0 < i
            &&& parameters matches Parameters::Prototype(ps) ==> forall|k: int|
                0 <= k < ps@.len() ==> (#[trigger] ps@[k]).ty.0 < i
        },
    }
}

impl Ast {
    /// Every expression, by id.
    pub closed spec fn spec_exprs(self) -> Seq<Expr> {
        self.exprs@
    }

    /// Every statement, by id.
    pub closed spec fn spec_stmts(self) -> Seq<Stmt> {
        self.stmts@
    }

    /// Every item, by id.
    pub closed spec fn spec_items(self) -> Seq<Item> {
        self.items@
    }

    /// Every type, by id.
    pub closed spec fn spec_types(self) -> Seq<Type> {
        self.types@
    }

    /// Every type refers only to types pushed before it, as the parser
    /// builds them: the inner part of a declarator first.
    pub open spec fn types_ordered(self) -> bool {
        forall|i: int| 0 <= i < self.spec_types().len() ==> refers_below(#[trigger] self.spec_types()[i], i)
    }

    /// An empty tree.
    pub fn new() -> (a: Ast)
        ensures
            a.spec_exprs() == Seq::<Expr>::empty(),
            a.spec_stmts() == Seq::<Stmt>::empty(),
            a.spec_items() == Seq::<Item>::empty(),
            a.spec_types() == Seq::<Type>::empty(),
    {
        Ast { exprs: Vec::new(), stmts: Vec::new(), items: Vec::new(), types: Vec::new() }
    }

    /// Add an expression, and hand back the id that names it.
    pub fn push_expr(&mut self, expr: Expr) -> (id: ExprId)
        requires
            old(self).spec_exprs().len() < u32::MAX,
        ensures
            id == ExprId(old(self).spec_exprs().len() as u32),
            final(self).spec_exprs() == old(self).spec_exprs().push(expr),
            final(self).spec_stmts() == old(self).spec_stmts(),
            final(self).spec_items() == old(self).spec_items(),
            final(self).spec_types() == old(self).spec_types(),
    {
        let id = ExprId(self.exprs.len() as u32);
        self.exprs.push(expr);
        id
    }

    /// Add a statement, and hand back the id that names it.
    pub fn push_stmt(&mut self, stmt: Stmt) -> (id: StmtId)
        requires
            old(self).spec_stmts().len() < u32::MAX,
        ensures
            id == StmtId(old(self).spec_stmts().len() as u32),
            final(self).spec_stmts() == old(self).spec_stmts().push(stmt),
            final(self).spec_exprs() == old(self).spec_exprs(),
            final(self).spec_items() == old(self).spec_items(),
            final(self).spec_types() == old(self).spec_types(),
    {
        let id = StmtId(self.stmts.len() as u32);
        self.stmts.push(stmt);
        id
    }

    /// Add an item, and hand back the id that names it.
    pub fn push_item(&mut self, item: Item) -> (id: ItemId)
        requires
            old(self).spec_items().len() < u32::MAX,
        ensures
            id == ItemId(old(self).spec_items().len() as u32),
            final(self).spec_items() == old(self).spec_items().push(item),
            final(self).spec_exprs() == old(self).spec_exprs(),
            final(self).spec_stmts() == old(self).spec_stmts(),
            final(self).spec_types() == old(self).spec_types(),
    {
        let id = ItemId(self.items.len() as u32);
        self.items.push(item);
        id
    }

    /// Add a type, and hand back the id that names it. A type that refers
    /// only to types already here keeps them ordered.
    pub fn push_type(&mut self, ty: Type) -> (id: TypeId)
        requires
            old(self).spec_types().len() < u32::MAX,
        ensures
            id == TypeId(old(self).spec_types().len() as u32),
            final(self).spec_types() == old(self).spec_types().push(ty),
            final(self).spec_exprs() == old(self).spec_exprs(),
            final(self).spec_stmts() == old(self).spec_stmts(),
            final(self).spec_items() == old(self).spec_items(),
            old(self).types_ordered() && refers_below(ty, old(self).spec_types().len() as int)
                ==> final(self).types_ordered(),
    {
        let id = TypeId(self.types.len() as u32);
        self.types.push(ty);
        id
    }

    /// The expression `id` names.
    pub fn expr(&self, id: ExprId) -> (e: &Expr)
        requires
            id.0 < self.spec_exprs().len(),
        ensures
            *e == self.spec_exprs()[id.0 as int],
    {
        &self.exprs[id.0 as usize]
    }

    /// The statement `id` names.
    pub fn stmt(&self, id: StmtId) -> (s: &Stmt)
        requires
            id.0 < self.spec_stmts().len(),
        ensures
            *s == self.spec_stmts()[id.0 as int],
    {
        &self.stmts[id.0 as usize]
    }

    /// The item `id` names.
    pub fn item(&self, id: ItemId) -> (i: &Item)
        requires
            id.0 < self.spec_items().len(),
        ensures
            *i == self.spec_items()[id.0 as int],
    {
        &self.items[id.0 as usize]
    }

    /// The type `id` names.
    pub fn ty(&self, id: TypeId) -> (t: &Type)
        requires
            id.0 < self.spec_types().len(),
        ensures
            *t == self.spec_types()[id.0 as int],
    {
        &self.types[id.0 as usize]
    }

    /// How many types there are.
    pub fn types_len(&self) -> (n: usize)
        ensures
            n == self.spec_types().len(),
    {
        self.types.len()
    }

    /// Every item, in the order they were written.
    pub fn items(&self) -> (i: &[Item])
        ensures
            i@ == self.spec_items(),
    {
        self.items.as_slice()
    }

    /// The id of every expression, in the order they were pushed.
    pub fn expr_ids(&self) -> (ids: Vec<ExprId>)
        requires
            self.spec_exprs().len() <= u32::MAX,
        ensures
            ids@.len() == self.spec_exprs().len(),
            forall|i: int| 0 <= i < ids@.len() ==> #[trigger] ids@[i] == ExprId(i as u32),
    {
        let mut ids: Vec<ExprId> = Vec::new();
        let mut i: usize = 0;
        while i < self.exprs.len()
            invariant
                i <= self.exprs@.len(),
                self.exprs@.len() <= u32::MAX,
                ids@.len() == i,
                forall|k: int| 0 <= k < i ==> #[trigger] ids@[k] == ExprId(k as u32),
            decreases self.exprs@.len() - i,
        {
            ids.push(ExprId(i as u32));
            i = i + 1;
        }
        ids
    }
}

/// Whether C17 6.2.7 calls the types `left` and `right` compatible: the same
/// basic type; pointers to compatible types; arrays of compatible elements,
/// whatever their lengths; or functions with compatible results and
/// compatible parameters.
pub open spec fn compatible(ast: Ast, left: TypeId, right: TypeId) -> bool
    decreases left.0 + right.0, 2int, 0int,
{
    let types = ast.spec_types();
    if left.0 >= types.len() || right.0 >= types.len() {
        false
    } else {
        match (types[left.0 as int], types[right.0 as int]) {
            (Type::Int, Type::Int) => true,
            (Type::Char, Type::Char) => true,
            (Type::Void, Type::Void) => true,
            (Type::Pointer(l), Type::Pointer(r)) => l.0 < left.0 && r.0 < right.0 && compatible(ast, l, r),
            (Type::Array { element: l, .. }, Type::Array { element: r, .. }) => l.0 < left.0 && r.0
                < right.0 && compatible(ast, l, r),
            (
                Type::Function { result: l, parameters: lp },
                Type::Function { result: r, parameters: rp },
            ) => {
                &&& l.0 < left.0 && r.0 < right.0 && compatible(ast, l, r)
                &&& parameters_compatible(ast, lp, rp, left, right)
            },
            _ => false,
        }
    }
}

/// Whether the parameters of the function types `left` and `right` are
/// compatible: two prototypes of one length whose parameters are pairwise
/// compatible; two declarators that say nothing; or one of each, where no
/// parameter of the prototype is changed by the default argument promotions
/// (C17 6.7.6.3 p15).
pub open spec fn parameters_compatible(
    ast: Ast,
    lp: Parameters,
    rp: Parameters,
    left: TypeId,
    right: TypeId,
) -> bool
    decreases left.0 + right.0, 1int, 0int,
{
    match (lp, rp) {
        (Parameters::Prototype(l), Parameters::Prototype(r)) => l@.len() == r@.len()
            && pairwise_compatible(ast, l@, r@, 0, left, right),
        (Parameters::Unspecified, Parameters::Unspecified) => true,
        (Parameters::Prototype(ps), Parameters::Unspecified) => none_promoted(ast, ps@),
        (Parameters::Unspecified, Parameters::Prototype(ps)) => none_promoted(ast, ps@),
    }
}

/// No parameter of a prototype is changed by the default argument
/// promotions.
pub open spec fn none_promoted(ast: Ast, ps: Seq<Declaration>) -> bool {
    forall|k: int| 0 <= k < ps.len() ==> !promoted_by_default(ast, (#[trigger] ps[k]).ty)
}

/// Whether parameters `k..` of two prototypes are pairwise compatible.
pub open spec fn pairwise_compatible(
    ast: Ast,
    l: Seq<Declaration>,
    r: Seq<Declaration>,
    k: int,
    left: TypeId,
    right: TypeId,
) -> bool
    decreases left.0 + right.0, 0int, l.len() - k,
{
    if k < 0 || k >= l.len() || k >= r.len() {
        true
    } else {
        &&& l[k].ty.0 < left.0 && r[k].ty.0 < right.0 && compatible(ast, l[k].ty, r[k].ty)
        &&& pairwise_compatible(ast, l, r, k + 1, left, right)
    }
}

/// Whether the default argument promotions change a value of type `id`:
/// they widen a `char`.
pub open spec fn promoted_by_default(ast: Ast, id: TypeId) -> bool {
    id.0 < ast.spec_types().len() && ast.spec_types()[id.0 as int] is Char
}

impl Ast {
    /// Whether `left` and `right` are compatible types, as
    /// [`compatible`](fn@compatible) says.
    pub fn compatible(&self, left: TypeId, right: TypeId) -> (r: bool)
        requires
            self.types_ordered(),
            left.0 < self.spec_types().len(),
            right.0 < self.spec_types().len(),
        ensures
            r == compatible(*self, left, right),
        decreases left.0 + right.0, 2int, 0int,
    {
        assert(refers_below(self.spec_types()[left.0 as int], left.0 as int));
        assert(refers_below(self.spec_types()[right.0 as int], right.0 as int));
        match (self.ty(left), self.ty(right)) {
            (Type::Int, Type::Int) | (Type::Char, Type::Char) | (Type::Void, Type::Void) => true,
            (Type::Pointer(l), Type::Pointer(r)) => self.compatible(*l, *r),
            (Type::Array { element: l, .. }, Type::Array { element: r, .. }) => self.compatible(*l, *r),
            (
                Type::Function { result: l, parameters: lp },
                Type::Function { result: r, parameters: rp },
            ) => {
                if !self.compatible(*l, *r) {
                    return false;
                }
                self.compatible_parameters(lp, rp, Ghost(left), Ghost(right))
            },
            _ => false,
        }
    }

    fn compatible_parameters(&self, lp: &Parameters, rp: &Parameters, Ghost(left): Ghost<TypeId>, Ghost(right): Ghost<TypeId>) -> (r: bool)
        requires
            self.types_ordered(),
            left.0 < self.spec_types().len(),
            right.0 < self.spec_types().len(),
            lp matches Parameters::Prototype(ps) ==> forall|k: int|
                0 <= k < ps@.len() ==> (#[trigger] ps@[k]).ty.0 < left.0,
            rp matches Parameters::Prototype(ps) ==> forall|k: int|
                0 <= k < ps@.len() ==> (#[trigger] ps@[k]).ty.0 < right.0,
        ensures
            r == parameters_compatible(*self, *lp, *rp, left, right),
        decreases left.0 + right.0, 1int, 0int,
    {
        match (lp, rp) {
            (Parameters::Prototype(l), Parameters::Prototype(r)) => {
                if l.len() != r.len() {
                    return false;
                }
                let mut k: usize = 0;
                while k < l.len()
                    invariant
                        self.types_ordered(),
                        l@.len() == r@.len(),
                        k <= l@.len(),
                        forall|j: int| 0 <= j < l@.len() ==> (#[trigger] l@[j]).ty.0 < left.0,
                        forall|j: int| 0 <= j < r@.len() ==> (#[trigger] r@[j]).ty.0 < right.0,
                        left.0 < self.spec_types().len(),
                        right.0 < self.spec_types().len(),
                        parameters_compatible(*self, *lp, *rp, left, right) == pairwise_compatible(
                            *self,
                            l@,
                            r@,
                            0,
                            left,
                            right,
                        ),
                        pairwise_compatible(*self, l@, r@, 0, left, right) == pairwise_compatible(
                            *self,
                            l@,
                            r@,
                            k as int,
                            left,
                            right,
                        ),
                    decreases l@.len() - k,
                {
                    assert(l@[k as int].ty.0 < left.0 && r@[k as int].ty.0 < right.0);
                    if !self.compatible(l[k].ty, r[k].ty) {
                        return false;
                    }
                    k = k + 1;
                }
                true
            },
            (Parameters::Unspecified, Parameters::Unspecified) => true,
            (Parameters::Prototype(ps), Parameters::Unspecified) => self.none_promoted(ps),
            (Parameters::Unspecified, Parameters::Prototype(ps)) => self.none_promoted(ps),
        }
    }

    fn none_promoted(&self, ps: &Vec<Declaration>) -> (r: bool)
        ensures
            r == none_promoted(*self, ps@),
    {
        let mut k: usize = 0;
        while k < ps.len()
            invariant
                k <= ps@.len(),
                forall|j: int| 0 <= j < k ==> !promoted_by_default(*self, (#[trigger] ps@[j]).ty),
            decreases ps@.len() - k,
        {
            if self.is_promoted_by_default(ps[k].ty) {
                assert(promoted_by_default(*self, ps@[k as int].ty));
                return false;
            }
            k = k + 1;
        }
        true
    }

    fn is_promoted_by_default(&self, ty: TypeId) -> (r: bool)
        ensures
            r == promoted_by_default(*self, ty),
    {
        if ty.0 as usize >= self.types.len() {
            return false;
        }
        match self.ty(ty) {
            Type::Char => true,
            Type::Int | Type::Void | Type::Pointer(_) | Type::Array { .. } | Type::Function { .. } => false,
        }
    }
}


/// Compatibility does not care which type is named first.
pub proof fn law_compatible_is_symmetric(ast: Ast, left: TypeId, right: TypeId)
    ensures
        compatible(ast, left, right) == compatible(ast, right, left),
    decreases left.0 + right.0, 2int, 0int,
{
    let types = ast.spec_types();
    if left.0 < types.len() && right.0 < types.len() {
        match (types[left.0 as int], types[right.0 as int]) {
            (Type::Pointer(l), Type::Pointer(r)) => {
                if l.0 < left.0 && r.0 < right.0 {
                    law_compatible_is_symmetric(ast, l, r);
                }
            },
            (Type::Array { element: l, .. }, Type::Array { element: r, .. }) => {
                if l.0 < left.0 && r.0 < right.0 {
                    law_compatible_is_symmetric(ast, l, r);
                }
            },
            (
                Type::Function { result: l, parameters: lp },
                Type::Function { result: r, parameters: rp },
            ) => {
                if l.0 < left.0 && r.0 < right.0 {
                    law_compatible_is_symmetric(ast, l, r);
                }
                lemma_parameters_symmetric(ast, lp, rp, left, right);
            },
            _ => {},
        }
    }
}

proof fn lemma_parameters_symmetric(ast: Ast, lp: Parameters, rp: Parameters, left: TypeId, right: TypeId)
    ensures
        parameters_compatible(ast, lp, rp, left, right) == parameters_compatible(ast, rp, lp, right, left),
    decreases left.0 + right.0, 1int, 0int,
{
    match (lp, rp) {
        (Parameters::Prototype(l), Parameters::Prototype(r)) => {
            if l@.len() == r@.len() {
                lemma_pairwise_symmetric(ast, l@, r@, 0, left, right);
            }
        },
        _ => {},
    }
}

proof fn lemma_pairwise_symmetric(
    ast: Ast,
    l: Seq<Declaration>,
    r: Seq<Declaration>,
    k: int,
    left: TypeId,
    right: TypeId,
)
    requires
        l.len() == r.len(),
    ensures
        pairwise_compatible(ast, l, r, k, left, right) == pairwise_compatible(ast, r, l, k, right, left),
    decreases left.0 + right.0, 0int, l.len() - k,
{
    if 0 <= k < l.len() {
        if l[k].ty.0 < left.0 && r[k].ty.0 < right.0 {
            law_compatible_is_symmetric(ast, l[k].ty, r[k].ty);
        }
        lemma_pairwise_symmetric(ast, l, r, k + 1, left, right);
    }
}

/// Every type of an ordered tree is compatible with itself.
pub proof fn law_compatible_is_reflexive(ast: Ast, id: TypeId)
    requires
        ast.types_ordered(),
        id.0 < ast.spec_types().len(),
    ensures
        compatible(ast, id, id),
    decreases id.0, 2int, 0int,
{
    let types = ast.spec_types();
    assert(refers_below(types[id.0 as int], id.0 as int));
    match types[id.0 as int] {
        Type::Pointer(p) => {
            law_compatible_is_reflexive(ast, p);
            assert(compatible(ast, id, id));
        },
        Type::Array { element, .. } => {
            law_compatible_is_reflexive(ast, element);
            assert(compatible(ast, id, id));
        },
        Type::Function { result, parameters } => {
            law_compatible_is_reflexive(ast, result);
            match parameters {
                Parameters::Prototype(ps) => {
                    lemma_pairwise_reflexive(ast, ps@, 0, id);
                    assert(parameters_compatible(ast, parameters, parameters, id, id));
                },
                Parameters::Unspecified => {},
            }
            assert(result.0 < id.0);
            assert(compatible(ast, result, result));
            assert(parameters_compatible(ast, parameters, parameters, id, id));
            assert(compatible(ast, id, id));
        },
        Type::Int => {
            assert(compatible(ast, id, id));
        },
        _ => {},
    }
}

proof fn lemma_pairwise_reflexive(ast: Ast, ps: Seq<Declaration>, k: int, id: TypeId)
    requires
        ast.types_ordered(),
        id.0 < ast.spec_types().len(),
        forall|j: int| 0 <= j < ps.len() ==> (#[trigger] ps[j]).ty.0 < id.0,
    ensures
        pairwise_compatible(ast, ps, ps, k, id, id),
    decreases id.0, 0int, ps.len() - k,
{
    if 0 <= k < ps.len() {
        assert(ps[k].ty.0 < id.0);
        law_compatible_is_reflexive(ast, ps[k].ty);
        lemma_pairwise_reflexive(ast, ps, k + 1, id);
    }
}

/// Two function types with prototypes are compatible only where their results
/// are compatible, the prototypes have one length, and the parameters at each
/// position are compatible: `int (int, int)` and `int (int, char)` are not.
pub proof fn law_compatible_prototypes_match_pairwise(ast: Ast, left: TypeId, right: TypeId)
    requires
        compatible(ast, left, right),
    ensures
        (ast.spec_types()[left.0 as int], ast.spec_types()[right.0 as int]) matches (
            Type::Function { result: lr, parameters: Parameters::Prototype(l) },
            Type::Function { result: rr, parameters: Parameters::Prototype(r) },
        ) ==> {
            &&& compatible(ast, lr, rr)
            &&& l@.len() == r@.len()
            &&& forall|k: int| 0 <= k < l@.len() ==> compatible(ast, (#[trigger] l@[k]).ty, r@[k].ty)
        },
{
    let types = ast.spec_types();
    match (types[left.0 as int], types[right.0 as int]) {
        (
            Type::Function { result: lr, parameters: Parameters::Prototype(l) },
            Type::Function { result: rr, parameters: Parameters::Prototype(r) },
        ) => {
            assert(parameters_compatible(ast, Parameters::Prototype(l), Parameters::Prototype(r), left, right));
            lemma_pairwise_each(ast, l@, r@, 0, left, right);
        },
        _ => {},
    }
}

/// Compatibility looks through every kind of type: pointers are compatible
/// only where what they point to is, arrays only where their elements are,
/// and a prototype and a declarator that says nothing only where no
/// parameter of the prototype is a `char`, which the default argument
/// promotions would change.
pub proof fn law_compatible_looks_inside(ast: Ast, left: TypeId, right: TypeId)
    requires
        compatible(ast, left, right),
    ensures
        (ast.spec_types()[left.0 as int], ast.spec_types()[right.0 as int]) matches (
            Type::Pointer(l),
            Type::Pointer(r),
        ) ==> compatible(ast, l, r),
        (ast.spec_types()[left.0 as int], ast.spec_types()[right.0 as int]) matches (
            Type::Array { element: l, .. },
            Type::Array { element: r, .. },
        ) ==> compatible(ast, l, r),
        (ast.spec_types()[left.0 as int], ast.spec_types()[right.0 as int]) matches (
            Type::Function { parameters: Parameters::Prototype(ps), .. },
            Type::Function { parameters: Parameters::Unspecified, .. },
        ) ==> forall|k: int| 0 <= k < ps@.len() && (#[trigger] ps@[k]).ty.0 < ast.spec_types().len() ==> !(
            ast.spec_types()[ps@[k].ty.0 as int] is Char),
        (ast.spec_types()[left.0 as int], ast.spec_types()[right.0 as int]) matches (
            Type::Function { parameters: Parameters::Unspecified, .. },
            Type::Function { parameters: Parameters::Prototype(ps), .. },
        ) ==> forall|k: int| 0 <= k < ps@.len() && (#[trigger] ps@[k]).ty.0 < ast.spec_types().len() ==> !(
            ast.spec_types()[ps@[k].ty.0 as int] is Char),
        ast.spec_types()[left.0 as int] is Int ==> ast.spec_types()[right.0 as int] is Int,
        ast.spec_types()[left.0 as int] is Char ==> ast.spec_types()[right.0 as int] is Char,
        ast.spec_types()[left.0 as int] is Void ==> ast.spec_types()[right.0 as int] is Void,
{
    let types = ast.spec_types();
    match (types[left.0 as int], types[right.0 as int]) {
        (
            Type::Function { parameters: Parameters::Prototype(ps), .. },
            Type::Function { parameters: Parameters::Unspecified, .. },
        ) => {
            assert(parameters_compatible(ast, Parameters::Prototype(ps), Parameters::Unspecified, left, right));
            assert forall|k: int| 0 <= k < ps@.len() && (#[trigger] ps@[k]).ty.0 < types.len() implies !(
                types[ps@[k].ty.0 as int] is Char) by {
                assert(!promoted_by_default(ast, ps@[k].ty));
            }
        },
        (
            Type::Function { parameters: Parameters::Unspecified, .. },
            Type::Function { parameters: Parameters::Prototype(ps), .. },
        ) => {
            assert(parameters_compatible(ast, Parameters::Unspecified, Parameters::Prototype(ps), left, right));
            assert forall|k: int| 0 <= k < ps@.len() && (#[trigger] ps@[k]).ty.0 < types.len() implies !(
                types[ps@[k].ty.0 as int] is Char) by {
                assert(!promoted_by_default(ast, ps@[k].ty));
            }
        },
        _ => {},
    }
}

/// In an ordered tree two function types with prototypes of one length are
/// compatible where their results are and the parameters at each position
/// are: pairwise compatibility is all that is asked.
pub proof fn law_pairwise_prototypes_are_compatible(ast: Ast, left: TypeId, right: TypeId)
    requires
        ast.types_ordered(),
        left.0 < ast.spec_types().len(),
        right.0 < ast.spec_types().len(),
    ensures
        (ast.spec_types()[left.0 as int], ast.spec_types()[right.0 as int]) matches (
            Type::Function { result: lr, parameters: Parameters::Prototype(l) },
            Type::Function { result: rr, parameters: Parameters::Prototype(r) },
        ) ==> (compatible(ast, lr, rr) && l@.len() == r@.len() && (forall|k: int|
            0 <= k < l@.len() ==> compatible(ast, (#[trigger] l@[k]).ty, r@[k].ty)) ==> compatible(ast, left, right)),
{
    let types = ast.spec_types();
    match (types[left.0 as int], types[right.0 as int]) {
        (
            Type::Function { result: lr, parameters: Parameters::Prototype(l) },
            Type::Function { result: rr, parameters: Parameters::Prototype(r) },
        ) => {
            assert(refers_below(types[left.0 as int], left.0 as int));
            assert(refers_below(types[right.0 as int], right.0 as int));
            if compatible(ast, lr, rr) && l@.len() == r@.len() && (forall|k: int|
                0 <= k < l@.len() ==> compatible(ast, (#[trigger] l@[k]).ty, r@[k].ty)) {
                lemma_pairwise_from_each(ast, l@, r@, 0, left, right);
                assert(parameters_compatible(
                    ast,
                    Parameters::Prototype(l),
                    Parameters::Prototype(r),
                    left,
                    right,
                ));
                assert(compatible(ast, left, right));
            }
        },
        _ => {},
    }
}

/// Pairwise compatibility from position `k`, out of compatibility at each
/// later position of parameters that come before their function types.
proof fn lemma_pairwise_from_each(
    ast: Ast,
    l: Seq<Declaration>,
    r: Seq<Declaration>,
    k: int,
    left: TypeId,
    right: TypeId,
)
    requires
        0 <= k,
        l.len() == r.len(),
        forall|j: int| 0 <= j < l.len() ==> (#[trigger] l[j]).ty.0 < left.0,
        forall|j: int| 0 <= j < r.len() ==> (#[trigger] r[j]).ty.0 < right.0,
        forall|j: int| 0 <= j < l.len() ==> compatible(ast, (#[trigger] l[j]).ty, r[j].ty),
    ensures
        pairwise_compatible(ast, l, r, k, left, right),
    decreases l.len() - k,
{
    if k < l.len() {
        assert(l[k].ty.0 < left.0 && r[k].ty.0 < right.0 && compatible(ast, l[k].ty, r[k].ty));
        lemma_pairwise_from_each(ast, l, r, k + 1, left, right);
    }
}

/// What `pairwise_compatible` from position `k` says of each later position.
proof fn lemma_pairwise_each(
    ast: Ast,
    l: Seq<Declaration>,
    r: Seq<Declaration>,
    k: int,
    left: TypeId,
    right: TypeId,
)
    requires
        0 <= k,
        pairwise_compatible(ast, l, r, k, left, right),
    ensures
        forall|j: int| k <= j < l.len() && j < r.len() ==> compatible(ast, (#[trigger] l[j]).ty, r[j].ty),
    decreases l.len() - k,
{
    if k < l.len() && k < r.len() {
        lemma_pairwise_each(ast, l, r, k + 1, left, right);
    }
}


/// `base` written before what wraps it: with a space, unless nothing wraps it
/// or it begins with an array's brackets.
pub open spec fn finish_spelling(base: Seq<char>, inner: Seq<char>) -> Seq<char> {
    if inner.len() == 0 || inner[0] == '[' {
        base + inner
    } else {
        base + " "@ + inner
    }
}

/// A pointer to this type needs parentheses round the `*`: an array or a
/// function, whose declarators bind tighter than a pointer's.
pub open spec fn binds_tighter_than_a_pointer(t: Type) -> bool {
    t is Array || t is Function
}

/// The text an array's length was written as, or nothing where none was;
/// none at all where the length expression or its text is not there.
pub open spec fn length_spelling(sources: SourceMap, ast: Ast, length: Option<ExprId>) -> Option<Seq<char>> {
    match length {
        None => Some(Seq::empty()),
        Some(e) => if e.0 < ast.spec_exprs().len() && readable(sources, expr_span(ast.spec_exprs()[e.0 as int])) {
            Some(snippet_of(sources, expr_span(ast.spec_exprs()[e.0 as int])))
        } else {
            None
        },
    }
}

/// How C declares type `id`, with the declarator built so far, `inner`,
/// wrapped round it: a pointer puts `*` before it, an array puts its brackets
/// after, a function its parameters. None where the type cannot be spelled:
/// an id out of order, or the text of a length that is not there.
pub open spec fn spelling(sources: SourceMap, ast: Ast, id: TypeId, inner: Seq<char>) -> Option<Seq<char>>
    decreases id.0, 2int, 0int,
{
    let types = ast.spec_types();
    if id.0 >= types.len() {
        None
    } else {
        match types[id.0 as int] {
            Type::Int => Some(finish_spelling("int"@, inner)),
            Type::Char => Some(finish_spelling("char"@, inner)),
            Type::Void => Some(finish_spelling("void"@, inner)),
            Type::Pointer(p) => if p.0 < id.0 && p.0 < types.len() {
                let wrapped = if binds_tighter_than_a_pointer(types[p.0 as int]) {
                    "(*"@ + inner + ")"@
                } else {
                    "*"@ + inner
                };
                spelling(sources, ast, p, wrapped)
            } else {
                None
            },
            Type::Array { element, length } => if element.0 < id.0 {
                match length_spelling(sources, ast, length) {
                    None => None,
                    Some(text) => spelling(sources, ast, element, inner + "["@ + text + "]"@),
                }
            } else {
                None
            },
            Type::Function { result, parameters } => if result.0 < id.0 {
                match parameters_spelling(sources, ast, parameters, id) {
                    None => None,
                    Some(text) => spelling(sources, ast, result, inner + "("@ + text + ")"@),
                }
            } else {
                None
            },
        }
    }
}

/// How the parameters of function type `owner` are spelled: nothing for
/// `()`, `void` for an empty prototype, and each parameter's type otherwise,
/// separated by `, `.
pub open spec fn parameters_spelling(sources: SourceMap, ast: Ast, parameters: Parameters, owner: TypeId) -> Option<
    Seq<char>,
>
    decreases owner.0, 1int, 0int,
{
    match parameters {
        Parameters::Unspecified => Some(Seq::empty()),
        Parameters::Prototype(ps) => if ps@.len() == 0 {
            Some("void"@)
        } else {
            joined_spelling(sources, ast, ps@, 0, owner)
        },
    }
}

/// Parameters `k..` spelled and joined, each after `, ` but the first.
pub open spec fn joined_spelling(sources: SourceMap, ast: Ast, ps: Seq<Declaration>, k: int, owner: TypeId) -> Option<
    Seq<char>,
>
    decreases owner.0, 0int, ps.len() - k,
{
    if k < 0 || k >= ps.len() {
        Some(Seq::empty())
    } else if ps[k].ty.0 < owner.0 {
        match spelling(sources, ast, ps[k].ty, Seq::empty()) {
            None => None,
            Some(one) => match joined_spelling(sources, ast, ps, k + 1, owner) {
                None => None,
                Some(rest) => Some(
                    if k == 0 {
                        one + rest
                    } else {
                        ", "@ + one + rest
                    },
                ),
            },
        }
    } else {
        None
    }
}

fn concat2(a: &str, b: &str) -> (s: String)
    ensures
        s@ == a@ + b@,
{
    let mut s = a.to_owned();
    s.append(b);
    s
}

fn concat3(a: &str, b: &str, c: &str) -> (s: String)
    ensures
        s@ == a@ + b@ + c@,
{
    let mut s = a.to_owned();
    s.append(b);
    s.append(c);
    s
}

/// How C declares type `id`: `int *`, `int (*)[10]`, `int (int)`, as
/// [`spelling`] says.
pub fn spell_type(sources: &SourceMap, ast: &Ast, id: TypeId) -> (s: String)
    requires
        spelling(*sources, *ast, id, Seq::empty()) is Some,
    ensures
        s@ == spelling(*sources, *ast, id, Seq::empty())->Some_0,
    decreases id.0, 2int, 0int,
{
    let ghost target = spelling(*sources, *ast, id, Seq::empty());
    let mut at = id;
    let mut inner = String::new();
    loop
        invariant
            at.0 <= id.0,
            target == spelling(*sources, *ast, id, Seq::empty()),
            target is Some,
            spelling(*sources, *ast, at, inner@) == target,
        decreases at.0,
    {
        let ty = ast.ty(at);
        match ty {
            Type::Int => {
                return finish(inner, "int");
            },
            Type::Char => {
                return finish(inner, "char");
            },
            Type::Void => {
                return finish(inner, "void");
            },
            Type::Pointer(pointee) => {
                inner = if binds_tighter(ast.ty(*pointee)) {
                    concat3("(*", inner.as_str(), ")")
                } else {
                    concat2("*", inner.as_str())
                };
                at = *pointee;
            },
            Type::Array { element, length } => {
                let text = match length {
                    Some(length) => sources.snippet(ast.expr(*length).span()),
                    None => String::new(),
                };
                let mut wrapped = inner;
                wrapped.append("[");
                wrapped.append(text.as_str());
                wrapped.append("]");
                inner = wrapped;
                at = *element;
            },
            Type::Function { result, parameters } => {
                let text = spell_parameters(sources, ast, parameters, Ghost(at));
                let mut wrapped = inner;
                wrapped.append("(");
                wrapped.append(text.as_str());
                wrapped.append(")");
                inner = wrapped;
                at = *result;
            },
        }
    }
}

fn finish(inner: String, base: &str) -> (s: String)
    ensures
        s@ == finish_spelling(base@, inner@),
{
    let text = inner.as_str();
    if text.unicode_len() == 0 || text.get_char(0) == '[' {
        concat2(base, text)
    } else {
        concat3(base, " ", text)
    }
}

fn binds_tighter(t: &Type) -> (r: bool)
    ensures
        r == binds_tighter_than_a_pointer(*t),
{
    match t {
        Type::Array { .. } | Type::Function { .. } => true,
        Type::Int | Type::Char | Type::Void | Type::Pointer(_) => false,
    }
}

#[verifier::spinoff_prover]
#[verifier::rlimit(40)]
fn spell_parameters(sources: &SourceMap, ast: &Ast, parameters: &Parameters, Ghost(owner): Ghost<TypeId>) -> (s: String)
    requires
        parameters_spelling(*sources, *ast, *parameters, owner) is Some,
    ensures
        s@ == parameters_spelling(*sources, *ast, *parameters, owner)->Some_0,
    decreases owner.0, 1int, 0int,
{
    match parameters {
        Parameters::Unspecified => String::new(),
        Parameters::Prototype(ps) => {
            if ps.len() == 0 {
                return "void".to_owned();
            }
            let ghost all = joined_spelling(*sources, *ast, ps@, 0, owner);
            let mut out = String::new();
            let mut k: usize = 0;
            while k < ps.len()
                invariant
                    k <= ps@.len(),
                    all is Some,
                    all == match joined_spelling(*sources, *ast, ps@, k as int, owner) {
                        Some(rest) => Some(out@ + rest),
                        None => None::<Seq<char>>,
                    },
                    k > 0 ==> out@.len() >= 0,
                decreases ps@.len() - k,
            {
                let one = spell_type(sources, ast, ps[k].ty);
                if k > 0 {
                    out.append(", ");
                }
                out.append(one.as_str());
                k = k + 1;
            }
            out
        },
    }
}

} // verus!
