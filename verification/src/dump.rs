//! What `--emit ast` writes: the tree, one node per line.
//!
//! Each line is indented two spaces per level, then names the node's kind,
//! where it is (the file its own span names, a line and a column), and what
//! that node alone carries. Text out of a file is quoted, so a control
//! character in it is written as an escape rather than obeyed.
use vstd::prelude::*;
use vstd::string::StringExecFns;

use crate::ast::{
    binop_spelling, expr_children, expr_name, expr_span, item_name, item_span, spell_type, spelling,
    stmt_name, stmt_span, unop_fixity, unop_spelling, Ast, Declaration, Expr, ExprId, InitDeclarator,
    Item, Parameters, Stmt, StmtId, Type, TypeId,
};
use crate::lexer::decimal;
use crate::print::{debug_quoted, debug_text, decimal_text, push_char, shown, shown_text};
use crate::source::{
    column_before, lines_before, position_of, readable, snippet_of, SourceMap, Span,
};

verus! {

/// How many levels of the tree are shown as indentation. A node deeper than
/// this is indented as deep as this, and its line says how much deeper it is.
pub const DEEPEST_INDENT: usize = 64;

/// `n` spaces.
pub open spec fn spaces(n: nat) -> Seq<char> {
    Seq::new(n, |i: int| ' ')
}

/// The indentation of a node at `depth`.
pub open spec fn indent(depth: nat) -> Seq<char> {
    if depth <= DEEPEST_INDENT {
        spaces(2 * depth)
    } else {
        spaces(2 * DEEPEST_INDENT as nat) + "+"@ + decimal((depth - DEEPEST_INDENT) as nat) + " "@
    }
}

/// The start of a node's line: its indentation, its kind, and where it is,
/// read from the file its span names.
#[verifier::opaque]
pub open spec fn node_head(sources: SourceMap, name: Seq<char>, span: Span, depth: nat) -> Seq<char> {
    let file = sources.spec_files()[span.file.0 as int];
    let at = position_of(file.text(), span.start as int);
    indent(depth) + name + " "@ + shown_text(file.spec_name()) + ":"@ + decimal(
        lines_before(file.text(), at) + 1,
    ) + ":"@ + decimal(column_before(file.text(), at) + 1)
}

/// The text a span covers, quoted.
#[verifier::opaque]
pub open spec fn quoted_text(sources: SourceMap, span: Span) -> Seq<char> {
    debug_quoted(snippet_of(sources, span))
}

/// What an expression node says about itself: the text of a number or a
/// name, an operator's spelling, and which side an increment or a decrement
/// was written on.
pub open spec fn expr_tail(sources: SourceMap, e: Expr) -> Seq<char> {
    match e {
        Expr::Number { span } => " "@ + quoted_text(sources, span),
        Expr::Identifier { span } => " "@ + quoted_text(sources, span),
        Expr::Unary { op, .. } => (match unop_fixity(op) {
            Some(f) => " "@ + f,
            None => Seq::empty(),
        }) + " "@ + debug_quoted(unop_spelling(op)),
        Expr::Binary { op, .. } => " "@ + debug_quoted(binop_spelling(op)),
        Expr::Assign { op, .. } => " "@ + debug_quoted(
            match op {
                Some(o) => binop_spelling(o) + "="@,
                None => "="@,
            },
        ),
        Expr::Comma { .. } => " "@ + debug_quoted(","@),
        _ => Seq::empty(),
    }
}

/// The line of expression `id` at `depth`.
pub open spec fn expr_line(sources: SourceMap, ast: Ast, id: ExprId, depth: nat) -> Seq<char> {
    let e = ast.spec_exprs()[id.0 as int];
    node_head(sources, expr_name(e), expr_span(e), depth) + expr_tail(sources, e) + "\n"@
}

/// Expression `id` at `depth` and everything under it, each node before
/// the ones it is made of, and those in the order they were written.
pub open spec fn expr_dump(sources: SourceMap, ast: Ast, id: ExprId, depth: nat) -> Seq<char>
    decreases id.0 as int + 1, 0int,
{
    if id.0 < ast.spec_exprs().len() {
        expr_line(sources, ast, id, depth) + kids_dump(
            sources,
            ast,
            expr_children(ast.spec_exprs()[id.0 as int]),
            depth + 1,
            id.0 as int,
        )
    } else {
        Seq::empty()
    }
}

/// The expressions `kids` at `depth`, in order: those numbered below
/// `bound`, which in a tree every child is.
pub open spec fn kids_dump(sources: SourceMap, ast: Ast, kids: Seq<ExprId>, depth: nat, bound: int) -> Seq<
    char,
>
    decreases bound, kids.len(),
{
    if kids.len() == 0 {
        Seq::empty()
    } else {
        (if kids[0].0 < bound {
            expr_dump(sources, ast, kids[0], depth)
        } else {
            Seq::empty()
        }) + kids_dump(sources, ast, kids.drop_first(), depth, bound)
    }
}

/// How many nodes expression `id` has under it, itself included.
pub open spec fn expr_size(ast: Ast, id: ExprId) -> nat
    decreases id.0 as int + 1, 0int,
{
    if id.0 < ast.spec_exprs().len() {
        1 + kids_size(ast, expr_children(ast.spec_exprs()[id.0 as int]), id.0 as int)
    } else {
        1
    }
}

/// How many nodes the expressions `kids` have under them.
pub open spec fn kids_size(ast: Ast, kids: Seq<ExprId>, bound: int) -> nat
    decreases bound, kids.len(),
{
    if kids.len() == 0 {
        0
    } else {
        (if kids[0].0 < bound {
            expr_size(ast, kids[0])
        } else {
            0
        }) + kids_size(ast, kids.drop_first(), bound)
    }
}

/// Every expression of `ast` can be dumped against `sources`: its parts
/// are numbered below it, its span names a file of `sources`, and a number
/// or a name covers text of that file.
pub open spec fn exprs_dumpable(sources: SourceMap, ast: Ast) -> bool {
    forall|i: int|
        0 <= i < ast.spec_exprs().len() ==> {
            let e = #[trigger] ast.spec_exprs()[i];
            &&& forall|k: int| 0 <= k < expr_children(e).len() ==> expr_children(e)[k].0 < i
            &&& expr_span(e).file.0 < sources.spec_files().len()
            &&& (e is Number || e is Identifier) ==> readable(sources, expr_span(e))
        }
}

/// What is still to be written for a stack of nodes, the top first.
pub open spec fn pending_dump(sources: SourceMap, ast: Ast, s: Seq<(ExprId, usize)>) -> Seq<char>
    decreases s.len(),
{
    if s.len() == 0 {
        Seq::empty()
    } else {
        expr_dump(sources, ast, s.last().0, s.last().1 as nat) + pending_dump(sources, ast, s.drop_last())
    }
}

/// How many nodes are still to be written for a stack of nodes.
pub open spec fn pending_size(ast: Ast, s: Seq<(ExprId, usize)>) -> nat
    decreases s.len(),
{
    if s.len() == 0 {
        0
    } else {
        expr_size(ast, s.last().0) + pending_size(ast, s.drop_last())
    }
}

/// `kids` at `depth`, pushed last first, so that the first comes off first.
pub open spec fn pushed(kids: Seq<ExprId>, depth: usize) -> Seq<(ExprId, usize)> {
    Seq::new(kids.len(), |i: int| (kids[kids.len() - 1 - i], depth))
}

proof fn lemma_push_kids(sources: SourceMap, ast: Ast, rest: Seq<(ExprId, usize)>, kids: Seq<ExprId>, depth: usize, bound: int)
    requires
        forall|k: int| 0 <= k < kids.len() ==> kids[k].0 < bound,
    ensures
        pending_dump(sources, ast, rest + pushed(kids, depth)) == kids_dump(sources, ast, kids, depth as nat, bound)
            + pending_dump(sources, ast, rest),
        pending_size(ast, rest + pushed(kids, depth)) == kids_size(ast, kids, bound) + pending_size(ast, rest),
    decreases kids.len(),
{
    if kids.len() == 0 {
        assert(rest + pushed(kids, depth) =~= rest);
        assert(kids_dump(sources, ast, kids, depth as nat, bound) =~= Seq::<char>::empty());
        assert(Seq::<char>::empty() + pending_dump(sources, ast, rest) =~= pending_dump(sources, ast, rest));
    } else {
        let tail = kids.drop_first();
        lemma_push_kids(sources, ast, rest, tail, depth, bound);
        let whole = rest + pushed(kids, depth);
        assert(whole.drop_last() =~= rest + pushed(tail, depth));
        assert(whole.last() == (kids[0], depth));
        assert(kids[0].0 < bound);
        assert(pending_dump(sources, ast, whole) =~= kids_dump(sources, ast, kids, depth as nat, bound)
            + pending_dump(sources, ast, rest));
    }
}

/// Append `depth`'s indentation.
fn push_indent(out: &mut String, depth: usize)
    ensures
        final(out)@ == old(out)@ + indent(depth as nat),
{
    let levels = if depth <= DEEPEST_INDENT {
        depth
    } else {
        DEEPEST_INDENT
    };
    let ghost before = out@;
    let mut k: usize = 0;
    while k < 2 * levels
        invariant
            levels <= DEEPEST_INDENT,
            k <= 2 * levels,
            out@ == before + spaces(k as nat),
        decreases 2 * levels - k,
    {
        push_char(out, ' ');
        assert(out@ =~= before + spaces((k + 1) as nat));
        k = k + 1;
    }
    if depth > DEEPEST_INDENT {
        let short = decimal_text((depth - DEEPEST_INDENT) as u64);
        out.append("+");
        out.append(short.as_str());
        out.append(" ");
    }
    proof {
        if depth > DEEPEST_INDENT {
            reveal_strlit("+");
            reveal_strlit(" ");
        }
        assert(out@ =~= before + indent(depth as nat));
    }
}

/// Append the start of a node's line, as [`node_head`] says.
fn push_head(sources: &SourceMap, name: &str, span: Span, depth: usize, out: &mut String)
    requires
        span.file.0 < sources.spec_files().len(),
    ensures
        final(out)@ == old(out)@ + node_head(*sources, name@, span, depth as nat),
{
    let ghost before = out@;
    proof {
        reveal(node_head);
    }
    let file = sources.file(span.file);
    let at = file.line_col(span.start);
    push_indent(out, depth);
    out.append(name);
    out.append(" ");
    let named = shown(file.name());
    out.append(named.as_str());
    out.append(":");
    let line = decimal_text(at.line);
    out.append(line.as_str());
    out.append(":");
    let column = decimal_text(at.column);
    out.append(column.as_str());
    proof {
        reveal_strlit(" ");
        reveal_strlit(":");
        assert(out@ =~= before + node_head(*sources, name@, span, depth as nat));
    }
}

/// Append `" "` and the text `span` covers, quoted.
fn push_quoted(sources: &SourceMap, span: Span, out: &mut String)
    requires
        readable(*sources, span),
    ensures
        final(out)@ == old(out)@ + " "@ + quoted_text(*sources, span),
{
    proof {
        reveal(quoted_text);
    }
    let text = sources.snippet(span);
    let quoted = debug_text(text.as_str());
    out.append(" ");
    out.append(quoted.as_str());
}

/// Append what an expression node says about itself, as [`expr_tail`]
/// says.
#[verifier::spinoff_prover]
#[verifier::rlimit(50)]
fn push_expr_tail(sources: &SourceMap, e: &Expr, out: &mut String)
    requires
        (e is Number || e is Identifier) ==> readable(*sources, expr_span(*e)),
    ensures
        final(out)@ == old(out)@ + expr_tail(*sources, *e),
{
    let ghost before = out@;
    proof {
        reveal_strlit(" ");
    }
    match e {
        Expr::Number { span } | Expr::Identifier { span } => {
            push_quoted(sources, *span, out);
        },
        Expr::Unary { op, .. } => {
            let fixity = op.fixity();
            if let Some(f) = fixity {
                out.append(" ");
                out.append(f);
            }
            let ghost middle = out@;
            assert(middle =~= before + match unop_fixity(*op) {
                Some(f) => " "@ + f,
                None => Seq::empty(),
            });
            let spelled = debug_text(op.as_str());
            out.append(" ");
            out.append(spelled.as_str());
            assert(out@ =~= before + expr_tail(*sources, *e));
        },
        Expr::Binary { op, .. } => {
            let spelled = debug_text(op.as_str());
            out.append(" ");
            out.append(spelled.as_str());
            assert(out@ =~= before + expr_tail(*sources, *e));
        },
        Expr::Assign { op, .. } => {
            let mut spelling = String::new();
            if let Some(o) = op {
                spelling.append(o.as_str());
            }
            spelling.append("=");
            proof {
                reveal_strlit("=");
                assert(spelling@ =~= match op {
                    Some(o) => binop_spelling(*o) + "="@,
                    None => "="@,
                });
            }
            let spelled = debug_text(spelling.as_str());
            out.append(" ");
            out.append(spelled.as_str());
            assert(out@ =~= before + expr_tail(*sources, *e));
        },
        Expr::Comma { .. } => {
            let spelled = debug_text(",");
            out.append(" ");
            out.append(spelled.as_str());
            assert(out@ =~= before + expr_tail(*sources, *e));
        },
        _ => {
            assert(out@ =~= before + expr_tail(*sources, *e));
        },
    }
}

/// Write expression `root` at `depth` and everything under it, as
/// [`expr_dump`] says. The walk keeps its own stack rather than recursing,
/// because a chain of operators folds into a tree deeper than anything
/// bounds.
pub fn dump_expr(sources: &SourceMap, ast: &Ast, root: ExprId, depth: usize, out: &mut String)
    requires
        exprs_dumpable(*sources, *ast),
        root.0 < ast.spec_exprs().len(),
        depth + root.0 < usize::MAX,
    ensures
        final(out)@ == old(out)@ + expr_dump(*sources, *ast, root, depth as nat),
{
    let ghost whole = expr_dump(*sources, *ast, root, depth as nat);
    let mut pending: Vec<(ExprId, usize)> = vec![(root, depth)];
    proof {
        assert(pending@.drop_last() =~= Seq::<(ExprId, usize)>::empty());
        assert(pending@.last() == (root, depth));
        assert(pending_dump(*sources, *ast, Seq::<(ExprId, usize)>::empty()) =~= Seq::<char>::empty());
        assert(pending_dump(*sources, *ast, pending@) =~= whole);
    }
    while pending.len() > 0
        invariant
            exprs_dumpable(*sources, *ast),
            old(out)@ + whole == out@ + pending_dump(*sources, *ast, pending@),
            forall|k: int|
                0 <= k < pending@.len() ==> (#[trigger] pending@[k]).0.0 < ast.spec_exprs().len() && pending@[k].1
                    + pending@[k].0.0 <= depth + root.0,
            depth + root.0 < usize::MAX,
        decreases pending_size(*ast, pending@),
    {
        let ghost stack = pending@;
        let (id, d) = pending.pop().unwrap();
        let ghost rest = pending@;
        proof {
            assert(stack.last() == (id, d));
            assert(rest == stack.drop_last());
            assert(stack[stack.len() - 1] == (id, d));
        }
        let expr = ast.expr(id);
        let ghost e = *expr;
        proof {
            assert(ast.spec_exprs()[id.0 as int] == e);
        }
        let ghost at_start = out@;
        push_head(sources, expr.name(), expr.span(), d, out);
        push_expr_tail(sources, expr, out);
        push_char(out, '\n');
        proof {
            reveal_strlit("\n");
            assert(out@ =~= at_start + expr_line(*sources, *ast, id, d as nat));
        }
        let mut kids: Vec<ExprId> = Vec::new();
        expr.extend_children(&mut kids);
        proof {
            assert(kids@ =~= expr_children(e));
        }
        let mut k: usize = kids.len();
        proof {
            assert(pushed(kids@.subrange(k as int, kids@.len() as int), (d + 1) as usize) =~= Seq::<(ExprId, usize)>::empty());
            assert(rest + Seq::<(ExprId, usize)>::empty() =~= rest);
        }
        while k > 0
            invariant
                k <= kids@.len(),
                kids@ == expr_children(e),
                d + id.0 <= depth + root.0,
                depth + root.0 < usize::MAX,
                pending@ == rest + pushed(kids@.subrange(k as int, kids@.len() as int), (d + 1) as usize),
            decreases k,
        {
            k = k - 1;
            pending.push((kids[k], d + 1));
            proof {
                assert(pending@ =~= rest + pushed(kids@.subrange(k as int, kids@.len() as int), (d + 1) as usize));
            }
        }
        proof {
            assert(kids@.subrange(0, kids@.len() as int) =~= kids@);
            assert forall|j: int| 0 <= j < kids@.len() implies kids@[j].0 < id.0 by {
                assert(expr_children(e)[j].0 < id.0);
            }
            lemma_push_kids(*sources, *ast, rest, kids@, (d + 1) as usize, id.0 as int);
            assert(expr_dump(*sources, *ast, id, d as nat) == expr_line(*sources, *ast, id, d as nat)
                + kids_dump(*sources, *ast, kids@, (d + 1) as nat, id.0 as int));
            assert forall|j: int| 0 <= j < pending@.len() implies (#[trigger] pending@[j]).0.0
                < ast.spec_exprs().len() && pending@[j].1 + pending@[j].0.0 <= depth + root.0 by {
                if j >= rest.len() {
                    let i = kids@.len() - 1 - (j - rest.len());
                    assert(pending@[j] == (kids@[i], (d + 1) as usize));
                    assert(kids@[i].0 < id.0);
                } else {
                    assert(pending@[j] == stack[j]);
                }
            }
        }
    }
}

// ---------------------------------------------------------------------------
// Declarations.
// ---------------------------------------------------------------------------

/// The spelling of a type, where it has one.
#[verifier::opaque]
pub open spec fn type_text(sources: SourceMap, ast: Ast, ty: TypeId) -> Seq<char> {
    spelling(sources, ast, ty, Seq::empty())->Some_0
}

/// Whether a type has a spelling.
#[verifier::opaque]
pub open spec fn spells(sources: SourceMap, ast: Ast, ty: TypeId) -> bool {
    spelling(sources, ast, ty, Seq::empty()) is Some
}

/// The spelling of type `ty`, as [`type_text`] says.
fn spell(sources: &SourceMap, ast: &Ast, ty: TypeId) -> (s: String)
    requires
        spells(*sources, *ast, ty),
    ensures
        s@ == type_text(*sources, *ast, ty),
{
    proof {
        reveal(spells);
        reveal(type_text);
    }
    spell_type(sources, ast, ty)
}

/// The end of a line that declares something: the name where one was
/// written, then the type, both quoted.
pub open spec fn decl_tail(sources: SourceMap, ast: Ast, d: Declaration) -> Seq<char> {
    name_part(sources, d.name) + type_part(sources, ast, d.ty)
}

/// The type part of a declaring line, and its end.
#[verifier::opaque]
pub open spec fn type_part(sources: SourceMap, ast: Ast, ty: TypeId) -> Seq<char> {
    " "@ + debug_quoted(type_text(sources, ast, ty)) + "\n"@
}

/// A declaration can be dumped: its span names a file of `sources`, its
/// name covers text of that file, and its type has a spelling.
pub open spec fn decl_dumpable(sources: SourceMap, ast: Ast, d: Declaration) -> bool {
    &&& d.span.file.0 < sources.spec_files().len()
    &&& (d.name matches Some(n) ==> readable(sources, n))
    &&& spells(sources, ast, d.ty)
}

/// The parameters a type names, where it is directly a function with a
/// prototype.
pub open spec fn parameters_of(ast: Ast, ty: TypeId) -> Seq<Declaration> {
    if ty.0 < ast.spec_types().len() {
        match ast.spec_types()[ty.0 as int] {
            Type::Function { parameters: Parameters::Prototype(ps), .. } => ps@,
            _ => Seq::empty(),
        }
    } else {
        Seq::empty()
    }
}

/// One line per parameter in `ps`, at `depth`.
pub open spec fn parameter_lines(sources: SourceMap, ast: Ast, ps: Seq<Declaration>, depth: nat) -> Seq<char>
    decreases ps.len(),
{
    if ps.len() == 0 {
        Seq::empty()
    } else {
        parameter_lines(sources, ast, ps.drop_last(), depth) + node_head(
            sources,
            "Parameter"@,
            ps.last().span,
            depth,
        ) + decl_tail(sources, ast, ps.last())
    }
}

/// The lines of the parameters type `ty` names, at `depth`.
pub open spec fn parameters_dump(sources: SourceMap, ast: Ast, ty: TypeId, depth: nat) -> Seq<char> {
    parameter_lines(sources, ast, parameters_of(ast, ty), depth)
}

/// Every parameter type `ty` names can be dumped.
pub open spec fn parameters_dumpable(sources: SourceMap, ast: Ast, ty: TypeId) -> bool {
    forall|k: int|
        0 <= k < parameters_of(ast, ty).len() ==> decl_dumpable(
            sources,
            ast,
            #[trigger] parameters_of(ast, ty)[k],
        )
}

/// Append the end of a declaring line, as [`decl_tail`] says.
/// The name part of a declaring line.
#[verifier::opaque]
pub open spec fn name_part(sources: SourceMap, name: Option<Span>) -> Seq<char> {
    match name {
        Some(n) => " "@ + quoted_text(sources, n),
        None => Seq::empty(),
    }
}

#[verifier::spinoff_prover]
fn push_name_part(sources: &SourceMap, name: Option<Span>, out: &mut String)
    requires
        name matches Some(n) ==> readable(*sources, n),
    ensures
        final(out)@ == old(out)@ + name_part(*sources, name),
{
    let ghost before = out@;
    proof {
        reveal(name_part);
    }
    match name {
        Some(n) => {
            push_quoted(sources, n, out);
        },
        None => {
            assert(out@ =~= before + name_part(*sources, name));
        },
    }
}

fn push_type_part(sources: &SourceMap, ast: &Ast, ty: TypeId, out: &mut String)
    requires
        spells(*sources, *ast, ty),
    ensures
        final(out)@ == old(out)@ + type_part(*sources, *ast, ty),
{
    let ghost before = out@;
    proof {
        reveal(type_part);
    }
    let spelled = spell(sources, ast, ty);
    let quoted = debug_text(spelled.as_str());
    out.append(" ");
    out.append(quoted.as_str());
    push_char(out, '\n');
    proof {
        reveal_strlit("\n");
        assert(out@ =~= before + type_part(*sources, *ast, ty));
    }
}

/// Append the line of one parameter.
fn push_parameter_line(sources: &SourceMap, ast: &Ast, p: &Declaration, depth: usize, out: &mut String)
    requires
        decl_dumpable(*sources, *ast, *p),
    ensures
        final(out)@ == old(out)@ + node_head(*sources, "Parameter"@, p.span, depth as nat) + decl_tail(
            *sources,
            *ast,
            *p,
        ),
{
    let ghost before = out@;
    push_head(sources, "Parameter", p.span, depth, out);
    let ghost a = out@;
    push_name_part(sources, p.name, out);
    let ghost b = out@;
    push_type_part(sources, ast, p.ty, out);
    proof {
        reveal_strlit("Parameter");
        assert(out@ =~= before + node_head(*sources, "Parameter"@, p.span, depth as nat) + decl_tail(
            *sources,
            *ast,
            *p,
        ));
    }
}

/// Write a line for each parameter type `ty` names, at `depth`, as
/// [`parameters_dump`] says.
pub fn dump_parameters(sources: &SourceMap, ast: &Ast, ty: TypeId, depth: usize, out: &mut String)
    requires
        parameters_dumpable(*sources, *ast, ty),
    ensures
        final(out)@ == old(out)@ + parameters_dump(*sources, *ast, ty, depth as nat),
{
    if ty.0 as usize >= ast.types_len() {
        return;
    }
    let ps = match ast.ty(ty) {
        Type::Function { parameters: Parameters::Prototype(ps), .. } => ps,
        _ => {
            proof {
                assert(parameters_of(*ast, ty) =~= Seq::<Declaration>::empty());
            }
            return;
        },
    };
    let ghost all = ps@;
    let ghost before = out@;
    let mut k: usize = 0;
    proof {
        assert(all == parameters_of(*ast, ty));
        assert(all.take(0) =~= Seq::<Declaration>::empty());
    }
    while k < ps.len()
        invariant
            all == ps@,
            forall|j: int| 0 <= j < all.len() ==> decl_dumpable(*sources, *ast, #[trigger] all[j]),
            k <= all.len(),
            out@ == before + parameter_lines(*sources, *ast, all.take(k as int), depth as nat),
        decreases all.len() - k,
    {
        let p = &ps[k];
        assert(decl_dumpable(*sources, *ast, all[k as int]));
        push_parameter_line(sources, ast, p, depth, out);
        proof {
            let next = all.take(k + 1);
            assert(next.drop_last() =~= all.take(k as int));
            assert(next.last() == *p);
            assert(out@ =~= before + parameter_lines(*sources, *ast, next, depth as nat));
        }
        k = k + 1;
    }
    assert(all.take(all.len() as int) =~= all);
    assert(all == parameters_of(*ast, ty));
}

// ---------------------------------------------------------------------------
// Statements and items.
// ---------------------------------------------------------------------------

/// An expression where one was written, at `depth`, and nothing where none
/// was.
pub open spec fn opt_expr(sources: SourceMap, ast: Ast, x: Option<ExprId>, depth: nat) -> Seq<char> {
    match x {
        Some(e) => expr_dump(sources, ast, e, depth),
        None => Seq::empty(),
    }
}

/// The statements a statement holds.
pub open spec fn stmt_kids(s: Stmt) -> Seq<StmtId> {
    match s {
        Stmt::Compound { body, .. } => body@,
        Stmt::If { then, otherwise, .. } => match otherwise {
            Some(o) => seq![then, o],
            None => seq![then],
        },
        Stmt::While { body, .. } => seq![body],
        Stmt::For { body, .. } => seq![body],
        _ => Seq::empty(),
    }
}

/// An expression id is one of `ast`'s, or is absent.
pub open spec fn expr_there(ast: Ast, x: Option<ExprId>) -> bool {
    x matches Some(e) ==> e.0 < ast.spec_exprs().len()
}

/// A declarator can be dumped, with its parameters and its initialiser.
pub open spec fn declarator_dumpable(sources: SourceMap, ast: Ast, d: InitDeclarator) -> bool {
    &&& decl_dumpable(sources, ast, d.declaration)
    &&& parameters_dumpable(sources, ast, d.declaration.ty)
    &&& expr_there(ast, d.init)
}

/// A statement can be dumped: its span names a file of `sources`, the
/// statements it holds are numbered below `bound`, the expressions it holds
/// are `ast`'s, and what it declares can be dumped.
pub open spec fn stmt_dumpable(sources: SourceMap, ast: Ast, s: Stmt, bound: int) -> bool {
    &&& stmt_span(s).file.0 < sources.spec_files().len()
    &&& forall|k: int| 0 <= k < stmt_kids(s).len() ==> (#[trigger] stmt_kids(s)[k]).0 < bound
    &&& match s {
        Stmt::Return { value, .. } => expr_there(ast, value),
        Stmt::Expression { value, .. } => expr_there(ast, value),
        Stmt::If { condition, .. } => condition.0 < ast.spec_exprs().len(),
        Stmt::While { condition, .. } => condition.0 < ast.spec_exprs().len(),
        Stmt::For { initialiser, condition, step, .. } => expr_there(ast, initialiser) && expr_there(
            ast,
            condition,
        ) && expr_there(ast, step),
        Stmt::Declaration { declarators, .. } => forall|k: int|
            0 <= k < declarators@.len() ==> declarator_dumpable(sources, ast, #[trigger] declarators@[k]),
        _ => true,
    }
}

/// Every statement of `ast` can be dumped, holding only statements numbered
/// below it.
pub open spec fn stmts_dumpable(sources: SourceMap, ast: Ast) -> bool {
    forall|i: int| 0 <= i < ast.spec_stmts().len() ==> stmt_dumpable(sources, ast, #[trigger] ast.spec_stmts()[i], i)
}

/// The lines of declarators `ds` at `depth`: one per declarator, then its
/// parameters and its initialiser beneath it.
pub open spec fn declarators_dump(sources: SourceMap, ast: Ast, ds: Seq<InitDeclarator>, depth: nat) -> Seq<char>
    decreases ds.len(),
{
    if ds.len() == 0 {
        Seq::empty()
    } else {
        declarators_dump(sources, ast, ds.drop_last(), depth) + declarator_dump(sources, ast, ds.last(), depth)
    }
}

/// The lines of one declarator at `depth`.
pub open spec fn declarator_dump(sources: SourceMap, ast: Ast, d: InitDeclarator, depth: nat) -> Seq<char> {
    node_head(sources, "Declaration"@, d.declaration.span, depth) + decl_tail(sources, ast, d.declaration)
        + parameters_dump(sources, ast, d.declaration.ty, depth + 1) + opt_expr(sources, ast, d.init, depth + 1)
}

/// Statement `id` at `depth` and everything under it, where it is numbered
/// below `bound`.
pub open spec fn stmt_child(sources: SourceMap, ast: Ast, id: StmtId, depth: nat, bound: int) -> Seq<char>
    decreases bound, 0int, 0int,
{
    if id.0 < bound && id.0 < ast.spec_stmts().len() {
        stmt_body(sources, ast, ast.spec_stmts()[id.0 as int], depth, id.0 as int)
    } else {
        Seq::empty()
    }
}

/// Statements `ids` at `depth`, in order.
pub open spec fn stmt_list(sources: SourceMap, ast: Ast, ids: Seq<StmtId>, depth: nat, bound: int) -> Seq<char>
    decreases bound, 0int, ids.len() + 1,
{
    if ids.len() == 0 {
        Seq::empty()
    } else {
        stmt_child(sources, ast, ids[0], depth, bound) + stmt_list(sources, ast, ids.drop_first(), depth, bound)
    }
}

/// Statement `s` at `depth` and everything under it: its line, saying which
/// optional parts were written, then the expressions and statements it
/// holds, in the order they were written.
pub open spec fn stmt_body(sources: SourceMap, ast: Ast, s: Stmt, depth: nat, bound: int) -> Seq<char>
    decreases bound, 1int, 0int,
{
    let head = node_head(sources, stmt_name(s), stmt_span(s), depth);
    match s {
        Stmt::Compound { body, .. } => head + "\n"@ + stmt_list(sources, ast, body@, depth + 1, bound),
        Stmt::Return { value, .. } => head + "\n"@ + opt_expr(sources, ast, value, depth + 1),
        Stmt::Declaration { declarators, .. } => declarators_dump(sources, ast, declarators@, depth),
        Stmt::Expression { value, .. } => head + "\n"@ + opt_expr(sources, ast, value, depth + 1),
        Stmt::If { condition, then, otherwise, .. } => head + (if otherwise is Some {
            " else"@
        } else {
            Seq::empty()
        }) + "\n"@ + expr_dump(sources, ast, condition, depth + 1) + stmt_child(sources, ast, then, depth + 1, bound)
            + match otherwise {
            Some(o) => stmt_child(sources, ast, o, depth + 1, bound),
            None => Seq::empty(),
        },
        Stmt::While { condition, body, .. } => head + "\n"@ + expr_dump(sources, ast, condition, depth + 1)
            + stmt_child(sources, ast, body, depth + 1, bound),
        Stmt::For { initialiser, condition, step, body, .. } => head + (if initialiser is Some {
            " init"@
        } else {
            Seq::empty()
        }) + (if condition is Some {
            " condition"@
        } else {
            Seq::empty()
        }) + (if step is Some {
            " step"@
        } else {
            Seq::empty()
        }) + "\n"@ + opt_expr(sources, ast, initialiser, depth + 1) + opt_expr(sources, ast, condition, depth + 1)
            + opt_expr(sources, ast, step, depth + 1) + stmt_child(sources, ast, body, depth + 1, bound),
        Stmt::Error { .. } => head + "\n"@,
    }
}

/// Statement `s` at `depth` and everything under it.
pub open spec fn stmt_dump(sources: SourceMap, ast: Ast, s: Stmt, depth: nat) -> Seq<char> {
    stmt_body(sources, ast, s, depth, ast.spec_stmts().len() as int)
}

/// Append an expression where one was written.
fn push_opt_expr(sources: &SourceMap, ast: &Ast, x: Option<ExprId>, depth: usize, out: &mut String)
    requires
        exprs_dumpable(*sources, *ast),
        expr_there(*ast, x),
        depth + ast.spec_exprs().len() < usize::MAX,
    ensures
        final(out)@ == old(out)@ + opt_expr(*sources, *ast, x, depth as nat),
{
    match x {
        Some(e) => dump_expr(sources, ast, e, depth, out),
        None => {
            assert(out@ =~= old(out)@ + opt_expr(*sources, *ast, x, depth as nat));
        },
    }
}

/// Append the lines of one declarator.
fn push_declarator(sources: &SourceMap, ast: &Ast, d: &InitDeclarator, depth: usize, out: &mut String)
    requires
        exprs_dumpable(*sources, *ast),
        declarator_dumpable(*sources, *ast, *d),
        depth + ast.spec_exprs().len() + 1 < usize::MAX,
    ensures
        final(out)@ == old(out)@ + declarator_dump(*sources, *ast, *d, depth as nat),
{
    let ghost before = out@;
    push_head(sources, "Declaration", d.declaration.span, depth, out);
    push_name_part(sources, d.declaration.name, out);
    push_type_part(sources, ast, d.declaration.ty, out);
    dump_parameters(sources, ast, d.declaration.ty, depth + 1, out);
    push_opt_expr(sources, ast, d.init, depth + 1, out);
    proof {
        reveal_strlit("Declaration");
        assert(out@ =~= before + declarator_dump(*sources, *ast, *d, depth as nat));
    }
}

/// Append the lines of declarators `ds`, as [`declarators_dump`] says.
fn push_declarators(sources: &SourceMap, ast: &Ast, ds: &Vec<InitDeclarator>, depth: usize, out: &mut String)
    requires
        exprs_dumpable(*sources, *ast),
        forall|k: int| 0 <= k < ds@.len() ==> declarator_dumpable(*sources, *ast, #[trigger] ds@[k]),
        depth + ast.spec_exprs().len() + 1 < usize::MAX,
    ensures
        final(out)@ == old(out)@ + declarators_dump(*sources, *ast, ds@, depth as nat),
{
    let ghost before = out@;
    let mut k: usize = 0;
    proof {
        assert(ds@.take(0) =~= Seq::<InitDeclarator>::empty());
    }
    while k < ds.len()
        invariant
            exprs_dumpable(*sources, *ast),
            forall|j: int| 0 <= j < ds@.len() ==> declarator_dumpable(*sources, *ast, #[trigger] ds@[j]),
            depth + ast.spec_exprs().len() + 1 < usize::MAX,
            k <= ds@.len(),
            out@ == before + declarators_dump(*sources, *ast, ds@.take(k as int), depth as nat),
        decreases ds@.len() - k,
    {
        assert(declarator_dumpable(*sources, *ast, ds@[k as int]));
        push_declarator(sources, ast, &ds[k], depth, out);
        proof {
            let next = ds@.take(k + 1);
            assert(next.drop_last() =~= ds@.take(k as int));
            assert(next.last() == ds@[k as int]);
        }
        k = k + 1;
    }
    assert(ds@.take(ds@.len() as int) =~= ds@);
}

/// Append statement `id` at `depth` and everything under it, as
/// [`stmt_child`] says.
fn push_child(sources: &SourceMap, ast: &Ast, id: StmtId, Ghost(bound): Ghost<int>, depth: usize, out: &mut String)
    requires
        exprs_dumpable(*sources, *ast),
        stmts_dumpable(*sources, *ast),
        id.0 < bound <= ast.spec_stmts().len(),
        depth + id.0 + ast.spec_exprs().len() + 2 < usize::MAX,
    ensures
        final(out)@ == old(out)@ + stmt_child(*sources, *ast, id, depth as nat, bound),
    decreases bound, 0int,
{
    let child = ast.stmt(id);
    assert(stmt_dumpable(*sources, *ast, ast.spec_stmts()[id.0 as int], id.0 as int));
    dump_stmt_within(sources, ast, child, Ghost(id.0 as int), depth, out);
}

/// Append statement `stmt` at `depth` and everything under it, as
/// [`stmt_body`] says, where what it holds is numbered below `bound`.
#[verifier::spinoff_prover]
#[verifier::rlimit(80)]
fn dump_stmt_within(
    sources: &SourceMap,
    ast: &Ast,
    stmt: &Stmt,
    Ghost(bound): Ghost<int>,
    depth: usize,
    out: &mut String,
)
    requires
        exprs_dumpable(*sources, *ast),
        stmts_dumpable(*sources, *ast),
        stmt_dumpable(*sources, *ast, *stmt, bound),
        0 <= bound <= ast.spec_stmts().len(),
        depth + bound + ast.spec_exprs().len() + 2 < usize::MAX,
    ensures
        final(out)@ == old(out)@ + stmt_body(*sources, *ast, *stmt, depth as nat, bound),
    decreases bound, 1int,
{
    let ghost before = out@;
    let ghost head = node_head(*sources, stmt_name(*stmt), stmt_span(*stmt), depth as nat);
    proof {
        reveal_strlit("\n");
    }
    match stmt {
        Stmt::Declaration { declarators, .. } => {
            push_declarators(sources, ast, declarators, depth, out);
            return;
        },
        _ => {},
    }
    push_head(sources, stmt.name(), stmt.span(), depth, out);
    match stmt {
        Stmt::Compound { body, .. } => {
            push_char(out, '\n');
            let ghost ids = body@;
            let ghost target = before + head + "\n"@ + stmt_list(*sources, *ast, ids, (depth + 1) as nat, bound);
            let mut k: usize = 0;
            proof {
                assert(ids.skip(0) =~= ids);
                assert(out@ =~= before + head + "\n"@);
                assert forall|j: int| 0 <= j < ids.len() implies (#[trigger] ids[j]).0 < bound by {
                    assert(stmt_kids(*stmt)[j] == ids[j]);
                }
            }
            while k < body.len()
                invariant
                    exprs_dumpable(*sources, *ast),
                    stmts_dumpable(*sources, *ast),
                    ids == body@,
                    forall|j: int| 0 <= j < ids.len() ==> (#[trigger] ids[j]).0 < bound,
                    bound <= ast.spec_stmts().len(),
                    depth + bound + ast.spec_exprs().len() + 2 < usize::MAX,
                    k <= ids.len(),
                    out@ + stmt_list(*sources, *ast, ids.skip(k as int), (depth + 1) as nat, bound) == target,
                decreases ids.len() - k,
            {
                proof {
                    assert(ids.skip(k as int).drop_first() =~= ids.skip(k + 1));
                    assert(ids.skip(k as int)[0] == ids[k as int]);
                }
                push_child(sources, ast, body[k], Ghost(bound), depth + 1, out);
                k = k + 1;
            }
            proof {
                assert(stmt_list(*sources, *ast, ids.skip(k as int), (depth + 1) as nat, bound) =~= Seq::<char>::empty());
                assert(out@ =~= target);
            }
        },
        Stmt::Return { value, .. } | Stmt::Expression { value, .. } => {
            push_char(out, '\n');
            push_opt_expr(sources, ast, *value, depth + 1, out);
            assert(out@ =~= before + stmt_body(*sources, *ast, *stmt, depth as nat, bound));
        },
        Stmt::If { condition, then, otherwise, .. } => {
            if otherwise.is_some() {
                out.append(" else");
            }
            push_char(out, '\n');
            let ghost middle = out@;
            assert(middle =~= before + head + (if otherwise is Some {
                " else"@
            } else {
                Seq::empty()
            }) + "\n"@);
            dump_expr(sources, ast, *condition, depth + 1, out);
            assert(stmt_kids(*stmt)[0] == *then);
            push_child(sources, ast, *then, Ghost(bound), depth + 1, out);
            if let Some(o) = otherwise {
                assert(stmt_kids(*stmt)[1] == *o);
                push_child(sources, ast, *o, Ghost(bound), depth + 1, out);
            }
            assert(out@ =~= before + stmt_body(*sources, *ast, *stmt, depth as nat, bound));
        },
        Stmt::While { condition, body, .. } => {
            push_char(out, '\n');
            dump_expr(sources, ast, *condition, depth + 1, out);
            assert(stmt_kids(*stmt)[0] == *body);
            push_child(sources, ast, *body, Ghost(bound), depth + 1, out);
            assert(out@ =~= before + stmt_body(*sources, *ast, *stmt, depth as nat, bound));
        },
        Stmt::For { initialiser, condition, step, body, .. } => {
            if initialiser.is_some() {
                out.append(" init");
            }
            if condition.is_some() {
                out.append(" condition");
            }
            if step.is_some() {
                out.append(" step");
            }
            push_char(out, '\n');
            let ghost middle = out@;
            assert(middle =~= before + head + (if initialiser is Some {
                " init"@
            } else {
                Seq::empty()
            }) + (if condition is Some {
                " condition"@
            } else {
                Seq::empty()
            }) + (if step is Some {
                " step"@
            } else {
                Seq::empty()
            }) + "\n"@);
            push_opt_expr(sources, ast, *initialiser, depth + 1, out);
            push_opt_expr(sources, ast, *condition, depth + 1, out);
            push_opt_expr(sources, ast, *step, depth + 1, out);
            assert(stmt_kids(*stmt)[0] == *body);
            push_child(sources, ast, *body, Ghost(bound), depth + 1, out);
            assert(out@ =~= before + stmt_body(*sources, *ast, *stmt, depth as nat, bound));
        },
        Stmt::Error { .. } => {
            push_char(out, '\n');
            assert(out@ =~= before + stmt_body(*sources, *ast, *stmt, depth as nat, bound));
        },
        Stmt::Declaration { .. } => {},
    }
}

/// Write statement `stmt` at `depth` and everything under it, as
/// [`stmt_dump`] says: its line, saying which optional parts were written,
/// then the expressions and statements it holds, in the order they were
/// written, each a level deeper.
pub fn dump_stmt(sources: &SourceMap, ast: &Ast, stmt: &Stmt, depth: usize, out: &mut String)
    requires
        exprs_dumpable(*sources, *ast),
        stmts_dumpable(*sources, *ast),
        stmt_dumpable(*sources, *ast, *stmt, ast.spec_stmts().len() as int),
        depth + ast.spec_stmts().len() + ast.spec_exprs().len() + 2 < usize::MAX,
    ensures
        final(out)@ == old(out)@ + stmt_dump(*sources, *ast, *stmt, depth as nat),
{
    dump_stmt_within(sources, ast, stmt, Ghost(ast.spec_stmts().len() as int), depth, out);
}

/// An item can be dumped: a function's span names a file of `sources`, its
/// name covers text of that file, its type and parameters can be dumped and
/// its body is one of `ast`'s statements; a declaration's declarators can be
/// dumped; an error's span names a file of `sources`.
pub open spec fn item_dumpable(sources: SourceMap, ast: Ast, item: Item) -> bool {
    match item {
        Item::Function(f) => {
            &&& f.span.file.0 < sources.spec_files().len()
            &&& readable(sources, f.name)
            &&& spells(sources, ast, f.ty)
            &&& parameters_dumpable(sources, ast, f.ty)
            &&& f.body.0 < ast.spec_stmts().len()
        },
        Item::Declaration { declarators, .. } => forall|k: int|
            0 <= k < declarators@.len() ==> declarator_dumpable(sources, ast, #[trigger] declarators@[k]),
        Item::Error { span } => span.file.0 < sources.spec_files().len(),
    }
}

/// The whole tree can be dumped against `sources`.
pub open spec fn dumpable(sources: SourceMap, ast: Ast) -> bool {
    &&& exprs_dumpable(sources, ast)
    &&& stmts_dumpable(sources, ast)
    &&& forall|i: int| 0 <= i < ast.spec_items().len() ==> item_dumpable(sources, ast, #[trigger] ast.spec_items()[i])
}

/// Item `item` at `depth` and everything under it. A function's line gives
/// its name and its type, and its parameters and its body follow a level
/// deeper.
pub open spec fn item_dump(sources: SourceMap, ast: Ast, item: Item, depth: nat) -> Seq<char> {
    match item {
        Item::Function(f) => node_head(sources, "Function"@, f.span, depth) + name_part(sources, Some(f.name))
            + type_part(sources, ast, f.ty) + parameters_dump(sources, ast, f.ty, depth + 1) + stmt_child(
            sources,
            ast,
            f.body,
            depth + 1,
            ast.spec_stmts().len() as int,
        ),
        Item::Declaration { declarators, .. } => declarators_dump(sources, ast, declarators@, depth),
        Item::Error { span } => node_head(sources, "Error"@, span, depth) + "\n"@,
    }
}

/// Items `items`, each at the top level, in order.
pub open spec fn items_dump(sources: SourceMap, ast: Ast, items: Seq<Item>) -> Seq<char>
    decreases items.len(),
{
    if items.len() == 0 {
        Seq::empty()
    } else {
        items_dump(sources, ast, items.drop_last()) + item_dump(sources, ast, items.last(), 0)
    }
}

/// What `--emit ast` writes for a tree: every item, in order.
pub open spec fn ast_dump(sources: SourceMap, ast: Ast) -> Seq<char> {
    items_dump(sources, ast, ast.spec_items())
}

/// Write item `item` at `depth` and everything under it, as [`item_dump`]
/// says.
#[verifier::spinoff_prover]
pub fn dump_item(sources: &SourceMap, ast: &Ast, item: &Item, depth: usize, out: &mut String)
    requires
        dumpable(*sources, *ast),
        item_dumpable(*sources, *ast, *item),
        depth + ast.spec_stmts().len() + ast.spec_exprs().len() + 3 < usize::MAX,
    ensures
        final(out)@ == old(out)@ + item_dump(*sources, *ast, *item, depth as nat),
{
    let ghost before = out@;
    match item {
        Item::Function(f) => {
            push_head(sources, "Function", f.span, depth, out);
            push_name_part(sources, Some(f.name), out);
            push_type_part(sources, ast, f.ty, out);
            dump_parameters(sources, ast, f.ty, depth + 1, out);
            push_child(sources, ast, f.body, Ghost(ast.spec_stmts().len() as int), depth + 1, out);
            proof {
                reveal_strlit("Function");
                assert(out@ =~= before + item_dump(*sources, *ast, *item, depth as nat));
            }
        },
        Item::Declaration { declarators, .. } => {
            push_declarators(sources, ast, declarators, depth, out);
        },
        Item::Error { span } => {
            push_head(sources, "Error", *span, depth, out);
            push_char(out, '\n');
            proof {
                reveal_strlit("Error");
                reveal_strlit("\n");
                assert(out@ =~= before + item_dump(*sources, *ast, *item, depth as nat));
            }
        },
    }
}

/// The line of statement `s` at `depth`: where it is, and which optional
/// parts of it were written.
pub open spec fn stmt_line(sources: SourceMap, s: Stmt, depth: nat) -> Seq<char> {
    node_head(sources, stmt_name(s), stmt_span(s), depth) + match s {
        Stmt::If { otherwise: Some(_), .. } => " else"@,
        Stmt::For { initialiser, condition, step, .. } => (if initialiser is Some {
            " init"@
        } else {
            Seq::empty()
        }) + (if condition is Some {
            " condition"@
        } else {
            Seq::empty()
        }) + (if step is Some {
            " step"@
        } else {
            Seq::empty()
        }),
        _ => Seq::empty(),
    } + "\n"@
}

/// Every expression a statement holds is in its dump, one level deeper,
/// right after the statement's own line and before the statements it holds:
/// a condition of an `if` or a `while`, the value of a `return` or of an
/// expression statement, and the parts of a `for` that were written, in
/// order. A `while` is its line, its condition, then its body.
pub proof fn law_statement_expressions_follow_its_line(sources: SourceMap, ast: Ast, s: Stmt, depth: nat)
    ensures
        s matches Stmt::While { condition, body, .. } ==> stmt_dump(sources, ast, s, depth) == stmt_line(
            sources,
            s,
            depth,
        ) + expr_dump(sources, ast, condition, depth + 1) + stmt_child(
            sources,
            ast,
            body,
            depth + 1,
            ast.spec_stmts().len() as int,
        ),
        s matches Stmt::If { condition, .. } ==> (stmt_line(sources, s, depth) + expr_dump(
            sources,
            ast,
            condition,
            depth + 1,
        )).is_prefix_of(stmt_dump(sources, ast, s, depth)),
        s matches Stmt::If { condition, then, otherwise: None, .. } ==> stmt_dump(sources, ast, s, depth)
            == stmt_line(sources, s, depth) + expr_dump(sources, ast, condition, depth + 1) + stmt_child(
            sources,
            ast,
            then,
            depth + 1,
            ast.spec_stmts().len() as int,
        ),
        s matches Stmt::If { condition, then, otherwise: Some(o), .. } ==> stmt_dump(sources, ast, s, depth)
            == stmt_line(sources, s, depth) + expr_dump(sources, ast, condition, depth + 1) + stmt_child(
            sources,
            ast,
            then,
            depth + 1,
            ast.spec_stmts().len() as int,
        ) + stmt_child(sources, ast, o, depth + 1, ast.spec_stmts().len() as int),
        s matches Stmt::Return { value: Some(v), .. } ==> stmt_dump(sources, ast, s, depth) == stmt_line(
            sources,
            s,
            depth,
        ) + expr_dump(sources, ast, v, depth + 1),
        s matches Stmt::Expression { value: Some(v), .. } ==> stmt_dump(sources, ast, s, depth) == stmt_line(
            sources,
            s,
            depth,
        ) + expr_dump(sources, ast, v, depth + 1),
        s matches Stmt::For { initialiser, condition, step, .. } ==> (stmt_line(sources, s, depth) + opt_expr(
            sources,
            ast,
            initialiser,
            depth + 1,
        ) + opt_expr(sources, ast, condition, depth + 1) + opt_expr(sources, ast, step, depth + 1)).is_prefix_of(
            stmt_dump(sources, ast, s, depth),
        ),
        s matches Stmt::For { initialiser, condition, step, body, .. } ==> stmt_dump(sources, ast, s, depth)
            == stmt_line(sources, s, depth) + opt_expr(sources, ast, initialiser, depth + 1) + opt_expr(
            sources,
            ast,
            condition,
            depth + 1,
        ) + opt_expr(sources, ast, step, depth + 1) + stmt_child(
            sources,
            ast,
            body,
            depth + 1,
            ast.spec_stmts().len() as int,
        ),
{
    let head = node_head(sources, stmt_name(s), stmt_span(s), depth);
    let bound = ast.spec_stmts().len() as int;
    match s {
        Stmt::While { condition, body, .. } => {
            assert(stmt_line(sources, s, depth) =~= head + "\n"@);
            assert(stmt_dump(sources, ast, s, depth) =~= stmt_line(sources, s, depth) + expr_dump(
                sources,
                ast,
                condition,
                depth + 1,
            ) + stmt_child(sources, ast, body, depth + 1, bound));
        },
        Stmt::If { condition, then, otherwise, .. } => {
            let pre = stmt_line(sources, s, depth) + expr_dump(sources, ast, condition, depth + 1);
            let rest = stmt_child(sources, ast, then, depth + 1, bound) + match otherwise {
                Some(o) => stmt_child(sources, ast, o, depth + 1, bound),
                None => Seq::empty(),
            };
            assert(stmt_line(sources, s, depth) =~= head + (if otherwise is Some {
                " else"@
            } else {
                Seq::empty()
            }) + "\n"@);
            assert(stmt_dump(sources, ast, s, depth) =~= pre + rest);
            assert(pre =~= (pre + rest).subrange(0, pre.len() as int));
            assert(stmt_dump(sources, ast, s, depth) =~= pre + stmt_child(sources, ast, then, depth + 1, bound)
                + match otherwise {
                Some(o) => stmt_child(sources, ast, o, depth + 1, bound),
                None => Seq::empty(),
            });
        },
        Stmt::Return { value, .. } => {
            assert(stmt_line(sources, s, depth) =~= head + "\n"@);
        },
        Stmt::Expression { value, .. } => {
            assert(stmt_line(sources, s, depth) =~= head + "\n"@);
        },
        Stmt::For { initialiser, condition, step, body, .. } => {
            let pre = stmt_line(sources, s, depth) + opt_expr(sources, ast, initialiser, depth + 1) + opt_expr(
                sources,
                ast,
                condition,
                depth + 1,
            ) + opt_expr(sources, ast, step, depth + 1);
            let rest = stmt_child(sources, ast, body, depth + 1, bound);
            assert(stmt_dump(sources, ast, s, depth) =~= pre + rest);
            assert(pre =~= (pre + rest).subrange(0, pre.len() as int));
        },
        _ => {},
    }
}

/// An expression's operands are dumped right after its own line, one level
/// deeper, in the order they were written: nothing is left out and nothing
/// comes between.
pub proof fn law_expression_operands_follow_its_line(sources: SourceMap, ast: Ast, id: ExprId, depth: nat)
    requires
        id.0 < ast.spec_exprs().len(),
        forall|k: int|
            0 <= k < expr_children(ast.spec_exprs()[id.0 as int]).len() ==> (#[trigger] expr_children(
                ast.spec_exprs()[id.0 as int],
            )[k]).0 < id.0,
    ensures
        ({
            let kids = expr_children(ast.spec_exprs()[id.0 as int]);
            &&& kids.len() == 0 ==> expr_dump(sources, ast, id, depth) == expr_line(sources, ast, id, depth)
            &&& kids.len() == 1 ==> expr_dump(sources, ast, id, depth) == expr_line(sources, ast, id, depth)
                + expr_dump(sources, ast, kids[0], depth + 1)
            &&& kids.len() == 2 ==> expr_dump(sources, ast, id, depth) == expr_line(sources, ast, id, depth)
                + expr_dump(sources, ast, kids[0], depth + 1) + expr_dump(sources, ast, kids[1], depth + 1)
            &&& kids.len() == 3 ==> expr_dump(sources, ast, id, depth) == expr_line(sources, ast, id, depth)
                + expr_dump(sources, ast, kids[0], depth + 1) + expr_dump(sources, ast, kids[1], depth + 1)
                + expr_dump(sources, ast, kids[2], depth + 1)
        }),
{
    let kids = expr_children(ast.spec_exprs()[id.0 as int]);
    let b = id.0 as int;
    let d = depth + 1;
    if kids.len() > 0 {
        assert(kids[0].0 < b);
    }
    if kids.len() > 1 {
        assert(kids[1].0 < b);
    }
    if kids.len() > 2 {
        assert(kids[2].0 < b);
    }
    if kids.len() == 0 {
        assert(kids_dump(sources, ast, kids, d, b) =~= Seq::<char>::empty());
    } else if kids.len() == 1 {
        let k1 = kids.drop_first();
        assert(kids_dump(sources, ast, k1, d, b) =~= Seq::<char>::empty());
        assert(kids_dump(sources, ast, kids, d, b) =~= expr_dump(sources, ast, kids[0], d));
    } else if kids.len() == 2 {
        let k1 = kids.drop_first();
        let k2 = k1.drop_first();
        assert(k1[0] == kids[1]);
        assert(kids_dump(sources, ast, k2, d, b) =~= Seq::<char>::empty());
        assert(kids_dump(sources, ast, k1, d, b) =~= expr_dump(sources, ast, kids[1], d));
        assert(kids_dump(sources, ast, kids, d, b) =~= expr_dump(sources, ast, kids[0], d) + expr_dump(
            sources,
            ast,
            kids[1],
            d,
        ));
    } else if kids.len() == 3 {
        let k1 = kids.drop_first();
        let k2 = k1.drop_first();
        let k3 = k2.drop_first();
        assert(k1[0] == kids[1] && k2[0] == kids[2]);
        assert(kids_dump(sources, ast, k3, d, b) =~= Seq::<char>::empty());
        assert(kids_dump(sources, ast, k2, d, b) =~= expr_dump(sources, ast, kids[2], d));
        assert(kids_dump(sources, ast, k1, d, b) =~= expr_dump(sources, ast, kids[1], d) + expr_dump(
            sources,
            ast,
            kids[2],
            d,
        ));
    }
}

/// Write what `--emit ast` writes for `ast`, as [`ast_dump`] says: one line
/// per node, each node before the ones it holds.
pub fn dump_ast(sources: &SourceMap, ast: &Ast, out: &mut String)
    requires
        dumpable(*sources, *ast),
        ast.spec_stmts().len() + ast.spec_exprs().len() + 3 < usize::MAX,
    ensures
        final(out)@ == old(out)@ + ast_dump(*sources, *ast),
{
    let items = ast.items();
    let ghost all = items@;
    let ghost before = out@;
    let mut k: usize = 0;
    proof {
        assert(all.take(0) =~= Seq::<Item>::empty());
    }
    while k < items.len()
        invariant
            all == items@,
            all == ast.spec_items(),
            dumpable(*sources, *ast),
            ast.spec_stmts().len() + ast.spec_exprs().len() + 3 < usize::MAX,
            k <= all.len(),
            out@ == before + items_dump(*sources, *ast, all.take(k as int)),
        decreases all.len() - k,
    {
        assert(item_dumpable(*sources, *ast, ast.spec_items()[k as int]));
        dump_item(sources, ast, &items[k], 0, out);
        proof {
            let next = all.take(k + 1);
            assert(next.drop_last() =~= all.take(k as int));
            assert(next.last() == all[k as int]);
        }
        k = k + 1;
    }
    assert(all.take(all.len() as int) =~= all);
}

} // verus!
