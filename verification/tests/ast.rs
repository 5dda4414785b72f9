use safec::ast::{
    spell_type, Ast, BinOp, Declaration, Expr, ExprId, Function, Item, Parameters, Stmt, StmtId,
    Type, TypeId, UnOp,
};
use safec::source::{SourceMap, Span};

fn span(start: u32) -> Span {
    let mut sources = SourceMap::new();
    let file = sources.add_virtual("test.c".to_string(), "x".repeat(64));
    Span::new(file, start, start + 1)
}

#[test]
fn two_types_are_compatible_when_c_says_they_are() {
    let mut sources = SourceMap::new();
    let file = sources.add_virtual("t.c".to_string(), "23".to_string());
    let mut ast = Ast::new();
    let two = ast.push_expr(Expr::Number {
        span: Span::new(file, 0, 1),
    });
    let three = ast.push_expr(Expr::Number {
        span: Span::new(file, 1, 2),
    });

    let int = ast.push_type(Type::Int);
    let also_int = ast.push_type(Type::Int);
    let character = ast.push_type(Type::Char);
    let pointer_to_int = ast.push_type(Type::Pointer(int));
    let also_pointer_to_int = ast.push_type(Type::Pointer(also_int));
    let pointer_to_char = ast.push_type(Type::Pointer(character));
    let pointer_to_pointer = ast.push_type(Type::Pointer(pointer_to_int));
    let two_ints = ast.push_type(Type::Array {
        element: int,
        length: Some(two),
    });
    let three_ints = ast.push_type(Type::Array {
        element: also_int,
        length: Some(three),
    });
    let two_chars = ast.push_type(Type::Array {
        element: character,
        length: Some(two),
    });

    let unnamed = |ty| Declaration {
        name: None,
        ty,
        span: Span::new(file, 0, 1),
    };
    let of = |ast: &mut Ast, result, parameters| ast.push_type(Type::Function { result, parameters });
    let int_of_int = of(&mut ast, int, Parameters::Prototype(vec![unnamed(int)]));
    let int_of_also_int = of(&mut ast, also_int, Parameters::Prototype(vec![unnamed(also_int)]));
    let int_of_char = of(&mut ast, int, Parameters::Prototype(vec![unnamed(character)]));
    let char_of_int = of(&mut ast, character, Parameters::Prototype(vec![unnamed(int)]));
    let int_of_two_ints = of(
        &mut ast,
        int,
        Parameters::Prototype(vec![unnamed(int), unnamed(int)]),
    );
    let int_of_void = of(&mut ast, int, Parameters::Prototype(Vec::new()));
    let int_of_nothing_said = of(&mut ast, int, Parameters::Unspecified);
    let also_int_of_nothing_said = of(&mut ast, also_int, Parameters::Unspecified);

    for (left, right, same, what) in [
        (int, also_int, true, "int against int"),
        (int, character, false, "int against char"),
        (pointer_to_int, also_pointer_to_int, true, "int * against int *"),
        (pointer_to_int, pointer_to_char, false, "int * against char *"),
        (pointer_to_int, pointer_to_pointer, false, "int * against int **"),
        (pointer_to_int, int, false, "int * against int"),
        (two_ints, three_ints, true, "int[2] against int[3]"),
        (two_ints, two_chars, false, "int[2] against char[2]"),
        (int_of_int, int_of_also_int, true, "int (int) against int (int)"),
        (int_of_int, int_of_char, false, "int (int) against int (char)"),
        (int_of_int, char_of_int, false, "int (int) against char (int)"),
        (int_of_int, int_of_two_ints, false, "int (int) against int (int, int)"),
        (int_of_void, int_of_nothing_said, true, "int (void) against int ()"),
        (int_of_int, int_of_nothing_said, true, "int (int) against int ()"),
        (int_of_char, int_of_nothing_said, false, "int (char) against int ()"),
        (int_of_nothing_said, also_int_of_nothing_said, true, "int () against int ()"),
    ] {
        assert_eq!(ast.compatible(left, right), same, "{what}");
        assert_eq!(ast.compatible(right, left), same, "{what}, the other way");
    }
}

#[test]
fn every_type_is_spelled_the_way_c_declares_it() {
    let mut sources = SourceMap::new();
    let file = sources.add_virtual("t.c".to_string(), "10".to_string());
    let mut ast = Ast::new();
    let ten = ast.push_expr(Expr::Number {
        span: Span::new(file, 0, 2),
    });

    let int = ast.push_type(Type::Int);
    let void = ast.push_type(Type::Void);
    let character = ast.push_type(Type::Char);
    let pointer_to_int = ast.push_type(Type::Pointer(int));
    let pointer_to_pointer = ast.push_type(Type::Pointer(pointer_to_int));
    let pointer_to_char = ast.push_type(Type::Pointer(character));
    let pointer_to_void = ast.push_type(Type::Pointer(void));
    let array_of_int = ast.push_type(Type::Array {
        element: int,
        length: Some(ten),
    });
    let incomplete = ast.push_type(Type::Array {
        element: int,
        length: None,
    });
    let array_of_pointer = ast.push_type(Type::Array {
        element: pointer_to_int,
        length: Some(ten),
    });
    let pointer_to_array = ast.push_type(Type::Pointer(array_of_int));

    let unnamed = |ty| Declaration {
        name: None,
        ty,
        span: Span::new(file, 0, 2),
    };
    let takes_int = |result| Type::Function {
        result,
        parameters: Parameters::Prototype(vec![unnamed(int)]),
    };
    let returns_int = ast.push_type(takes_int(int));
    let returns_pointer = ast.push_type(takes_int(pointer_to_int));
    let pointer_to_function = ast.push_type(Type::Pointer(returns_int));
    let takes_nothing = ast.push_type(Type::Function {
        result: int,
        parameters: Parameters::Prototype(Vec::new()),
    });
    let unspecified = ast.push_type(Type::Function {
        result: int,
        parameters: Parameters::Unspecified,
    });

    for (ty, spelling) in [
        (int, "int"),
        (character, "char"),
        (void, "void"),
        (pointer_to_int, "int *"),
        (pointer_to_pointer, "int **"),
        (pointer_to_void, "void *"),
        (pointer_to_char, "char *"),
        (array_of_int, "int[10]"),
        (incomplete, "int[]"),
        (array_of_pointer, "int *[10]"),
        (pointer_to_array, "int (*)[10]"),
        (returns_int, "int (int)"),
        (returns_pointer, "int *(int)"),
        (pointer_to_function, "int (*)(int)"),
        (takes_nothing, "int (void)"),
        (unspecified, "int ()"),
    ] {
        assert_eq!(spell_type(&sources, &ast, ty), spelling, "{ty:?}");
    }
}

#[test]
fn the_simplest_walk_over_the_tree_reaches_every_node() {
    let s = span(0);
    let mut ast = Ast::new();

    let a = ast.push_expr(Expr::Identifier { span: s });
    let b = ast.push_expr(Expr::Identifier { span: s });
    let subscript = ast.push_expr(Expr::Subscript {
        base: a,
        index: b,
        span: s,
    });
    let c = ast.push_expr(Expr::Identifier { span: s });
    let root = ast.push_expr(Expr::Binary {
        op: BinOp::Add,
        lhs: subscript,
        rhs: c,
        span: s,
    });

    let mut work = vec![root];
    let mut visited = 0;
    while let Some(id) = work.pop() {
        visited += 1;
        assert!(visited <= 5, "the walk did not terminate");
        ast.expr(id).extend_children(&mut work);
    }

    assert_eq!(visited, 5, "every node in the tree is reached exactly once");
}

#[test]
fn every_node_kind_is_named_the_way_the_artifact_spells_it() {
    let s = span(0);
    let e = ExprId(0);
    let t = StmtId(0);

    assert_eq!(Expr::Number { span: s }.name(), "Number");
    assert_eq!(Expr::Identifier { span: s }.name(), "Identifier");
    assert_eq!(
        Expr::Unary {
            op: UnOp::Not,
            operand: e,
            span: s
        }
        .name(),
        "Unary"
    );
    assert_eq!(
        Expr::Binary {
            op: BinOp::Add,
            lhs: e,
            rhs: e,
            span: s
        }
        .name(),
        "Binary"
    );
    assert_eq!(
        Expr::Assign {
            op: None,
            place: e,
            value: e,
            span: s
        }
        .name(),
        "Assign"
    );
    assert_eq!(
        Expr::Conditional {
            condition: e,
            then: e,
            otherwise: e,
            span: s
        }
        .name(),
        "Conditional"
    );
    assert_eq!(
        Expr::Call {
            callee: e,
            arguments: Vec::new(),
            span: s
        }
        .name(),
        "Call"
    );
    assert_eq!(
        Expr::Subscript {
            base: e,
            index: e,
            span: s
        }
        .name(),
        "Subscript"
    );
    assert_eq!(
        Expr::Comma {
            lhs: e,
            rhs: e,
            span: s
        }
        .name(),
        "Comma"
    );
    assert_eq!(Expr::Error { span: s }.name(), "Error");

    assert_eq!(
        Stmt::Compound {
            body: Vec::new(),
            span: s
        }
        .name(),
        "Compound"
    );
    assert_eq!(
        Stmt::Return {
            value: None,
            span: s
        }
        .name(),
        "Return"
    );
    assert_eq!(
        Stmt::Expression {
            value: None,
            span: s
        }
        .name(),
        "Expression"
    );
    assert_eq!(
        Stmt::If {
            condition: e,
            then: t,
            otherwise: None,
            span: s
        }
        .name(),
        "If"
    );
    assert_eq!(
        Stmt::While {
            condition: e,
            body: t,
            span: s
        }
        .name(),
        "While"
    );
    assert_eq!(
        Stmt::For {
            initialiser: None,
            condition: None,
            step: None,
            body: t,
            span: s
        }
        .name(),
        "For"
    );
    assert_eq!(Stmt::Error { span: s }.name(), "Error");

    assert_eq!(
        Item::Function(Function {
            ty: TypeId(0),
            name: s,
            body: StmtId(0),
            span: s
        })
        .name(),
        "Function"
    );
    assert_eq!(Item::Error { span: s }.name(), "Error");
}

#[test]
fn every_operator_is_spelled_the_way_c_spells_it() {
    for (op, spelling) in [
        (BinOp::Mul, "*"),
        (BinOp::Div, "/"),
        (BinOp::Rem, "%"),
        (BinOp::Add, "+"),
        (BinOp::Sub, "-"),
        (BinOp::Shl, "<<"),
        (BinOp::Shr, ">>"),
        (BinOp::Lt, "<"),
        (BinOp::Gt, ">"),
        (BinOp::Le, "<="),
        (BinOp::Ge, ">="),
        (BinOp::Eq, "=="),
        (BinOp::Ne, "!="),
        (BinOp::BitAnd, "&"),
        (BinOp::BitXor, "^"),
        (BinOp::BitOr, "|"),
        (BinOp::LogAnd, "&&"),
        (BinOp::LogOr, "||"),
    ] {
        assert_eq!(op.as_str(), spelling, "{op:?}");
    }

    for (op, spelling, fixity) in [
        (UnOp::Plus, "+", None),
        (UnOp::Minus, "-", None),
        (UnOp::Not, "!", None),
        (UnOp::BitNot, "~", None),
        (UnOp::Deref, "*", None),
        (UnOp::AddrOf, "&", None),
        (UnOp::PreInc, "++", Some("prefix")),
        (UnOp::PreDec, "--", Some("prefix")),
        (UnOp::PostInc, "++", Some("postfix")),
        (UnOp::PostDec, "--", Some("postfix")),
    ] {
        assert_eq!(op.as_str(), spelling, "{op:?}");
        assert_eq!(op.fixity(), fixity, "{op:?}");
    }
}

#[test]
fn an_id_still_names_its_node_after_more_are_pushed() {
    let mut ast = Ast::new();

    let first = ast.push_expr(Expr::Number { span: span(0) });
    let second = ast.push_expr(Expr::Number { span: span(10) });
    ast.push_expr(Expr::Error { span: span(20) });

    assert_eq!(ast.expr(first), &Expr::Number { span: span(0) });
    assert_eq!(ast.expr(second), &Expr::Number { span: span(10) });
}

#[test]
fn each_kind_of_node_is_numbered_on_its_own() {
    let mut ast = Ast::new();

    ast.push_expr(Expr::Number { span: span(0) });
    ast.push_expr(Expr::Number { span: span(1) });
    let stmt = ast.push_stmt(Stmt::Error { span: span(2) });

    assert_eq!(stmt, StmtId(0));
}

// Beyond the original's own tests.

#[test]
fn a_call_s_children_are_its_callee_then_its_arguments() {
    let s = span(0);
    let call = Expr::Call {
        callee: ExprId(4),
        arguments: vec![ExprId(1), ExprId(2), ExprId(3)],
        span: s,
    };
    let mut out = vec![ExprId(9)];
    call.extend_children(&mut out);
    assert_eq!(out, [ExprId(9), ExprId(4), ExprId(1), ExprId(2), ExprId(3)]);

    let mut none = Vec::new();
    Expr::Number { span: s }.extend_children(&mut none);
    assert!(none.is_empty());
}

#[test]
fn every_node_says_where_it_was_written() {
    assert_eq!(Expr::Comma { lhs: ExprId(0), rhs: ExprId(1), span: span(7) }.span(), span(7));
    assert_eq!(Stmt::Return { value: None, span: span(3) }.span(), span(3));
    assert_eq!(
        Item::Function(Function {
            ty: TypeId(0),
            name: span(1),
            body: StmtId(0),
            span: span(9)
        })
        .span(),
        span(9)
    );
    assert_eq!(Item::Declaration { declarators: Vec::new(), span: span(5) }.span(), span(5));
    assert_eq!(Item::Declaration { declarators: Vec::new(), span: span(5) }.name(), "Declaration");
}

#[test]
fn every_expression_id_is_handed_back_in_order() {
    let mut ast = Ast::new();
    for start in 0..4 {
        ast.push_expr(Expr::Number { span: span(start) });
    }
    assert_eq!(ast.expr_ids(), [ExprId(0), ExprId(1), ExprId(2), ExprId(3)]);
    assert_eq!(ExprId(3).index(), 3);
}

#[test]
fn a_parameter_list_of_several_is_spelled_with_commas() {
    let sources = SourceMap::new();
    let mut ast = Ast::new();
    let int = ast.push_type(Type::Int);
    let character = ast.push_type(Type::Char);
    let pointer = ast.push_type(Type::Pointer(character));
    let declared = |ty| Declaration {
        name: None,
        ty,
        span: span(0),
    };
    let f = ast.push_type(Type::Function {
        result: int,
        parameters: Parameters::Prototype(vec![declared(int), declared(pointer), declared(int)]),
    });
    assert_eq!(spell_type(&sources, &ast, f), "int (int, char *, int)");
}
