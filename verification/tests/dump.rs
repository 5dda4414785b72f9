use safec::ast::{Ast, BinOp, Declaration, Expr, Function, InitDeclarator, Item, Parameters, Stmt, Type, UnOp};
use safec::dump::{dump_ast, dump_expr, dump_stmt};
use safec::source::{SourceMap, Span};

#[test]
fn a_node_is_placed_against_the_file_its_span_names() {
    let mut sources = SourceMap::new();
    let first = sources.add_virtual("first.c".to_string(), "int outer(void) { return 0; }\n".to_string());
    let second = sources.add_virtual("second.c".to_string(), "\n\n\n      inner\n".to_string());

    let mut ast = Ast::new();
    let body = ast.push_stmt(Stmt::Compound { body: Vec::new(), span: Span::new(second, 9, 14) });
    let ty = ast.push_type(Type::Int);
    ast.push_item(Item::Function(Function { ty, name: Span::new(first, 4, 9), body, span: Span::new(first, 0, 29) }));

    let mut out = String::new();
    dump_ast(&sources, &ast, &mut out);

    assert_eq!(out, "Function <first.c>:1:1 \"outer\" \"int\"\n  Compound <second.c>:4:7\n");
}

#[test]
fn a_function_dumps_its_parameters_and_its_body() {
    // int f(int x) { if (x) return -x; else x += 1; for (;;x++) ; }
    let text = "int f(int x) { if (x) return -x; else x += 1; for (;;x++) ; }\n";
    let mut sources = SourceMap::new();
    let file = sources.add_file("f.c".to_string(), text.to_string());
    let at = |s: u32, e: u32| Span::new(file, s, e);
    let mut ast = Ast::new();
    let int = ast.push_type(Type::Int);
    let fty = ast.push_type(Type::Function {
        result: int,
        parameters: Parameters::Prototype(vec![Declaration { name: Some(at(10, 11)), ty: int, span: at(6, 11) }]),
    });
    let x1 = ast.push_expr(Expr::Identifier { span: at(19, 20) });
    let x2 = ast.push_expr(Expr::Identifier { span: at(30, 31) });
    let neg = ast.push_expr(Expr::Unary { op: UnOp::Minus, operand: x2, span: at(29, 31) });
    let ret = ast.push_stmt(Stmt::Return { value: Some(neg), span: at(22, 32) });
    let x3 = ast.push_expr(Expr::Identifier { span: at(38, 39) });
    let one = ast.push_expr(Expr::Number { span: at(43, 44) });
    let add = ast.push_expr(Expr::Assign { op: Some(BinOp::Add), place: x3, value: one, span: at(38, 44) });
    let exp = ast.push_stmt(Stmt::Expression { value: Some(add), span: at(38, 45) });
    let iff = ast.push_stmt(Stmt::If { condition: x1, then: ret, otherwise: Some(exp), span: at(15, 45) });
    let x4 = ast.push_expr(Expr::Identifier { span: at(53, 54) });
    let inc = ast.push_expr(Expr::Unary { op: UnOp::PostInc, operand: x4, span: at(53, 56) });
    let empty = ast.push_stmt(Stmt::Expression { value: None, span: at(58, 59) });
    let lp = ast.push_stmt(Stmt::For { initialiser: None, condition: None, step: Some(inc), body: empty, span: at(46, 59) });
    let body = ast.push_stmt(Stmt::Compound { body: vec![iff, lp], span: at(13, 61) });
    ast.push_item(Item::Function(Function { ty: fty, name: at(4, 5), body, span: at(0, 61) }));

    let mut out = String::new();
    dump_ast(&sources, &ast, &mut out);
    assert_eq!(
        out,
        "Function f.c:1:1 \"f\" \"int (int)\"\n\
         \x20 Parameter f.c:1:7 \"x\" \"int\"\n\
         \x20 Compound f.c:1:14\n\
         \x20   If f.c:1:16 else\n\
         \x20     Identifier f.c:1:20 \"x\"\n\
         \x20     Return f.c:1:23\n\
         \x20       Unary f.c:1:30 \"-\"\n\
         \x20         Identifier f.c:1:31 \"x\"\n\
         \x20     Expression f.c:1:39\n\
         \x20       Assign f.c:1:39 \"+=\"\n\
         \x20         Identifier f.c:1:39 \"x\"\n\
         \x20         Number f.c:1:44 \"1\"\n\
         \x20   For f.c:1:47 step\n\
         \x20     Unary f.c:1:54 postfix \"++\"\n\
         \x20       Identifier f.c:1:54 \"x\"\n\
         \x20     Expression f.c:1:59\n"
    );

    let mut one_stmt = String::new();
    dump_stmt(&sources, &ast, ast.stmt(exp), 0, &mut one_stmt);
    assert!(one_stmt.starts_with("Expression f.c:1:39\n  Assign"));

    let mut one_expr = String::new();
    dump_expr(&sources, &ast, neg, 3, &mut one_expr);
    assert_eq!(one_expr, "      Unary f.c:1:30 \"-\"\n        Identifier f.c:1:31 \"x\"\n");
}

#[test]
fn a_declaration_dumps_each_declarator_and_its_initialiser() {
    let text = "int a = 1, *b;\n";
    let mut sources = SourceMap::new();
    let file = sources.add_file("d.c".to_string(), text.to_string());
    let at = |s: u32, e: u32| Span::new(file, s, e);
    let mut ast = Ast::new();
    let int = ast.push_type(Type::Int);
    let ptr = ast.push_type(Type::Pointer(int));
    let one = ast.push_expr(Expr::Number { span: at(8, 9) });
    ast.push_item(Item::Declaration {
        declarators: vec![
            InitDeclarator { declaration: Declaration { name: Some(at(4, 5)), ty: int, span: at(0, 9) }, init: Some(one) },
            InitDeclarator { declaration: Declaration { name: Some(at(12, 13)), ty: ptr, span: at(0, 13) }, init: None },
        ],
        span: at(0, 14),
    });
    let mut out = String::new();
    dump_ast(&sources, &ast, &mut out);
    assert_eq!(
        out,
        "Declaration d.c:1:1 \"a\" \"int\"\n  Number d.c:1:9 \"1\"\nDeclaration d.c:1:1 \"b\" \"int *\"\n"
    );
}

#[test]
fn a_node_past_the_deepest_indent_says_how_much_deeper_it_is() {
    let mut sources = SourceMap::new();
    let file = sources.add_file("n.c".to_string(), "7\n".to_string());
    let mut ast = Ast::new();
    let seven = ast.push_expr(Expr::Number { span: Span::new(file, 0, 1) });
    let mut out = String::new();
    dump_expr(&sources, &ast, seven, 70, &mut out);
    assert_eq!(out, format!("{}+6 Number n.c:1:1 \"7\"\n", " ".repeat(128)));
}
