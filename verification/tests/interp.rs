//! Programs run on the interpreter. The C each one stands for is written above
//! it; the IR is what the lowering makes of it, built here by hand.
use safec::interp::{run, Trap, Value, MAX_FRAMES};
use safec::ir::{
    BinOp, Block, BlockId, FuncId, Function, LocalId, Operand, Operation, Origin, Place,
    Projection, Rvalue, Terminator, TranslationUnit, Ty, UnOp,
};
use safec::source::{SourceMap, Span};

fn span() -> Span {
    let mut sources = SourceMap::new();
    let file = sources.add_virtual("t.c".to_string(), "int f(void);\n".to_string());
    Span::new(file, 4, 5)
}

fn local(n: u32) -> Place {
    Place::local(LocalId(n))
}

fn deref(n: u32) -> Place {
    Place {
        local: LocalId(n),
        projection: vec![Projection::Deref],
    }
}

fn copy(n: u32) -> Operand {
    Operand::Copy(local(n))
}

fn constant(n: i128) -> Operand {
    Operand::Constant(n)
}

fn set(place: Place, value: Rvalue) -> Operation {
    Operation {
        place,
        value,
        origin: Origin::Written(span()),
    }
}

fn binary(op: BinOp, lhs: Operand, rhs: Operand) -> Rvalue {
    Rvalue::Binary { op, lhs, rhs }
}

fn block(operations: Vec<Operation>, terminator: Terminator) -> Block {
    Block {
        operations,
        terminator,
    }
}

fn call(callee: FuncId, arguments: Vec<Operand>, into: u32, then: u32) -> Terminator {
    Terminator::Call {
        callee,
        arguments,
        destination: Some(local(into)),
        then: BlockId(then),
        origin: Origin::Written(span()),
    }
}

/// A function of `locals` int locals after the return place, with `params`
/// of them parameters, and these blocks.
fn function(unit: &mut TranslationUnit, params: usize, extra: usize, blocks: Vec<Block>) -> Function {
    let int = unit.push_type(Ty::Int);
    let mut f = Function::new(span(), int, vec![int; params]);
    for _ in 0..extra {
        f.push_local(int);
    }
    for b in blocks {
        f.push_block(b);
    }
    f
}

/// `int main(void) { ... }` alone, run.
fn run_main(extra: usize, blocks: Vec<Block>) -> Result<Value, Trap> {
    let mut unit = TranslationUnit::new();
    let main = function(&mut unit, 0, extra, blocks);
    let main = unit.push_function(main);
    run(&unit, main, &[])
}

/// `int op(int a, int b) { return a OP b; }` and
/// `int main(void) { return op(x, y); }`.
fn two_functions(op: BinOp, x: i128, y: i128) -> Result<Value, Trap> {
    let mut unit = TranslationUnit::new();
    let callee = function(
        &mut unit,
        2,
        0,
        vec![block(
            vec![set(local(0), binary(op, copy(1), copy(2)))],
            Terminator::Return,
        )],
    );
    let callee = unit.push_function(callee);
    let main = function(
        &mut unit,
        0,
        1,
        vec![
            block(Vec::new(), call(callee, vec![constant(x), constant(y)], 1, 1)),
            block(vec![set(local(0), Rvalue::Use(copy(1)))], Terminator::Return),
        ],
    );
    let main = unit.push_function(main);
    run(&unit, main, &[])
}

#[test]
fn the_mvp_program_produces_three() {
    // int add(int a, int b) { return a + b; }
    // int main(void) { return add(1, 2); }
    assert_eq!(two_functions(BinOp::Add, 1, 2), Ok(Value::Int(3)));

    // int less(int a, int b) { return a - b; }
    // int main(void) { return less(10, 4); }
    assert_eq!(two_functions(BinOp::Sub, 10, 4), Ok(Value::Int(6)));
}

#[test]
fn a_loop_and_a_branch_run() {
    // int main(void) {
    //     int n; int total;
    //     n = 5; total = 0;
    //     while (n > 0) { total = total + n; n = n - 1; }
    //     return total;
    // }
    // n is local 1, total local 2, the condition local 3.
    let summed = run_main(
        3,
        vec![
            block(
                vec![
                    set(local(1), Rvalue::Use(constant(5))),
                    set(local(2), Rvalue::Use(constant(0))),
                ],
                Terminator::Goto(BlockId(1)),
            ),
            block(
                vec![set(local(3), binary(BinOp::Gt, copy(1), constant(0)))],
                Terminator::Branch {
                    condition: copy(3),
                    then: BlockId(2),
                    otherwise: BlockId(3),
                },
            ),
            block(
                vec![
                    set(local(2), binary(BinOp::Add, copy(2), copy(1))),
                    set(local(1), binary(BinOp::Sub, copy(1), constant(1))),
                ],
                Terminator::Goto(BlockId(1)),
            ),
            block(vec![set(local(0), Rvalue::Use(copy(2)))], Terminator::Return),
        ],
    );
    assert_eq!(summed, Ok(Value::Int(15)));

    // int main(void) {
    //     int n; n = 2;
    //     if (n > 1) { n = 10; } else { n = 20; }
    //     return n;
    // }
    let chosen = run_main(
        2,
        vec![
            block(
                vec![
                    set(local(1), Rvalue::Use(constant(2))),
                    set(local(2), binary(BinOp::Gt, copy(1), constant(1))),
                ],
                Terminator::Branch {
                    condition: copy(2),
                    then: BlockId(1),
                    otherwise: BlockId(2),
                },
            ),
            block(vec![set(local(1), Rvalue::Use(constant(10)))], Terminator::Goto(BlockId(3))),
            block(vec![set(local(1), Rvalue::Use(constant(20)))], Terminator::Goto(BlockId(3))),
            block(vec![set(local(0), Rvalue::Use(copy(1)))], Terminator::Return),
        ],
    );
    assert_eq!(chosen, Ok(Value::Int(10)));

    // int main(void) { int z; z = 0; return z && (1 / z); }
    // z is local 1, the result of `&&` local 2, the quotient local 3.
    let short = run_main(
        3,
        vec![
            block(
                vec![set(local(1), Rvalue::Use(constant(0)))],
                Terminator::Branch {
                    condition: copy(1),
                    then: BlockId(1),
                    otherwise: BlockId(2),
                },
            ),
            block(
                vec![
                    set(local(3), binary(BinOp::Div, constant(1), copy(1))),
                    set(local(2), binary(BinOp::Ne, copy(3), constant(0))),
                ],
                Terminator::Goto(BlockId(3)),
            ),
            block(vec![set(local(2), Rvalue::Use(constant(0)))], Terminator::Goto(BlockId(3))),
            block(vec![set(local(0), Rvalue::Use(copy(2)))], Terminator::Return),
        ],
    );
    assert_eq!(short, Ok(Value::Int(0)));
}

#[test]
fn a_write_through_a_pointer_reaches_the_place_it_names() {
    // int main(void) { int x; int *p; x = 1; p = &x; *p = 7; return x; }
    let answer = run_main(
        2,
        vec![block(
            vec![
                set(local(1), Rvalue::Use(constant(1))),
                set(local(2), Rvalue::Address(local(1))),
                set(deref(2), Rvalue::Use(constant(7))),
                set(local(0), Rvalue::Use(copy(1))),
            ],
            Terminator::Return,
        )],
    );
    assert_eq!(answer, Ok(Value::Int(7)));
}

#[test]
fn a_pointer_into_a_returned_function_is_not_read() {
    // int *escaping(void) { int x; x = 1; return &x; }
    // int main(void) { int *p; p = escaping(); return *p; }
    let mut unit = TranslationUnit::new();
    let escaping = function(
        &mut unit,
        0,
        1,
        vec![block(
            vec![
                set(local(1), Rvalue::Use(constant(1))),
                set(local(0), Rvalue::Address(local(1))),
            ],
            Terminator::Return,
        )],
    );
    let escaping = unit.push_function(escaping);
    let main = function(
        &mut unit,
        0,
        1,
        vec![
            block(Vec::new(), call(escaping, Vec::new(), 1, 1)),
            block(
                vec![set(local(0), Rvalue::Use(Operand::Copy(deref(1))))],
                Terminator::Return,
            ),
        ],
    );
    let main = unit.push_function(main);

    let escaped = run(&unit, main, &[]);
    let Err(trap) = escaped else {
        panic!("{escaped:?}");
    };
    assert!(trap.why.contains("has returned"), "{trap:?}");
}

#[test]
fn undefined_behaviour_stops_and_says_why() {
    // int main(void) { int x; return x; }
    let unread = run_main(1, vec![block(vec![set(local(0), Rvalue::Use(copy(1)))], Terminator::Return)]);
    // int main(void) { int z; z = 0; return 1 / z; }
    let divided = run_main(
        1,
        vec![block(
            vec![
                set(local(1), Rvalue::Use(constant(0))),
                set(local(0), binary(BinOp::Div, constant(1), copy(1))),
            ],
            Terminator::Return,
        )],
    );
    // int main(void) { int z; z = 0; return 1 % z; }
    let remainder = run_main(
        1,
        vec![block(
            vec![
                set(local(1), Rvalue::Use(constant(0))),
                set(local(0), binary(BinOp::Rem, constant(1), copy(1))),
            ],
            Terminator::Return,
        )],
    );

    for (result, expected) in [
        (unread, "nothing has written"),
        (divided, "division by zero"),
        (remainder, "remainder by zero"),
    ] {
        let Err(trap) = result else {
            panic!("{expected}");
        };
        assert!(trap.why.contains(expected), "{expected}: {trap:?}");
    }
}

#[test]
fn an_operation_this_does_not_implement_stops_the_run() {
    // int main(void) { int x; int *p; x = 1; p = &x; return (p + 1) == 0; }
    let arithmetic = run_main(
        3,
        vec![block(
            vec![
                set(local(1), Rvalue::Use(constant(1))),
                set(local(2), Rvalue::Address(local(1))),
                set(local(3), binary(BinOp::Add, copy(2), constant(1))),
                set(local(0), binary(BinOp::Eq, copy(3), constant(0))),
            ],
            Terminator::Return,
        )],
    );
    let Err(trap) = arithmetic else {
        panic!("{arithmetic:?}");
    };
    assert!(trap.why.contains("arithmetic on a pointer"), "{trap:?}");

    // int elsewhere(void);
    // int main(void) { return elsewhere(); }
    let mut unit = TranslationUnit::new();
    let int = unit.push_type(Ty::Int);
    let elsewhere = unit.push_function(Function::declaration(span(), int, Vec::new()));
    let main = function(
        &mut unit,
        0,
        1,
        vec![
            block(Vec::new(), call(elsewhere, Vec::new(), 1, 1)),
            block(vec![set(local(0), Rvalue::Use(copy(1)))], Terminator::Return),
        ],
    );
    let main = unit.push_function(main);
    let declared = run(&unit, main, &[]);
    let Err(trap) = declared else {
        panic!("{declared:?}");
    };
    assert!(trap.why.contains("body is not in this translation unit"), "{trap:?}");
}

#[test]
fn a_recursion_without_an_end_is_stopped() {
    // int f(void) { return f(); }
    // int main(void) { return f(); }
    let mut unit = TranslationUnit::new();
    let f = function(
        &mut unit,
        0,
        1,
        vec![
            block(Vec::new(), call(FuncId(0), Vec::new(), 1, 1)),
            block(vec![set(local(0), Rvalue::Use(copy(1)))], Terminator::Return),
        ],
    );
    let f = unit.push_function(f);
    let main = function(
        &mut unit,
        0,
        1,
        vec![
            block(Vec::new(), call(f, Vec::new(), 1, 1)),
            block(vec![set(local(0), Rvalue::Use(copy(1)))], Terminator::Return),
        ],
    );
    let main = unit.push_function(main);

    let forever = run(&unit, main, &[]);
    let Err(trap) = forever else {
        panic!("{forever:?}");
    };
    assert!(trap.why.contains("call stack deeper than"), "{trap:?}");
}

#[test]
fn a_trap_points_at_what_stopped_it() {
    let mut sources = SourceMap::new();
    let text = "int main(void) {\n    int z;\n    z = 0;\n    return 1 / z;\n}\n";
    let file = sources.add_virtual("t.c".to_string(), text.to_string());
    let start = text.find("1 / z").unwrap() as u32;
    let at = Span::new(file, start, start + 5);

    let mut unit = TranslationUnit::new();
    let main = function(
        &mut unit,
        0,
        1,
        vec![block(
            vec![
                set(local(1), Rvalue::Use(constant(0))),
                Operation {
                    place: local(0),
                    value: binary(BinOp::Div, constant(1), copy(1)),
                    origin: Origin::Written(at),
                },
            ],
            Terminator::Return,
        )],
    );
    let main = unit.push_function(main);
    let Err(trap) = run(&unit, main, &[]) else {
        panic!("a division by zero");
    };

    let at = trap.at.expect("the operation had a span");
    assert_eq!(sources.snippet(at), "1 / z");
}

#[test]
fn a_function_built_by_hand_runs() {
    let mut sources = SourceMap::new();
    let file = sources.add_virtual("t.c".to_string(), "int twice(int n);\n".to_string());
    let at = Span::new(file, 4, 9);

    let mut unit = TranslationUnit::new();
    let int = unit.push_type(Ty::Int);
    let mut twice = Function::new(at, int, vec![int]);
    let n = *twice.parameters().first().expect("one parameter");
    twice.push_block(Block {
        operations: vec![Operation {
            place: Place::local(twice.return_place()),
            value: Rvalue::Binary {
                op: BinOp::Add,
                lhs: Operand::Copy(Place::local(n)),
                rhs: Operand::Copy(Place::local(n)),
            },
            origin: Origin::Written(at),
        }],
        terminator: Terminator::Return,
    });
    let id = unit.push_function(twice);

    assert_eq!(run(&unit, id, &[Value::Int(7)]), Ok(Value::Int(14)));
}

#[test]
fn an_abnormal_edge_stops_the_run() {
    let mut sources = SourceMap::new();
    let file = sources.add_virtual("t.c".to_string(), "int f(void);\n".to_string());
    let at = Span::new(file, 4, 5);

    let mut unit = TranslationUnit::new();
    let int = unit.push_type(Ty::Int);
    let mut function = Function::new(at, int, Vec::new());

    let entry = function.reserve_block();
    let handler = function.push_block(Block {
        operations: vec![Operation {
            place: Place::local(function.return_place()),
            value: Rvalue::Use(Operand::Constant(1)),
            origin: Origin::Written(at),
        }],
        terminator: Terminator::Return,
    });
    function.fill_block(
        entry,
        Block {
            operations: Vec::new(),
            terminator: Terminator::Abnormal { to: handler },
        },
    );
    assert_eq!(function.entry(), entry);

    let id = unit.push_function(function);
    let Err(trap) = run(&unit, id, &[]) else {
        panic!("an abnormal edge");
    };
    assert!(trap.why.contains("no statement produced"), "{trap:?}");
}

// Beyond the original's own tests.

#[test]
fn a_function_called_twice_returns_to_its_caller_both_times() {
    // int one(void) { return 1; }
    // int main(void) { int a; int b; a = one(); b = one(); return a + b; }
    let mut unit = TranslationUnit::new();
    let one = function(
        &mut unit,
        0,
        0,
        vec![block(vec![set(local(0), Rvalue::Use(constant(1)))], Terminator::Return)],
    );
    let one = unit.push_function(one);
    let main = function(
        &mut unit,
        0,
        2,
        vec![
            block(Vec::new(), call(one, Vec::new(), 1, 1)),
            block(Vec::new(), call(one, Vec::new(), 2, 2)),
            block(vec![set(local(0), binary(BinOp::Add, copy(1), copy(2)))], Terminator::Return),
        ],
    );
    let main = unit.push_function(main);
    assert_eq!(run(&unit, main, &[]), Ok(Value::Int(2)));
}

#[test]
fn the_operators_answer_what_c_answers() {
    let cases = [
        (BinOp::Mul, 6, 7, 42),
        (BinOp::Div, -7, 2, -3),
        (BinOp::Rem, -7, 2, -1),
        (BinOp::Shl, 1, 4, 16),
        (BinOp::Shr, -16, 2, -4),
        (BinOp::Lt, 1, 2, 1),
        (BinOp::Gt, 1, 2, 0),
        (BinOp::Le, 2, 2, 1),
        (BinOp::Ge, 1, 2, 0),
        (BinOp::Eq, 3, 3, 1),
        (BinOp::Ne, 3, 3, 0),
        (BinOp::BitAnd, 12, 10, 8),
        (BinOp::BitXor, 12, 10, 6),
        (BinOp::BitOr, 12, 10, 14),
    ];
    for (op, x, y, expected) in cases {
        assert_eq!(two_functions(op, x, y), Ok(Value::Int(expected)), "{op:?}");
    }
}

#[test]
fn a_result_that_does_not_fit_stops_the_run() {
    for (op, x, y, why) in [
        (BinOp::Add, i128::MAX, 1, "does not fit"),
        (BinOp::Sub, i128::MIN, 1, "does not fit"),
        (BinOp::Mul, i128::MAX, 2, "does not fit"),
        (BinOp::Div, i128::MIN, -1, "division by zero"),
        (BinOp::Shl, 1, 128, "shift"),
        (BinOp::Shr, 1, -1, "shift"),
    ] {
        let Err(trap) = two_functions(op, x, y) else {
            panic!("{op:?} answered");
        };
        assert!(trap.why.contains(why), "{op:?}: {trap:?}");
        assert!(trap.at.is_some(), "{op:?}: the operation had a span");
    }
}

#[test]
fn the_unary_operators_answer_what_c_answers() {
    for (op, x, expected) in [
        (UnOp::Neg, 5, Ok(-5)),
        (UnOp::Not, 0, Ok(1)),
        (UnOp::Not, 9, Ok(0)),
        (UnOp::BitNot, 0, Ok(-1)),
        (UnOp::Neg, i128::MIN, Err("negation")),
    ] {
        let answer = run_main(
            0,
            vec![block(
                vec![set(
                    local(0),
                    Rvalue::Unary {
                        op,
                        operand: constant(x),
                    },
                )],
                Terminator::Return,
            )],
        );
        match expected {
            Ok(n) => assert_eq!(answer, Ok(Value::Int(n)), "{op:?}"),
            Err(why) => assert!(answer.unwrap_err().why.contains(why), "{op:?}"),
        }
    }
}

#[test]
fn a_branch_on_a_pointer_and_a_missing_answer_stop_the_run() {
    let branch = run_main(
        2,
        vec![
            block(
                vec![
                    set(local(1), Rvalue::Use(constant(0))),
                    set(local(2), Rvalue::Address(local(1))),
                ],
                Terminator::Branch {
                    condition: copy(2),
                    then: BlockId(1),
                    otherwise: BlockId(1),
                },
            ),
            block(Vec::new(), Terminator::Return),
        ],
    );
    assert!(branch.unwrap_err().why.contains("branch on a pointer"));

    let silent = run_main(0, vec![block(Vec::new(), Terminator::Return)]);
    let trap = silent.unwrap_err();
    assert_eq!(trap.why, "a function returned without writing its return place");
    assert_eq!(trap.at, None);
}

#[test]
fn an_index_is_not_followed() {
    let indexed = run_main(
        1,
        vec![block(
            vec![
                set(local(1), Rvalue::Use(constant(3))),
                set(
                    local(0),
                    Rvalue::Use(Operand::Copy(Place {
                        local: LocalId(1),
                        projection: vec![Projection::Index(constant(0))],
                    })),
                ),
            ],
            Terminator::Return,
        )],
    );
    assert!(indexed.unwrap_err().why.contains("an index"));
}

#[test]
fn a_pointer_that_points_at_itself_is_not_followed_for_ever() {
    // p = &*p; return *p;
    let looped = run_main(
        1,
        vec![block(
            vec![
                set(local(1), Rvalue::Address(deref(1))),
                set(local(0), Rvalue::Use(Operand::Copy(deref(1)))),
            ],
            Terminator::Return,
        )],
    );
    assert!(looped.unwrap_err().why.contains("chain of pointers"));
}

#[test]
fn extra_arguments_are_dropped_and_missing_ones_are_unwritten() {
    let mut unit = TranslationUnit::new();
    let id = function(
        &mut unit,
        1,
        0,
        vec![block(vec![set(local(0), Rvalue::Use(copy(1)))], Terminator::Return)],
    );
    let id = unit.push_function(id);
    assert_eq!(
        run(&unit, id, &[Value::Int(4), Value::Int(5)]),
        Ok(Value::Int(4))
    );
    assert!(run(&unit, id, &[]).unwrap_err().why.contains("nothing has written"));
}

#[test]
fn the_frame_bound_is_what_the_message_says() {
    assert_eq!(MAX_FRAMES, 1 << 16);
}

#[test]
fn a_long_chain_of_pointers_is_followed_to_its_end() {
    // int a = 42; int *p2 = &a; int **p3 = &*p2... ; return *pN;
    let n: u32 = 1500;
    let mut operations = vec![
        set(local(1), Rvalue::Use(constant(42))),
        set(local(2), Rvalue::Address(local(1))),
    ];
    for k in 3..=n {
        operations.push(set(local(k), Rvalue::Address(deref(k - 1))));
    }
    operations.push(set(local(0), Rvalue::Use(Operand::Copy(deref(n)))));
    let answer = run_main(n as usize, vec![block(operations, Terminator::Return)]);
    assert_eq!(answer, Ok(Value::Int(42)));
}
