use safec::ir::{
    BinOp, Block, BlockId, FuncId, Function, LocalId, Operand, Operation, Origin, Place,
    Projection, Rvalue, Terminator, TranslationUnit, Ty,
};
use safec::source::{SourceMap, Span};

fn spans() -> (SourceMap, Span) {
    let mut sources = SourceMap::new();
    let file = sources.add_virtual(
        "t.c".to_string(),
        "int add(int a, char b) { return a + b; }\n".to_string(),
    );
    let span = Span::new(file, 31, 36);
    (sources, span)
}

#[test]
fn a_function_is_built_and_read_back() {
    let (_sources, at) = spans();
    let mut unit = TranslationUnit::new();
    let int = unit.push_type(Ty::Int);

    let character = unit.push_type(Ty::Char);

    let mut add = Function::new(at, int, vec![int, character]);
    let [a, b] = add.parameters()[..] else {
        panic!("two parameters");
    };

    add.push_block(Block {
        operations: vec![Operation {
            place: Place::local(add.return_place()),
            value: Rvalue::Binary {
                op: BinOp::Add,
                lhs: Operand::Copy(Place::local(a)),
                rhs: Operand::Copy(Place::local(b)),
            },
            origin: Origin::Written(at),
        }],
        terminator: Terminator::Return,
    });

    let id = unit.push_function(add);
    let add = unit.function(id);

    assert_eq!(add.return_place(), LocalId(0));
    assert_eq!(add.parameters(), [LocalId(1), LocalId(2)]);
    assert_eq!(add.locals(), 3);
    assert_eq!(add.local(add.return_place()), int);
    assert_eq!(add.local(LocalId(1)), int);
    assert_eq!(add.local(LocalId(2)), character);

    let [block] = add.blocks() else {
        panic!("{:?}", add.blocks());
    };
    assert_eq!(block.terminator, Terminator::Return);
    assert_eq!(
        block.operations,
        [Operation {
            place: Place::local(LocalId(0)),
            value: Rvalue::Binary {
                op: BinOp::Add,
                lhs: Operand::Copy(Place::local(LocalId(1))),
                rhs: Operand::Copy(Place::local(LocalId(2))),
            },
            origin: Origin::Written(at),
        }]
    );
}

#[test]
fn an_edge_no_statement_produced_can_be_built() {
    let (_sources, at) = spans();
    let mut unit = TranslationUnit::new();
    let void = unit.push_type(Ty::Void);
    let mut function = Function::new(at, void, Vec::new());

    let handler = function.push_block(Block {
        operations: Vec::new(),
        terminator: Terminator::Return,
    });
    let body = function.push_block(Block {
        operations: Vec::new(),
        terminator: Terminator::Abnormal { to: handler },
    });

    assert_eq!(
        function.block(body).terminator,
        Terminator::Abnormal { to: handler }
    );
}

#[test]
fn every_terminator_says_where_control_can_go() {
    let (_sources, at) = spans();
    let one = BlockId(1);
    let two = BlockId(2);

    for (terminator, expected) in [
        (Terminator::Goto(one), vec![one]),
        (
            Terminator::Branch {
                condition: Operand::Constant(0),
                then: one,
                otherwise: two,
            },
            vec![one, two],
        ),
        (
            Terminator::Call {
                callee: FuncId(0),
                arguments: Vec::new(),
                destination: Some(Place::local(LocalId(0))),
                then: two,
                origin: Origin::Written(at),
            },
            vec![two],
        ),
        (Terminator::Return, Vec::new()),
        (Terminator::Abnormal { to: one }, vec![one]),
    ] {
        let mut successors = Vec::new();
        terminator.successors(&mut successors);

        assert_eq!(successors, expected, "{terminator:?}");
    }
}

#[test]
fn a_place_is_not_the_place_it_points_at() {
    let p = Place::local(LocalId(1));
    let pointee = Place {
        local: LocalId(1),
        projection: vec![Projection::Deref],
    };

    assert_ne!(p, pointee);
    assert_eq!(pointee.local, p.local);
}

#[test]
fn an_id_still_names_its_block_after_more_are_pushed() {
    let (_sources, at) = spans();
    let mut unit = TranslationUnit::new();
    let void = unit.push_type(Ty::Void);
    let mut function = Function::new(at, void, Vec::new());

    let first = function.push_block(Block {
        operations: Vec::new(),
        terminator: Terminator::Return,
    });
    let second = function.push_block(Block {
        operations: Vec::new(),
        terminator: Terminator::Goto(first),
    });

    assert_eq!(function.block(first).terminator, Terminator::Return);
    assert_eq!(function.block(second).terminator, Terminator::Goto(first));
}

#[test]
fn one_type_has_one_id() {
    let mut unit = TranslationUnit::new();

    let int = unit.push_type(Ty::Int);
    let also_int = unit.push_type(Ty::Int);
    let character = unit.push_type(Ty::Char);
    let pointer = unit.push_type(Ty::Pointer(int));
    let also_pointer = unit.push_type(Ty::Pointer(also_int));

    assert_eq!(int, also_int);
    assert_eq!(pointer, also_pointer);
    assert_ne!(int, character);
    assert_ne!(int, pointer);
    assert_eq!(unit.ty(pointer), Ty::Pointer(int));
}

#[test]
fn an_operation_can_say_nobody_wrote_it() {
    let (_sources, at) = spans();
    let mut unit = TranslationUnit::new();
    let int = unit.push_type(Ty::Int);
    let mut function = Function::new(at, int, Vec::new());
    let temporary = function.push_local(int);

    let write = |origin| Operation {
        place: Place::local(temporary),
        value: Rvalue::Use(Operand::Constant(0)),
        origin,
    };
    let written = write(Origin::Written(at));
    let generated = write(Origin::Generated(at));

    assert_eq!(written.origin.span(), at);
    assert_eq!(generated.origin.span(), at);
    assert_ne!(written, generated);
}

#[test]
fn two_functions_with_one_name_have_two_ids() {
    let (_sources, at) = spans();
    let mut unit = TranslationUnit::new();
    let int = unit.push_type(Ty::Int);
    let character = unit.push_type(Ty::Char);

    let first = Function::new(at, int, Vec::new());
    let mut second = Function::new(at, int, Vec::new());
    let scratch = second.push_local(character);

    let first = unit.push_function(first);
    let second = unit.push_function(second);

    assert_ne!(first, second);
    assert_eq!(unit.function(first).name, unit.function(second).name);
    assert_eq!(unit.function(first).locals(), 1);
    assert_eq!(unit.function(second).locals(), 2);
    assert_eq!(unit.function(second).local(scratch), character);
}

// Beyond the original's own tests.

#[test]
fn a_reserved_block_is_the_entry_and_is_filled_later() {
    let (_sources, at) = spans();
    let mut unit = TranslationUnit::new();
    let int = unit.push_type(Ty::Int);
    let mut function = Function::new(at, int, Vec::new());
    assert!(!function.is_defined());

    let entry = function.reserve_block();
    assert!(function.is_defined());
    assert_eq!(entry, function.entry());
    assert_eq!(function.block(entry).terminator, Terminator::Return);

    let next = function.push_block(Block {
        operations: Vec::new(),
        terminator: Terminator::Return,
    });
    function.fill_block(
        entry,
        Block {
            operations: Vec::new(),
            terminator: Terminator::Goto(next),
        },
    );
    assert_eq!(function.block(entry).terminator, Terminator::Goto(next));
    assert_eq!(function.blocks().len(), 2);
}

#[test]
fn a_declaration_has_its_parameters_and_no_body() {
    let (_sources, at) = spans();
    let mut unit = TranslationUnit::new();
    let int = unit.push_type(Ty::Int);
    let declared = Function::declaration(at, int, vec![int, int, int]);

    assert!(!declared.is_defined());
    assert_eq!(declared.parameters(), [LocalId(1), LocalId(2), LocalId(3)]);
    assert_eq!(declared.locals(), 4);
}

#[test]
fn a_cloned_place_is_the_same_place() {
    let place = Place {
        local: LocalId(2),
        projection: vec![
            Projection::Deref,
            Projection::Index(Operand::Copy(Place::local(LocalId(1)))),
            Projection::Deref,
        ],
    };
    assert_eq!(place.clone(), place);
    assert_eq!(
        Operand::Copy(place.clone()).clone(),
        Operand::Copy(place)
    );
}

#[test]
fn ids_index_the_slot_they_name() {
    assert_eq!(LocalId(7).index(), 7);
    assert_eq!(BlockId(3).index(), 3);
    assert_eq!(FuncId(4).index(), 4);
}
