use tiger::compile::{compile, compile_function, split_fragments, Fragment, FunctionFragment};
use tiger::emit::{CallSite, Data, StringLayout};
use tiger::frame::{external_call, sequence, Access, Frame};
use tiger::ir::{BinOp, Exp, List, RelOp, Stm};
use tiger::symbol::Strings;
use tiger::temp::{Label, Temp, TempSource};
use tiger::translate::{
    arithmetic, array_creation, array_filled, assign, break_to, call_function, field_var, for_loop,
    function_body, if_then, if_then_else, int_literal, method_call, nil, procedure_body,
    record_creation, relational, simple_var, static_link, string_literal, string_relational,
    subscript_var, unit, while_loop, FieldInit, Literals,
};

fn list<T>(items: Vec<T>) -> List<T> {
    let mut list = List::Nil;
    for item in items.into_iter().rev() {
        list = List::Cons(item, Box::new(list));
    }
    list
}

fn temp(num: usize) -> Exp {
    Exp::Temp(Temp { num })
}

fn word(base: Exp, offset: i64) -> Exp {
    Exp::Mem(Box::new(Exp::BinOp(BinOp::Plus, Box::new(base), Box::new(Exp::Const(offset)))))
}

fn jump(num: usize) -> Stm {
    Stm::Jump(Exp::Name(Label::Num(num)), list(vec![Label::Num(num)]))
}

fn flatten(stm: Stm, out: &mut Vec<Stm>) {
    match stm {
        Stm::Sequence(first, second) => {
            flatten(*first, out);
            flatten(*second, out);
        }
        other => out.push(other),
    }
}

fn parts(exp: Exp) -> (Vec<Stm>, Exp) {
    match exp {
        Exp::ESeq(stm, value) => {
            let mut stms = Vec::new();
            flatten(*stm, &mut stms);
            (stms, *value)
        }
        other => (vec![], other),
    }
}

fn lines(fragment: FunctionFragment, source: &mut TempSource, names: &Strings) -> Vec<String> {
    let compiled = compile_function(fragment, source, names).unwrap();
    compiled
        .subroutine
        .body
        .iter()
        .map(|instruction| instruction.to_string())
        .filter(|line| !line.is_empty())
        .collect()
}

#[test]
fn literals_are_constants_and_names() {
    assert_eq!(int_literal(42), Exp::Const(42));
    assert_eq!(nil(), Exp::Const(0));
    assert_eq!(unit(), Exp::Const(0));
    assert_eq!(string_literal(Label::Num(3)), Exp::Name(Label::Num(3)));
}

#[test]
fn a_variable_in_a_register_is_its_temporary() {
    assert_eq!(simple_var(Access::InReg(Temp { num: 20 }), 0), temp(20));
}

#[test]
fn a_variable_in_a_frame_is_found_through_static_links() {
    assert_eq!(static_link(0), temp(6));
    assert_eq!(static_link(2), word(word(temp(6), -8), -8));
    assert_eq!(simple_var(Access::InFrame(-24), 0), word(temp(6), -24));
    assert_eq!(simple_var(Access::InFrame(-24), 1), word(word(temp(6), -8), -24));
}

#[test]
fn fields_and_elements() {
    assert_eq!(field_var(temp(20), 16), word(temp(20), 16));
    assert_eq!(
        subscript_var(temp(20), temp(21), 16),
        Exp::Mem(Box::new(Exp::BinOp(
            BinOp::Plus,
            Box::new(temp(20)),
            Box::new(Exp::BinOp(
                BinOp::Plus,
                Box::new(Exp::BinOp(BinOp::Mul, Box::new(temp(21)), Box::new(Exp::Const(8)))),
                Box::new(Exp::Const(16)),
            )),
        )))
    );
}

#[test]
fn small_constructs() {
    assert_eq!(
        arithmetic(BinOp::Minus, temp(1), temp(2)),
        Exp::BinOp(BinOp::Minus, Box::new(temp(1)), Box::new(temp(2)))
    );
    assert_eq!(assign(temp(20), Exp::Const(1)), Stm::Move(temp(20), Exp::Const(1)));
    assert_eq!(function_body(temp(20)), Stm::Move(temp(0), temp(20)));
    assert_eq!(procedure_body(temp(20)), Stm::Exp(temp(20)));
    assert_eq!(
        call_function(Label::Num(5), temp(6), list(vec![temp(20)])),
        Exp::Call(Box::new(Exp::Name(Label::Num(5))), Box::new(list(vec![temp(6), temp(20)])))
    );
    assert_eq!(break_to(Label::Num(4)), Exp::ESeq(Box::new(jump(4)), Box::new(Exp::Const(0))));
    assert_eq!(
        array_creation(Label::Num(9), temp(20), 8),
        Exp::Call(Box::new(Exp::Name(Label::Num(9))), Box::new(list(vec![temp(20), Exp::Const(8)])))
    );
}

#[test]
fn sequence_nests_to_the_right() {
    assert_eq!(sequence(vec![jump(1)]), jump(1));
    assert_eq!(
        sequence(vec![jump(1), jump(2), jump(3)]),
        Stm::Sequence(
            Box::new(jump(1)),
            Box::new(Stm::Sequence(Box::new(jump(2)), Box::new(jump(3))))
        )
    );
}

#[test]
fn a_comparison_becomes_one_or_zero() {
    let mut source = TempSource::new(100);
    for _ in 0..10 {
        source.fresh_label();
    }
    let exp = relational(RelOp::LesserThan, temp(20), Exp::Const(5), &mut source).unwrap();
    let (stms, value) = parts(exp);
    assert_eq!(value, temp(100));
    assert_eq!(
        stms,
        vec![
            Stm::CJump(RelOp::LesserThan, temp(20), Exp::Const(5), Label::Num(10), Label::Num(11)),
            Stm::Label(Label::Num(10)),
            Stm::Move(temp(100), Exp::Const(1)),
            jump(12),
            Stm::Label(Label::Num(11)),
            Stm::Move(temp(100), Exp::Const(0)),
            Stm::Label(Label::Num(12)),
        ]
    );
    assert_eq!((source.peek_temp(), source.peek_label()), (101, 13));
}

#[test]
fn strings_are_compared_by_the_runtime() {
    let mut source = TempSource::new(100);
    let exp =
        string_relational(RelOp::Equal, Label::Named(4), temp(20), temp(21), &mut source).unwrap();
    let (stms, _) = parts(exp);
    assert_eq!(
        stms[0],
        Stm::CJump(
            RelOp::Equal,
            Exp::Call(Box::new(Exp::Name(Label::Named(4))), Box::new(list(vec![temp(20), temp(21)]))),
            Exp::Const(0),
            Label::Num(0),
            Label::Num(1),
        )
    );
}

#[test]
fn constructs_take_nothing_when_numbers_run_out() {
    let mut source = TempSource::new(usize::MAX);
    assert_eq!(relational(RelOp::Equal, temp(1), temp(2), &mut source), None);
    assert_eq!(if_then_else(temp(1), temp(2), temp(3), &mut source), None);
    assert_eq!(for_loop(Access::InReg(Temp { num: 1 }), temp(2), temp(3), temp(4), Label::Num(9), &mut source), None);
    assert_eq!(record_creation(temp(1), vec![], &mut source), None);
    assert_eq!(method_call(temp(1), 0, 0, temp(6), List::Nil, &mut source), None);
    assert_eq!(source.peek_label(), 0);
    assert!(if_then(temp(1), temp(2), &mut source).is_some());
    assert!(while_loop(temp(1), temp(2), Label::Num(9), &mut source).is_some());
    assert_eq!(source.peek_label(), 4);
    let mut source = TempSource::new(16);
    assert_eq!(method_call(temp(1), 0, usize::MAX, temp(6), List::Nil, &mut source), None);
    assert_eq!(source.peek_temp(), 16);
}

#[test]
fn conditionals() {
    let mut source = TempSource::new(100);
    let (stms, value) = parts(if_then_else(temp(20), Exp::Const(1), Exp::Const(2), &mut source).unwrap());
    assert_eq!(value, temp(100));
    assert_eq!(
        stms,
        vec![
            Stm::CJump(RelOp::NotEqual, temp(20), Exp::Const(0), Label::Num(0), Label::Num(1)),
            Stm::Label(Label::Num(0)),
            Stm::Move(temp(100), Exp::Const(1)),
            jump(2),
            Stm::Label(Label::Num(1)),
            Stm::Move(temp(100), Exp::Const(2)),
            Stm::Label(Label::Num(2)),
        ]
    );
    let (stms, value) = parts(if_then(temp(20), temp(21), &mut source).unwrap());
    assert_eq!(value, Exp::Const(0));
    assert_eq!(
        stms,
        vec![
            Stm::CJump(RelOp::NotEqual, temp(20), Exp::Const(0), Label::Num(3), Label::Num(4)),
            Stm::Label(Label::Num(3)),
            Stm::Exp(temp(21)),
            Stm::Label(Label::Num(4)),
        ]
    );
}

#[test]
fn loops() {
    let mut source = TempSource::new(100);
    let done = source.fresh_label().unwrap();
    let (stms, value) = parts(while_loop(temp(20), temp(21), done, &mut source).unwrap());
    assert_eq!(value, Exp::Const(0));
    assert_eq!(
        stms,
        vec![
            Stm::Label(Label::Num(1)),
            Stm::CJump(RelOp::NotEqual, temp(20), Exp::Const(0), Label::Num(2), done),
            Stm::Label(Label::Num(2)),
            Stm::Exp(temp(21)),
            jump(1),
            Stm::Label(done),
        ]
    );
    let variable = Access::InFrame(-16);
    let (stms, _) =
        parts(for_loop(variable, Exp::Const(1), Exp::Const(5), temp(21), done, &mut source).unwrap());
    let i = || word(temp(6), -16);
    assert_eq!(
        stms,
        vec![
            Stm::Move(i(), Exp::Const(1)),
            Stm::Move(temp(100), Exp::Const(5)),
            Stm::CJump(RelOp::LesserOrEqual, i(), temp(100), Label::Num(3), done),
            Stm::Label(Label::Num(3)),
            Stm::Exp(temp(21)),
            Stm::CJump(RelOp::LesserThan, i(), temp(100), Label::Num(4), done),
            Stm::Label(Label::Num(4)),
            Stm::Move(i(), Exp::BinOp(BinOp::Plus, Box::new(i()), Box::new(Exp::Const(1)))),
            jump(3),
            Stm::Label(done),
        ]
    );
}

#[test]
fn a_record_is_allocated_and_filled() {
    let mut source = TempSource::new(100);
    let allocation = || external_call(Label::Named(0), list(vec![Exp::Name(Label::Num(7))]));
    let fields = vec![
        FieldInit { offset: 8, value: Exp::Const(1) },
        FieldInit { offset: 16, value: temp(20) },
    ];
    let (stms, value) = parts(record_creation(allocation(), fields, &mut source).unwrap());
    assert_eq!(value, temp(100));
    assert_eq!(
        stms,
        vec![
            Stm::Move(temp(100), allocation()),
            Stm::Move(word(temp(100), 8), Exp::Const(1)),
            Stm::Move(word(temp(100), 16), temp(20)),
        ]
    );
    let (stms, value) = parts(record_creation(allocation(), vec![], &mut source).unwrap());
    assert_eq!(value, temp(101));
    assert_eq!(stms, vec![Stm::Move(temp(101), allocation())]);
}

#[test]
fn the_elements_of_an_array_are_filled_one_by_one() {
    let mut source = TempSource::new(100);
    let record = || external_call(Label::Named(0), list(vec![Exp::Const(1)]));
    let (stms, value) =
        parts(array_filled(Label::Named(1), temp(20), record(), 16, &mut source).unwrap());
    assert_eq!(value, temp(100));
    let element = || subscript_var(temp(100), temp(102), 16);
    assert_eq!(
        stms,
        vec![
            Stm::Move(temp(101), temp(20)),
            Stm::Move(temp(100), array_creation(Label::Named(1), temp(101), 8)),
            Stm::Move(temp(102), Exp::Const(0)),
            Stm::CJump(RelOp::LesserThan, temp(102), temp(101), Label::Num(0), Label::Num(1)),
            Stm::Label(Label::Num(0)),
            Stm::Move(element(), record()),
            Stm::Move(temp(102), Exp::BinOp(BinOp::Plus, Box::new(temp(102)), Box::new(Exp::Const(1)))),
            Stm::CJump(RelOp::LesserThan, temp(102), temp(101), Label::Num(0), Label::Num(1)),
            Stm::Label(Label::Num(1)),
        ]
    );
    assert_eq!((source.peek_temp(), source.peek_label()), (103, 2));
}

#[test]
fn a_method_is_called_through_the_table_of_the_receiver() {
    let mut source = TempSource::new(100);
    let exp = method_call(temp(20), 8, 2, temp(6), list(vec![Exp::Const(3)]), &mut source).unwrap();
    assert_eq!(
        exp,
        Exp::ESeq(
            Box::new(Stm::Move(temp(100), temp(20))),
            Box::new(Exp::Call(
                Box::new(word(word(temp(100), 8), 16)),
                Box::new(list(vec![temp(6), temp(100), Exp::Const(3)])),
            )),
        )
    );
}

#[test]
fn identical_literals_share_a_label() {
    let mut source = TempSource::new(16);
    let mut literals = Literals::new();
    let hello = literals.label_for("hello\n", &mut source).unwrap();
    let bye = literals.label_for("bye", &mut source).unwrap();
    assert_eq!(literals.label_for("hello\n", &mut source), Some(hello));
    assert_ne!(hello, bye);
    assert_eq!(source.peek_label(), 2);
    assert_eq!(
        literals.fragments(),
        vec![Fragment::Str(hello, "hello\n".to_string()), Fragment::Str(bye, "bye".to_string())]
    );
}

#[test]
fn literals_fail_when_labels_run_out() {
    let mut source = TempSource::new(16);
    assert!(source.reserve(0, usize::MAX - 1).is_some());
    let mut literals = Literals::new();
    let last = literals.label_for("a", &mut source).unwrap();
    assert_eq!(last, Label::Num(usize::MAX - 1));
    assert_eq!(literals.label_for("b", &mut source), None);
    assert_eq!(literals.label_for("a", &mut source), Some(last));
    assert_eq!(literals.fragments().len(), 1);
    assert_eq!(source.reserve(0, 1), None);
    assert_eq!(source.reserve(usize::MAX, 0), None);
}

#[test]
fn a_let_with_arithmetic_is_compiled() {
    let mut names = Strings::new();
    let main = names.symbol("main");
    let printi = names.symbol("printi");
    let mut source = TempSource::new(16);
    let mut frame = Frame::new(Label::Named(main), &vec![true], &mut source).unwrap();
    let a = frame.alloc_local(false, &mut source).unwrap();
    let value = arithmetic(
        BinOp::Plus,
        int_literal(1),
        arithmetic(BinOp::Mul, int_literal(2), int_literal(3)),
    );
    let body = sequence(vec![
        assign(simple_var(a, 0), value),
        procedure_body(external_call(Label::Named(printi), list(vec![simple_var(a, 0)]))),
    ]);
    let fragment = FunctionFragment { body, frame, temp_map: vec![], escaping_vars: vec![] };
    let lines = lines(fragment, &mut source, &names);
    assert!(lines.iter().any(|line| line.starts_with("imul ")), "{:?}", lines);
    assert!(lines.iter().any(|line| line.starts_with("add ")), "{:?}", lines);
    let call = lines.iter().position(|line| line == "call printi").unwrap();
    assert!(lines[call - 1].ends_with(':'));
    assert!(lines.iter().all(|line| !line.contains("'d") && !line.contains("'s")));
}

#[test]
fn a_recursive_function_is_compiled() {
    let mut names = Strings::new();
    let fact = names.symbol("fact");
    let mut source = TempSource::new(16);
    let frame = Frame::new(Label::Named(fact), &vec![true, false], &mut source).unwrap();
    let n = frame.formals[1];
    let condition = relational(RelOp::LesserOrEqual, simple_var(n, 0), int_literal(1), &mut source).unwrap();
    let smaller = arithmetic(BinOp::Minus, simple_var(n, 0), int_literal(1));
    let recursion = call_function(Label::Named(fact), static_link(1), list(vec![smaller]));
    let product = arithmetic(BinOp::Mul, simple_var(n, 0), recursion);
    let value = if_then_else(condition, int_literal(1), product, &mut source).unwrap();
    let fragment = FunctionFragment { body: function_body(value), frame, temp_map: vec![], escaping_vars: vec![] };
    let compiled = compile_function(fragment, &mut source, &names).unwrap();
    let lines: Vec<String> =
        compiled.subroutine.body.iter().map(|instruction| instruction.to_string()).collect();
    assert!(lines.iter().any(|line| line == "call fact"), "{:?}", lines);
    assert!(lines.iter().any(|line| line.starts_with("imul ")), "{:?}", lines);
    assert_eq!(compiled.call_sites.len(), 1);
    for (index, line) in lines.iter().enumerate() {
        if line.starts_with("jle ") || line.starts_with("jg ") || line.starts_with("jne ") || line.starts_with("je ") {
            assert!(lines[index + 1].ends_with(':'), "{:?}", lines);
        }
    }
}

#[test]
fn a_counting_loop_is_compiled() {
    let mut names = Strings::new();
    let main = names.symbol("main");
    let print = names.symbol("print");
    let chr = names.symbol("chr");
    let ord = names.symbol("ord");
    let mut source = TempSource::new(16);
    let mut literals = Literals::new();
    let zero = literals.label_for("0", &mut source).unwrap();
    let mut frame = Frame::new(Label::Named(main), &vec![true], &mut source).unwrap();
    let i = frame.alloc_local(false, &mut source).unwrap();
    let done = source.fresh_label().unwrap();
    let digit = arithmetic(
        BinOp::Plus,
        external_call(Label::Named(ord), list(vec![string_literal(zero)])),
        simple_var(i, 0),
    );
    let body = external_call(
        Label::Named(print),
        list(vec![external_call(Label::Named(chr), list(vec![digit]))]),
    );
    let body = for_loop(i, int_literal(1), int_literal(5), body, done, &mut source).unwrap();
    let mut fragments = literals.fragments();
    fragments.push(Fragment::Function(FunctionFragment {
        body: procedure_body(body),
        frame,
        temp_map: vec![], escaping_vars: vec![],
    }));
    let (data, functions) = split_fragments(fragments);
    assert_eq!(data, vec![Data::Str(zero, "0".to_string())]);
    let layout = StringLayout { type_tag: 2, header_words: 2 };
    let externals = vec!["print".to_string(), "chr".to_string(), "ord".to_string()];
    let program = compile(&externals, &data, functions, layout, &mut source, &names).unwrap();
    for call in ["call ord", "call chr", "call print"] {
        assert!(program.text.contains(call), "{}", program.text);
    }
    assert_eq!(program.functions[0].call_sites.len(), 3);
    assert_eq!(program.text.matches("    dq __tiger_pointer_map_end\n").count(), 4);
    assert!(program.text.contains("db '0', 0\n"));
}

#[test]
fn a_record_that_lives_across_an_allocation_is_in_the_pointer_map() {
    let mut names = Strings::new();
    let main = names.symbol("main");
    let alloc_record = names.symbol("allocRecord");
    let alloc_array = names.symbol("allocArray");
    let mut source = TempSource::new(16);
    let mut frame = Frame::new(Label::Named(main), &vec![true], &mut source).unwrap();
    let record = match frame.alloc_local(false, &mut source).unwrap() {
        Access::InReg(temp) => temp,
        Access::InFrame(_) => panic!("a local that does not escape"),
    };
    let allocation = external_call(Label::Named(alloc_record), list(vec![Exp::Const(1)]));
    let created = record_creation(
        allocation,
        vec![FieldInit { offset: 8, value: int_literal(1) }],
        &mut source,
    )
    .unwrap();
    let pointer = match &created {
        Exp::ESeq(_, value) => match **value {
            Exp::Temp(temp) => temp,
            _ => panic!("the value of a record is a temporary"),
        },
        _ => panic!("a record is made by statements"),
    };
    let body = sequence(vec![
        assign(Exp::Temp(record), created),
        assign(field_var(Exp::Temp(record), 8), int_literal(2)),
        procedure_body(array_creation(Label::Named(alloc_array), int_literal(100000), 8)),
        function_body(field_var(Exp::Temp(record), 8)),
    ]);
    let fragment = FunctionFragment { body, frame, temp_map: vec![record, pointer], escaping_vars: vec![] };
    let compiled = compile_function(fragment, &mut source, &names).unwrap();
    let home = compiled.allocation.homes[record.num];
    assert_eq!(
        compiled.allocation.pointer_map,
        vec![
            CallSite { label: compiled.call_sites[0], pointers: vec![] },
            CallSite { label: compiled.call_sites[1], pointers: vec![home] },
        ]
    );
}

#[test]
fn a_virtual_call_goes_through_the_table() {
    let mut names = Strings::new();
    let main = names.symbol("main");
    let dog = names.symbol("Dog_vtable");
    let speak = names.symbol("Dog_speak");
    let mut source = TempSource::new(16);
    let frame = Frame::new(Label::Named(main), &vec![true], &mut source).unwrap();
    let call = method_call(temp(5), 0, 1, static_link(0), List::Nil, &mut source).unwrap();
    let fragments = vec![
        Fragment::VTable { class: Label::Named(dog), methods: vec![Label::Named(main), Label::Named(speak)] },
        Fragment::Function(FunctionFragment { body: procedure_body(call), frame, temp_map: vec![], escaping_vars: vec![] }),
    ];
    let (data, functions) = split_fragments(fragments);
    let layout = StringLayout { type_tag: 2, header_words: 2 };
    let program = compile(&vec![], &data, functions, layout, &mut source, &names).unwrap();
    assert!(program.text.contains("Dog_vtable:\n    dq main\n    dq Dog_speak\n"));
    let lines: Vec<&str> = program.text.lines().map(str::trim).collect();
    let call = lines.iter().position(|line| line.starts_with("call ")).unwrap();
    assert!(lines[call].starts_with("call r"), "{}", lines[call]);
    assert!(lines[..call].iter().any(|line| line.ends_with("+ 8]")), "{:?}", lines);
    assert!(lines[..call].iter().any(|line| line.ends_with("+ 0]")), "{:?}", lines);
}
