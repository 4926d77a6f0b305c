use tiger::assembly::Instruction;
use tiger::gen::{as_immediate, split_displaced, Gen, GenError};
use tiger::ir::{BinOp, Exp, List, RelOp, Stm};
use tiger::symbol::Strings;
use tiger::temp::{Label, Temp, TempSource};

fn temp(num: usize) -> Exp {
    Exp::Temp(Temp { num })
}

fn temps(nums: &[usize]) -> Vec<Temp> {
    nums.iter().map(|&num| Temp { num }).collect()
}

fn list<T>(items: Vec<T>) -> List<T> {
    let mut list = List::Nil;
    for item in items.into_iter().rev() {
        list = List::Cons(item, Box::new(list));
    }
    list
}

fn binop(op: BinOp, left: Exp, right: Exp) -> Exp {
    Exp::BinOp(op, Box::new(left), Box::new(right))
}

fn oper(assembly: &str, destination: &[usize], source: &[usize]) -> Instruction {
    Instruction::Oper {
        assembly: assembly.to_string(),
        destination: temps(destination),
        source: temps(source),
        jump: None,
    }
}

fn jump(assembly: &str, source: &[usize], labels: Vec<Label>) -> Instruction {
    Instruction::Oper {
        assembly: assembly.to_string(),
        destination: vec![],
        source: temps(source),
        jump: Some(labels),
    }
}

fn mv(destination: usize, source: usize) -> Instruction {
    Instruction::Move {
        assembly: "mov 'd0, 's0".to_string(),
        destination: Temp { num: destination },
        source: Temp { num: source },
    }
}

fn names() -> Strings {
    let mut names = Strings::new();
    names.symbol("main");
    names.symbol("print");
    names
}

fn expression(exp: Exp) -> (Result<Temp, GenError>, Vec<Instruction>, usize) {
    let mut gen = Gen::new();
    let mut source = TempSource::new(100);
    let result = gen.munch_expression(&exp, &mut source, &names());
    (result, gen.get_result(), source.peek_temp())
}

fn statement(stm: Stm) -> (Result<(), GenError>, Vec<Instruction>, Vec<Label>) {
    let mut gen = Gen::new();
    let mut source = TempSource::new(100);
    let result = gen.munch_statement(&stm, &mut source, &names());
    let sites = gen.call_sites.clone();
    (result, gen.get_result(), sites)
}

const CLOBBERED: [usize; 9] = [0, 2, 3, 4, 5, 8, 9, 10, 11];

#[test]
fn a_temporary_needs_no_instruction() {
    assert_eq!(expression(temp(20)), (Ok(Temp { num: 20 }), vec![], 100));
}

#[test]
fn constants_and_labels_are_loaded() {
    assert_eq!(
        expression(Exp::Const(-5)),
        (Ok(Temp { num: 100 }), vec![oper("mov 'd0, -5", &[100], &[])], 101)
    );
    assert_eq!(
        expression(Exp::Name(Label::Named(1))),
        (Ok(Temp { num: 100 }), vec![oper("mov 'd0, print", &[100], &[])], 101)
    );
    assert_eq!(
        expression(Exp::Name(Label::Num(7))),
        (Ok(Temp { num: 100 }), vec![oper("mov 'd0, l7", &[100], &[])], 101)
    );
}

#[test]
fn an_unknown_name_is_refused() {
    let (result, _, _) = expression(Exp::Name(Label::Named(9)));
    assert_eq!(result, Err(GenError::UnknownLabel(Label::Named(9))));
}

#[test]
fn a_small_constant_on_the_right_is_an_immediate() {
    assert_eq!(
        expression(binop(BinOp::Plus, temp(20), Exp::Const(3))),
        (Ok(Temp { num: 100 }), vec![mv(100, 20), oper("add 'd0, 3", &[100], &[100])], 101)
    );
    assert_eq!(
        expression(binop(BinOp::Xor, temp(20), Exp::Const(-1))),
        (Ok(Temp { num: 100 }), vec![mv(100, 20), oper("xor 'd0, -1", &[100], &[100])], 101)
    );
}

#[test]
fn a_large_constant_is_loaded_first() {
    assert_eq!(
        expression(binop(BinOp::Minus, temp(20), Exp::Const(1 << 40))),
        (
            Ok(Temp { num: 101 }),
            vec![
                oper("mov 'd0, 1099511627776", &[100], &[]),
                mv(101, 20),
                oper("sub 'd0, 's1", &[101], &[101, 100]),
            ],
            102
        )
    );
}

#[test]
fn operations_on_two_temporaries() {
    for (op, name) in [
        (BinOp::Plus, "add"),
        (BinOp::Minus, "sub"),
        (BinOp::And, "and"),
        (BinOp::Or, "or"),
        (BinOp::Xor, "xor"),
        (BinOp::Mul, "imul"),
    ] {
        assert_eq!(
            expression(binop(op, temp(20), temp(21))),
            (
                Ok(Temp { num: 100 }),
                vec![mv(100, 20), oper(&format!("{} 'd0, 's1", name), &[100], &[100, 21])],
                101
            )
        );
    }
}

#[test]
fn multiplication_takes_no_immediate() {
    assert_eq!(
        expression(binop(BinOp::Mul, temp(20), Exp::Const(3))),
        (
            Ok(Temp { num: 101 }),
            vec![oper("mov 'd0, 3", &[100], &[]), mv(101, 20), oper("imul 'd0, 's1", &[101], &[101, 100])],
            102
        )
    );
}

#[test]
fn division_goes_through_rax_and_rdx() {
    assert_eq!(
        expression(binop(BinOp::Div, temp(20), temp(21))),
        (
            Ok(Temp { num: 100 }),
            vec![
                mv(0, 20),
                oper("cqo", &[3], &[0]),
                oper("idiv 's2", &[0, 3], &[0, 3, 21]),
                mv(100, 0),
            ],
            101
        )
    );
}

#[test]
fn shifts_take_their_count_from_rcx() {
    for (op, name) in [
        (BinOp::ShiftLeft, "shl"),
        (BinOp::ShiftRight, "shr"),
        (BinOp::ArithmeticShiftRight, "sar"),
    ] {
        assert_eq!(
            expression(binop(op, temp(20), temp(21))),
            (
                Ok(Temp { num: 100 }),
                vec![mv(100, 20), mv(2, 21), oper(&format!("{} 'd0, cl", name), &[100], &[100, 2])],
                101
            )
        );
    }
}

#[test]
fn memory_at_a_base_plus_a_small_constant_is_one_load() {
    assert_eq!(
        expression(Exp::Mem(Box::new(binop(BinOp::Plus, temp(20), Exp::Const(16))))),
        (Ok(Temp { num: 100 }), vec![oper("mov 'd0, ['s0 + 16]", &[100], &[20])], 101)
    );
    assert_eq!(
        expression(Exp::Mem(Box::new(temp(20)))),
        (Ok(Temp { num: 100 }), vec![oper("mov 'd0, ['s0]", &[100], &[20])], 101)
    );
    assert_eq!(
        expression(Exp::Mem(Box::new(binop(BinOp::Minus, temp(20), Exp::Const(16))))),
        (
            Ok(Temp { num: 101 }),
            vec![
                mv(100, 20),
                oper("sub 'd0, 16", &[100], &[100]),
                oper("mov 'd0, ['s0]", &[101], &[100]),
            ],
            102
        )
    );
}

#[test]
fn displacement_and_immediate_must_fit_in_32_bits() {
    let small = binop(BinOp::Plus, temp(20), Exp::Const(0x7fff_ffff));
    assert_eq!(split_displaced(&small), Some((&temp(20), 0x7fff_ffff)));
    let large = binop(BinOp::Plus, temp(20), Exp::Const(0x8000_0000));
    assert_eq!(split_displaced(&large), None);
    assert_eq!(split_displaced(&temp(20)), None);
    assert_eq!(as_immediate(&Exp::Const(-0x8000_0000)), Some(-0x8000_0000));
    assert_eq!(as_immediate(&Exp::Const(-0x8000_0001)), None);
    assert_eq!(as_immediate(&temp(1)), None);
}

#[test]
fn calls_and_eseq_are_no_operands() {
    let call = Exp::Call(Box::new(Exp::Name(Label::Num(1))), Box::new(List::Nil));
    assert_eq!(expression(binop(BinOp::Plus, call, temp(1))).0, Err(GenError::Malformed));
    let eseq = Exp::ESeq(Box::new(Stm::Label(Label::Num(1))), Box::new(temp(1)));
    assert_eq!(expression(eseq).0, Err(GenError::Malformed));
}

#[test]
fn expression_fails_when_temporaries_run_out() {
    let mut gen = Gen::new();
    let mut source = TempSource::new(usize::MAX);
    assert_eq!(
        gen.munch_expression(&Exp::Const(1), &mut source, &names()),
        Err(GenError::OutOfTemps)
    );
    assert_eq!(gen.munch_expression(&temp(3), &mut source, &names()), Ok(Temp { num: 3 }));
}

#[test]
fn labels_and_jumps() {
    assert_eq!(
        statement(Stm::Label(Label::Named(0))).1,
        vec![Instruction::Label { assembly: "main:".to_string(), label: Label::Named(0) }]
    );
    assert_eq!(
        statement(Stm::Jump(Exp::Name(Label::Num(4)), list(vec![Label::Num(4)]))).1,
        vec![jump("jmp l4", &[], vec![Label::Num(4)])]
    );
    assert_eq!(
        statement(Stm::Jump(temp(20), list(vec![Label::Num(4), Label::Num(5)]))).1,
        vec![jump("jmp 's0", &[20], vec![Label::Num(4), Label::Num(5)])]
    );
    assert_eq!(
        statement(Stm::Label(Label::Named(7))).0,
        Err(GenError::UnknownLabel(Label::Named(7)))
    );
}

#[test]
fn a_conditional_jump_compares_and_jumps_to_the_true_label() {
    let ops = [
        (RelOp::Equal, "je"),
        (RelOp::NotEqual, "jne"),
        (RelOp::LesserThan, "jl"),
        (RelOp::GreaterThan, "jg"),
        (RelOp::LesserOrEqual, "jle"),
        (RelOp::GreaterOrEqual, "jge"),
        (RelOp::UnsignedLesserThan, "jb"),
        (RelOp::UnsignedLesserOrEqual, "jbe"),
        (RelOp::UnsignedGreaterThan, "ja"),
        (RelOp::UnsignedGreaterOrEqual, "jae"),
    ];
    for (op, name) in ops {
        let stm = Stm::CJump(op, temp(20), Exp::Const(0), Label::Num(1), Label::Num(2));
        assert_eq!(
            statement(stm).1,
            vec![
                oper("mov 'd0, 0", &[100], &[]),
                oper("cmp 's0, 's1", &[], &[20, 100]),
                jump(&format!("{} l1", name), &[], vec![Label::Num(1), Label::Num(2)]),
            ]
        );
    }
}

#[test]
fn moves_and_stores() {
    assert_eq!(statement(Stm::Move(temp(20), temp(21))).1, vec![mv(20, 21)]);
    assert_eq!(
        statement(Stm::Move(temp(20), Exp::Const(1))).1,
        vec![oper("mov 'd0, 1", &[100], &[]), mv(20, 100)]
    );
    assert_eq!(
        statement(Stm::Move(
            Exp::Mem(Box::new(binop(BinOp::Plus, temp(6), Exp::Const(-8)))),
            temp(5)
        ))
        .1,
        vec![oper("mov ['s0 + -8], 's1", &[], &[6, 5])]
    );
    assert_eq!(
        statement(Stm::Move(Exp::Mem(Box::new(temp(20))), temp(21))).1,
        vec![oper("mov ['s0], 's1", &[], &[20, 21])]
    );
    assert_eq!(statement(Stm::Move(Exp::Const(1), temp(21))).0, Err(GenError::Malformed));
    assert_eq!(
        statement(Stm::Sequence(
            Box::new(Stm::Label(Label::Num(1))),
            Box::new(Stm::Label(Label::Num(2)))
        ))
        .0,
        Err(GenError::Malformed)
    );
}

#[test]
fn an_expression_statement_computes_and_forgets() {
    assert_eq!(
        statement(Stm::Exp(Exp::Mem(Box::new(temp(20))))),
        (Ok(()), vec![oper("mov 'd0, ['s0]", &[100], &[20])], vec![])
    );
}

#[test]
fn a_call_passes_its_arguments_in_registers() {
    let call = Exp::Call(
        Box::new(Exp::Name(Label::Named(1))),
        Box::new(list(vec![temp(20), Exp::Const(2)])),
    );
    assert_eq!(
        statement(Stm::Move(temp(30), call)),
        (
            Ok(()),
            vec![
                oper("mov 'd0, 2", &[100], &[]),
                mv(5, 20),
                mv(4, 100),
                Instruction::Label { assembly: "l0:".to_string(), label: Label::Num(0) },
                oper("call print", &CLOBBERED, &[5, 4]),
                mv(30, 0),
            ],
            vec![Label::Num(0)]
        )
    );
}

#[test]
fn a_call_through_a_temporary() {
    let call = Exp::Call(Box::new(temp(40)), Box::new(list(vec![temp(20)])));
    assert_eq!(
        statement(Stm::Exp(call)).1,
        vec![
            mv(5, 20),
            Instruction::Label { assembly: "l0:".to_string(), label: Label::Num(0) },
            oper("call 's0", &CLOBBERED, &[40, 5]),
        ]
    );
}

#[test]
fn a_call_pushes_the_arguments_after_the_sixth() {
    let arguments: Vec<Exp> = (20..28).map(temp).collect();
    let call = Exp::Call(Box::new(Exp::Name(Label::Num(9))), Box::new(list(arguments)));
    assert_eq!(
        statement(Stm::Exp(call)).1,
        vec![
            oper("push 's0", &[], &[27]),
            oper("push 's0", &[], &[26]),
            mv(5, 20),
            mv(4, 21),
            mv(3, 22),
            mv(2, 23),
            mv(8, 24),
            mv(9, 25),
            Instruction::Label { assembly: "l0:".to_string(), label: Label::Num(0) },
            oper("call l9", &CLOBBERED, &[5, 4, 3, 2, 8, 9]),
            oper("add rsp, 16", &[], &[]),
        ]
    );
}

#[test]
fn an_odd_number_of_pushed_arguments_is_padded() {
    let arguments: Vec<Exp> = (20..27).map(temp).collect();
    let call = Exp::Call(Box::new(Exp::Name(Label::Num(9))), Box::new(list(arguments)));
    let (result, instructions, sites) = statement(Stm::Exp(call));
    assert_eq!(result, Ok(()));
    assert_eq!(sites, vec![Label::Num(0)]);
    assert_eq!(instructions[0], oper("sub rsp, 8", &[], &[]));
    assert_eq!(instructions[1], oper("push 's0", &[], &[26]));
    assert_eq!(instructions[instructions.len() - 1], oper("add rsp, 16", &[], &[]));
    assert_eq!(instructions.len(), 11);
}

#[test]
fn statements_one_after_the_other() {
    let mut gen = Gen::new();
    let mut source = TempSource::new(100);
    let stms = vec![
        Stm::Label(Label::Num(1)),
        Stm::Move(temp(20), temp(21)),
        Stm::Label(Label::Named(5)),
        Stm::Move(temp(22), temp(23)),
    ];
    assert_eq!(
        gen.munch_statements(&stms, &mut source, &names()),
        Err(GenError::UnknownLabel(Label::Named(5)))
    );
    let mut gen = Gen::new();
    assert_eq!(gen.munch_statements(&stms[..2].iter().map(|stm| match stm {
        Stm::Label(label) => Stm::Label(*label),
        _ => Stm::Move(temp(20), temp(21)),
    }).collect(), &mut source, &names()), Ok(()));
    assert_eq!(
        gen.get_result(),
        vec![Instruction::Label { assembly: "l1:".to_string(), label: Label::Num(1) }, mv(20, 21)]
    );
}

#[test]
fn a_call_fails_when_labels_run_out() {
    let mut gen = Gen::new();
    let mut source = TempSource::new(100);
    assert!(source.reserve(0, usize::MAX).is_some());
    let call = Exp::Call(Box::new(Exp::Name(Label::Num(9))), Box::new(List::Nil));
    assert_eq!(
        gen.munch_statement(&Stm::Exp(call), &mut source, &names()),
        Err(GenError::OutOfLabels)
    );
}
