use tiger::blocks::basic_blocks;
use tiger::canon::linearize;
use tiger::ir::{BinOp, Exp, List, RelOp, Stm};
use tiger::temp::{Label, Temp, TempSource};
use tiger::trace::{negate, trace_schedule};

fn temp(num: usize) -> Exp {
    Exp::Temp(Temp { num })
}

fn name(num: usize) -> Exp {
    Exp::Name(Label::Num(num))
}

fn list<T>(items: Vec<T>) -> List<T> {
    let mut list = List::Nil;
    for item in items.into_iter().rev() {
        list = List::Cons(item, Box::new(list));
    }
    list
}

fn call(function: usize, arguments: Vec<Exp>) -> Exp {
    Exp::Call(Box::new(name(function)), Box::new(list(arguments)))
}

fn jump(num: usize) -> Stm {
    Stm::Jump(name(num), list(vec![Label::Num(num)]))
}

fn label(num: usize) -> Stm {
    Stm::Label(Label::Num(num))
}

fn has_eseq_or_nested_call(exp: &Exp) -> bool {
    match exp {
        Exp::Const(_) | Exp::Name(_) | Exp::Temp(_) => false,
        Exp::BinOp(_, left, right) => has_eseq_or_nested_call(left) || has_eseq_or_nested_call(right),
        Exp::Mem(address) => has_eseq_or_nested_call(address),
        Exp::Call(_, _) => true,
        Exp::ESeq(_, _) => true,
    }
}

fn flat_call_or_pure(exp: &Exp) -> bool {
    match exp {
        Exp::Call(function, arguments) => {
            let mut pure = !has_eseq_or_nested_call(function);
            let mut rest: &List<Exp> = arguments;
            while let List::Cons(head, tail) = rest {
                pure = pure && !has_eseq_or_nested_call(head);
                rest = tail;
            }
            pure
        }
        other => !has_eseq_or_nested_call(other),
    }
}

fn canonical(stm: &Stm) -> bool {
    match stm {
        Stm::Move(destination, source) => !has_eseq_or_nested_call(destination) && flat_call_or_pure(source),
        Stm::Exp(exp) => flat_call_or_pure(exp),
        Stm::Jump(target, _) => !has_eseq_or_nested_call(target),
        Stm::CJump(_, left, right, _, _) => !has_eseq_or_nested_call(left) && !has_eseq_or_nested_call(right),
        Stm::Sequence(_, _) => false,
        Stm::Label(_) => true,
    }
}

#[test]
fn linearize_drops_a_constant_statement() {
    let mut source = TempSource::new(100);
    assert_eq!(linearize(Stm::Exp(Exp::Const(0)), &mut source), Some(vec![]));
    assert_eq!(source.peek_temp(), 100);
}

#[test]
fn linearize_flattens_sequences() {
    let mut source = TempSource::new(100);
    let stm = Stm::Sequence(
        Box::new(Stm::Sequence(Box::new(label(1)), Box::new(Stm::Move(temp(20), Exp::Const(1))))),
        Box::new(jump(1)),
    );
    assert_eq!(
        linearize(stm, &mut source),
        Some(vec![label(1), Stm::Move(temp(20), Exp::Const(1)), jump(1)])
    );
}

#[test]
fn linearize_lifts_the_statement_of_an_eseq() {
    let mut source = TempSource::new(100);
    let stm = Stm::Move(
        temp(20),
        Exp::ESeq(Box::new(Stm::Move(temp(21), Exp::Const(1))), Box::new(temp(21))),
    );
    assert_eq!(
        linearize(stm, &mut source),
        Some(vec![Stm::Move(temp(21), Exp::Const(1)), Stm::Move(temp(20), temp(21))])
    );
    assert_eq!(source.peek_temp(), 100);
}

#[test]
fn linearize_keeps_a_call_that_is_the_source_of_a_move() {
    let mut source = TempSource::new(100);
    let stm = || Stm::Move(temp(20), call(7, vec![Exp::Const(1), temp(21)]));
    assert_eq!(linearize(stm(), &mut source), Some(vec![stm()]));
    let mut source = TempSource::new(100);
    let stm = || Stm::Exp(call(7, vec![]));
    assert_eq!(linearize(stm(), &mut source), Some(vec![stm()]));
}

#[test]
fn linearize_moves_nested_calls_into_fresh_temporaries() {
    let mut source = TempSource::new(100);
    let stm = Stm::Move(
        temp(20),
        Exp::BinOp(BinOp::Plus, Box::new(call(7, vec![])), Box::new(call(8, vec![]))),
    );
    assert_eq!(
        linearize(stm, &mut source),
        Some(vec![
            Stm::Move(temp(100), call(7, vec![])),
            Stm::Move(temp(102), temp(100)),
            Stm::Move(temp(101), call(8, vec![])),
            Stm::Move(
                temp(20),
                Exp::BinOp(BinOp::Plus, Box::new(temp(102)), Box::new(temp(101)))
            ),
        ])
    );
    assert_eq!(source.peek_temp(), 103);
}

#[test]
fn linearize_does_not_save_a_constant_operand() {
    let mut source = TempSource::new(100);
    let stm = Stm::Move(
        Exp::Mem(Box::new(Exp::Const(8))),
        Exp::ESeq(Box::new(Stm::Move(temp(21), Exp::Const(1))), Box::new(temp(21))),
    );
    assert_eq!(
        linearize(stm, &mut source),
        Some(vec![
            Stm::Move(temp(21), Exp::Const(1)),
            Stm::Move(Exp::Mem(Box::new(Exp::Const(8))), temp(21)),
        ])
    );
    assert_eq!(source.peek_temp(), 100);
}

#[test]
fn linearize_handles_an_eseq_that_ends_in_a_call() {
    let mut source = TempSource::new(100);
    let stm = Stm::CJump(
        RelOp::Equal,
        Exp::ESeq(Box::new(label(3)), Box::new(call(7, vec![]))),
        Exp::Const(0),
        Label::Num(1),
        Label::Num(2),
    );
    let result = linearize(stm, &mut source).unwrap();
    assert_eq!(
        result,
        vec![
            label(3),
            Stm::Move(temp(100), call(7, vec![])),
            Stm::CJump(RelOp::Equal, temp(100), Exp::Const(0), Label::Num(1), Label::Num(2)),
        ]
    );
    assert!(result.iter().all(canonical));
}

#[test]
fn linearize_result_is_canonical() {
    let mut source = TempSource::new(100);
    let inner = || {
        Exp::ESeq(
            Box::new(Stm::Exp(call(1, vec![call(2, vec![temp(30)])]))),
            Box::new(Exp::Mem(Box::new(call(3, vec![])))),
        )
    };
    let stm = Stm::Sequence(
        Box::new(Stm::Move(Exp::ESeq(Box::new(label(9)), Box::new(Exp::Mem(Box::new(inner())))), inner())),
        Box::new(Stm::Jump(call(4, vec![]), list(vec![Label::Num(9)]))),
    );
    let result = linearize(stm, &mut source).unwrap();
    assert!(!result.is_empty());
    assert!(result.iter().all(canonical));
}

#[test]
fn linearize_fails_when_temporaries_run_out() {
    let mut source = TempSource::new(usize::MAX);
    let stm = Stm::Move(temp(20), Exp::Mem(Box::new(call(7, vec![]))));
    assert_eq!(linearize(stm, &mut source), None);
    let mut source = TempSource::new(usize::MAX);
    assert_eq!(linearize(label(1), &mut source), Some(vec![label(1)]));
}

#[test]
fn basic_blocks_of_nothing() {
    let mut source = TempSource::new(100);
    let (blocks, done) = basic_blocks(vec![], &mut source).unwrap();
    assert_eq!(blocks, Vec::<Vec<Stm>>::new());
    assert_eq!(done, Label::Num(0));
    assert_eq!(source.peek_label(), 1);
}

#[test]
fn basic_blocks_adds_labels_and_jumps() {
    let mut source = TempSource::new(100);
    source.fresh_label();
    source.fresh_label();
    let stms = vec![
        Stm::Move(temp(20), Exp::Const(1)),
        Stm::Label(Label::Named(5)),
        Stm::CJump(RelOp::LesserThan, temp(20), Exp::Const(9), Label::Named(5), Label::Named(6)),
        Stm::Move(temp(20), Exp::Const(2)),
        Stm::Label(Label::Named(6)),
    ];
    let (blocks, done) = basic_blocks(stms, &mut source).unwrap();
    assert_eq!(done, Label::Num(2));
    assert_eq!(
        blocks,
        vec![
            vec![
                label(3),
                Stm::Move(temp(20), Exp::Const(1)),
                Stm::Jump(Exp::Name(Label::Named(5)), list(vec![Label::Named(5)])),
            ],
            vec![
                Stm::Label(Label::Named(5)),
                Stm::CJump(RelOp::LesserThan, temp(20), Exp::Const(9), Label::Named(5), Label::Named(6)),
            ],
            vec![
                label(4),
                Stm::Move(temp(20), Exp::Const(2)),
                Stm::Jump(Exp::Name(Label::Named(6)), list(vec![Label::Named(6)])),
            ],
            vec![Stm::Label(Label::Named(6)), jump(2)],
        ]
    );
    assert_eq!(source.peek_label(), 5);
    for block in &blocks {
        assert!(matches!(block[0], Stm::Label(_)));
        let transfers = block.iter().filter(|stm| matches!(stm, Stm::Jump(_, _) | Stm::CJump(_, _, _, _, _))).count();
        assert_eq!(transfers, 1);
        assert!(matches!(block[block.len() - 1], Stm::Jump(_, _) | Stm::CJump(_, _, _, _, _)));
    }
}

#[test]
fn basic_blocks_fails_when_labels_run_out() {
    let mut source = TempSource::new(100);
    while source.peek_label() < 3 {
        source.fresh_label();
    }
    let result = basic_blocks(vec![label(1), jump(1)], &mut source);
    assert!(result.is_some());
}

#[test]
fn negate_turns_every_comparison_round() {
    let pairs = [
        (RelOp::Equal, RelOp::NotEqual),
        (RelOp::LesserThan, RelOp::GreaterOrEqual),
        (RelOp::GreaterThan, RelOp::LesserOrEqual),
        (RelOp::UnsignedLesserThan, RelOp::UnsignedGreaterOrEqual),
        (RelOp::UnsignedGreaterThan, RelOp::UnsignedLesserOrEqual),
    ];
    for (op, opposite) in pairs {
        assert_eq!(negate(op), opposite);
        assert_eq!(negate(opposite), op);
    }
}

#[test]
fn trace_schedule_drops_a_jump_to_the_next_block() {
    let mut source = TempSource::new(100);
    let blocks = vec![
        vec![label(1), Stm::Move(temp(20), Exp::Const(1)), jump(2)],
        vec![label(3), jump(9)],
        vec![label(2), jump(3)],
    ];
    let result = trace_schedule(blocks, Label::Num(9), &mut source).unwrap();
    assert_eq!(
        result,
        vec![label(1), Stm::Move(temp(20), Exp::Const(1)), label(2), label(3), jump(9), label(9)]
    );
}

#[test]
fn trace_schedule_follows_the_false_branch() {
    let mut source = TempSource::new(100);
    let cjump = || Stm::CJump(RelOp::Equal, temp(20), Exp::Const(0), Label::Num(2), Label::Num(3));
    let blocks = vec![
        vec![label(1), cjump()],
        vec![label(2), jump(9)],
        vec![label(3), jump(9)],
    ];
    let result = trace_schedule(blocks, Label::Num(9), &mut source).unwrap();
    assert_eq!(result, vec![label(1), cjump(), label(3), jump(9), label(2), jump(9), label(9)]);
}

#[test]
fn trace_schedule_negates_when_only_the_true_branch_is_free() {
    let mut source = TempSource::new(100);
    let blocks = vec![
        vec![label(3), jump(1)],
        vec![
            label(1),
            Stm::CJump(RelOp::LesserThan, temp(20), Exp::Const(0), Label::Num(2), Label::Num(3)),
        ],
        vec![label(2), jump(9)],
    ];
    let result = trace_schedule(blocks, Label::Num(9), &mut source).unwrap();
    assert_eq!(
        result,
        vec![
            label(3),
            label(1),
            Stm::CJump(RelOp::GreaterOrEqual, temp(20), Exp::Const(0), Label::Num(3), Label::Num(2)),
            label(2),
            jump(9),
            label(9),
        ]
    );
}

#[test]
fn trace_schedule_adds_a_trampoline_when_no_branch_is_free() {
    let mut source = TempSource::new(100);
    for _ in 0..10 {
        source.fresh_label();
    }
    let blocks = vec![
        vec![label(1), jump(2)],
        vec![
            label(2),
            Stm::CJump(RelOp::Equal, temp(20), Exp::Const(0), Label::Num(1), Label::Num(2)),
        ],
    ];
    let result = trace_schedule(blocks, Label::Num(9), &mut source).unwrap();
    assert_eq!(
        result,
        vec![
            label(1),
            label(2),
            Stm::CJump(RelOp::Equal, temp(20), Exp::Const(0), Label::Num(1), Label::Num(10)),
            label(10),
            jump(2),
            label(9),
        ]
    );
    assert_eq!(source.peek_label(), 11);
}

#[test]
fn every_conditional_jump_is_followed_by_its_false_label() {
    let mut source = TempSource::new(100);
    let stms = vec![
        label(1),
        Stm::CJump(RelOp::Equal, temp(20), Exp::Const(0), Label::Num(2), Label::Num(3)),
        label(2),
        Stm::CJump(RelOp::Equal, temp(21), Exp::Const(0), Label::Num(1), Label::Num(3)),
        label(3),
        Stm::CJump(RelOp::Equal, temp(22), Exp::Const(0), Label::Num(1), Label::Num(2)),
    ];
    for _ in 0..20 {
        source.fresh_label();
    }
    let (blocks, done) = basic_blocks(stms, &mut source).unwrap();
    let result = trace_schedule(blocks, done, &mut source).unwrap();
    let mut jumps = 0;
    for (index, stm) in result.iter().enumerate() {
        if let Stm::CJump(_, _, _, _, if_false) = stm {
            jumps += 1;
            assert_eq!(result[index + 1], Stm::Label(*if_false));
        }
    }
    assert_eq!(jumps, 3);
    assert_eq!(result[result.len() - 1], Stm::Label(done));
}
