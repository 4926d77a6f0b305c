use tiger::assembly::{fill, Instruction};
use tiger::frame::{
    argument_registers, callee_saved_registers, caller_saved_registers, push_temp, register_name,
    Access, Frame,
};
use tiger::symbol::Strings;
use tiger::temp::{are_labels_known, is_label_known, push_label, Label, Temp, TempSource};
use tiger::text::{chars_of, push_decimal, push_signed_decimal};

fn decimal(n: u64) -> String {
    let mut text = String::new();
    push_decimal(&mut text, n);
    text
}

fn signed(i: i64) -> String {
    let mut text = String::new();
    push_signed_decimal(&mut text, i);
    text
}

#[test]
fn decimal_numerals() {
    assert_eq!(decimal(0), "0");
    assert_eq!(decimal(7), "7");
    assert_eq!(decimal(10), "10");
    assert_eq!(decimal(3628800), "3628800");
    assert_eq!(decimal(u64::MAX), "18446744073709551615");
}

#[test]
fn signed_decimal_numerals() {
    assert_eq!(signed(0), "0");
    assert_eq!(signed(-16), "-16");
    assert_eq!(signed(42), "42");
    assert_eq!(signed(i64::MIN), "-9223372036854775808");
    assert_eq!(signed(i64::MAX), "9223372036854775807");
}

#[test]
fn push_decimal_appends() {
    let mut text = "x = ".to_string();
    push_decimal(&mut text, 12);
    assert_eq!(text, "x = 12");
}

#[test]
fn chars_of_a_string() {
    assert_eq!(chars_of("aé\n"), vec!['a', 'é', '\n']);
    assert_eq!(chars_of(""), Vec::<char>::new());
}

#[test]
fn interning_gives_each_name_one_symbol() {
    let mut strings = Strings::new();
    assert_eq!(strings.len(), 0);
    let main = strings.symbol("main");
    let this = strings.symbol("self");
    assert_eq!(strings.symbol("main"), main);
    assert_ne!(main, this);
    assert_eq!(strings.len(), 2);
    assert_eq!(strings.name(main), Some("main"));
    assert_eq!(strings.name(this), Some("self"));
    assert_eq!(strings.name(2), None);
    assert_eq!(strings.find("self"), Some(this));
    assert_eq!(strings.find("Object"), None);
}

#[test]
fn fresh_temporaries_and_labels_count_up() {
    let mut source = TempSource::new(16);
    assert_eq!(source.fresh_temp(), Some(Temp { num: 16 }));
    assert_eq!(source.fresh_temp(), Some(Temp { num: 17 }));
    assert_eq!(source.fresh_label(), Some(Label::Num(0)));
    assert_eq!(source.fresh_label(), Some(Label::Num(1)));
    assert_eq!(source.peek_temp(), 18);
    assert_eq!(source.peek_label(), 2);
}

#[test]
fn a_source_at_its_end_gives_nothing() {
    let mut source = TempSource::new(usize::MAX);
    assert_eq!(source.fresh_temp(), None);
    assert_eq!(source.peek_temp(), usize::MAX);
}

#[test]
fn label_text() {
    let mut strings = Strings::new();
    let main = strings.symbol("main");
    let mut text = String::new();
    push_label(&mut text, Label::Named(main), &strings);
    text.push(' ');
    push_label(&mut text, Label::Num(12), &strings);
    assert_eq!(text, "main l12");
    assert!(is_label_known(Label::Named(main), &strings));
    assert!(!is_label_known(Label::Named(main + 1), &strings));
    assert!(is_label_known(Label::Num(99), &strings));
    assert!(are_labels_known(&vec![Label::Num(1), Label::Named(main)], &strings));
    assert!(!are_labels_known(&vec![Label::Num(1), Label::Named(5)], &strings));
}

#[test]
fn register_names() {
    let names = [
        "rax", "rbx", "rcx", "rdx", "rsi", "rdi", "rbp", "rsp", "r8", "r9", "r10", "r11", "r12",
        "r13", "r14", "r15",
    ];
    for (num, name) in names.iter().enumerate() {
        assert_eq!(register_name(Temp { num }), Some(*name));
    }
    assert_eq!(register_name(Temp { num: 16 }), None);
    let mut text = String::new();
    push_temp(&mut text, Temp { num: 9 });
    text.push(',');
    push_temp(&mut text, Temp { num: 123 });
    assert_eq!(text, "r9,t123");
}

#[test]
fn register_sets() {
    let nums = |temps: Vec<Temp>| temps.iter().map(|temp| temp.num).collect::<Vec<_>>();
    assert_eq!(nums(callee_saved_registers()), vec![1, 6, 12, 13, 14, 15]);
    assert_eq!(nums(caller_saved_registers()), vec![0, 2, 3, 4, 5, 8, 9, 10, 11]);
    assert_eq!(nums(argument_registers()), vec![5, 4, 3, 2, 8, 9]);
}

#[test]
fn fill_replaces_holes() {
    let destination = vec![Temp { num: 0 }, Temp { num: 20 }];
    let source = vec![Temp { num: 1 }, Temp { num: 2 }];
    assert_eq!(fill("add 'd0, 's1", &destination, &source), "add rax, rcx");
    assert_eq!(fill("mov ['s0 + 8], 'd1", &destination, &source), "mov [rbx + 8], t20");
    assert_eq!(fill("", &destination, &source), "");
}

#[test]
fn fill_keeps_what_is_no_hole() {
    let destination = vec![Temp { num: 0 }];
    let source = vec![];
    assert_eq!(fill("mov 'd0, 's0", &destination, &source), "mov rax, 's0");
    assert_eq!(fill("db 'd', 'x', 'd", &destination, &source), "db 'd', 'x', 'd");
    assert_eq!(fill("'d1'd0'", &destination, &source), "'d1rax'");
    assert_eq!(fill("'d01", &destination, &source), "rax1");
}

#[test]
fn instruction_text() {
    let label = Instruction::Label { assembly: "l1:".to_string(), label: Label::Num(1) };
    assert_eq!(label.to_string(), "l1:");
    let moved = Instruction::Move {
        assembly: "mov 'd0, 's0".to_string(),
        destination: Temp { num: 3 },
        source: Temp { num: 15 },
    };
    assert_eq!(moved.to_string(), "mov rdx, r15");
    let oper = Instruction::Oper {
        assembly: "cmp 's0, 's1".to_string(),
        destination: vec![],
        source: vec![Temp { num: 4 }, Temp { num: 5 }],
        jump: None,
    };
    assert_eq!(oper.to_string(), "cmp rsi, rdi");
}

#[test]
fn frame_gives_formals_their_homes() {
    let mut source = TempSource::new(100);
    let frame = Frame::new(Label::Num(1), &vec![true, false, true, false], &mut source).unwrap();
    assert_eq!(
        frame.formals,
        vec![
            Access::InFrame(-8),
            Access::InReg(Temp { num: 100 }),
            Access::InFrame(-16),
            Access::InReg(Temp { num: 101 }),
        ]
    );
    assert_eq!(frame.slots, 2);
    assert_eq!(frame.name, Label::Num(1));
    assert_eq!(source.peek_temp(), 102);
}

#[test]
fn frame_locals_go_down_by_words() {
    let mut source = TempSource::new(100);
    let mut frame = Frame::new(Label::Num(1), &vec![], &mut source).unwrap();
    assert_eq!(frame.size(), 0);
    assert_eq!(frame.alloc_local(true, &mut source), Some(Access::InFrame(-8)));
    assert_eq!(frame.size(), 16);
    assert_eq!(frame.alloc_local(false, &mut source), Some(Access::InReg(Temp { num: 100 })));
    assert_eq!(frame.alloc_local(true, &mut source), Some(Access::InFrame(-16)));
    assert_eq!(frame.size(), 16);
    assert_eq!(frame.alloc_local(true, &mut source), Some(Access::InFrame(-24)));
    assert_eq!(frame.size(), 32);
    assert_eq!(frame.slots, 3);
}

#[test]
fn frame_without_temporaries_left() {
    let mut source = TempSource::new(usize::MAX);
    assert_eq!(Frame::new(Label::Num(1), &vec![true, false], &mut source), None);
    let mut frame = Frame::new(Label::Num(1), &vec![true], &mut source).unwrap();
    assert_eq!(frame.alloc_local(false, &mut source), None);
    assert_eq!(frame.alloc_local(true, &mut source), Some(Access::InFrame(-16)));
}

#[test]
fn frame_wraps_the_body() {
    let mut names = Strings::new();
    let main = names.symbol("main");
    let mut source = TempSource::new(100);
    let mut frame = Frame::new(Label::Named(main), &vec![true], &mut source).unwrap();
    frame.alloc_local(true, &mut source);
    frame.alloc_local(true, &mut source);
    let body = vec![Instruction::Label { assembly: "l1:".to_string(), label: Label::Num(1) }];
    let with_sink = frame.proc_entry_exit2(body);
    assert_eq!(with_sink.len(), 2);
    assert_eq!(
        with_sink[1],
        Instruction::Oper {
            assembly: String::new(),
            destination: vec![],
            source: [0usize, 1, 6, 12, 13, 14, 15].iter().map(|&num| Temp { num }).collect(),
            jump: Some(vec![]),
        }
    );
    let subroutine = frame.proc_entry_exit3(with_sink, &names).unwrap();
    assert_eq!(subroutine.prolog, "main:\n    push rbp\n    mov rbp, rsp\n    sub rsp, 32");
    assert_eq!(subroutine.epilog, "leave\n    ret");
    assert_eq!(subroutine.body.len(), 2);
    let unknown = Frame::new(Label::Named(9), &vec![], &mut source).unwrap();
    assert_eq!(unknown.proc_entry_exit3(vec![], &names), None);
}
