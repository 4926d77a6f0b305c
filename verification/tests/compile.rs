use tiger::compile::{compile, compile_function, split_fragments, CompileError, Fragment, FunctionFragment};
use tiger::driver::{assembler_arguments, gcc_lib_dir, linker_arguments, runtime_functions, Entry, LibDirError};
use tiger::emit::{CallSite, Data, StringLayout};
use tiger::frame::{external_call, Access, Frame};
use tiger::ir::{BinOp, Exp, List, RelOp, Stm};
use tiger::symbol::Strings;
use tiger::temp::{Label, Temp, TempSource};

fn list<T>(items: Vec<T>) -> List<T> {
    let mut list = List::Nil;
    for item in items.into_iter().rev() {
        list = List::Cons(item, Box::new(list));
    }
    list
}

fn temp(num: usize) -> Exp {
    Exp::Temp(Temp { num })
}

fn hello(names: &mut Strings, source: &mut TempSource) -> (Label, FunctionFragment) {
    let main = names.symbol("main");
    let print = names.symbol("print");
    let string = source.fresh_label().unwrap();
    let frame = Frame::new(Label::Named(main), &vec![true], source).unwrap();
    let body = Stm::Exp(external_call(Label::Named(print), list(vec![Exp::Name(string)])));
    (string, FunctionFragment { body, frame, temp_map: vec![], escaping_vars: vec![] })
}

#[test]
fn external_call_is_a_call_of_the_name() {
    assert_eq!(
        external_call(Label::Num(3), list(vec![temp(1)])),
        Exp::Call(Box::new(Exp::Name(Label::Num(3))), Box::new(list(vec![temp(1)])))
    );
}

#[test]
fn view_shift_saves_and_restores() {
    let mut source = TempSource::new(100);
    let frame = Frame::new(Label::Num(0), &vec![false, true, false, false, false, false, false, true], &mut source)
        .unwrap();
    assert_eq!(source.peek_temp(), 106);
    let shifted = frame.proc_entry_exit1(Stm::Label(Label::Num(9)), &mut source).unwrap();
    assert_eq!(source.peek_temp(), 111);
    let mut stms = Vec::new();
    let mut rest = shifted;
    loop {
        match rest {
            Stm::Sequence(first, second) => {
                stms.push(*first);
                rest = *second;
            }
            last => {
                stms.push(last);
                break;
            }
        }
    }
    let word = |offset: i64| {
        Exp::Mem(Box::new(Exp::BinOp(
            BinOp::Plus,
            Box::new(temp(6)),
            Box::new(Exp::Const(offset)),
        )))
    };
    let expected = vec![
        Stm::Move(temp(106), temp(1)),
        Stm::Move(temp(107), temp(12)),
        Stm::Move(temp(108), temp(13)),
        Stm::Move(temp(109), temp(14)),
        Stm::Move(temp(110), temp(15)),
        Stm::Move(temp(100), temp(5)),
        Stm::Move(word(-8), temp(4)),
        Stm::Move(temp(101), temp(3)),
        Stm::Move(temp(102), temp(2)),
        Stm::Move(temp(103), temp(8)),
        Stm::Move(temp(104), temp(9)),
        Stm::Move(temp(105), word(16)),
        Stm::Move(word(-16), word(24)),
        Stm::Label(Label::Num(9)),
        Stm::Move(temp(1), temp(106)),
        Stm::Move(temp(12), temp(107)),
        Stm::Move(temp(13), temp(108)),
        Stm::Move(temp(14), temp(109)),
        Stm::Move(temp(15), temp(110)),
    ];
    assert_eq!(stms, expected);
    assert_eq!(frame.formals[1], Access::InFrame(-8));
}

#[test]
fn view_shift_fails_without_temporaries() {
    let mut source = TempSource::new(usize::MAX - 4);
    let frame = Frame::new(Label::Num(0), &vec![], &mut source).unwrap();
    assert_eq!(frame.proc_entry_exit1(Stm::Label(Label::Num(9)), &mut source), None);
    let mut source = TempSource::new(usize::MAX - 5);
    assert!(frame.proc_entry_exit1(Stm::Label(Label::Num(9)), &mut source).is_some());
}

#[test]
fn compiling_hello() {
    let mut names = Strings::new();
    let mut source = TempSource::new(16);
    let (_, fragment) = hello(&mut names, &mut source);
    let compiled = compile_function(fragment, &mut source, &names).unwrap();
    assert_eq!(compiled.subroutine.prolog, "main:\n    push rbp\n    mov rbp, rsp\n    sub rsp, 16");
    assert_eq!(compiled.subroutine.epilog, "leave\n    ret");
    let lines: Vec<String> =
        compiled.subroutine.body.iter().map(|instruction| instruction.to_string()).collect();
    assert_eq!(
        lines,
        vec![
            "l2:",
            "mov [rbp + -8], rdi",
            "mov rdi, l0",
            "l3:",
            "call print",
            "jmp l1",
            "l1:",
            "",
        ]
    );
    assert_eq!(compiled.call_sites, vec![Label::Num(3)]);
    assert_eq!(
        compiled.allocation.pointer_map,
        vec![CallSite { label: Label::Num(3), pointers: vec![] }]
    );
    assert_eq!((compiled.start_temp, compiled.start_label), (16, 1));
    assert_eq!((compiled.selected_temps, compiled.end_temp, compiled.end_label), (22, 22, 4));
    assert_eq!(compiled.frame.slots, 1);
    assert_eq!(compiled.allocation.spills, vec![]);
}

#[test]
fn compiling_a_program_writes_the_listing() {
    let mut names = Strings::new();
    let mut source = TempSource::new(16);
    let (string, fragment) = hello(&mut names, &mut source);
    let fragments = vec![
        Fragment::Str(string, "hello\n".to_string()),
        Fragment::Function(fragment),
    ];
    let (data, functions) = split_fragments(fragments);
    assert_eq!(data, vec![Data::Str(Label::Num(0), "hello\n".to_string())]);
    assert_eq!(functions.len(), 1);
    let layout = StringLayout { type_tag: 2, header_words: 2 };
    let externals = vec!["print".to_string()];
    let program = compile(&externals, &data, functions, layout, &mut source, &names).unwrap();
    assert_eq!(
        program.text,
        "global main\nglobal __tiger_pointer_map\nglobal __tiger_pointer_map_end\nextern print\n\n\
section .data\n    align 2\n    l0: dq 2\ndq 0\ndb 'hello', 10, '', 0\n\
\nsection .text\n\
main:\n    push rbp\n    mov rbp, rsp\n    sub rsp, 16\n\
\x20   l2:\n    mov [rbp + -8], rdi\n    mov rdi, l0\n    l3:\n    call print\n    jmp l1\n    l1:\n\
\x20   leave\n    ret\n\
\n__tiger_pointer_map:\n    dq l3\n    dq __tiger_pointer_map_end\n    dq __tiger_pointer_map_end\n__tiger_pointer_map_end:\n"
    );
    assert_eq!(program.functions.len(), 1);
}

#[test]
fn compiling_a_loop_with_a_pointer_live_across_a_call() {
    let mut names = Strings::new();
    let main = names.symbol("main");
    let alloc = names.symbol("allocArray");
    let mut source = TempSource::new(16);
    let record = Temp { num: source.fresh_temp().unwrap().num };
    let counter = source.fresh_temp().unwrap();
    let top = source.fresh_label().unwrap();
    let body_label = source.fresh_label().unwrap();
    let out = source.fresh_label().unwrap();
    let frame = Frame::new(Label::Named(main), &vec![false], &mut source).unwrap();
    let seq = |first: Stm, second: Stm| Stm::Sequence(Box::new(first), Box::new(second));
    let body = seq(
        Stm::Move(Exp::Temp(record), external_call(Label::Named(alloc), list(vec![Exp::Const(8)]))),
        seq(
            Stm::Move(Exp::Temp(counter), Exp::Const(0)),
            seq(
                Stm::Label(top),
                seq(
                    Stm::CJump(RelOp::LesserThan, Exp::Temp(counter), Exp::Const(5), body_label, out),
                    seq(
                        Stm::Label(body_label),
                        seq(
                            Stm::Exp(external_call(Label::Named(alloc), list(vec![Exp::Temp(counter)]))),
                            seq(
                                Stm::Move(
                                    Exp::Temp(counter),
                                    Exp::BinOp(BinOp::Plus, Box::new(Exp::Temp(counter)), Box::new(Exp::Const(1))),
                                ),
                                seq(
                                    Stm::Jump(Exp::Name(top), list(vec![top])),
                                    seq(
                                        Stm::Label(out),
                                        Stm::Move(temp(0), Exp::Mem(Box::new(Exp::Temp(record)))),
                                    ),
                                ),
                            ),
                        ),
                    ),
                ),
            ),
        ),
    );
    let fragment = FunctionFragment { body, frame, temp_map: vec![record], escaping_vars: vec![] };
    let compiled = compile_function(fragment, &mut source, &names).unwrap();
    let map = &compiled.allocation.pointer_map;
    assert_eq!(map.len(), 2);
    assert_eq!(map[0].pointers, vec![]);
    assert_eq!(map[1].pointers, vec![compiled.allocation.homes[record.num]]);
    for instruction in &compiled.subroutine.body {
        let line = instruction.to_string();
        assert!(!line.contains("'d") && !line.contains("'s") && !line.contains(" t"), "{}", line);
    }
    let lines: Vec<String> =
        compiled.subroutine.body.iter().map(|instruction| instruction.to_string()).collect();
    let cjump = lines.iter().position(|line| line.starts_with("jl ") || line.starts_with("jge ")).unwrap();
    assert!(lines[cjump + 1].ends_with(':'));
}

#[test]
fn compile_refuses_unknown_names() {
    let names = Strings::new();
    let mut source = TempSource::new(16);
    let frame = Frame::new(Label::Named(3), &vec![], &mut source).unwrap();
    let fragment = FunctionFragment { body: Stm::Label(Label::Num(7)), frame, temp_map: vec![], escaping_vars: vec![] };
    assert_eq!(
        compile_function(fragment, &mut source, &names).err(),
        Some(CompileError::UnknownLabel(Label::Named(3)))
    );
    let layout = StringLayout { type_tag: 2, header_words: 2 };
    let data = vec![Data::Str(Label::Named(0), "x".to_string())];
    assert_eq!(
        compile(&vec![], &data, vec![], layout, &mut source, &names).err(),
        Some(CompileError::UnknownData)
    );
}

#[test]
fn compile_reports_what_selection_refuses() {
    let mut names = Strings::new();
    let main = names.symbol("main");
    let mut source = TempSource::new(16);
    let frame = Frame::new(Label::Named(main), &vec![], &mut source).unwrap();
    let fragment = FunctionFragment { body: Stm::Label(Label::Named(4)), frame, temp_map: vec![], escaping_vars: vec![] };
    assert_eq!(
        compile_function(fragment, &mut source, &names).err(),
        Some(CompileError::Select(tiger::gen::GenError::UnknownLabel(Label::Named(4))))
    );
}

#[test]
fn an_empty_program_has_an_empty_pointer_map() {
    let names = Strings::new();
    let mut source = TempSource::new(16);
    let layout = StringLayout { type_tag: 2, header_words: 2 };
    let program = compile(&vec![], &vec![], vec![], layout, &mut source, &names).unwrap();
    assert_eq!(
        program.text,
        "global main\nglobal __tiger_pointer_map\nglobal __tiger_pointer_map_end\n\nsection .data\n    align 2\n\nsection .text\n\n__tiger_pointer_map:\n    dq __tiger_pointer_map_end\n__tiger_pointer_map_end:\n"
    );
}

#[test]
fn runtime_functions_are_the_ones_of_the_library() {
    assert_eq!(
        runtime_functions(),
        vec![
            "allocRecord", "allocArray", "initArray", "stringEqual", "stringCompare", "print",
            "printi", "ord", "chr", "size", "substring", "concat", "not", "flush", "getChar", "exit",
        ]
    );
}

#[test]
fn arguments_of_assembler_and_linker() {
    assert_eq!(assembler_arguments("tests/hello.s"), vec!["-f", "elf64", "tests/hello.s"]);
    assert_eq!(
        linker_arguments("tests/hello", "tests/hello.o", "/usr/lib64/gcc/x86_64-pc-linux-gnu/13"),
        vec![
            "-dynamic-linker",
            "/lib64/ld-linux-x86-64.so.2",
            "-o",
            "tests/hello",
            "/usr/lib/Scrt1.o",
            "/usr/lib/crti.o",
            "-L/usr/lib64/gcc/x86_64-pc-linux-gnu/13",
            "-L/usr/lib64/",
            "tests/hello.o",
            "target/debug/libruntime.a",
            "-lpthread",
            "-ldl",
            "--no-as-needed",
            "-lc",
            "-lgcc",
            "--as-needed",
            "-lgcc_s",
            "--no-as-needed",
            "/usr/lib/crtn.o",
        ]
    );
}

#[test]
fn the_first_directory_is_the_library_directory() {
    let entries = vec![
        Entry { name: Some("README".to_string()), is_dir: false },
        Entry { name: Some("13.2.1".to_string()), is_dir: true },
        Entry { name: Some("12".to_string()), is_dir: true },
    ];
    assert_eq!(gcc_lib_dir("/usr/lib64/gcc/", &entries), Ok("/usr/lib64/gcc/13.2.1".to_string()));
    let entries = vec![Entry { name: None, is_dir: true }, Entry { name: Some("12".to_string()), is_dir: true }];
    assert_eq!(gcc_lib_dir("/usr/lib64/gcc/", &entries), Err(LibDirError::InvalidData));
    let entries = vec![Entry { name: None, is_dir: false }];
    assert_eq!(gcc_lib_dir("/usr/lib64/gcc/", &entries), Err(LibDirError::NotFound));
    assert_eq!(gcc_lib_dir("/usr/lib64/gcc/", &vec![]), Err(LibDirError::NotFound));
}

#[test]
fn compile_fails_when_temporaries_run_out() {
    let mut names = Strings::new();
    let main = names.symbol("main");
    let mut source = TempSource::new(usize::MAX - 3);
    let frame = Frame::new(Label::Named(main), &vec![true], &mut source).unwrap();
    let fragment = FunctionFragment { body: Stm::Label(Label::Num(7)), frame, temp_map: vec![], escaping_vars: vec![] };
    assert_eq!(
        compile_function(fragment, &mut source, &names).err(),
        Some(CompileError::OutOfTemps)
    );
}

#[test]
fn compile_fails_when_labels_run_out() {
    let mut names = Strings::new();
    let main = names.symbol("main");
    let mut source = TempSource::new(16);
    assert!(source.reserve(0, usize::MAX).is_some());
    let frame = Frame::new(Label::Named(main), &vec![true], &mut source).unwrap();
    let fragment = FunctionFragment { body: Stm::Label(Label::Num(7)), frame, temp_map: vec![], escaping_vars: vec![] };
    assert_eq!(
        compile_function(fragment, &mut source, &names).err(),
        Some(CompileError::OutOfLabels)
    );
}

#[test]
fn compile_reports_what_allocation_refuses() {
    let mut names = Strings::new();
    let main = names.symbol("main");
    let mut source = TempSource::new(16);
    let frame = Frame::new(Label::Named(main), &vec![true], &mut source).unwrap();
    let body = Stm::Move(temp(1_000_000), Exp::Const(1));
    let fragment = FunctionFragment { body, frame, temp_map: vec![], escaping_vars: vec![] };
    assert_eq!(
        compile_function(fragment, &mut source, &names).err(),
        Some(CompileError::Allocate(tiger::allocate::AllocError::UnknownTemp))
    );
}
