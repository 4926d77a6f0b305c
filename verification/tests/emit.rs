use tiger::emit::{data_section, header, listing, pointer_map, text_section, to_nasm};
use tiger::emit::{CallSite, Data, PointerLocation, StringLayout, Subroutine};
use tiger::assembly::Instruction;
use tiger::symbol::Strings;
use tiger::temp::{Label, Temp};

#[test]
fn to_nasm_plain_string() {
    assert_eq!(to_nasm("hello"), "'hello'");
}

#[test]
fn to_nasm_empty_string() {
    assert_eq!(to_nasm(""), "''");
}

#[test]
fn to_nasm_escapes_newline_tab_and_quote() {
    assert_eq!(to_nasm("hello\n"), "'hello', 10, ''");
    assert_eq!(to_nasm("a\tb"), "'a', 9, 'b'");
    assert_eq!(to_nasm("it's"), "'it', 39, 's'");
}

#[test]
fn to_nasm_keeps_other_characters() {
    assert_eq!(to_nasm("a\\b\"c é"), "'a\\b\"c é'");
}

#[test]
fn header_lists_globals_and_externals() {
    let externals = vec!["print".to_string(), "allocRecord".to_string()];
    assert_eq!(
        header(&externals),
        "global main\nglobal __tiger_pointer_map\nglobal __tiger_pointer_map_end\nextern print\nextern allocRecord\n\n"
    );
}

#[test]
fn data_section_of_a_string_and_a_vtable() {
    let mut names = Strings::new();
    let dog = names.symbol("Dog_vtable");
    let speak = names.symbol("Dog_speak");
    let fragments = vec![
        Data::Str(Label::Num(3), "hi\n".to_string()),
        Data::VTable { class: Label::Named(dog), methods: vec![Label::Named(speak), Label::Num(7)] },
        Data::VTable { class: Label::Num(9), methods: vec![] },
    ];
    let layout = StringLayout { type_tag: 2, header_words: 3 };
    let text = data_section(&fragments, layout, &names).unwrap();
    assert_eq!(
        text,
        "section .data\n    align 2\n    l3: dq 2\ndq 0\ndq 0\ndb 'hi', 10, '', 0\nDog_vtable:\n    dq Dog_speak\n    dq l7\nl9:\n"
    );
}

#[test]
fn data_section_with_a_header_of_one_word_has_no_filler() {
    let names = Strings::new();
    let fragments = vec![Data::Str(Label::Num(0), "x".to_string())];
    let layout = StringLayout { type_tag: 5, header_words: 1 };
    assert_eq!(
        data_section(&fragments, layout, &names).unwrap(),
        "section .data\n    align 2\n    l0: dq 5\ndb 'x', 0\n"
    );
    let layout = StringLayout { type_tag: 5, header_words: 0 };
    assert_eq!(
        data_section(&fragments, layout, &names).unwrap(),
        "section .data\n    align 2\n    l0: dq 5\ndb 'x', 0\n"
    );
}

#[test]
fn data_section_refuses_an_unknown_name() {
    let names = Strings::new();
    let fragments = vec![Data::Str(Label::Named(4), "x".to_string())];
    let layout = StringLayout { type_tag: 2, header_words: 2 };
    assert_eq!(data_section(&fragments, layout, &names), None);
    let fragments = vec![Data::VTable { class: Label::Num(1), methods: vec![Label::Named(0)] }];
    assert_eq!(data_section(&fragments, layout, &names), None);
}

#[test]
fn text_section_skips_instructions_without_text() {
    let body = vec![
        Instruction::Label { assembly: "l1:".to_string(), label: Label::Num(1) },
        Instruction::Move {
            assembly: "mov 'd0, 's0".to_string(),
            destination: Temp { num: 0 },
            source: Temp { num: 5 },
        },
        Instruction::Oper {
            assembly: "".to_string(),
            destination: vec![],
            source: vec![Temp { num: 0 }],
            jump: None,
        },
    ];
    let subroutines = vec![Subroutine {
        prolog: "main:\n    push rbp".to_string(),
        body,
        epilog: "leave\n    ret".to_string(),
    }];
    assert_eq!(
        text_section(&subroutines),
        "\nsection .text\nmain:\n    push rbp\n    l1:\n    mov rax, rdi\n    leave\n    ret\n"
    );
}

#[test]
fn pointer_map_lists_each_site_and_ends_with_the_marker() {
    let names = Strings::new();
    let maps = vec![
        vec![
            CallSite {
                label: Label::Num(4),
                pointers: vec![PointerLocation::Register(1), PointerLocation::Frame(-16)],
            },
            CallSite { label: Label::Num(5), pointers: vec![] },
        ],
        vec![],
        vec![CallSite { label: Label::Num(6), pointers: vec![PointerLocation::Register(12)] }],
    ];
    assert_eq!(
        pointer_map(&maps, &names).unwrap(),
        "__tiger_pointer_map:\n    dq l4\n    dq 1\n    dq -16\n    dq __tiger_pointer_map_end\n    dq l5\n    dq __tiger_pointer_map_end\n    dq l6\n    dq 12\n    dq __tiger_pointer_map_end\n    dq __tiger_pointer_map_end\n__tiger_pointer_map_end:\n"
    );
}

#[test]
fn empty_pointer_map_is_the_marker_alone() {
    let names = Strings::new();
    assert_eq!(
        pointer_map(&vec![], &names).unwrap(),
        "__tiger_pointer_map:\n    dq __tiger_pointer_map_end\n__tiger_pointer_map_end:\n"
    );
}

#[test]
fn pointer_map_refuses_an_unknown_name() {
    let names = Strings::new();
    let maps = vec![vec![CallSite { label: Label::Named(0), pointers: vec![] }]];
    assert_eq!(pointer_map(&maps, &names), None);
}

#[test]
fn listing_puts_the_parts_in_order() {
    let mut names = Strings::new();
    let main = names.symbol("main");
    let externals = vec!["print".to_string()];
    let fragments = vec![Data::Str(Label::Num(0), "hello\n".to_string())];
    let layout = StringLayout { type_tag: 2, header_words: 2 };
    let subroutines = vec![Subroutine {
        prolog: "main:".to_string(),
        body: vec![Instruction::Oper {
            assembly: "call print".to_string(),
            destination: vec![Temp { num: 0 }],
            source: vec![Temp { num: 5 }],
            jump: None,
        }],
        epilog: "ret".to_string(),
    }];
    let maps = vec![vec![CallSite { label: Label::Named(main), pointers: vec![] }]];
    let text = listing(&externals, &fragments, layout, &subroutines, &maps, &names).unwrap();
    assert_eq!(
        text,
        "global main\nglobal __tiger_pointer_map\nglobal __tiger_pointer_map_end\nextern print\n\n\
section .data\n    align 2\n    l0: dq 2\ndq 0\ndb 'hello', 10, '', 0\n\
\nsection .text\nmain:\n    call print\n    ret\n\
\n__tiger_pointer_map:\n    dq main\n    dq __tiger_pointer_map_end\n    dq __tiger_pointer_map_end\n__tiger_pointer_map_end:\n"
    );
}
