use tiger::analysis::{
    vtable, Builtins, Definition, Entry, Expr, Failure, Node, Setting, TypeNames,
};
use tiger::compile::Fragment;
use tiger::declare::{
    declare_class, declare_classes, declare_types, overlay, ClassDeclaration, FieldSyntax,
    MethodSyntax, TypeBody, TypeDeclaration,
};
use tiger::diagnostic::Position;
use tiger::env::Symbols;
use tiger::error::{CompilationError, ErrorKind, SemanticError};
use tiger::frame::Access;
use tiger::ir::{Exp, Stm};
use tiger::program::{translate_program, Program};
use tiger::temp::{Label, Temp, TempSource};
use tiger::translate::Literals;
use tiger::types::{Field, Method, Type, Types};

const INT: usize = 50;
const STRING: usize = 51;
const LIST: usize = 60;
const NUMBERS: usize = 61;
const OTHER: usize = 62;
const FIRST: usize = 70;
const REST: usize = 71;
const ANIMAL: usize = 80;
const DOG: usize = 81;
const SPEAK: usize = 82;
const FETCH: usize = 83;
const NAME: usize = 84;
const AGE: usize = 85;

fn place(line: usize) -> Position {
    Position { line, column: 1 }
}

fn refused(line: usize, error: SemanticError) -> Failure {
    Failure::Rejected(CompilationError { position: place(line), kind: ErrorKind::Semantic(error) })
}

fn table() -> (Types, Symbols<usize>) {
    let mut types = Types::new();
    let mut named = Symbols::new();
    let int = types.add_int();
    let string = types.add_string();
    named.enter(INT, int);
    named.enter(STRING, string);
    (types, named)
}

fn field(line: usize, name: usize, typ: usize) -> FieldSyntax {
    FieldSyntax { position: place(line), name, typ }
}

fn declaration(line: usize, name: usize, body: TypeBody) -> TypeDeclaration {
    TypeDeclaration { position: place(line), name, body }
}

#[test]
fn the_types_of_a_group_may_name_one_another() {
    let (mut types, mut named) = table();
    let group = vec![
        declaration(1, LIST, TypeBody::Record(vec![field(1, FIRST, INT), field(2, REST, LIST)])),
        declaration(3, NUMBERS, TypeBody::Array(INT)),
        declaration(4, OTHER, TypeBody::Alias(NUMBERS)),
    ];
    assert_eq!(declare_types(&mut types, &mut named, &group, 8), Ok(()));
    assert_eq!(types.len(), 7);
    assert_eq!(named.look(LIST), Some(&2));
    assert_eq!(named.look(NUMBERS), Some(&3));
    assert_eq!(named.look(OTHER), Some(&4));
    assert_eq!(types.get(2), Some(&Type::Name { name: LIST, resolved: Some(5) }));
    assert_eq!(types.get(4), Some(&Type::Name { name: OTHER, resolved: Some(3) }));
    assert_eq!(
        types.get(5),
        Some(&Type::Record {
            name: LIST,
            fields: vec![
                Field { name: FIRST, typ: 0, offset: 8 },
                Field { name: REST, typ: 2, offset: 16 },
            ],
            unique: 0,
        })
    );
    assert_eq!(types.get(6), Some(&Type::Array { element: 0, unique: 1 }));
    assert_eq!(types.actual(4), Some(6));
    assert!(types.is_same(4, 3));
    assert!(!types.is_same(2, 3));
}

#[test]
fn a_name_is_declared_once_in_a_group() {
    let (mut types, mut named) = table();
    named.begin_scope();
    let group = vec![
        declaration(1, LIST, TypeBody::Array(INT)),
        declaration(2, INT, TypeBody::Array(INT)),
        declaration(3, LIST, TypeBody::Alias(INT)),
    ];
    assert_eq!(
        declare_types(&mut types, &mut named, &group, 8),
        Err(refused(3, SemanticError::DuplicateDeclaration(LIST)))
    );
}

#[test]
fn a_declaration_names_known_types_only() {
    let (mut types, mut named) = table();
    let group = vec![declaration(1, LIST, TypeBody::Alias(OTHER))];
    assert_eq!(
        declare_types(&mut types, &mut named, &group, 8),
        Err(refused(1, SemanticError::UndefinedType(OTHER)))
    );
    let (mut types, mut named) = table();
    let group = vec![
        declaration(1, NUMBERS, TypeBody::Array(INT)),
        declaration(2, LIST, TypeBody::Record(vec![field(3, FIRST, INT), field(4, REST, OTHER)])),
    ];
    assert_eq!(
        declare_types(&mut types, &mut named, &group, 8),
        Err(refused(4, SemanticError::UndefinedType(OTHER)))
    );
    let (mut types, mut named) = table();
    let group = vec![declaration(5, NUMBERS, TypeBody::Array(OTHER))];
    assert_eq!(
        declare_types(&mut types, &mut named, &group, 8),
        Err(refused(5, SemanticError::UndefinedType(OTHER)))
    );
}

#[test]
fn names_that_lead_in_a_circle_are_refused_by_the_group() {
    let (mut types, mut named) = table();
    let group = vec![
        declaration(1, NUMBERS, TypeBody::Array(LIST)),
        declaration(2, LIST, TypeBody::Alias(OTHER)),
        declaration(3, OTHER, TypeBody::Alias(LIST)),
    ];
    assert_eq!(
        declare_types(&mut types, &mut named, &group, 8),
        Err(refused(2, SemanticError::RecursiveType(LIST)))
    );
}

#[test]
fn the_offsets_of_fields_are_machine_integers() {
    let (mut types, mut named) = table();
    let group = vec![declaration(
        1,
        LIST,
        TypeBody::Record(vec![field(1, FIRST, INT), field(2, REST, OTHER)]),
    )];
    assert_eq!(declare_types(&mut types, &mut named, &group, i64::MAX - 7), Err(Failure::Exhausted));
    let (mut types, mut named) = table();
    let group =
        vec![declaration(1, LIST, TypeBody::Record(vec![field(1, FIRST, INT), field(2, REST, INT)]))];
    assert_eq!(declare_types(&mut types, &mut named, &group, i64::MAX - 8), Ok(()));
}

fn animal() -> ClassDeclaration {
    ClassDeclaration {
        position: place(1),
        name: ANIMAL,
        parent: None,
        fields: vec![field(2, NAME, STRING)],
        methods: vec![
            MethodSyntax { name: SPEAK, label: Label::Named(90), signature: 0 },
            MethodSyntax { name: NAME, label: Label::Named(91), signature: 1 },
        ],
        vtable: Label::Named(92),
    }
}

fn dog() -> ClassDeclaration {
    ClassDeclaration {
        position: place(5),
        name: DOG,
        parent: Some(ANIMAL),
        fields: vec![field(6, AGE, INT), field(7, REST, DOG)],
        methods: vec![
            MethodSyntax { name: FETCH, label: Label::Named(93), signature: 0 },
            MethodSyntax { name: SPEAK, label: Label::Named(94), signature: 0 },
        ],
        vtable: Label::Named(95),
    }
}

#[test]
fn a_class_is_laid_out_behind_the_class_that_it_extends() {
    let (mut types, mut named) = table();
    assert_eq!(declare_class(&mut types, &mut named, &animal(), 16), Ok(3));
    assert_eq!(declare_class(&mut types, &mut named, &dog(), 16), Ok(5));
    assert_eq!(named.look(DOG), Some(&4));
    assert_eq!(types.actual(4), Some(5));
    assert_eq!(
        types.get(5),
        Some(&Type::Class {
            name: DOG,
            parent: Some(2),
            fields: vec![
                Field { name: NAME, typ: 1, offset: 16 },
                Field { name: AGE, typ: 0, offset: 24 },
                Field { name: REST, typ: 4, offset: 32 },
            ],
            methods: vec![
                Method { name: SPEAK, label: Label::Named(94), index: 0, signature: 0 },
                Method { name: NAME, label: Label::Named(91), index: 1, signature: 1 },
                Method { name: FETCH, label: Label::Named(93), index: 2, signature: 0 },
            ],
            vtable: Label::Named(95),
            unique: 1,
        })
    );
    assert!(types.extends(5, 3));
    assert!(!types.extends(3, 5));
    assert!(types.is_compatible(2, 4));
    assert!(!types.is_compatible(4, 2));
    assert_eq!(
        vtable(&types, 4),
        Some(Fragment::VTable {
            class: Label::Named(95),
            methods: vec![Label::Named(94), Label::Named(91), Label::Named(93)],
        })
    );
    assert_eq!(
        vtable(&types, 2),
        Some(Fragment::VTable {
            class: Label::Named(92),
            methods: vec![Label::Named(90), Label::Named(91)],
        })
    );
}

#[test]
fn an_overriding_method_keeps_its_place() {
    let inherited = vec![
        Method { name: SPEAK, label: Label::Named(1), index: 0, signature: 0 },
        Method { name: NAME, label: Label::Named(2), index: 1, signature: 0 },
    ];
    let own = vec![
        MethodSyntax { name: NAME, label: Label::Named(3), signature: 7 },
        MethodSyntax { name: FETCH, label: Label::Named(4), signature: 8 },
        MethodSyntax { name: FETCH, label: Label::Named(5), signature: 9 },
    ];
    assert_eq!(
        overlay(inherited, &own),
        vec![
            Method { name: SPEAK, label: Label::Named(1), index: 0, signature: 0 },
            Method { name: NAME, label: Label::Named(3), index: 1, signature: 7 },
            Method { name: FETCH, label: Label::Named(5), index: 2, signature: 9 },
        ]
    );
}

#[test]
fn a_class_declaration_is_checked() {
    let (mut types, mut named) = table();
    let mut orphan = dog();
    assert_eq!(
        declare_class(&mut types, &mut named, &orphan, 16),
        Err(refused(5, SemanticError::UndefinedType(ANIMAL)))
    );
    let (mut types, mut named) = table();
    orphan.parent = Some(INT);
    assert_eq!(
        declare_class(&mut types, &mut named, &orphan, 16),
        Err(refused(5, SemanticError::NotAClass(INT)))
    );
    let (mut types, mut named) = table();
    orphan.parent = Some(DOG);
    assert_eq!(
        declare_class(&mut types, &mut named, &orphan, 16),
        Err(refused(5, SemanticError::NotAClass(DOG)))
    );
    let (mut types, mut named) = table();
    assert_eq!(declare_class(&mut types, &mut named, &animal(), 16), Ok(3));
    assert_eq!(
        declare_class(&mut types, &mut named, &animal(), 16),
        Err(refused(1, SemanticError::DuplicateDeclaration(ANIMAL)))
    );
    let mut unknown = dog();
    unknown.fields = vec![field(9, AGE, OTHER)];
    assert_eq!(
        declare_class(&mut types, &mut named, &unknown, 16),
        Err(refused(9, SemanticError::UndefinedType(OTHER)))
    );
}

fn setting_of(types: Types, named: Symbols<usize>, unit: usize, nil: usize) -> Setting {
    Setting {
        types,
        named,
        builtins: Builtins {
            int: 0,
            string: 1,
            unit,
            nil,
            string_compare: Label::Named(1),
            array_allocator: Label::Named(2),
            array_header: 8,
            record_allocator: Label::Named(3),
            vtable_offset: 0,
        },
        names: TypeNames { int: INT, string: STRING, unit: 0, nil: 1, array: 2, function: 3, unknown: 4 },
        receiver: 5,
        escapes: Vec::new(),
    }
}

fn program_with(classes: Vec<ClassDeclaration>, types: Vec<TypeDeclaration>) -> (Program, Setting, TempSource, Label) {
    let (mut types_table, named) = table();
    let unit = types_table.add_unit();
    let nil = types_table.add_nil();
    let signature = types_table.add_function(vec![], 1);
    let mut source = TempSource::new(16);
    let mut literals = Literals::new();
    let hello = literals.label_for("hello", &mut source).unwrap();
    assert_eq!(literals.label_for("hello", &mut source), Some(hello));
    let main = Definition {
        position: place(1),
        name: 6,
        label: Label::Named(6),
        formals: vec![],
        signature,
        result: 1,
        body: Node { position: place(1), expr: Expr::Str(hello) },
    };
    let program = Program { types, classes, main, sites: 0, literals };
    (program, setting_of(types_table, named, unit, nil), source, hello)
}

#[test]
fn a_program_gives_its_strings_its_tables_and_its_functions() {
    let group = vec![declaration(1, NUMBERS, TypeBody::Array(INT))];
    let (program, mut setting, mut source, hello) = program_with(vec![animal(), dog()], group);
    let mut vars: Symbols<Entry> = Symbols::new();
    let fragments = translate_program(&program, 16, &mut setting, &mut vars, &mut source).unwrap();
    assert_eq!(setting.types.len(), 11);
    assert_eq!(setting.named.look(NUMBERS), Some(&5));
    assert_eq!(setting.named.look(DOG), Some(&9));
    assert_eq!(fragments.len(), 4);
    assert_eq!(fragments[0], Fragment::Str(hello, "hello".to_string()));
    assert_eq!(
        fragments[1],
        Fragment::VTable {
            class: Label::Named(92),
            methods: vec![Label::Named(90), Label::Named(91)],
        }
    );
    assert_eq!(
        fragments[2],
        Fragment::VTable {
            class: Label::Named(95),
            methods: vec![Label::Named(94), Label::Named(91), Label::Named(93)],
        }
    );
    match &fragments[3] {
        Fragment::Function(function) => {
            assert_eq!(function.body, Stm::Move(Exp::Temp(Temp { num: 0 }), Exp::Name(hello)));
            assert_eq!(function.frame.formals, vec![Access::InFrame(-8)]);
            assert!(function.temp_map.is_empty());
            assert!(function.escaping_vars.is_empty());
        },
        other => panic!("{:?}", other),
    }
}

#[test]
fn a_program_with_wrong_declarations_is_refused() {
    let group = vec![declaration(3, NUMBERS, TypeBody::Array(OTHER))];
    let (program, mut setting, mut source, _) = program_with(vec![animal()], group);
    let mut vars: Symbols<Entry> = Symbols::new();
    assert_eq!(
        translate_program(&program, 16, &mut setting, &mut vars, &mut source),
        Err(refused(3, SemanticError::UndefinedType(OTHER)))
    );
    let (program, mut setting, mut source, _) = program_with(vec![animal(), animal()], vec![]);
    assert_eq!(
        translate_program(&program, 16, &mut setting, &mut vars, &mut source),
        Err(refused(1, SemanticError::DuplicateDeclaration(ANIMAL)))
    );
    let (mut program, mut setting, mut source, _) = program_with(vec![], vec![]);
    program.main.result = 0;
    assert_eq!(
        translate_program(&program, 16, &mut setting, &mut vars, &mut source),
        Err(refused(1, SemanticError::TypeMismatch { expected: INT, actual: STRING }))
    );
}

#[test]
fn the_classes_of_a_list_are_declared_in_order() {
    let (mut types, mut named) = table();
    assert_eq!(declare_classes(&mut types, &mut named, &vec![animal(), dog()], 16), Ok(vec![3, 5]));
    let (mut types, mut named) = table();
    assert_eq!(
        declare_classes(&mut types, &mut named, &vec![dog(), animal()], 16),
        Err(refused(5, SemanticError::UndefinedType(ANIMAL)))
    );
    assert_eq!(declare_classes(&mut types, &mut named, &vec![], 16), Ok(vec![]));
}
