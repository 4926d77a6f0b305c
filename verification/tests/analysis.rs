use tiger::compile::{compile, Fragment, FunctionFragment};
use tiger::emit::StringLayout;
use tiger::symbol::Strings;
use tiger::analysis::{
    analyse, analyse_program, check_types, define, vtable, Builtins, Declaration, Declared,
    Definition, Entry, Expr, Failure, FieldValue, Formal, Function, Node, Setting, TypeNames,
    Typed, Variable,
};
use tiger::diagnostic::Position;
use tiger::env::Symbols;
use tiger::error::{CompilationError, ErrorKind, SemanticError};
use tiger::frame::{Access, Frame};
use tiger::ir::{BinOp, Exp, List, RelOp, Stm};
use tiger::temp::{Label, Temp, TempSource};
use tiger::translate::{
    array_filled, for_loop, if_then, if_then_else, method_call, record_creation, relational,
    while_loop, FieldInit,
};
use tiger::types::{Field, Method, Types};
use tiger::walk::{program_escapes, walk};
use tiger::escape::Event;

const INT: usize = 0;
const STRING: usize = 1;
const UNIT: usize = 2;
const NIL: usize = 3;
const POINT: usize = 4;
const NUMBERS: usize = 5;
const SIGNATURE: usize = 6;
const SHAPE: usize = 7;
const F_TYPE: usize = 8;
const PRINT_TYPE: usize = 9;
const G_TYPE: usize = 10;

const INT_NAME: usize = 10;
const STRING_NAME: usize = 11;
const UNIT_NAME: usize = 12;
const NIL_NAME: usize = 13;
const ARRAY_NAME: usize = 14;
const FUNCTION_NAME: usize = 15;
const UNKNOWN_NAME: usize = 16;
const POINT_NAME: usize = 17;
const NUMBERS_NAME: usize = 18;
const SELF_NAME: usize = 19;
const X: usize = 30;
const Y: usize = 31;
const F: usize = 32;
const PRINT: usize = 33;
const SHAPE_NAME: usize = 34;
const AREA: usize = 35;
const G: usize = 36;

fn setting() -> Setting {
    let mut types = Types::new();
    assert_eq!(types.add_int(), INT);
    assert_eq!(types.add_string(), STRING);
    assert_eq!(types.add_unit(), UNIT);
    assert_eq!(types.add_nil(), NIL);
    let fields = vec![
        Field { name: X, typ: INT, offset: 0 },
        Field { name: Y, typ: STRING, offset: 8 },
    ];
    assert_eq!(types.add_record(POINT_NAME, fields), Some(POINT));
    assert_eq!(types.add_array(INT), Some(NUMBERS));
    assert_eq!(types.add_function(vec![INT], STRING), SIGNATURE);
    let methods = vec![
        Method { name: F, label: Label::Named(80), index: 0, signature: SIGNATURE },
        Method { name: AREA, label: Label::Named(81), index: 1, signature: SIGNATURE },
    ];
    assert_eq!(
        types.add_class(SHAPE_NAME, None, Vec::new(), methods, Label::Named(82)),
        Some(SHAPE)
    );
    assert_eq!(types.add_function(vec![INT, STRING], POINT), F_TYPE);
    assert_eq!(types.add_function(vec![STRING], UNIT), PRINT_TYPE);
    assert_eq!(types.add_function(vec![INT], INT), G_TYPE);
    let mut named = Symbols::new();
    named.enter(INT_NAME, INT);
    named.enter(STRING_NAME, STRING);
    named.enter(POINT_NAME, POINT);
    named.enter(NUMBERS_NAME, NUMBERS);
    Setting {
        types,
        named,
        builtins: Builtins {
            int: INT,
            string: STRING,
            unit: UNIT,
            nil: NIL,
            string_compare: Label::Named(70),
            array_allocator: Label::Named(71),
            array_header: 8,
            record_allocator: Label::Named(72),
            vtable_offset: 0,
        },
        names: TypeNames {
            int: INT_NAME,
            string: STRING_NAME,
            unit: UNIT_NAME,
            nil: NIL_NAME,
            array: ARRAY_NAME,
            function: FUNCTION_NAME,
            unknown: UNKNOWN_NAME,
        },
        receiver: SELF_NAME,
        escapes: vec![true, false],
    }
}

struct World {
    level: usize,
    fragments: Vec<FunctionFragment>,
    vars: Symbols<Entry>,
    frame: Frame,
    source: TempSource,
    pointers: Vec<Access>,
}

fn world(first_temp: usize) -> World {
    let mut source = TempSource::new(first_temp);
    let frame = Frame::new(Label::Named(1), &vec![true], &mut source).unwrap();
    World { level: 0, fragments: Vec::new(), vars: Symbols::new(), frame, source, pointers: Vec::new() }
}

fn run(node: &Node, setting: &Setting, done: Option<Label>, world: &mut World) -> Result<Typed, Failure> {
    analyse(
        node,
        setting,
        world.level,
        done,
        &mut world.vars,
        &mut world.frame,
        &mut world.source,
        &mut world.pointers,
        &mut world.fragments,
    )
}

fn at(line: usize, column: usize, expr: Expr) -> Node {
    Node { position: Position { line, column }, expr }
}

fn node(expr: Expr) -> Box<Node> {
    Box::new(at(1, 1, expr))
}

fn placed(line: usize, column: usize, expr: Expr) -> Box<Node> {
    Box::new(at(line, column, expr))
}

fn number(value: i64) -> Box<Node> {
    node(Expr::Int(value))
}

fn wrong(line: usize, column: usize, error: SemanticError) -> Failure {
    Failure::Rejected(CompilationError {
        position: Position { line, column },
        kind: ErrorKind::Semantic(error),
    })
}

const IN_FRAME: usize = 0;
const IN_REGISTER: usize = 1;

fn plain(name: usize, escapes: bool) -> Declaration {
    Declaration { name, site: if escapes { IN_FRAME } else { IN_REGISTER }, annotation: None }
}

fn temp(num: usize) -> Exp {
    Exp::Temp(Temp { num })
}

fn nodes(items: Vec<Node>) -> Box<List<Node>> {
    let mut list = List::Nil;
    for item in items.into_iter().rev() {
        list = List::Cons(item, Box::new(list));
    }
    Box::new(list)
}

fn exps(items: Vec<Exp>) -> List<Exp> {
    let mut list = List::Nil;
    for item in items.into_iter().rev() {
        list = List::Cons(item, Box::new(list));
    }
    list
}

fn frame_word(base: Exp, offset: i64) -> Exp {
    Exp::Mem(Box::new(Exp::BinOp(BinOp::Plus, Box::new(base), Box::new(Exp::Const(offset)))))
}

#[test]
fn literals_have_their_types() {
    let setting = setting();
    let mut world = world(100);
    assert_eq!(
        run(&at(1, 1, Expr::Int(42)), &setting, None, &mut world),
        Ok(Typed { exp: Exp::Const(42), typ: INT })
    );
    assert_eq!(
        run(&at(1, 1, Expr::Nil), &setting, None, &mut world),
        Ok(Typed { exp: Exp::Const(0), typ: NIL })
    );
    assert_eq!(
        run(&at(1, 1, Expr::Unit), &setting, None, &mut world),
        Ok(Typed { exp: Exp::Const(0), typ: UNIT })
    );
    assert_eq!(
        run(&at(1, 1, Expr::Str(Label::Num(4))), &setting, None, &mut world),
        Ok(Typed { exp: Exp::Name(Label::Num(4)), typ: STRING })
    );
    assert_eq!(world.source.peek_temp(), 100);
    assert_eq!(world.source.peek_label(), 0);
}

#[test]
fn a_declared_variable_lives_in_a_temporary() {
    let setting = setting();
    let mut world = world(100);
    let program = at(
        1,
        1,
        Expr::Let(
            plain(X, false),
            number(1),
            node(Expr::Arith(BinOp::Plus, node(Expr::Var(X)), number(2))),
        ),
    );
    let expected = Exp::ESeq(
        Box::new(Stm::Move(temp(100), Exp::Const(1))),
        Box::new(Exp::BinOp(BinOp::Plus, Box::new(temp(100)), Box::new(Exp::Const(2)))),
    );
    assert_eq!(run(&program, &setting, None, &mut world), Ok(Typed { exp: expected, typ: INT }));
    assert_eq!(world.source.peek_temp(), 101);
    assert_eq!(world.vars.look(X), None);
    assert_eq!(world.vars.depth(), 1);
    assert!(world.pointers.is_empty());
}

#[test]
fn an_escaping_variable_lives_in_the_frame() {
    let setting = setting();
    let mut world = world(100);
    let program = at(1, 1, Expr::Let(plain(X, true), number(7), node(Expr::Var(X))));
    let home = frame_word(temp(6), -16);
    let expected = Exp::ESeq(
        Box::new(Stm::Move(frame_word(temp(6), -16), Exp::Const(7))),
        Box::new(home),
    );
    assert_eq!(run(&program, &setting, None, &mut world), Ok(Typed { exp: expected, typ: INT }));
    assert_eq!(world.frame.slots, 2);
    assert_eq!(world.source.peek_temp(), 100);
}

#[test]
fn a_variable_of_an_outer_function_is_reached_through_static_links() {
    let setting = setting();
    let mut world = world(100);
    world.level = 2;
    world.vars.enter(X, Entry::Var(Variable { access: Access::InFrame(-24), typ: INT, level: 0 }));
    world.vars.enter(
        Y,
        Entry::Var(Variable { access: Access::InReg(Temp { num: 50 }), typ: INT, level: 2 }),
    );
    let outer = frame_word(frame_word(temp(6), -8), -8);
    assert_eq!(
        run(&at(1, 1, Expr::Var(X)), &setting, None, &mut world),
        Ok(Typed { exp: frame_word(outer, -24), typ: INT })
    );
    assert_eq!(
        run(&at(1, 1, Expr::Var(Y)), &setting, None, &mut world),
        Ok(Typed { exp: temp(50), typ: INT })
    );
}

#[test]
fn an_unknown_name_is_refused_where_it_stands() {
    let setting = setting();
    let mut world = world(100);
    let program = at(
        1,
        1,
        Expr::Arith(BinOp::Mul, number(2), placed(3, 9, Expr::Var(X))),
    );
    assert_eq!(
        run(&program, &setting, None, &mut world),
        Err(wrong(3, 9, SemanticError::UndefinedIdentifier(X)))
    );
    world.vars.enter(
        F,
        Entry::Fun(Function {
            label: Label::Named(F),
            signature: G_TYPE,
            level: 0,
            external: false,
        }),
    );
    assert_eq!(
        run(&at(2, 2, Expr::Var(F)), &setting, None, &mut world),
        Err(wrong(2, 2, SemanticError::UndefinedIdentifier(F)))
    );
}

#[test]
fn arithmetic_asks_for_integers() {
    let setting = setting();
    let mut world = world(100);
    let left = at(1, 1, Expr::Arith(BinOp::Minus, placed(1, 2, Expr::Nil), placed(1, 8, Expr::Unit)));
    assert_eq!(
        run(&left, &setting, None, &mut world),
        Err(wrong(1, 2, SemanticError::TypeMismatch { expected: INT_NAME, actual: NIL_NAME }))
    );
    let right = at(1, 1, Expr::Arith(BinOp::Minus, number(1), placed(1, 8, Expr::Unit)));
    assert_eq!(
        run(&right, &setting, None, &mut world),
        Err(wrong(1, 8, SemanticError::TypeMismatch { expected: INT_NAME, actual: UNIT_NAME }))
    );
}

#[test]
fn a_comparison_gives_one_or_zero() {
    let setting = setting();
    let mut world = world(100);
    let program = at(1, 1, Expr::Compare(RelOp::LesserThan, number(1), number(2)));
    let (result, t, f, done) = (Temp { num: 100 }, Label::Num(0), Label::Num(1), Label::Num(2));
    let stms = Stm::Sequence(
        Box::new(Stm::CJump(RelOp::LesserThan, Exp::Const(1), Exp::Const(2), t, f)),
        Box::new(Stm::Sequence(
            Box::new(Stm::Label(t)),
            Box::new(Stm::Sequence(
                Box::new(Stm::Move(Exp::Temp(result), Exp::Const(1))),
                Box::new(Stm::Sequence(
                    Box::new(Stm::Jump(
                        Exp::Name(done),
                        List::Cons(done, Box::new(List::Nil)),
                    )),
                    Box::new(Stm::Sequence(
                        Box::new(Stm::Label(f)),
                        Box::new(Stm::Sequence(
                            Box::new(Stm::Move(Exp::Temp(result), Exp::Const(0))),
                            Box::new(Stm::Label(done)),
                        )),
                    )),
                )),
            )),
        )),
    );
    let expected = Exp::ESeq(Box::new(stms), Box::new(Exp::Temp(result)));
    assert_eq!(run(&program, &setting, None, &mut world), Ok(Typed { exp: expected, typ: INT }));
    assert_eq!(world.source.peek_temp(), 101);
    assert_eq!(world.source.peek_label(), 3);
}

#[test]
fn comparing_strings_calls_the_runtime() {
    let setting = setting();
    let mut world = world(100);
    let program = at(
        1,
        1,
        Expr::Compare(
            RelOp::Equal,
            node(Expr::Str(Label::Num(8))),
            node(Expr::Str(Label::Num(9))),
        ),
    );
    let call = Exp::Call(
        Box::new(Exp::Name(Label::Named(70))),
        Box::new(exps(vec![Exp::Name(Label::Num(8)), Exp::Name(Label::Num(9))])),
    );
    let expected = relational(RelOp::Equal, call, Exp::Const(0), &mut TempSource::new(100)).unwrap();
    assert_eq!(run(&program, &setting, None, &mut world), Ok(Typed { exp: expected, typ: INT }));
}

#[test]
fn a_comparison_asks_for_like_types() {
    let setting = setting();
    let mut world = world(100);
    let program = at(
        1,
        1,
        Expr::Compare(RelOp::Equal, number(1), placed(1, 5, Expr::Str(Label::Num(8)))),
    );
    assert_eq!(
        run(&program, &setting, None, &mut world),
        Err(wrong(1, 5, SemanticError::TypeMismatch { expected: INT_NAME, actual: STRING_NAME }))
    );
    world.vars.enter(X, Entry::Var(Variable { access: Access::InReg(Temp { num: 40 }), typ: POINT, level: 0 }));
    let with_nil = at(1, 1, Expr::Compare(RelOp::Equal, node(Expr::Var(X)), node(Expr::Nil)));
    let expected = relational(RelOp::Equal, temp(40), Exp::Const(0), &mut TempSource::new(100)).unwrap();
    assert_eq!(run(&with_nil, &setting, None, &mut world), Ok(Typed { exp: expected, typ: INT }));
}

#[test]
fn the_branches_of_a_conditional_agree() {
    let setting = setting();
    let mut world = world(100);
    let program = at(1, 1, Expr::If(number(1), number(2), number(3)));
    let expected = if_then_else(Exp::Const(1), Exp::Const(2), Exp::Const(3), &mut TempSource::new(100)).unwrap();
    assert_eq!(run(&program, &setting, None, &mut world), Ok(Typed { exp: expected, typ: INT }));
    let differing = at(1, 1, Expr::If(number(1), number(2), placed(4, 4, Expr::Unit)));
    assert_eq!(
        run(&differing, &setting, None, &mut world),
        Err(wrong(4, 4, SemanticError::TypeMismatch { expected: INT_NAME, actual: UNIT_NAME }))
    );
    let condition = at(1, 1, Expr::If(placed(2, 3, Expr::Unit), number(2), number(3)));
    assert_eq!(
        run(&condition, &setting, None, &mut world),
        Err(wrong(2, 3, SemanticError::TypeMismatch { expected: INT_NAME, actual: UNIT_NAME }))
    );
}

#[test]
fn a_conditional_without_else_gives_no_value() {
    let setting = setting();
    let mut world = world(100);
    let program = at(1, 1, Expr::IfThen(number(1), node(Expr::Unit)));
    let expected = if_then(Exp::Const(1), Exp::Const(0), &mut TempSource::new(100)).unwrap();
    assert_eq!(run(&program, &setting, None, &mut world), Ok(Typed { exp: expected, typ: UNIT }));
    let valued = at(1, 1, Expr::IfThen(number(1), placed(5, 6, Expr::Int(2))));
    assert_eq!(
        run(&valued, &setting, None, &mut world),
        Err(wrong(5, 6, SemanticError::TypeMismatch { expected: UNIT_NAME, actual: INT_NAME }))
    );
}

#[test]
fn a_break_leaves_the_innermost_loop() {
    let setting = setting();
    let mut world = world(100);
    let program = at(1, 1, Expr::While(number(1), node(Expr::Break)));
    let exit = Label::Num(0);
    let leave = Exp::ESeq(
        Box::new(Stm::Jump(Exp::Name(exit), List::Cons(exit, Box::new(List::Nil)))),
        Box::new(Exp::Const(0)),
    );
    let mut source = TempSource::new(100);
    assert_eq!(source.fresh_label(), Some(exit));
    let expected = while_loop(Exp::Const(1), leave, exit, &mut source).unwrap();
    assert_eq!(run(&program, &setting, None, &mut world), Ok(Typed { exp: expected, typ: UNIT }));
    assert_eq!(world.source.peek_label(), 3);
}

#[test]
fn a_break_outside_a_loop_is_refused() {
    let setting = setting();
    let mut world = world(100);
    assert_eq!(
        run(&at(6, 2, Expr::Break), &setting, None, &mut world),
        Err(wrong(6, 2, SemanticError::BreakOutsideLoop))
    );
    let in_condition = at(1, 1, Expr::While(placed(2, 7, Expr::Break), node(Expr::Unit)));
    assert_eq!(
        run(&in_condition, &setting, None, &mut world),
        Err(wrong(2, 7, SemanticError::BreakOutsideLoop))
    );
}

#[test]
fn a_counting_loop_declares_its_variable() {
    let setting = setting();
    let mut world = world(100);
    let program = at(
        1,
        1,
        Expr::For(plain(X, false), number(1), number(10), node(Expr::Assign(node(Expr::Var(X)), number(0)))),
    );
    let body = Exp::ESeq(
        Box::new(Stm::Move(temp(100), Exp::Const(0))),
        Box::new(Exp::Const(0)),
    );
    let mut source = TempSource::new(101);
    let exit = source.fresh_label().unwrap();
    let expected = for_loop(
        Access::InReg(Temp { num: 100 }),
        Exp::Const(1),
        Exp::Const(10),
        body,
        exit,
        &mut source,
    )
    .unwrap();
    assert_eq!(run(&program, &setting, None, &mut world), Ok(Typed { exp: expected, typ: UNIT }));
    assert_eq!(world.source.peek_temp(), 102);
    assert_eq!(world.source.peek_label(), 3);
    assert_eq!(world.vars.look(X), None);
    let bound = at(1, 1, Expr::For(plain(X, false), number(1), placed(2, 2, Expr::Nil), node(Expr::Unit)));
    assert_eq!(
        run(&bound, &setting, None, &mut world),
        Err(wrong(2, 2, SemanticError::TypeMismatch { expected: INT_NAME, actual: NIL_NAME }))
    );
}

#[test]
fn an_assignment_asks_for_the_type_of_the_target() {
    let setting = setting();
    let mut world = world(100);
    world.vars.enter(X, Entry::Var(Variable { access: Access::InReg(Temp { num: 40 }), typ: POINT, level: 0 }));
    let to_nil = at(1, 1, Expr::Assign(node(Expr::Var(X)), node(Expr::Nil)));
    let expected = Exp::ESeq(
        Box::new(Stm::Move(temp(40), Exp::Const(0))),
        Box::new(Exp::Const(0)),
    );
    assert_eq!(run(&to_nil, &setting, None, &mut world), Ok(Typed { exp: expected, typ: UNIT }));
    let to_int = at(1, 1, Expr::Assign(node(Expr::Var(X)), placed(3, 3, Expr::Int(1))));
    assert_eq!(
        run(&to_int, &setting, None, &mut world),
        Err(wrong(3, 3, SemanticError::TypeMismatch { expected: POINT_NAME, actual: INT_NAME }))
    );
    let field = at(
        1,
        1,
        Expr::Assign(node(Expr::Field(node(Expr::Var(X)), X)), number(5)),
    );
    let stored = Exp::ESeq(
        Box::new(Stm::Move(frame_word(temp(40), 0), Exp::Const(5))),
        Box::new(Exp::Const(0)),
    );
    assert_eq!(run(&field, &setting, None, &mut world), Ok(Typed { exp: stored, typ: UNIT }));
}

#[test]
fn a_field_is_found_by_its_name() {
    let setting = setting();
    let mut world = world(100);
    world.vars.enter(X, Entry::Var(Variable { access: Access::InReg(Temp { num: 40 }), typ: POINT, level: 0 }));
    let second = at(1, 1, Expr::Field(node(Expr::Var(X)), Y));
    assert_eq!(
        run(&second, &setting, None, &mut world),
        Ok(Typed { exp: frame_word(temp(40), 8), typ: STRING })
    );
    let missing = at(4, 5, Expr::Field(node(Expr::Var(X)), F));
    assert_eq!(
        run(&missing, &setting, None, &mut world),
        Err(wrong(4, 5, SemanticError::UndefinedField(F)))
    );
    let of_int = at(7, 8, Expr::Field(number(1), X));
    assert_eq!(
        run(&of_int, &setting, None, &mut world),
        Err(wrong(7, 8, SemanticError::UndefinedField(X)))
    );
}

#[test]
fn an_element_is_found_behind_the_header() {
    let setting = setting();
    let mut world = world(100);
    world.vars.enter(X, Entry::Var(Variable { access: Access::InReg(Temp { num: 40 }), typ: NUMBERS, level: 0 }));
    let third = at(1, 1, Expr::Subscript(node(Expr::Var(X)), number(2)));
    let expected = Exp::Mem(Box::new(Exp::BinOp(
        BinOp::Plus,
        Box::new(temp(40)),
        Box::new(Exp::BinOp(
            BinOp::Plus,
            Box::new(Exp::BinOp(BinOp::Mul, Box::new(Exp::Const(2)), Box::new(Exp::Const(8)))),
            Box::new(Exp::Const(8)),
        )),
    )));
    assert_eq!(run(&third, &setting, None, &mut world), Ok(Typed { exp: expected, typ: INT }));
    let of_int = at(1, 1, Expr::Subscript(placed(2, 4, Expr::Int(1)), number(2)));
    assert_eq!(
        run(&of_int, &setting, None, &mut world),
        Err(wrong(2, 4, SemanticError::TypeMismatch { expected: ARRAY_NAME, actual: INT_NAME }))
    );
    let by_nil = at(1, 1, Expr::Subscript(node(Expr::Var(X)), placed(2, 6, Expr::Nil)));
    assert_eq!(
        run(&by_nil, &setting, None, &mut world),
        Err(wrong(2, 6, SemanticError::TypeMismatch { expected: INT_NAME, actual: NIL_NAME }))
    );
}

#[test]
fn a_new_array_is_filled() {
    let setting = setting();
    let mut world = world(100);
    let program = at(1, 1, Expr::Array(NUMBERS_NAME, number(4), number(0)));
    let expected = array_filled(
        Label::Named(71),
        Exp::Const(4),
        Exp::Const(0),
        8,
        &mut TempSource::new(100),
    )
    .unwrap();
    assert_eq!(run(&program, &setting, None, &mut world), Ok(Typed { exp: expected, typ: NUMBERS }));
    assert_eq!(world.source.peek_temp(), 103);
    assert_eq!(world.pointers, vec![Access::InReg(Temp { num: 100 })]);
    let unknown = at(3, 1, Expr::Array(F, number(4), number(0)));
    assert_eq!(
        run(&unknown, &setting, None, &mut world),
        Err(wrong(3, 1, SemanticError::UndefinedType(F)))
    );
    let no_array = at(3, 2, Expr::Array(INT_NAME, number(4), number(0)));
    assert_eq!(
        run(&no_array, &setting, None, &mut world),
        Err(wrong(3, 2, SemanticError::TypeMismatch { expected: ARRAY_NAME, actual: INT_NAME }))
    );
    let wrong_init = at(1, 1, Expr::Array(NUMBERS_NAME, number(4), placed(3, 3, Expr::Unit)));
    assert_eq!(
        run(&wrong_init, &setting, None, &mut world),
        Err(wrong(3, 3, SemanticError::TypeMismatch { expected: INT_NAME, actual: UNIT_NAME }))
    );
}

#[test]
fn a_call_passes_the_static_link() {
    let setting = setting();
    let mut world = world(100);
    world.level = 1;
    world.vars.enter(
        F,
        Entry::Fun(Function {
            label: Label::Named(F),
            signature: F_TYPE,
            level: 0,
            external: false,
        }),
    );
    world.vars.enter(
        PRINT,
        Entry::Fun(Function {
            label: Label::Named(PRINT),
            signature: PRINT_TYPE,
            level: 0,
            external: true,
        }),
    );
    let call = at(
        1,
        1,
        Expr::Call(F, nodes(vec![at(1, 3, Expr::Int(5)), at(1, 6, Expr::Str(Label::Num(2)))])),
    );
    let expected = Exp::Call(
        Box::new(Exp::Name(Label::Named(F))),
        Box::new(exps(vec![
            frame_word(temp(6), -8),
            Exp::Const(5),
            Exp::Name(Label::Num(2)),
        ])),
    );
    assert_eq!(run(&call, &setting, None, &mut world), Ok(Typed { exp: expected, typ: POINT }));
    let external = at(1, 1, Expr::Call(PRINT, nodes(vec![at(1, 7, Expr::Str(Label::Num(2)))])));
    let expected = Exp::Call(
        Box::new(Exp::Name(Label::Named(PRINT))),
        Box::new(exps(vec![Exp::Name(Label::Num(2))])),
    );
    assert_eq!(run(&external, &setting, None, &mut world), Ok(Typed { exp: expected, typ: UNIT }));
}

#[test]
fn a_call_is_checked_against_the_formals() {
    let setting = setting();
    let mut world = world(100);
    world.vars.enter(
        F,
        Entry::Fun(Function {
            label: Label::Named(F),
            signature: F_TYPE,
            level: 0,
            external: false,
        }),
    );
    world.vars.enter(X, Entry::Var(Variable { access: Access::InReg(Temp { num: 40 }), typ: INT, level: 0 }));
    let few = at(2, 2, Expr::Call(F, nodes(vec![at(1, 3, Expr::Int(5))])));
    assert_eq!(
        run(&few, &setting, None, &mut world),
        Err(wrong(2, 2, SemanticError::ArityMismatch { expected: 2, actual: 1 }))
    );
    let second = at(
        2,
        2,
        Expr::Call(F, nodes(vec![at(1, 3, Expr::Int(5)), at(1, 6, Expr::Int(6))])),
    );
    assert_eq!(
        run(&second, &setting, None, &mut world),
        Err(wrong(1, 6, SemanticError::TypeMismatch { expected: STRING_NAME, actual: INT_NAME }))
    );
    let no_function = at(3, 3, Expr::Call(X, nodes(vec![])));
    assert_eq!(
        run(&no_function, &setting, None, &mut world),
        Err(wrong(3, 3, SemanticError::UndefinedIdentifier(X)))
    );
    let unknown = at(3, 4, Expr::Call(Y, nodes(vec![])));
    assert_eq!(
        run(&unknown, &setting, None, &mut world),
        Err(wrong(3, 4, SemanticError::UndefinedIdentifier(Y)))
    );
}

#[test]
fn a_declaration_may_name_its_type() {
    let setting = setting();
    let mut world = world(100);
    let declaration = Declaration { name: X, site: IN_REGISTER, annotation: Some(POINT_NAME) };
    let program = at(1, 1, Expr::Let(declaration, node(Expr::Nil), node(Expr::Var(X))));
    let expected = Exp::ESeq(
        Box::new(Stm::Move(temp(100), Exp::Const(0))),
        Box::new(temp(100)),
    );
    assert_eq!(run(&program, &setting, None, &mut world), Ok(Typed { exp: expected, typ: POINT }));
    assert_eq!(world.pointers, vec![Access::InReg(Temp { num: 100 })]);
    let unknown = Declaration { name: X, site: IN_REGISTER, annotation: Some(F) };
    let program = at(9, 1, Expr::Let(unknown, node(Expr::Nil), node(Expr::Var(X))));
    assert_eq!(
        run(&program, &setting, None, &mut world),
        Err(wrong(9, 1, SemanticError::UndefinedType(F)))
    );
    let other = Declaration { name: X, site: IN_REGISTER, annotation: Some(STRING_NAME) };
    let program = at(9, 1, Expr::Let(other, placed(9, 5, Expr::Int(1)), node(Expr::Var(X))));
    assert_eq!(
        run(&program, &setting, None, &mut world),
        Err(wrong(9, 5, SemanticError::TypeMismatch { expected: STRING_NAME, actual: INT_NAME }))
    );
    assert_eq!(world.vars.depth(), 1);
}

#[test]
fn the_object_is_known_inside_a_method_only() {
    let setting = setting();
    let mut world = world(100);
    assert_eq!(
        run(&at(2, 5, Expr::This), &setting, None, &mut world),
        Err(wrong(2, 5, SemanticError::SelfOutsideClass))
    );
    world.vars.enter(
        SELF_NAME,
        Entry::Var(Variable { access: Access::InReg(Temp { num: 41 }), typ: POINT, level: 0 }),
    );
    assert_eq!(
        run(&at(2, 5, Expr::This), &setting, None, &mut world),
        Ok(Typed { exp: temp(41), typ: POINT })
    );
}

#[test]
fn one_expression_after_the_other() {
    let setting = setting();
    let mut world = world(100);
    let program = at(1, 1, Expr::Then(number(1), node(Expr::Unit)));
    let expected = Exp::ESeq(Box::new(Stm::Exp(Exp::Const(1))), Box::new(Exp::Const(0)));
    assert_eq!(run(&program, &setting, None, &mut world), Ok(Typed { exp: expected, typ: UNIT }));
}

#[test]
fn analysis_stops_when_the_temporaries_run_out() {
    let setting = setting();
    let mut world = world(usize::MAX);
    let program = at(1, 1, Expr::Let(plain(X, false), number(1), node(Expr::Var(X))));
    assert_eq!(run(&program, &setting, None, &mut world), Err(Failure::Exhausted));
    assert_eq!(world.vars.depth(), 1);
    let compare = at(1, 1, Expr::Compare(RelOp::Equal, number(1), number(2)));
    assert_eq!(run(&compare, &setting, None, &mut world), Err(Failure::Exhausted));
    let escaping = at(1, 1, Expr::Let(plain(X, true), number(1), node(Expr::Var(X))));
    assert!(run(&escaping, &setting, None, &mut world).is_ok());
}

#[test]
fn a_function_gets_a_frame_and_gives_its_value() {
    let setting = setting();
    let mut vars: Symbols<Entry> = Symbols::new();
    let mut source = TempSource::new(100);
    let definition = Definition {
        position: Position { line: 1, column: 1 },
        name: F,
        signature: G_TYPE,
        label: Label::Named(F),
        formals: vec![
            Formal { name: X, typ: INT, site: IN_REGISTER },
            Formal { name: Y, typ: POINT, site: IN_FRAME },
            Formal { name: PRINT, typ: POINT, site: IN_REGISTER },
        ],
        result: INT,
        body: at(
            2,
            1,
            Expr::Arith(
                BinOp::Plus,
                node(Expr::Var(X)),
                node(Expr::Field(node(Expr::Var(Y)), X)),
            ),
        ),
    };
    let fragment = define(&definition, &setting, 1, &mut vars, &mut source, &mut Vec::new()).unwrap();
    let sum = Exp::BinOp(
        BinOp::Plus,
        Box::new(temp(100)),
        Box::new(frame_word(frame_word(temp(6), -16), 0)),
    );
    assert_eq!(fragment.body, Stm::Move(temp(0), sum));
    assert_eq!(fragment.frame.name, Label::Named(F));
    assert_eq!(
        fragment.frame.formals,
        vec![
            Access::InFrame(-8),
            Access::InReg(Temp { num: 100 }),
            Access::InFrame(-16),
            Access::InReg(Temp { num: 101 }),
        ]
    );
    assert_eq!(fragment.frame.slots, 2);
    assert_eq!(fragment.temp_map, vec![Temp { num: 101 }]);
    assert_eq!(source.peek_temp(), 102);
    assert_eq!(vars.depth(), 1);
    assert_eq!(vars.look(X), None);
}

#[test]
fn a_procedure_gives_no_value() {
    let setting = setting();
    let mut vars: Symbols<Entry> = Symbols::new();
    let mut source = TempSource::new(100);
    let definition = Definition {
        position: Position { line: 1, column: 1 },
        name: F,
        signature: G_TYPE,
        label: Label::Named(F),
        formals: vec![],
        result: UNIT,
        body: at(2, 1, Expr::Unit),
    };
    let fragment = define(&definition, &setting, 1, &mut vars, &mut source, &mut Vec::new()).unwrap();
    assert_eq!(fragment.body, Stm::Exp(Exp::Const(0)));
    assert_eq!(fragment.frame.formals, vec![Access::InFrame(-8)]);
    assert!(fragment.temp_map.is_empty());
}

#[test]
fn a_function_is_checked() {
    let setting = setting();
    let mut vars: Symbols<Entry> = Symbols::new();
    let mut source = TempSource::new(100);
    let twice = Definition {
        position: Position { line: 4, column: 2 },
        name: F,
        signature: G_TYPE,
        label: Label::Named(F),
        formals: vec![
            Formal { name: X, typ: INT, site: IN_REGISTER },
            Formal { name: X, typ: INT, site: IN_REGISTER },
        ],
        result: INT,
        body: at(5, 1, Expr::Var(X)),
    };
    assert_eq!(
        define(&twice, &setting, 1, &mut vars, &mut source, &mut Vec::new()),
        Err(wrong(4, 2, SemanticError::DuplicateDeclaration(X)))
    );
    assert_eq!(vars.depth(), 1);
    let result = Definition {
        position: Position { line: 4, column: 2 },
        name: F,
        signature: G_TYPE,
        label: Label::Named(F),
        formals: vec![Formal { name: X, typ: INT, site: IN_REGISTER }],
        result: STRING,
        body: at(5, 1, Expr::Var(X)),
    };
    assert_eq!(
        define(&result, &setting, 1, &mut vars, &mut source, &mut Vec::new()),
        Err(wrong(5, 1, SemanticError::TypeMismatch { expected: STRING_NAME, actual: INT_NAME }))
    );
    let body = Definition {
        position: Position { line: 4, column: 2 },
        name: F,
        signature: G_TYPE,
        label: Label::Named(F),
        formals: vec![],
        result: INT,
        body: at(5, 1, Expr::Var(X)),
    };
    assert_eq!(
        define(&body, &setting, 1, &mut vars, &mut source, &mut Vec::new()),
        Err(wrong(5, 1, SemanticError::UndefinedIdentifier(X)))
    );
}

fn field(name: usize, line: usize, column: usize, expr: Expr) -> FieldValue {
    FieldValue { name, value: at(line, column, expr) }
}

fn values(items: Vec<FieldValue>) -> Box<List<FieldValue>> {
    let mut list = List::Nil;
    for item in items.into_iter().rev() {
        list = List::Cons(item, Box::new(list));
    }
    Box::new(list)
}

#[test]
fn a_new_record_gets_a_value_for_each_field() {
    let setting = setting();
    let mut world = world(100);
    let program = at(
        1,
        1,
        Expr::Record(
            POINT_NAME,
            Label::Named(90),
            values(vec![
                field(X, 1, 5, Expr::Int(3)),
                field(Y, 1, 9, Expr::Str(Label::Num(7))),
            ]),
        ),
    );
    let allocation = Exp::Call(
        Box::new(Exp::Name(Label::Named(72))),
        Box::new(exps(vec![Exp::Name(Label::Named(90))])),
    );
    let inits = vec![
        FieldInit { offset: 0, value: Exp::Const(3) },
        FieldInit { offset: 8, value: Exp::Name(Label::Num(7)) },
    ];
    let expected = record_creation(allocation, inits, &mut TempSource::new(100)).unwrap();
    assert_eq!(run(&program, &setting, None, &mut world), Ok(Typed { exp: expected, typ: POINT }));
    assert_eq!(world.source.peek_temp(), 101);
    assert_eq!(world.pointers, vec![Access::InReg(Temp { num: 100 })]);
}

#[test]
fn a_new_record_is_checked_against_its_type() {
    let setting = setting();
    let mut world = world(100);
    let unknown = at(2, 2, Expr::Record(F, Label::Named(90), values(vec![])));
    assert_eq!(
        run(&unknown, &setting, None, &mut world),
        Err(wrong(2, 2, SemanticError::UndefinedType(F)))
    );
    let no_record = at(2, 3, Expr::Record(INT_NAME, Label::Named(90), values(vec![])));
    assert_eq!(
        run(&no_record, &setting, None, &mut world),
        Err(wrong(2, 3, SemanticError::UndefinedType(INT_NAME)))
    );
    let few = at(
        2,
        4,
        Expr::Record(POINT_NAME, Label::Named(90), values(vec![field(X, 1, 5, Expr::Int(3))])),
    );
    assert_eq!(
        run(&few, &setting, None, &mut world),
        Err(wrong(2, 4, SemanticError::ArityMismatch { expected: 2, actual: 1 }))
    );
    let order = at(
        2,
        4,
        Expr::Record(
            POINT_NAME,
            Label::Named(90),
            values(vec![
                field(Y, 1, 5, Expr::Str(Label::Num(7))),
                field(X, 1, 9, Expr::Int(3)),
            ]),
        ),
    );
    assert_eq!(
        run(&order, &setting, None, &mut world),
        Err(wrong(1, 5, SemanticError::UndefinedField(Y)))
    );
    let types = at(
        2,
        4,
        Expr::Record(
            POINT_NAME,
            Label::Named(90),
            values(vec![field(X, 1, 5, Expr::Int(3)), field(Y, 1, 9, Expr::Int(4))]),
        ),
    );
    assert_eq!(
        run(&types, &setting, None, &mut world),
        Err(wrong(1, 9, SemanticError::TypeMismatch { expected: STRING_NAME, actual: INT_NAME }))
    );
}

#[test]
fn a_method_is_called_through_the_table_of_its_object() {
    let setting = setting();
    let mut world = world(100);
    world.vars.enter(
        X,
        Entry::Var(Variable { access: Access::InReg(Temp { num: 40 }), typ: SHAPE, level: 0 }),
    );
    let program = at(
        1,
        1,
        Expr::MethodCall(node(Expr::Var(X)), AREA, nodes(vec![at(1, 8, Expr::Int(2))])),
    );
    let expected = method_call(
        temp(40),
        0,
        1,
        temp(6),
        exps(vec![Exp::Const(2)]),
        &mut TempSource::new(100),
    )
    .unwrap();
    assert_eq!(run(&program, &setting, None, &mut world), Ok(Typed { exp: expected, typ: STRING }));
    assert_eq!(world.source.peek_temp(), 101);
}

#[test]
fn a_method_call_is_checked() {
    let setting = setting();
    let mut world = world(100);
    world.vars.enter(
        X,
        Entry::Var(Variable { access: Access::InReg(Temp { num: 40 }), typ: SHAPE, level: 0 }),
    );
    let no_object = at(3, 3, Expr::MethodCall(number(1), AREA, nodes(vec![])));
    assert_eq!(
        run(&no_object, &setting, None, &mut world),
        Err(wrong(3, 3, SemanticError::NotAClass(INT_NAME)))
    );
    let unknown = at(3, 4, Expr::MethodCall(node(Expr::Var(X)), PRINT, nodes(vec![])));
    assert_eq!(
        run(&unknown, &setting, None, &mut world),
        Err(wrong(3, 4, SemanticError::UndefinedIdentifier(PRINT)))
    );
    let few = at(3, 5, Expr::MethodCall(node(Expr::Var(X)), AREA, nodes(vec![])));
    assert_eq!(
        run(&few, &setting, None, &mut world),
        Err(wrong(3, 5, SemanticError::ArityMismatch { expected: 1, actual: 0 }))
    );
    let argument = at(
        3,
        6,
        Expr::MethodCall(node(Expr::Var(X)), AREA, nodes(vec![at(3, 9, Expr::Nil)])),
    );
    assert_eq!(
        run(&argument, &setting, None, &mut world),
        Err(wrong(3, 9, SemanticError::TypeMismatch { expected: INT_NAME, actual: NIL_NAME }))
    );
}

fn functions(items: Vec<Definition>) -> Box<List<Definition>> {
    let mut list = List::Nil;
    for item in items.into_iter().rev() {
        list = List::Cons(item, Box::new(list));
    }
    Box::new(list)
}

fn increment(name: usize, line: usize, body: Expr) -> Definition {
    Definition {
        position: Position { line, column: 1 },
        name,
        label: Label::Named(name),
        formals: vec![Formal { name: X, typ: INT, site: IN_REGISTER }],
        signature: G_TYPE,
        result: INT,
        body: at(line, 9, body),
    }
}

#[test]
fn a_nested_function_reaches_the_variables_around_it() {
    let setting = setting();
    let mut world = world(100);
    let inner = increment(
        F,
        2,
        Expr::Arith(BinOp::Plus, node(Expr::Var(X)), node(Expr::Var(Y))),
    );
    let program = at(
        1,
        1,
        Expr::Let(
            plain(Y, true),
            number(5),
            node(Expr::Functions(
                functions(vec![inner]),
                node(Expr::Call(F, nodes(vec![at(3, 3, Expr::Int(1))]))),
            )),
        ),
    );
    let call = Exp::Call(
        Box::new(Exp::Name(Label::Named(F))),
        Box::new(exps(vec![temp(6), Exp::Const(1)])),
    );
    let expected = Exp::ESeq(
        Box::new(Stm::Move(frame_word(temp(6), -16), Exp::Const(5))),
        Box::new(call),
    );
    assert_eq!(run(&program, &setting, None, &mut world), Ok(Typed { exp: expected, typ: INT }));
    assert_eq!(world.fragments.len(), 1);
    let fragment = &world.fragments[0];
    let outer = frame_word(frame_word(temp(6), -8), -16);
    assert_eq!(
        fragment.body,
        Stm::Move(
            temp(0),
            Exp::BinOp(BinOp::Plus, Box::new(temp(100)), Box::new(outer)),
        )
    );
    assert_eq!(fragment.frame.name, Label::Named(F));
    assert_eq!(
        fragment.frame.formals,
        vec![Access::InFrame(-8), Access::InReg(Temp { num: 100 })]
    );
    assert_eq!(world.frame.slots, 2);
    assert_eq!(world.vars.depth(), 1);
    assert_eq!(world.vars.look(F), None);
}

#[test]
fn the_functions_of_a_group_may_call_one_another() {
    let setting = setting();
    let mut world = world(100);
    let first = increment(F, 2, Expr::Call(G, nodes(vec![at(2, 12, Expr::Var(X))])));
    let second = increment(G, 3, Expr::Call(F, nodes(vec![at(3, 12, Expr::Var(X))])));
    let program = at(
        1,
        1,
        Expr::Functions(functions(vec![first, second]), node(Expr::Unit)),
    );
    assert_eq!(
        run(&program, &setting, None, &mut world),
        Ok(Typed { exp: Exp::Const(0), typ: UNIT })
    );
    assert_eq!(world.fragments.len(), 2);
    let link = frame_word(temp(6), -8);
    assert_eq!(
        world.fragments[0].body,
        Stm::Move(
            temp(0),
            Exp::Call(
                Box::new(Exp::Name(Label::Named(G))),
                Box::new(exps(vec![link, temp(100)])),
            ),
        )
    );
    assert_eq!(world.fragments[1].frame.name, Label::Named(G));
    assert_eq!(
        world.fragments[1].frame.formals,
        vec![Access::InFrame(-8), Access::InReg(Temp { num: 101 })]
    );
}

#[test]
fn a_group_declares_each_function_once() {
    let setting = setting();
    let mut world = world(100);
    let first = increment(F, 2, Expr::Var(X));
    let second = increment(F, 3, Expr::Var(X));
    let program = at(
        1,
        1,
        Expr::Functions(functions(vec![first, second]), node(Expr::Unit)),
    );
    assert_eq!(
        run(&program, &setting, None, &mut world),
        Err(wrong(3, 1, SemanticError::DuplicateDeclaration(F)))
    );
    assert_eq!(world.vars.depth(), 1);
    let wrong_body = increment(F, 2, Expr::Nil);
    let program = at(1, 1, Expr::Functions(functions(vec![wrong_body]), node(Expr::Unit)));
    assert_eq!(
        run(&program, &setting, None, &mut world),
        Err(wrong(2, 9, SemanticError::TypeMismatch { expected: INT_NAME, actual: NIL_NAME }))
    );
    assert_eq!(world.vars.depth(), 1);
}

struct Program {
    names: Strings,
    setting: Setting,
    vars: Symbols<Entry>,
    main: usize,
    printi: usize,
    function_type: usize,
}

fn program() -> Program {
    let mut names = Strings::new();
    let main = names.symbol("main");
    let printi = names.symbol("printi");
    let mut setting = setting();
    let print_type = setting.types.add_function(vec![INT], UNIT);
    let function_type = setting.types.add_function(vec![INT], INT);
    setting.builtins.string_compare = Label::Named(names.symbol("stringEqual"));
    setting.builtins.array_allocator = Label::Named(names.symbol("initArray"));
    setting.builtins.record_allocator = Label::Named(names.symbol("allocRecord"));
    let mut vars = Symbols::new();
    vars.enter(
        printi,
        Entry::Fun(Function {
            label: Label::Named(printi),
            signature: print_type,
            level: 0,
            external: true,
        }),
    );
    Program { names, setting, vars, main, printi, function_type }
}

fn listing(program: &mut Program, body: Node) -> (String, usize) {
    let main = Definition {
        position: Position { line: 1, column: 1 },
        name: program.main,
        label: Label::Named(program.main),
        formals: vec![],
        signature: program.function_type,
        result: UNIT,
        body,
    };
    let mut source = TempSource::new(16);
    let fragments =
        analyse_program(&main, &mut program.setting, 2, &mut program.vars, &mut source).unwrap();
    let count = fragments.len();
    let externals = vec!["printi".to_string()];
    let layout = StringLayout { type_tag: 2, header_words: 2 };
    let compiled =
        compile(&externals, &Vec::new(), fragments, layout, &mut source, &program.names).unwrap();
    (compiled.text, count)
}

fn instructions(text: &str) -> Vec<String> {
    text.lines().map(|line| line.trim().to_string()).collect()
}

#[test]
fn a_program_with_a_variable_is_analysed_and_compiled() {
    let mut program = program();
    let (a, printi) = (program.names.symbol("a"), program.printi);
    let value = Expr::Arith(
        BinOp::Plus,
        number(1),
        node(Expr::Arith(BinOp::Mul, number(2), number(3))),
    );
    let body = at(
        1,
        1,
        Expr::Let(
            plain(a, false),
            node(value),
            node(Expr::Call(printi, nodes(vec![at(1, 30, Expr::Var(a))]))),
        ),
    );
    let (text, count) = listing(&mut program, body);
    assert_eq!(count, 1);
    let lines = instructions(&text);
    assert!(text.starts_with("global main\n"), "{}", text);
    assert!(lines.iter().any(|line| line == "main:"), "{}", text);
    assert!(lines.iter().any(|line| line.starts_with("imul ")), "{}", text);
    assert!(lines.iter().any(|line| line.starts_with("add ")), "{}", text);
    assert!(lines.iter().any(|line| line == "call printi"), "{}", text);
    assert!(lines.iter().all(|line| !line.contains("'d") && !line.contains("'s")), "{}", text);
    assert_eq!(program.vars.depth(), 1);
}

#[test]
fn a_program_with_a_recursive_function_is_analysed_and_compiled() {
    let mut program = program();
    let (fact, n, printi) =
        (program.names.symbol("fact"), program.names.symbol("n"), program.printi);
    let smaller = Expr::Arith(BinOp::Minus, node(Expr::Var(n)), number(1));
    let product = Expr::Arith(
        BinOp::Mul,
        node(Expr::Var(n)),
        node(Expr::Call(fact, nodes(vec![at(2, 40, smaller)]))),
    );
    let value = Expr::If(
        node(Expr::Compare(RelOp::LesserOrEqual, node(Expr::Var(n)), number(1))),
        number(1),
        node(product),
    );
    let definition = Definition {
        position: Position { line: 2, column: 1 },
        name: fact,
        label: Label::Named(fact),
        formals: vec![Formal { name: n, typ: INT, site: IN_REGISTER }],
        signature: program.function_type,
        result: INT,
        body: at(2, 20, value),
    };
    let call = Expr::Call(fact, nodes(vec![at(3, 10, Expr::Int(10))]));
    let body = at(
        1,
        1,
        Expr::Functions(
            functions(vec![definition]),
            node(Expr::Call(printi, nodes(vec![at(3, 8, call)]))),
        ),
    );
    let (text, count) = listing(&mut program, body);
    assert_eq!(count, 2);
    let lines = instructions(&text);
    let fact_at = lines.iter().position(|line| line == "fact:").unwrap();
    let main_at = lines.iter().position(|line| line == "main:").unwrap();
    assert!(fact_at < main_at, "{}", text);
    assert_eq!(lines.iter().filter(|line| *line == "call fact").count(), 2, "{}", text);
    assert!(lines.iter().any(|line| line == "call printi"), "{}", text);
    assert!(lines.iter().any(|line| line.starts_with("imul ")), "{}", text);
    assert!(lines.iter().all(|line| !line.contains("'d") && !line.contains("'s")), "{}", text);
}

#[test]
fn a_wrong_program_is_refused_before_anything_is_compiled() {
    let mut program = program();
    let body = at(1, 1, Expr::Call(program.printi, nodes(vec![at(1, 8, Expr::Nil)])));
    let main = Definition {
        position: Position { line: 1, column: 1 },
        name: program.main,
        label: Label::Named(program.main),
        formals: vec![],
        signature: program.function_type,
        result: UNIT,
        body,
    };
    let mut source = TempSource::new(16);
    assert_eq!(
        analyse_program(&main, &mut program.setting, 2, &mut program.vars, &mut source),
        Err(wrong(1, 8, SemanticError::TypeMismatch { expected: INT_NAME, actual: NIL_NAME }))
    );
}

#[test]
fn types_that_lead_in_a_circle_are_refused() {
    let mut types = Types::new();
    let int = types.add_int();
    let a = types.declare(40);
    let b = types.declare(41);
    let c = types.declare(42);
    assert!(types.resolve(c, int));
    let declared = vec![
        Declared { position: Position { line: 1, column: 1 }, name: 42, typ: c },
        Declared { position: Position { line: 2, column: 1 }, name: 40, typ: a },
        Declared { position: Position { line: 3, column: 1 }, name: 41, typ: b },
    ];
    assert!(types.resolve(a, b));
    assert!(types.resolve(b, a));
    assert_eq!(
        check_types(&types, &declared),
        Some(wrong(2, 1, SemanticError::RecursiveType(40)))
    );
    let mut types = Types::new();
    let int = types.add_int();
    let a = types.declare(40);
    let b = types.declare(41);
    assert!(types.resolve(a, b));
    assert!(types.resolve(b, int));
    let declared = vec![
        Declared { position: Position { line: 2, column: 1 }, name: 40, typ: a },
        Declared { position: Position { line: 3, column: 1 }, name: 41, typ: b },
    ];
    assert_eq!(check_types(&types, &declared), None);
}

#[test]
fn a_class_has_a_table_of_its_methods() {
    let setting = setting();
    assert_eq!(
        vtable(&setting.types, SHAPE),
        Some(Fragment::VTable {
            class: Label::Named(82),
            methods: vec![Label::Named(80), Label::Named(81)],
        })
    );
    assert_eq!(vtable(&setting.types, POINT), None);
    assert_eq!(vtable(&setting.types, 1000), None);
}

#[test]
fn a_chosen_pointer_is_noted() {
    let setting = setting();
    let mut world = world(100);
    world.vars.enter(X, Entry::Var(Variable { access: Access::InReg(Temp { num: 40 }), typ: POINT, level: 0 }));
    let program = at(1, 1, Expr::If(number(1), node(Expr::Var(X)), node(Expr::Nil)));
    let expected = if_then_else(Exp::Const(1), temp(40), Exp::Const(0), &mut TempSource::new(100)).unwrap();
    assert_eq!(run(&program, &setting, None, &mut world), Ok(Typed { exp: expected, typ: POINT }));
    assert_eq!(world.pointers, vec![Access::InReg(Temp { num: 100 })]);
    let numbers = at(1, 1, Expr::If(number(1), number(2), number(3)));
    assert!(run(&numbers, &setting, None, &mut world).is_ok());
    assert_eq!(world.pointers, vec![Access::InReg(Temp { num: 100 })]);
}

fn declared(name: usize, site: usize) -> Declaration {
    Declaration { name, site, annotation: None }
}

fn nested() -> Definition {
    let inner = Definition {
        position: Position { line: 2, column: 1 },
        name: F,
        label: Label::Named(F),
        formals: vec![Formal { name: X, typ: INT, site: 2 }],
        signature: G_TYPE,
        result: INT,
        body: at(2, 9, Expr::Arith(BinOp::Plus, node(Expr::Var(X)), node(Expr::Var(Y)))),
    };
    let body = Expr::Let(
        declared(Y, 0),
        number(5),
        node(Expr::Let(
            declared(G, 1),
            number(6),
            node(Expr::Functions(
                functions(vec![inner]),
                node(Expr::Arith(
                    BinOp::Plus,
                    node(Expr::Var(G)),
                    node(Expr::Call(F, nodes(vec![at(3, 3, Expr::Int(1))]))),
                )),
            )),
        )),
    );
    Definition {
        position: Position { line: 1, column: 1 },
        name: PRINT,
        label: Label::Named(PRINT),
        formals: vec![],
        signature: G_TYPE,
        result: INT,
        body: at(1, 1, body),
    }
}

#[test]
fn the_walk_meets_declarations_and_uses_in_order() {
    let program = at(
        1,
        1,
        Expr::Let(declared(X, 4), node(Expr::Var(Y)), node(Expr::Assign(node(Expr::Var(X)), node(Expr::This)))),
    );
    let mut events = vec![Event::BeginFunction];
    walk(&program, SELF_NAME, &mut events);
    assert_eq!(
        events,
        vec![
            Event::BeginFunction,
            Event::Use { name: Y },
            Event::BeginScope,
            Event::Declare { name: X, site: 4 },
            Event::Use { name: X },
            Event::Use { name: SELF_NAME },
            Event::EndScope,
        ]
    );
}

#[test]
fn a_variable_that_a_nested_function_uses_escapes() {
    let main = nested();
    assert_eq!(program_escapes(&main, SELF_NAME, 3), vec![true, false, false]);
    assert_eq!(program_escapes(&main, SELF_NAME, 0), Vec::<bool>::new());
}

#[test]
fn a_program_puts_its_escaping_variables_in_the_frame() {
    let mut setting = setting();
    let mut vars: Symbols<Entry> = Symbols::new();
    let mut source = TempSource::new(100);
    let main = nested();
    let fragments = analyse_program(&main, &mut setting, 3, &mut vars, &mut source).unwrap();
    assert_eq!(setting.escapes, vec![true, false, false]);
    assert_eq!(fragments.len(), 2);
    let outer = frame_word(frame_word(temp(6), -8), -16);
    assert_eq!(
        fragments[0].body,
        Stm::Move(temp(0), Exp::BinOp(BinOp::Plus, Box::new(temp(101)), Box::new(outer)))
    );
    assert_eq!(fragments[1].frame.slots, 2);
    let call = Exp::Call(
        Box::new(Exp::Name(Label::Named(F))),
        Box::new(exps(vec![temp(6), Exp::Const(1)])),
    );
    let sum = Exp::BinOp(BinOp::Plus, Box::new(temp(100)), Box::new(call));
    let inner = Exp::ESeq(Box::new(Stm::Move(temp(100), Exp::Const(6))), Box::new(sum));
    let whole = Exp::ESeq(
        Box::new(Stm::Move(frame_word(temp(6), -16), Exp::Const(5))),
        Box::new(inner),
    );
    assert_eq!(fragments[1].body, Stm::Move(temp(0), whole));
}

#[test]
fn an_escaping_pointer_is_noted_with_its_word_of_the_frame() {
    let setting = setting();
    let mut vars: Symbols<Entry> = Symbols::new();
    let mut source = TempSource::new(100);
    let record = Declaration { name: Y, site: IN_FRAME, annotation: Some(POINT_NAME) };
    let number_in_frame = Declaration { name: G, site: IN_FRAME, annotation: None };
    let definition = Definition {
        position: Position { line: 1, column: 1 },
        name: F,
        label: Label::Named(F),
        formals: vec![
            Formal { name: X, typ: POINT, site: IN_FRAME },
            Formal { name: PRINT, typ: POINT, site: IN_REGISTER },
        ],
        signature: G_TYPE,
        result: INT,
        body: at(
            2,
            1,
            Expr::Let(
                record,
                node(Expr::Nil),
                node(Expr::Let(number_in_frame, number(1), number(2))),
            ),
        ),
    };
    let fragment = define(&definition, &setting, 1, &mut vars, &mut source, &mut Vec::new()).unwrap();
    assert_eq!(fragment.temp_map, vec![Temp { num: 100 }]);
    assert_eq!(fragment.escaping_vars, vec![-16, -24]);
    assert_eq!(fragment.frame.slots, 4);
}
