//! The analyser: it checks an expression against the types and the
//! variables in scope and, in the same pass, gives the tree that the
//! expression stands for.

use crate::blocks::{jump_to, label_of};
use crate::canon::temp_of;
use crate::compile::{Fragment, FunctionFragment};
use crate::diagnostic::Position;
use crate::env::{bound_in, entered, looked, Binding, Symbols};
use crate::error::{CompilationError, ErrorKind, SemanticError};
use crate::frame::{accesses_from, external_call, slot_offset, Access, Frame, MAX_SLOTS, RAX};
use crate::ir::{BinOp, Exp, List, RelOp, Stm};
use crate::symbol::Symbol;
use crate::temp::{Label, Temp, TempSource};
use crate::translate::{
    arithmetic, array_allocation, array_filled, assign, break_to, call_function, chosen, compared,
    counted, created, dispatched, element, field_var, filling, for_loop, frame_pointer_at,
    function_body, guarded, if_then, if_then_else, int_literal, looped, method_call, nil,
    procedure_body, record_creation, relational, simple_var, static_link, string_literal,
    string_relational, strings_compared, subscript_var, unit, valued, variable, while_loop,
    word_at, FieldInit,
};
use crate::types::{actual, compatible, Field, Method, Type, TypeId, Types};
use crate::walk::{escaping, program_escapes};
use vstd::prelude::*;

verus! {

/// The declaration of a variable: its name, the number that tells the
/// declaration from all others, and the name of its type where the
/// program gives one.
#[derive(Clone, Copy, Debug, PartialEq, Eq)]
pub struct Declaration {
    pub name: Symbol,
    pub site: usize,
    pub annotation: Option<Symbol>,
}

/// An expression of the language.
#[derive(Debug, PartialEq, Eq)]
pub enum Expr {
    Int(i64),
    Nil,
    Unit,
    /// A string, under the label that the table of literals gave it.
    Str(Label),
    Var(Symbol),
    /// A field of a record or an object.
    Field(Box<Node>, Symbol),
    /// An element of an array.
    Subscript(Box<Node>, Box<Node>),
    /// The call of a function with its arguments.
    Call(Symbol, Box<List<Node>>),
    Arith(BinOp, Box<Node>, Box<Node>),
    Compare(RelOp, Box<Node>, Box<Node>),
    If(Box<Node>, Box<Node>, Box<Node>),
    IfThen(Box<Node>, Box<Node>),
    While(Box<Node>, Box<Node>),
    Break,
    /// A new value for a variable, a field or an element.
    Assign(Box<Node>, Box<Node>),
    /// A variable with its first value, and the expression that it is
    /// declared for.
    Let(Declaration, Box<Node>, Box<Node>),
    /// Two expressions one after the other; the value is the second's.
    Then(Box<Node>, Box<Node>),
    /// A loop over a new variable, from the value of the first expression
    /// up to the value of the second.
    For(Declaration, Box<Node>, Box<Node>, Box<Node>),
    /// A new array of the named type, with its number of elements and the
    /// value that each element starts with.
    Array(Symbol, Box<Node>, Box<Node>),
    /// The object that a method was called on.
    This,
    /// A new record of the named type, with the label under which the
    /// runtime finds its layout and a value for each field, in the order
    /// of the fields.
    Record(Symbol, Label, Box<List<FieldValue>>),
    /// The call of a method of an object with its arguments.
    MethodCall(Box<Node>, Symbol, Box<List<Node>>),
    /// Functions that may call one another, and the expression that they
    /// are declared for.
    Functions(Box<List<Definition>>, Box<Node>),
}

/// A formal of a function: its name, its type, and the number that
/// tells its declaration from all others.
#[derive(Clone, Copy, Debug, PartialEq, Eq)]
pub struct Formal {
    pub name: Symbol,
    pub typ: TypeId,
    pub site: usize,
}

/// The declaration of a function: its name, its label, its formals, its
/// type in the table of types, the type of its result and its body.
#[derive(Debug, PartialEq, Eq)]
pub struct Definition {
    pub position: Position,
    pub name: Symbol,
    pub label: Label,
    pub formals: Vec<Formal>,
    pub signature: TypeId,
    pub result: TypeId,
    pub body: Node,
}

/// The value that a field of a new record starts with.
#[derive(Debug, PartialEq, Eq)]
pub struct FieldValue {
    pub name: Symbol,
    pub value: Node,
}

/// An expression and the place where it stands in the source.
#[derive(Debug, PartialEq, Eq)]
pub struct Node {
    pub position: Position,
    pub expr: Expr,
}

/// A variable in scope: where it lives, its type, and how deeply the
/// function that declares it is nested.
#[derive(Clone, Copy, Debug, PartialEq, Eq)]
pub struct Variable {
    pub access: Access,
    pub typ: TypeId,
    pub level: usize,
}

/// A function in scope: its label, its type in the table of types, and
/// how deeply the function that declares it is nested. A function of the
/// runtime is external and gets no static link.
#[derive(Clone, Copy, Debug, PartialEq, Eq)]
pub struct Function {
    pub label: Label,
    pub signature: TypeId,
    pub level: usize,
    pub external: bool,
}

/// What a name of a value stands for.
#[derive(Clone, Copy, Debug, PartialEq, Eq)]
pub enum Entry {
    Var(Variable),
    Fun(Function),
}

/// The types that the language has from the start; the functions of the
/// runtime that compare two strings, make an array and make a record; the
/// number of bytes in front of the elements of an array; and the offset
/// of the table of methods in an object.
#[derive(Clone, Copy, Debug, PartialEq, Eq)]
pub struct Builtins {
    pub int: TypeId,
    pub string: TypeId,
    pub unit: TypeId,
    pub nil: TypeId,
    pub string_compare: Label,
    pub array_allocator: Label,
    pub array_header: i64,
    pub record_allocator: Label,
    pub vtable_offset: i64,
}

/// The names under which an error speaks of the types that have none of
/// their own.
#[derive(Clone, Copy, Debug, PartialEq, Eq)]
pub struct TypeNames {
    pub int: Symbol,
    pub string: Symbol,
    pub unit: Symbol,
    pub nil: Symbol,
    pub array: Symbol,
    pub function: Symbol,
    pub unknown: Symbol,
}

/// What an expression is analysed in: the table of types, the names of
/// types in scope, the name under which a method finds its object, and
/// for each declaration of a variable whether the variable escapes.
pub struct Setting {
    pub types: Types,
    pub named: Symbols<TypeId>,
    pub builtins: Builtins,
    pub names: TypeNames,
    pub receiver: Symbol,
    pub escapes: Vec<bool>,
}

/// Whether the variable of a declaration has to live in the frame: it is
/// marked, or nothing is known of it.
pub open spec fn escapes_at(marks: Seq<bool>, site: usize) -> bool {
    site >= marks.len() || marks[site as int]
}

/// An expression that has been checked: its tree and its type.
#[derive(Debug, PartialEq, Eq)]
pub struct Typed {
    pub exp: Exp,
    pub typ: TypeId,
}

/// Why an expression has no tree.
#[derive(Clone, Copy, Debug, PartialEq, Eq)]
pub enum Failure {
    /// The program is wrong.
    Rejected(CompilationError),
    /// There is no temporary, label or word of the frame left.
    Exhausted,
}

/// The numbers of the next temporary and the next label.
pub struct Counters {
    pub temp: nat,
    pub label: nat,
}

/// A function that has been analysed: its body, its label, the homes of
/// its formals with the static link first, the number of words of its
/// frame that are in use, the temporaries that hold pointers, and the
/// words of the frame in which variables that escape hold pointers.
pub struct Defined {
    pub body: Stm,
    pub name: Label,
    pub homes: Seq<Access>,
    pub slots: nat,
    pub pointers: Seq<Temp>,
    pub escaping: Seq<i64>,
}

/// The temporaries among the first `count` homes.
pub open spec fn registers_among(homes: Seq<Access>, count: int) -> Seq<Temp>
    decreases count,
{
    if count <= 0 || count > homes.len() {
        Seq::empty()
    } else {
        match homes[count - 1] {
            Access::InReg(temp) => registers_among(homes, count - 1).push(temp),
            Access::InFrame(_) => registers_among(homes, count - 1),
        }
    }
}

/// The words of the frame among the first `count` homes.
pub open spec fn words_among(homes: Seq<Access>, count: int) -> Seq<i64>
    decreases count,
{
    if count <= 0 || count > homes.len() {
        Seq::empty()
    } else {
        match homes[count - 1] {
            Access::InReg(_) => words_among(homes, count - 1),
            Access::InFrame(offset) => words_among(homes, count - 1).push(offset),
        }
    }
}

/// What a function that is being analysed has used: the counters, the
/// number of words handed out in its frame, and the temporaries that hold
/// pointers.
pub struct Room {
    pub counters: Counters,
    pub slots: nat,
    pub pointers: Seq<Access>,
}

/// The counters, the number of words handed out in the frame, the
/// temporaries that hold pointers, and the functions that have been
/// analysed.
pub struct Progress {
    pub counters: Counters,
    pub slots: nat,
    pub pointers: Seq<Access>,
    pub fragments: Seq<Defined>,
}

/// A function that has been analysed, as a plain value.
pub open spec fn fragment_view(fragment: FunctionFragment) -> Defined {
    Defined {
        body: fragment.body,
        name: fragment.frame.name,
        homes: fragment.frame.formals@,
        slots: fragment.frame.slots as nat,
        pointers: fragment.temp_map@,
        escaping: fragment.escaping_vars@,
    }
}

/// Whether the frame of each function is within its limits.
pub open spec fn frames_fit(fragments: Seq<FunctionFragment>) -> bool {
    forall|i: int| 0 <= i < fragments.len() ==> (#[trigger] fragments[i]).frame.wf()
}

/// The functions that have been analysed, as plain values.
pub open spec fn fragment_views(fragments: Seq<FunctionFragment>) -> Seq<Defined> {
    fragments.map_values(|fragment: FunctionFragment| fragment_view(fragment))
}

/// What a frame, a source and a list of pointers say of a function.
pub open spec fn room_of(frame: Frame, source: TempSource, pointers: Seq<Access>) -> Room {
    Room { counters: counters_of(source), slots: frame.slots as nat, pointers }
}

/// The counters of a source of temporaries and labels.
pub open spec fn counters_of(source: TempSource) -> Counters {
    Counters { temp: source.next_temp(), label: source.next_label() }
}

/// How far the analysis has got.
pub open spec fn progress_of(
    frame: Frame,
    source: TempSource,
    pointers: Seq<Access>,
    fragments: Seq<FunctionFragment>,
) -> Progress {
    Progress {
        counters: counters_of(source),
        slots: frame.slots as nat,
        pointers,
        fragments: fragment_views(fragments),
    }
}

/// The same progress but for the counters.
pub open spec fn with_counters(at: Progress, counters: Counters) -> Progress {
    Progress { counters, slots: at.slots, pointers: at.pointers, fragments: at.fragments }
}

/// The counters after so many temporaries and labels have been taken, or
/// `None` where there are not as many.
pub open spec fn taking(at: Counters, temps: nat, labels: nat) -> Option<Counters> {
    if at.temp + temps > usize::MAX || at.label + labels > usize::MAX {
        None
    } else {
        Some(Counters { temp: at.temp + temps, label: at.label + labels })
    }
}

/// A result over the counters, as one over the whole progress.
pub open spec fn kept(result: Result<(Typed, Counters), Failure>, at: Progress) -> Result<
    (Typed, Progress),
    Failure,
> {
    match result {
        Ok((typed, counters)) => Ok((typed, with_counters(at, counters))),
        Err(failure) => Err(failure),
    }
}

/// A result over the counters, as one over the whole progress, for a
/// value that is kept in the temporary that was the next one before: a
/// temporary that holds a pointer is noted.
pub open spec fn held(
    result: Result<(Typed, Counters), Failure>,
    at: Progress,
    table: Seq<Type>,
) -> Result<(Typed, Progress), Failure> {
    match result {
        Ok((typed, counters)) => Ok(
            (
                typed,
                Progress {
                    counters,
                    slots: at.slots,
                    pointers: if is_pointer(table, typed.typ) {
                        at.pointers.push(Access::InReg(temp_of(at.counters.temp)))
                    } else {
                        at.pointers
                    },
                    fragments: at.fragments,
                },
            ),
        ),
        Err(failure) => Err(failure),
    }
}

/// The name under which an error speaks of a type.
pub open spec fn named_as(table: Seq<Type>, names: TypeNames, id: TypeId) -> Symbol {
    if id >= table.len() {
        names.unknown
    } else {
        match table[id as int] {
            Type::Int => names.int,
            Type::String => names.string,
            Type::Unit => names.unit,
            Type::Nil => names.nil,
            Type::Record { name, .. } => name,
            Type::Array { .. } => names.array,
            Type::Class { name, .. } => name,
            Type::Name { name, .. } => name,
            Type::Function { .. } => names.function,
        }
    }
}

/// The failure that says what is wrong at a place.
pub open spec fn rejected(position: Position, error: SemanticError) -> Failure {
    Failure::Rejected(CompilationError { position, kind: ErrorKind::Semantic(error) })
}

/// The failure that says that a value of one type stands where another
/// is asked for.
pub open spec fn mismatched(setting: Setting, position: Position, expected: TypeId, found: TypeId) -> Failure {
    rejected(
        position,
        SemanticError::TypeMismatch {
            expected: named_as(setting.types@, setting.names, expected),
            actual: named_as(setting.types@, setting.names, found),
        },
    )
}

/// Whether a type stands for the type of strings.
pub open spec fn is_text(table: Seq<Type>, id: TypeId) -> bool {
    match actual(table, id) {
        Some(found) => found < table.len() && table[found as int] is String,
        None => false,
    }
}

/// The number of static links between a function at the given depth and
/// the frame of the function at the depth `declared_at`.
pub open spec fn hops_to(level: usize, declared_at: usize) -> nat {
    if declared_at <= level {
        (level - declared_at) as nat
    } else {
        0
    }
}

/// A variable that is read.
pub open spec fn fetched(level: usize, found: Variable) -> Typed {
    Typed { exp: variable(found.access, hops_to(level, found.level)), typ: found.typ }
}

/// An arithmetic operation: both sides have to be integers.
pub open spec fn calculated(
    setting: Setting,
    op: BinOp,
    left: Position,
    right: Position,
    first: Typed,
    second: Typed,
) -> Result<Typed, Failure> {
    let number = setting.builtins.int;
    if !compatible(setting.types@, number, first.typ) {
        Err(mismatched(setting, left, number, first.typ))
    } else if !compatible(setting.types@, number, second.typ) {
        Err(mismatched(setting, right, number, second.typ))
    } else {
        Ok(Typed { exp: Exp::BinOp(op, Box::new(first.exp), Box::new(second.exp)), typ: number })
    }
}

/// A comparison: one side has to be of a type that may stand for the
/// other's. Strings are compared by the runtime. The value is one or
/// zero.
pub open spec fn related(
    setting: Setting,
    op: RelOp,
    position: Position,
    first: Typed,
    second: Typed,
    at: Counters,
) -> Result<(Typed, Counters), Failure> {
    let table = setting.types@;
    if !compatible(table, first.typ, second.typ) && !compatible(table, second.typ, first.typ) {
        Err(mismatched(setting, position, first.typ, second.typ))
    } else {
        match taking(at, 1, 3) {
            None => Err(Failure::Exhausted),
            Some(after) => Ok(
                (
                    Typed {
                        exp: if is_text(table, first.typ) {
                            compared(
                                op,
                                strings_compared(
                                    setting.builtins.string_compare,
                                    first.exp,
                                    second.exp,
                                ),
                                Exp::Const(0),
                                at.temp,
                                at.label,
                            )
                        } else {
                            compared(op, first.exp, second.exp, at.temp, at.label)
                        },
                        typ: setting.builtins.int,
                    },
                    after,
                ),
            ),
        }
    }
}

/// A conditional with two branches: the condition has to be an integer,
/// and one branch of a type that may stand for the other's, which is the
/// type of the whole.
pub open spec fn decided(
    setting: Setting,
    test: Position,
    position: Position,
    condition: Typed,
    then: Typed,
    otherwise: Typed,
    at: Counters,
) -> Result<(Typed, Counters), Failure> {
    let table = setting.types@;
    let number = setting.builtins.int;
    if !compatible(table, number, condition.typ) {
        Err(mismatched(setting, test, number, condition.typ))
    } else if !compatible(table, then.typ, otherwise.typ) && !compatible(
        table,
        otherwise.typ,
        then.typ,
    ) {
        Err(mismatched(setting, position, then.typ, otherwise.typ))
    } else {
        match taking(at, 1, 3) {
            None => Err(Failure::Exhausted),
            Some(after) => Ok(
                (
                    Typed {
                        exp: chosen(condition.exp, then.exp, otherwise.exp, at.temp, at.label),
                        typ: if compatible(table, then.typ, otherwise.typ) {
                            then.typ
                        } else {
                            otherwise.typ
                        },
                    },
                    after,
                ),
            ),
        }
    }
}

/// A conditional with one branch: the condition has to be an integer and
/// the branch without a value.
pub open spec fn guarding(
    setting: Setting,
    test: Position,
    position: Position,
    condition: Typed,
    then: Typed,
    at: Counters,
) -> Result<(Typed, Counters), Failure> {
    let table = setting.types@;
    let number = setting.builtins.int;
    let nothing = setting.builtins.unit;
    if !compatible(table, number, condition.typ) {
        Err(mismatched(setting, test, number, condition.typ))
    } else if !compatible(table, nothing, then.typ) {
        Err(mismatched(setting, position, nothing, then.typ))
    } else {
        match taking(at, 0, 2) {
            None => Err(Failure::Exhausted),
            Some(after) => Ok(
                (
                    Typed {
                        exp: valued(
                            guarded(
                                condition.exp,
                                then.exp,
                                label_of(at.label),
                                label_of(at.label + 1),
                            ),
                            Exp::Const(0),
                        ),
                        typ: nothing,
                    },
                    after,
                ),
            ),
        }
    }
}

/// A loop: the condition has to be an integer and the body without a
/// value. `done` is the label that stands behind the loop.
pub open spec fn repeated(
    setting: Setting,
    test: Position,
    position: Position,
    condition: Typed,
    body: Typed,
    done: Label,
    at: Counters,
) -> Result<(Typed, Counters), Failure> {
    let table = setting.types@;
    let number = setting.builtins.int;
    let nothing = setting.builtins.unit;
    if !compatible(table, number, condition.typ) {
        Err(mismatched(setting, test, number, condition.typ))
    } else if !compatible(table, nothing, body.typ) {
        Err(mismatched(setting, position, nothing, body.typ))
    } else {
        match taking(at, 0, 2) {
            None => Err(Failure::Exhausted),
            Some(after) => Ok(
                (
                    Typed {
                        exp: valued(
                            looped(
                                condition.exp,
                                body.exp,
                                label_of(at.label),
                                label_of(at.label + 1),
                                done,
                            ),
                            Exp::Const(0),
                        ),
                        typ: nothing,
                    },
                    after,
                ),
            ),
        }
    }
}

/// An assignment: the value has to be of a type that may stand for the
/// target's. It has no value of its own.
pub open spec fn stored(setting: Setting, position: Position, target: Typed, value: Typed) -> Result<
    Typed,
    Failure,
> {
    if !compatible(setting.types@, target.typ, value.typ) {
        Err(mismatched(setting, position, target.typ, value.typ))
    } else {
        Ok(
            Typed {
                exp: Exp::ESeq(
                    Box::new(Stm::Move(target.exp, value.exp)),
                    Box::new(Exp::Const(0)),
                ),
                typ: setting.builtins.unit,
            },
        )
    }
}

/// The first field of the name among the fields from `from` on.
pub open spec fn field_named(fields: Seq<Field>, name: Symbol, from: int) -> Option<Field>
    decreases fields.len() - from,
{
    if from < 0 || from >= fields.len() {
        None
    } else if fields[from].name == name {
        Some(fields[from])
    } else {
        field_named(fields, name, from + 1)
    }
}

/// The fields of the record or the class that a type stands for.
pub open spec fn fields_of(table: Seq<Type>, id: TypeId) -> Option<Seq<Field>> {
    match actual(table, id) {
        Some(found) => if found < table.len() {
            match table[found as int] {
                Type::Record { fields, .. } => Some(fields@),
                Type::Class { fields, .. } => Some(fields@),
                _ => None,
            }
        } else {
            None
        },
        None => None,
    }
}

/// A field of a value: the value has to be a record or an object with a
/// field of the name.
pub open spec fn selected(setting: Setting, position: Position, base: Typed, name: Symbol) -> Result<
    Typed,
    Failure,
> {
    match fields_of(setting.types@, base.typ) {
        None => Err(rejected(position, SemanticError::UndefinedField(name))),
        Some(fields) => match field_named(fields, name, 0) {
            None => Err(rejected(position, SemanticError::UndefinedField(name))),
            Some(field) => Ok(Typed { exp: word_at(base.exp, field.offset), typ: field.typ }),
        },
    }
}

/// The type of the elements of the array that a type stands for.
pub open spec fn element_of(table: Seq<Type>, id: TypeId) -> Option<TypeId> {
    match actual(table, id) {
        Some(found) => if found < table.len() {
            match table[found as int] {
                Type::Array { element, .. } => Some(element),
                _ => None,
            }
        } else {
            None
        },
        None => None,
    }
}

/// An element of a value: the value has to be an array and the index an
/// integer.
pub open spec fn indexed(
    setting: Setting,
    position: Position,
    place: Position,
    base: Typed,
    index: Typed,
) -> Result<Typed, Failure> {
    match element_of(setting.types@, base.typ) {
        None => Err(
            rejected(
                position,
                SemanticError::TypeMismatch {
                    expected: setting.names.array,
                    actual: named_as(setting.types@, setting.names, base.typ),
                },
            ),
        ),
        Some(typ) => if !compatible(setting.types@, setting.builtins.int, index.typ) {
            Err(mismatched(setting, place, setting.builtins.int, index.typ))
        } else {
            Ok(Typed { exp: element(base.exp, index.exp, setting.builtins.array_header), typ })
        },
    }
}

/// A number of items as a machine integer, which stands for every larger
/// number too.
pub open spec fn capped(count: nat) -> usize {
    if count > usize::MAX {
        usize::MAX
    } else {
        count as usize
    }
}

/// The position of the formal behind the one at `index`: the last
/// position stands for every later one.
pub open spec fn next_formal(formals: Seq<TypeId>, index: usize) -> usize {
    if index < formals.len() {
        (index + 1) as usize
    } else {
        index
    }
}

/// The types of the arguments and of the result of the function that a
/// type of the table is.
pub open spec fn signature_of(table: Seq<Type>, id: TypeId) -> Option<(Seq<TypeId>, TypeId)> {
    if id < table.len() {
        match table[id as int] {
            Type::Function { formals, result } => Some((formals@, result)),
            _ => None,
        }
    } else {
        None
    }
}

/// The call of a function with the values of its arguments: a function
/// of the program gets the frame pointer of the function that declares it
/// in front of them.
pub open spec fn called(level: usize, function: Function, result: TypeId, values: List<Exp>) -> Typed {
    Typed {
        exp: if function.external {
            Exp::Call(Box::new(Exp::Name(function.label)), Box::new(values))
        } else {
            Exp::Call(
                Box::new(Exp::Name(function.label)),
                Box::new(
                    List::Cons(
                        frame_pointer_at(hops_to(level, function.level)),
                        Box::new(values),
                    ),
                ),
            )
        },
        typ: result,
    }
}

/// The type of a variable that is declared with a first value of the
/// type `found`: the type that the declaration names, which has to be
/// known and has to admit the value, or else the type of the value.
pub open spec fn declared(
    setting: Setting,
    position: Position,
    value: Position,
    annotation: Option<Symbol>,
    found: TypeId,
) -> Result<TypeId, Failure> {
    match annotation {
        None => Ok(found),
        Some(name) => match looked(setting.named@, name) {
            None => Err(rejected(position, SemanticError::UndefinedType(name))),
            Some(expected) => if compatible(setting.types@, expected, found) {
                Ok(expected)
            } else {
                Err(mismatched(setting, value, expected, found))
            },
        },
    }
}

/// Whether a value of the type is a pointer into the heap.
pub open spec fn is_pointer(table: Seq<Type>, id: TypeId) -> bool {
    match actual(table, id) {
        Some(found) => found < table.len() && (table[found as int] is Record
            || table[found as int] is Array || table[found as int] is Class
            || table[found as int] is String),
        None => false,
    }
}

/// The home of a new variable: the next word of the frame where it
/// escapes, the next temporary where it does not; `None` where there is
/// none left. A temporary that holds a pointer is noted.
pub open spec fn placed(escapes: bool, pointer: bool, at: Room) -> Option<(Access, Room)> {
    if escapes {
        if at.slots >= MAX_SLOTS {
            None
        } else {
            Some(
                (
                    Access::InFrame(slot_offset(at.slots) as i64),
                    Room {
                        counters: at.counters,
                        slots: at.slots + 1,
                        pointers: noted(
                            at.pointers,
                            Access::InFrame(slot_offset(at.slots) as i64),
                            pointer,
                        ),
                    },
                ),
            )
        }
    } else {
        match taking(at.counters, 1, 0) {
            None => None,
            Some(counters) => Some(
                (
                    Access::InReg(temp_of(at.counters.temp)),
                    Room {
                        counters,
                        slots: at.slots,
                        pointers: noted(
                            at.pointers,
                            Access::InReg(temp_of(at.counters.temp)),
                            pointer,
                        ),
                    },
                ),
            ),
        }
    }
}

/// The home of a new variable, and how far the analysis has got with it.
pub open spec fn homed(escapes: bool, pointer: bool, at: Progress) -> Option<(Access, Progress)> {
    match placed(
        escapes,
        pointer,
        Room { counters: at.counters, slots: at.slots, pointers: at.pointers },
    ) {
        None => None,
        Some((access, room)) => Some(
            (
                access,
                Progress {
                    counters: room.counters,
                    slots: room.slots,
                    pointers: room.pointers,
                    fragments: at.fragments,
                },
            ),
        ),
    }
}

/// What is wrong with the bounds of a counting loop, if anything: both
/// have to be integers.
pub open spec fn bounded(
    setting: Setting,
    low: Position,
    high: Position,
    first: TypeId,
    last: TypeId,
) -> Option<Failure> {
    let number = setting.builtins.int;
    if !compatible(setting.types@, number, first) {
        Some(mismatched(setting, low, number, first))
    } else if !compatible(setting.types@, number, last) {
        Some(mismatched(setting, high, number, last))
    } else {
        None
    }
}

/// A counting loop over the variable at `home`: the body has to be
/// without a value. `done` is the label that stands behind the loop.
pub open spec fn iterated(
    setting: Setting,
    position: Position,
    home: Access,
    low: Exp,
    high: Exp,
    body: Typed,
    done: Label,
    at: Counters,
) -> Result<(Typed, Counters), Failure> {
    let nothing = setting.builtins.unit;
    if !compatible(setting.types@, nothing, body.typ) {
        Err(mismatched(setting, position, nothing, body.typ))
    } else {
        match taking(at, 1, 2) {
            None => Err(Failure::Exhausted),
            Some(after) => Ok(
                (
                    Typed {
                        exp: valued(
                            counted(
                                home,
                                low,
                                high,
                                body.exp,
                                temp_of(at.temp),
                                label_of(at.label),
                                label_of(at.label + 1),
                                done,
                            ),
                            Exp::Const(0),
                        ),
                        typ: nothing,
                    },
                    after,
                ),
            ),
        }
    }
}

/// A new array of the named type: the name has to stand for an array,
/// the number of elements has to be an integer, and the first value of
/// the elements of a type that may stand for theirs.
pub open spec fn arrayed(
    setting: Setting,
    position: Position,
    name: Symbol,
    size: Position,
    length: Typed,
    init: Position,
    value: Typed,
    at: Counters,
) -> Result<(Typed, Counters), Failure> {
    let table = setting.types@;
    match looked(setting.named@, name) {
        None => Err(rejected(position, SemanticError::UndefinedType(name))),
        Some(typ) => match element_of(table, typ) {
            None => Err(
                rejected(
                    position,
                    SemanticError::TypeMismatch {
                        expected: setting.names.array,
                        actual: named_as(table, setting.names, typ),
                    },
                ),
            ),
            Some(element) => if !compatible(table, setting.builtins.int, length.typ) {
                Err(mismatched(setting, size, setting.builtins.int, length.typ))
            } else if !compatible(table, element, value.typ) {
                Err(mismatched(setting, init, element, value.typ))
            } else {
                match taking(at, 3, 2) {
                    None => Err(Failure::Exhausted),
                    Some(after) => Ok(
                        (
                            Typed {
                                exp: valued(
                                    filling(
                                        array_allocation(
                                            setting.builtins.array_allocator,
                                            temp_of(at.temp + 1),
                                        ),
                                        length.exp,
                                        value.exp,
                                        setting.builtins.array_header,
                                        temp_of(at.temp),
                                        temp_of(at.temp + 1),
                                        temp_of(at.temp + 2),
                                        label_of(at.label),
                                        label_of(at.label + 1),
                                    ),
                                    Exp::Temp(temp_of(at.temp)),
                                ),
                                typ,
                            },
                            after,
                        ),
                    ),
                }
            },
        },
    }
}

/// A declaration with the expression that it is for: the first value is
/// moved into the variable's home, and the value is the expression's.
pub open spec fn bound(access: Access, value: Typed, body: Typed) -> Typed {
    Typed {
        exp: Exp::ESeq(
            Box::new(Stm::Move(variable(access, 0), value.exp)),
            Box::new(body.exp),
        ),
        typ: body.typ,
    }
}

/// Two expressions one after the other.
pub open spec fn followed(first: Typed, second: Typed) -> Typed {
    Typed {
        exp: Exp::ESeq(Box::new(Stm::Exp(first.exp)), Box::new(second.exp)),
        typ: second.typ,
    }
}

/// The scopes inside a declaration: one more scope, which holds the
/// variable.
pub open spec fn scopes_inside(
    vars: Seq<Seq<Binding<Entry>>>,
    declaration: Declaration,
    access: Access,
    typ: TypeId,
    level: usize,
) -> Seq<Seq<Binding<Entry>>> {
    entered(
        vars.push(Seq::<Binding<Entry>>::empty()),
        Binding { symbol: declaration.name, value: Entry::Var(Variable { access, typ, level }) },
    )
}

/// The fields of the record that a type stands for.
pub open spec fn record_of(table: Seq<Type>, id: TypeId) -> Option<Seq<Field>> {
    match actual(table, id) {
        Some(found) => if found < table.len() {
            match table[found as int] {
                Type::Record { fields, .. } => Some(fields@),
                _ => None,
            }
        } else {
            None
        },
        None => None,
    }
}

/// The position behind `index` among so many: the last position stands
/// for every later one.
pub open spec fn next_place(count: nat, index: usize) -> usize {
    if index < count {
        (index + 1) as usize
    } else {
        index
    }
}

/// The offset of the field at a position, or zero where there is none.
pub open spec fn offset_at(fields: Seq<Field>, index: usize) -> i64 {
    if index < fields.len() {
        fields[index as int].offset
    } else {
        0
    }
}

/// A new record: the allocator of the runtime gets the label of the
/// layout and hands back a pointer, and every field gets its value.
pub open spec fn made(
    setting: Setting,
    descriptor: Label,
    typ: TypeId,
    inits: Seq<FieldInit>,
    at: Counters,
) -> Result<(Typed, Counters), Failure> {
    match taking(at, 1, 0) {
        None => Err(Failure::Exhausted),
        Some(after) => Ok(
            (
                Typed {
                    exp: created(
                        Exp::Call(
                            Box::new(Exp::Name(setting.builtins.record_allocator)),
                            Box::new(List::Cons(Exp::Name(descriptor), Box::new(List::Nil))),
                        ),
                        inits,
                        at.temp,
                    ),
                    typ,
                },
                after,
            ),
        ),
    }
}

/// The methods of the class that a type stands for.
pub open spec fn methods_of(table: Seq<Type>, id: TypeId) -> Option<Seq<Method>> {
    match actual(table, id) {
        Some(found) => if found < table.len() {
            match table[found as int] {
                Type::Class { methods, .. } => Some(methods@),
                _ => None,
            }
        } else {
            None
        },
        None => None,
    }
}

/// The first method of the name among the methods from `from` on.
pub open spec fn method_named(methods: Seq<Method>, name: Symbol, from: int) -> Option<Method>
    decreases methods.len() - from,
{
    if from < 0 || from >= methods.len() {
        None
    } else if methods[from].name == name {
        Some(methods[from])
    } else {
        method_named(methods, name, from + 1)
    }
}

/// A method as a call needs it: its place in the table of methods, and
/// the types of its arguments and of its result.
pub struct Signature {
    pub index: usize,
    pub formals: Vec<TypeId>,
    pub result: TypeId,
}

/// The method of a name of the class that a type stands for. The type
/// has to stand for a class, the class has to have the method, and the
/// signature of the method has to be a function.
pub open spec fn method_of(setting: Setting, position: Position, typ: TypeId, name: Symbol) -> Result<
    (usize, Seq<TypeId>, TypeId),
    Failure,
> {
    let table = setting.types@;
    match methods_of(table, typ) {
        None => Err(
            rejected(position, SemanticError::NotAClass(named_as(table, setting.names, typ))),
        ),
        Some(methods) => match method_named(methods, name, 0) {
            None => Err(rejected(position, SemanticError::UndefinedIdentifier(name))),
            Some(method) => if method.signature < table.len() {
                match table[method.signature as int] {
                    Type::Function { formals, result } => Ok((method.index, formals@, result)),
                    _ => Err(rejected(position, SemanticError::UndefinedIdentifier(name))),
                }
            } else {
                Err(rejected(position, SemanticError::UndefinedIdentifier(name)))
            },
        },
    }
}

/// The call of a method: the table of methods is found in the object,
/// and the method gets the frame pointer of the caller and the object in
/// front of the arguments.
pub open spec fn sent(
    setting: Setting,
    receiver: Exp,
    index: usize,
    result: TypeId,
    values: List<Exp>,
    at: Counters,
) -> Result<(Typed, Counters), Failure> {
    if index > MAX_SLOTS {
        Err(Failure::Exhausted)
    } else {
        match taking(at, 1, 0) {
            None => Err(Failure::Exhausted),
            Some(after) => Ok(
                (
                    Typed {
                        exp: dispatched(
                            receiver,
                            setting.builtins.vtable_offset,
                            index as nat,
                            frame_pointer_at(0),
                            values,
                            at.temp,
                        ),
                        typ: result,
                    },
                    after,
                ),
            ),
        }
    }
}

/// What the analysis of an expression gives: its tree and its type, and
/// how far the counters and the frame have been used then; or the first
/// thing that is wrong with it. `vars` are the variables in scope, `done`
/// the label behind the innermost loop, where there is one.
pub open spec fn analysed(
    node: Node,
    setting: Setting,
    level: usize,
    vars: Seq<Seq<Binding<Entry>>>,
    done: Option<Label>,
    at: Progress,
) -> Result<(Typed, Progress), Failure>
    decreases node,
{
    match node.expr {
        Expr::Int(value) => Ok((Typed { exp: Exp::Const(value), typ: setting.builtins.int }, at)),
        Expr::Nil => Ok((Typed { exp: Exp::Const(0), typ: setting.builtins.nil }, at)),
        Expr::Unit => Ok((Typed { exp: Exp::Const(0), typ: setting.builtins.unit }, at)),
        Expr::Str(label) => Ok(
            (Typed { exp: Exp::Name(label), typ: setting.builtins.string }, at),
        ),
        Expr::Var(symbol) => match looked(vars, symbol) {
            Some(Entry::Var(found)) => Ok((fetched(level, found), at)),
            _ => Err(rejected(node.position, SemanticError::UndefinedIdentifier(symbol))),
        },
        Expr::Field(record, name) => match analysed(*record, setting, level, vars, done, at) {
            Err(failure) => Err(failure),
            Ok((base, after)) => match selected(setting, node.position, base, name) {
                Err(failure) => Err(failure),
                Ok(typed) => Ok((typed, after)),
            },
        },
        Expr::Subscript(array, place) => match analysed(*array, setting, level, vars, done, at) {
            Err(failure) => Err(failure),
            Ok((base, middle)) => match analysed(*place, setting, level, vars, done, middle) {
                Err(failure) => Err(failure),
                Ok((index, after)) => match indexed(
                    setting,
                    array.position,
                    place.position,
                    base,
                    index,
                ) {
                    Err(failure) => Err(failure),
                    Ok(typed) => Ok((typed, after)),
                },
            },
        },
        Expr::Call(symbol, arguments) => match looked(vars, symbol) {
            Some(Entry::Fun(function)) => match signature_of(setting.types@, function.signature) {
                None => Err(rejected(node.position, SemanticError::UndefinedIdentifier(symbol))),
                Some((formals, result)) => if capped(arguments.items().len()) != formals.len() {
                    Err(
                        rejected(
                            node.position,
                            SemanticError::ArityMismatch {
                                expected: capped(formals.len()),
                                actual: capped(arguments.items().len()),
                            },
                        ),
                    )
                } else {
                    match analysed_all(*arguments, formals, 0, setting, level, vars, done, at) {
                        Err(failure) => Err(failure),
                        Ok((values, after)) => Ok(
                            (called(level, function, result, values), after),
                        ),
                    }
                },
            },
            _ => Err(rejected(node.position, SemanticError::UndefinedIdentifier(symbol))),
        },
        Expr::Arith(op, left, right) => match analysed(*left, setting, level, vars, done, at) {
            Err(failure) => Err(failure),
            Ok((first, middle)) => match analysed(*right, setting, level, vars, done, middle) {
                Err(failure) => Err(failure),
                Ok((second, after)) => match calculated(
                    setting,
                    op,
                    left.position,
                    right.position,
                    first,
                    second,
                ) {
                    Err(failure) => Err(failure),
                    Ok(typed) => Ok((typed, after)),
                },
            },
        },
        Expr::Compare(op, left, right) => match analysed(*left, setting, level, vars, done, at) {
            Err(failure) => Err(failure),
            Ok((first, middle)) => match analysed(*right, setting, level, vars, done, middle) {
                Err(failure) => Err(failure),
                Ok((second, after)) => kept(
                    related(setting, op, right.position, first, second, after.counters),
                    after,
                ),
            },
        },
        Expr::If(test, then, otherwise) => match analysed(*test, setting, level, vars, done, at) {
            Err(failure) => Err(failure),
            Ok((condition, second)) => match analysed(*then, setting, level, vars, done, second) {
                Err(failure) => Err(failure),
                Ok((first, third)) => match analysed(*otherwise, setting, level, vars, done, third) {
                    Err(failure) => Err(failure),
                    Ok((other, after)) => held(
                        decided(
                            setting,
                            test.position,
                            otherwise.position,
                            condition,
                            first,
                            other,
                            after.counters,
                        ),
                        after,
                        setting.types@,
                    ),
                },
            },
        },
        Expr::IfThen(test, then) => match analysed(*test, setting, level, vars, done, at) {
            Err(failure) => Err(failure),
            Ok((condition, middle)) => match analysed(*then, setting, level, vars, done, middle) {
                Err(failure) => Err(failure),
                Ok((first, after)) => kept(
                    guarding(
                        setting,
                        test.position,
                        then.position,
                        condition,
                        first,
                        after.counters,
                    ),
                    after,
                ),
            },
        },
        Expr::While(test, body) => match taking(at.counters, 0, 1) {
            None => Err(Failure::Exhausted),
            Some(counters) => match analysed(
                *test,
                setting,
                level,
                vars,
                done,
                with_counters(at, counters),
            ) {
                Err(failure) => Err(failure),
                Ok((condition, middle)) => match analysed(
                    *body,
                    setting,
                    level,
                    vars,
                    Some(label_of(at.counters.label)),
                    middle,
                ) {
                    Err(failure) => Err(failure),
                    Ok((inner, after)) => kept(
                        repeated(
                            setting,
                            test.position,
                            body.position,
                            condition,
                            inner,
                            label_of(at.counters.label),
                            after.counters,
                        ),
                        after,
                    ),
                },
            },
        },
        Expr::Break => match done {
            None => Err(rejected(node.position, SemanticError::BreakOutsideLoop)),
            Some(label) => Ok(
                (
                    Typed {
                        exp: Exp::ESeq(Box::new(jump_to(label)), Box::new(Exp::Const(0))),
                        typ: setting.builtins.unit,
                    },
                    at,
                ),
            ),
        },
        Expr::Assign(place, value) => match analysed(*place, setting, level, vars, done, at) {
            Err(failure) => Err(failure),
            Ok((target, middle)) => match analysed(*value, setting, level, vars, done, middle) {
                Err(failure) => Err(failure),
                Ok((given, after)) => match stored(setting, value.position, target, given) {
                    Err(failure) => Err(failure),
                    Ok(typed) => Ok((typed, after)),
                },
            },
        },
        Expr::Let(declaration, init, body) => match analysed(*init, setting, level, vars, done, at) {
            Err(failure) => Err(failure),
            Ok((value, middle)) => match declared(
                setting,
                node.position,
                init.position,
                declaration.annotation,
                value.typ,
            ) {
                Err(failure) => Err(failure),
                Ok(typ) => match homed(
                    escapes_at(setting.escapes@, declaration.site),
                    is_pointer(setting.types@, typ),
                    middle,
                ) {
                    None => Err(Failure::Exhausted),
                    Some((access, inner)) => match analysed(
                        *body,
                        setting,
                        level,
                        scopes_inside(vars, declaration, access, typ, level),
                        done,
                        inner,
                    ) {
                        Err(failure) => Err(failure),
                        Ok((result, after)) => Ok((bound(access, value, result), after)),
                    },
                },
            },
        },
        Expr::Then(first, second) => match analysed(*first, setting, level, vars, done, at) {
            Err(failure) => Err(failure),
            Ok((before, middle)) => match analysed(*second, setting, level, vars, done, middle) {
                Err(failure) => Err(failure),
                Ok((value, after)) => Ok((followed(before, value), after)),
            },
        },
        Expr::For(declaration, low, high, body) => match analysed(*low, setting, level, vars, done, at) {
            Err(failure) => Err(failure),
            Ok((first, second)) => match analysed(*high, setting, level, vars, done, second) {
                Err(failure) => Err(failure),
                Ok((last, third)) => match bounded(
                    setting,
                    low.position,
                    high.position,
                    first.typ,
                    last.typ,
                ) {
                    Some(failure) => Err(failure),
                    None => match homed(
                        escapes_at(setting.escapes@, declaration.site),
                        false,
                        third,
                    ) {
                        None => Err(Failure::Exhausted),
                        Some((home, fourth)) => match taking(fourth.counters, 0, 1) {
                            None => Err(Failure::Exhausted),
                            Some(counters) => match analysed(
                                *body,
                                setting,
                                level,
                                scopes_inside(
                                    vars,
                                    declaration,
                                    home,
                                    setting.builtins.int,
                                    level,
                                ),
                                Some(label_of(fourth.counters.label)),
                                with_counters(fourth, counters),
                            ) {
                                Err(failure) => Err(failure),
                                Ok((inner, after)) => kept(
                                    iterated(
                                        setting,
                                        body.position,
                                        home,
                                        first.exp,
                                        last.exp,
                                        inner,
                                        label_of(fourth.counters.label),
                                        after.counters,
                                    ),
                                    after,
                                ),
                            },
                        },
                    },
                },
            },
        },
        Expr::Array(name, size, init) => match analysed(*size, setting, level, vars, done, at) {
            Err(failure) => Err(failure),
            Ok((length, middle)) => match analysed(*init, setting, level, vars, done, middle) {
                Err(failure) => Err(failure),
                Ok((value, after)) => held(
                    arrayed(
                        setting,
                        node.position,
                        name,
                        size.position,
                        length,
                        init.position,
                        value,
                        after.counters,
                    ),
                    after,
                    setting.types@,
                ),
            },
        },
        Expr::This => match looked(vars, setting.receiver) {
            Some(Entry::Var(found)) => Ok((fetched(level, found), at)),
            _ => Err(rejected(node.position, SemanticError::SelfOutsideClass)),
        },
        Expr::Record(name, descriptor, values) => match looked(setting.named@, name) {
            None => Err(rejected(node.position, SemanticError::UndefinedType(name))),
            Some(typ) => match record_of(setting.types@, typ) {
                None => Err(rejected(node.position, SemanticError::UndefinedType(name))),
                Some(fields) => if capped(values.items().len()) != fields.len() {
                    Err(
                        rejected(
                            node.position,
                            SemanticError::ArityMismatch {
                                expected: fields.len() as usize,
                                actual: capped(values.items().len()),
                            },
                        ),
                    )
                } else {
                    match analysed_fields(*values, fields, 0, setting, level, vars, done, at) {
                        Err(failure) => Err(failure),
                        Ok((inits, after)) => held(
                            made(setting, descriptor, typ, inits, after.counters),
                            after,
                            setting.types@,
                        ),
                    }
                },
            },
        },
        Expr::MethodCall(object, name, arguments) => match analysed(
            *object,
            setting,
            level,
            vars,
            done,
            at,
        ) {
            Err(failure) => Err(failure),
            Ok((receiver, middle)) => match method_of(
                setting,
                node.position,
                receiver.typ,
                name,
            ) {
                Err(failure) => Err(failure),
                Ok((index, formals, result)) => if capped(arguments.items().len())
                    != formals.len() {
                    Err(
                        rejected(
                            node.position,
                            SemanticError::ArityMismatch {
                                expected: capped(formals.len()),
                                actual: capped(arguments.items().len()),
                            },
                        ),
                    )
                } else {
                    match analysed_all(*arguments, formals, 0, setting, level, vars, done, middle) {
                        Err(failure) => Err(failure),
                        Ok((values, after)) => kept(
                            sent(setting, receiver.exp, index, result, values, after.counters),
                            after,
                        ),
                    }
                },
            },
        },
        Expr::Functions(group, body) => if level == usize::MAX {
            Err(Failure::Exhausted)
        } else {
            match headed(vars.push(Seq::empty()), *group, level) {
                Err((position, name)) => Err(
                    rejected(position, SemanticError::DuplicateDeclaration(name)),
                ),
                Ok(inner) => match defined_all(
                    *group,
                    setting,
                    (level + 1) as usize,
                    inner,
                    at.counters,
                    at.fragments,
                ) {
                    Err(failure) => Err(failure),
                    Ok((counters, fragments)) => analysed(
                        *body,
                        setting,
                        level,
                        inner,
                        done,
                        Progress { counters, slots: at.slots, pointers: at.pointers, fragments },
                    ),
                },
            }
        },
    }
}

/// The scopes with the functions of a group bound in the innermost one,
/// each as a function that is declared at the given depth; or the place
/// and the name of the first that is bound there already.
pub open spec fn headed(scopes: Seq<Seq<Binding<Entry>>>, group: List<Definition>, level: usize) -> Result<
    Seq<Seq<Binding<Entry>>>,
    (Position, Symbol),
>
    decreases group,
{
    match group {
        List::Nil => Ok(scopes),
        List::Cons(head, tail) => if scopes.len() > 0 && bound_in(scopes.last(), head.name)
            is Some {
            Err((head.position, head.name))
        } else {
            headed(
                entered(
                    scopes,
                    Binding {
                        symbol: head.name,
                        value: Entry::Fun(
                            Function {
                                label: head.label,
                                signature: head.signature,
                                level,
                                external: false,
                            },
                        ),
                    },
                ),
                *tail,
                level,
            )
        },
    }
}

/// What the analysis of the functions of a group gives, first to last:
/// the counters and the functions that have been analysed then, or the
/// first thing that is wrong.
pub open spec fn defined_all(
    group: List<Definition>,
    setting: Setting,
    level: usize,
    vars: Seq<Seq<Binding<Entry>>>,
    at: Counters,
    fragments: Seq<Defined>,
) -> Result<(Counters, Seq<Defined>), Failure>
    decreases group,
{
    match group {
        List::Nil => Ok((at, fragments)),
        List::Cons(head, tail) => match defined(head, setting, level, vars, at, fragments) {
            Err(failure) => Err(failure),
            Ok((found, after, inner)) => defined_all(
                *tail,
                setting,
                level,
                vars,
                after,
                inner.push(found),
            ),
        },
    }
}

/// What the analysis of a function gives: the function, the counters and
/// the functions that were analysed inside it. `level` is the depth of
/// the function itself. The formals get their homes in a new frame and are
/// bound in a new scope, where no name may be bound twice; the body is
/// analysed there, outside every loop; and its value has to be of a type
/// that may stand for the result's.
pub open spec fn defined(
    definition: Definition,
    setting: Setting,
    level: usize,
    vars: Seq<Seq<Binding<Entry>>>,
    at: Counters,
    fragments: Seq<Defined>,
) -> Result<(Defined, Counters, Seq<Defined>), Failure>
    decreases definition,
{
    let table = setting.types@;
    let escapes = frame_escapes(setting.escapes@, definition.formals@);
    let (homes, slots, next) = accesses_from(escapes, 0, 0, at.temp);
    if escapes.len() > MAX_SLOTS || next > usize::MAX {
        Err(Failure::Exhausted)
    } else {
        match entering(Seq::empty(), Seq::empty(), table, definition.formals@, homes, level, 0) {
            Err(name) => Err(
                rejected(definition.position, SemanticError::DuplicateDeclaration(name)),
            ),
            Ok((scope, pointers)) => match analysed(
                definition.body,
                setting,
                level,
                vars.push(scope),
                None,
                Progress {
                    counters: Counters { temp: next, label: at.label },
                    slots,
                    pointers,
                    fragments,
                },
            ) {
                Err(failure) => Err(failure),
                Ok((value, after)) => if !compatible(table, definition.result, value.typ) {
                    Err(
                        mismatched(
                            setting,
                            definition.body.position,
                            definition.result,
                            value.typ,
                        ),
                    )
                } else {
                    Ok(
                        (
                            Defined {
                                body: returned(table, definition.result, value.exp),
                                name: definition.label,
                                homes,
                                slots: after.slots,
                                pointers: registers_among(
                                    after.pointers,
                                    after.pointers.len() as int,
                                ),
                                escaping: words_among(
                                    after.pointers,
                                    after.pointers.len() as int,
                                ),
                            },
                            after.counters,
                            after.fragments,
                        ),
                    )
                },
            },
        }
    }
}

/// Which of the words that a function gets escape: the static link, which
/// comes first and always does, and then the formals.
pub open spec fn frame_escapes(marks: Seq<bool>, formals: Seq<Formal>) -> Seq<bool> {
    Seq::new(
        formals.len() + 1,
        |i: int|
            if i == 0 {
                true
            } else {
                escapes_at(marks, formals[i - 1].site)
            },
    )
}

/// The temporaries that hold pointers, with the home of one more
/// variable.
pub open spec fn noted(pointers: Seq<Access>, home: Access, pointer: bool) -> Seq<Access> {
    if pointer {
        pointers.push(home)
    } else {
        pointers
    }
}

/// The scope of a function with the formals from `index` on bound in it,
/// each to its home, and the temporaries among the homes that hold
/// pointers; or the first name that is bound twice.
pub open spec fn entering(
    scope: Seq<Binding<Entry>>,
    pointers: Seq<Access>,
    table: Seq<Type>,
    formals: Seq<Formal>,
    homes: Seq<Access>,
    level: usize,
    index: int,
) -> Result<(Seq<Binding<Entry>>, Seq<Access>), Symbol>
    decreases formals.len() - index,
{
    if index < 0 || index >= formals.len() || index + 1 >= homes.len() {
        Ok((scope, pointers))
    } else if bound_in(scope, formals[index].name) is Some {
        Err(formals[index].name)
    } else {
        entering(
            scope.push(
                Binding {
                    symbol: formals[index].name,
                    value: Entry::Var(
                        Variable { access: homes[index + 1], typ: formals[index].typ, level },
                    ),
                },
            ),
            noted(pointers, homes[index + 1], is_pointer(table, formals[index].typ)),
            table,
            formals,
            homes,
            level,
            index + 1,
        )
    }
}

/// Whether a type stands for the type without values.
pub open spec fn is_nothing(table: Seq<Type>, id: TypeId) -> bool {
    match actual(table, id) {
        Some(found) => found < table.len() && table[found as int] is Unit,
        None => false,
    }
}

/// The body of a function as a statement: the value goes to the register
/// for results, unless the function gives none.
pub open spec fn returned(table: Seq<Type>, result: TypeId, value: Exp) -> Stm {
    if is_nothing(table, result) {
        Stm::Exp(value)
    } else {
        Stm::Move(Exp::Temp(Temp { num: RAX }), value)
    }
}

/// What the analysis of the values of a new record gives: what each
/// field starts with, or the first thing that is wrong. Each value has to
/// bear the name of the field at its position, counted from `index`, and
/// to be of a type that may stand for the field's.
pub open spec fn analysed_fields(
    values: List<FieldValue>,
    fields: Seq<Field>,
    index: usize,
    setting: Setting,
    level: usize,
    vars: Seq<Seq<Binding<Entry>>>,
    done: Option<Label>,
    at: Progress,
) -> Result<(Seq<FieldInit>, Progress), Failure>
    decreases values,
{
    match values {
        List::Nil => Ok((Seq::empty(), at)),
        List::Cons(head, tail) => if index < fields.len() && head.name
            != fields[index as int].name {
            Err(rejected(head.value.position, SemanticError::UndefinedField(head.name)))
        } else {
            match analysed(head.value, setting, level, vars, done, at) {
                Err(failure) => Err(failure),
                Ok((value, middle)) => if index < fields.len() && !compatible(
                    setting.types@,
                    fields[index as int].typ,
                    value.typ,
                ) {
                    Err(
                        mismatched(
                            setting,
                            head.value.position,
                            fields[index as int].typ,
                            value.typ,
                        ),
                    )
                } else {
                    match analysed_fields(
                        *tail,
                        fields,
                        next_place(fields.len(), index),
                        setting,
                        level,
                        vars,
                        done,
                        middle,
                    ) {
                        Err(failure) => Err(failure),
                        Ok((rest, after)) => Ok(
                            (
                                seq![
                                    FieldInit { offset: offset_at(fields, index), value: value.exp },
                                ] + rest,
                                after,
                            ),
                        ),
                    }
                },
            }
        },
    }
}

/// What the analysis of the arguments of a call gives: their trees, or
/// the first thing that is wrong with one of them. Each has to be of a
/// type that may stand for the formal at its position, counted from
/// `index`.
pub open spec fn analysed_all(
    nodes: List<Node>,
    formals: Seq<TypeId>,
    index: usize,
    setting: Setting,
    level: usize,
    vars: Seq<Seq<Binding<Entry>>>,
    done: Option<Label>,
    at: Progress,
) -> Result<(List<Exp>, Progress), Failure>
    decreases nodes,
{
    match nodes {
        List::Nil => Ok((List::Nil, at)),
        List::Cons(head, tail) => match analysed(head, setting, level, vars, done, at) {
            Err(failure) => Err(failure),
            Ok((value, middle)) => if index < formals.len() && !compatible(
                setting.types@,
                formals[index as int],
                value.typ,
            ) {
                Err(mismatched(setting, head.position, formals[index as int], value.typ))
            } else {
                match analysed_all(
                    *tail,
                    formals,
                    next_formal(formals, index),
                    setting,
                    level,
                    vars,
                    done,
                    middle,
                ) {
                    Err(failure) => Err(failure),
                    Ok((rest, after)) => Ok((List::Cons(value.exp, Box::new(rest)), after)),
                }
            },
        },
    }
}

/// The name under which an error speaks of a type.
pub fn name_of_type(setting: &Setting, id: TypeId) -> (name: Symbol)
    ensures
        name == named_as(setting.types@, setting.names, id),
{
    match setting.types.get(id) {
        None => setting.names.unknown,
        Some(typ) => match typ {
            Type::Int => setting.names.int,
            Type::String => setting.names.string,
            Type::Unit => setting.names.unit,
            Type::Nil => setting.names.nil,
            Type::Record { name, .. } => *name,
            Type::Array { .. } => setting.names.array,
            Type::Class { name, .. } => *name,
            Type::Name { name, .. } => *name,
            Type::Function { .. } => setting.names.function,
        },
    }
}

/// The failure that says what is wrong at a place.
pub fn reject(position: Position, error: SemanticError) -> (failure: Failure)
    ensures
        failure == rejected(position, error),
{
    Failure::Rejected(CompilationError { position, kind: ErrorKind::Semantic(error) })
}

/// The failure that says that a value of the type `found` stands where
/// `expected` is asked for.
pub fn mismatch(setting: &Setting, position: Position, expected: TypeId, found: TypeId) -> (failure:
    Failure)
    ensures
        failure == mismatched(*setting, position, expected, found),
{
    let expected = name_of_type(setting, expected);
    let actual = name_of_type(setting, found);
    reject(position, SemanticError::TypeMismatch { expected, actual })
}

/// Whether a type stands for the type of strings.
pub fn is_string(types: &Types, id: TypeId) -> (result: bool)
    ensures
        result == is_text(types@, id),
{
    match types.actual(id) {
        None => false,
        Some(found) => match types.get(found) {
            None => false,
            Some(typ) => match typ {
                Type::String => true,
                _ => false,
            },
        },
    }
}

/// Reads a variable from a function at the depth of the setting.
pub fn fetch(level: usize, found: Variable) -> (typed: Typed)
    ensures
        typed == fetched(level, found),
{
    let hops = if found.level <= level {
        level - found.level
    } else {
        0
    };
    Typed { exp: simple_var(found.access, hops), typ: found.typ }
}

/// Checks and builds an arithmetic operation.
pub fn calculate(
    setting: &Setting,
    op: BinOp,
    left: Position,
    right: Position,
    first: Typed,
    second: Typed,
) -> (result: Result<Typed, Failure>)
    ensures
        result == calculated(*setting, op, left, right, first, second),
{
    let number = setting.builtins.int;
    if !setting.types.is_compatible(number, first.typ) {
        Err(mismatch(setting, left, number, first.typ))
    } else if !setting.types.is_compatible(number, second.typ) {
        Err(mismatch(setting, right, number, second.typ))
    } else {
        Ok(Typed { exp: arithmetic(op, first.exp, second.exp), typ: number })
    }
}

/// Checks and builds a comparison.
pub fn relate(
    setting: &Setting,
    op: RelOp,
    position: Position,
    first: Typed,
    second: Typed,
    source: &mut TempSource,
) -> (result: Result<Typed, Failure>)
    ensures
        match related(*setting, op, position, first, second, counters_of(*old(source))) {
            Ok((typed, after)) => result == Ok::<Typed, Failure>(typed) && counters_of(
                *final(source),
            ) == after,
            Err(failure) => result == Err::<Typed, Failure>(failure),
        },
{
    let left = first.typ;
    let right = second.typ;
    if !setting.types.is_compatible(left, right) && !setting.types.is_compatible(right, left) {
        return Err(mismatch(setting, position, left, right));
    }
    let exp = if is_string(&setting.types, left) {
        string_relational(op, setting.builtins.string_compare, first.exp, second.exp, source)
    } else {
        relational(op, first.exp, second.exp, source)
    };
    proof {
        source.lemma_in_range();
    }
    match exp {
        Some(exp) => Ok(Typed { exp, typ: setting.builtins.int }),
        None => Err(Failure::Exhausted),
    }
}

/// Checks and builds a conditional with two branches.
pub fn decide(
    setting: &Setting,
    test: Position,
    position: Position,
    condition: Typed,
    then: Typed,
    otherwise: Typed,
    source: &mut TempSource,
) -> (result: Result<Typed, Failure>)
    ensures
        match decided(
            *setting,
            test,
            position,
            condition,
            then,
            otherwise,
            counters_of(*old(source)),
        ) {
            Ok((typed, after)) => result == Ok::<Typed, Failure>(typed) && counters_of(
                *final(source),
            ) == after,
            Err(failure) => result == Err::<Typed, Failure>(failure),
        },
{
    let number = setting.builtins.int;
    let left = then.typ;
    let right = otherwise.typ;
    if !setting.types.is_compatible(number, condition.typ) {
        return Err(mismatch(setting, test, number, condition.typ));
    }
    let forward = setting.types.is_compatible(left, right);
    if !forward && !setting.types.is_compatible(right, left) {
        return Err(mismatch(setting, position, left, right));
    }
    let typ = if forward {
        left
    } else {
        right
    };
    let exp = if_then_else(condition.exp, then.exp, otherwise.exp, source);
    proof {
        source.lemma_in_range();
    }
    match exp {
        Some(exp) => Ok(Typed { exp, typ }),
        None => Err(Failure::Exhausted),
    }
}

/// Checks and builds a conditional with one branch.
pub fn guard(
    setting: &Setting,
    test: Position,
    position: Position,
    condition: Typed,
    then: Typed,
    source: &mut TempSource,
) -> (result: Result<Typed, Failure>)
    ensures
        match guarding(*setting, test, position, condition, then, counters_of(*old(source))) {
            Ok((typed, after)) => result == Ok::<Typed, Failure>(typed) && counters_of(
                *final(source),
            ) == after,
            Err(failure) => result == Err::<Typed, Failure>(failure),
        },
{
    let number = setting.builtins.int;
    let nothing = setting.builtins.unit;
    if !setting.types.is_compatible(number, condition.typ) {
        return Err(mismatch(setting, test, number, condition.typ));
    }
    if !setting.types.is_compatible(nothing, then.typ) {
        return Err(mismatch(setting, position, nothing, then.typ));
    }
    let exp = if_then(condition.exp, then.exp, source);
    proof {
        source.lemma_in_range();
    }
    match exp {
        Some(exp) => Ok(Typed { exp, typ: nothing }),
        None => Err(Failure::Exhausted),
    }
}

/// Checks and builds a loop that leaves to `done`.
pub fn repeat(
    setting: &Setting,
    test: Position,
    position: Position,
    condition: Typed,
    body: Typed,
    done: Label,
    source: &mut TempSource,
) -> (result: Result<Typed, Failure>)
    ensures
        match repeated(
            *setting,
            test,
            position,
            condition,
            body,
            done,
            counters_of(*old(source)),
        ) {
            Ok((typed, after)) => result == Ok::<Typed, Failure>(typed) && counters_of(
                *final(source),
            ) == after,
            Err(failure) => result == Err::<Typed, Failure>(failure),
        },
{
    let number = setting.builtins.int;
    let nothing = setting.builtins.unit;
    if !setting.types.is_compatible(number, condition.typ) {
        return Err(mismatch(setting, test, number, condition.typ));
    }
    if !setting.types.is_compatible(nothing, body.typ) {
        return Err(mismatch(setting, position, nothing, body.typ));
    }
    let exp = while_loop(condition.exp, body.exp, done, source);
    proof {
        source.lemma_in_range();
    }
    match exp {
        Some(exp) => Ok(Typed { exp, typ: nothing }),
        None => Err(Failure::Exhausted),
    }
}

/// Checks and builds an assignment.
pub fn store(setting: &Setting, position: Position, target: Typed, value: Typed) -> (result:
    Result<Typed, Failure>)
    ensures
        result == stored(*setting, position, target, value),
{
    if !setting.types.is_compatible(target.typ, value.typ) {
        return Err(mismatch(setting, position, target.typ, value.typ));
    }
    Ok(
        Typed {
            exp: Exp::ESeq(Box::new(assign(target.exp, value.exp)), Box::new(unit())),
            typ: setting.builtins.unit,
        },
    )
}

/// The first field of the name.
pub fn find_field(fields: &Vec<Field>, name: Symbol) -> (found: Option<Field>)
    ensures
        found == field_named(fields@, name, 0),
{
    let mut index: usize = 0;
    while index < fields.len()
        invariant
            index <= fields@.len(),
            field_named(fields@, name, 0) == field_named(fields@, name, index as int),
        decreases fields.len() - index,
    {
        if fields[index].name == name {
            return Some(fields[index]);
        }
        index += 1;
    }
    None
}

/// Checks and builds the access to a field.
pub fn select(setting: &Setting, position: Position, base: Typed, name: Symbol) -> (result: Result<
    Typed,
    Failure,
>)
    ensures
        result == selected(*setting, position, base, name),
{
    let found = match setting.types.actual(base.typ) {
        None => None,
        Some(id) => match setting.types.get(id) {
            None => None,
            Some(typ) => match typ {
                Type::Record { fields, .. } => find_field(fields, name),
                Type::Class { fields, .. } => find_field(fields, name),
                _ => None,
            },
        },
    };
    match found {
        None => Err(reject(position, SemanticError::UndefinedField(name))),
        Some(field) => Ok(Typed { exp: field_var(base.exp, field.offset), typ: field.typ }),
    }
}

/// Checks and builds the access to an element.
pub fn subscript(
    setting: &Setting,
    position: Position,
    place: Position,
    base: Typed,
    index: Typed,
) -> (result: Result<Typed, Failure>)
    ensures
        result == indexed(*setting, position, place, base, index),
{
    let found = match setting.types.actual(base.typ) {
        None => None,
        Some(id) => match setting.types.get(id) {
            None => None,
            Some(typ) => match typ {
                Type::Array { element, .. } => Some(*element),
                _ => None,
            },
        },
    };
    match found {
        None => {
            let actual = name_of_type(setting, base.typ);
            Err(
                reject(
                    position,
                    SemanticError::TypeMismatch { expected: setting.names.array, actual },
                ),
            )
        },
        Some(typ) => if !setting.types.is_compatible(setting.builtins.int, index.typ) {
            Err(mismatch(setting, place, setting.builtins.int, index.typ))
        } else {
            Ok(
                Typed {
                    exp: subscript_var(base.exp, index.exp, setting.builtins.array_header),
                    typ,
                },
            )
        },
    }
}

/// The number of items of a list, or the largest number where there are
/// more.
pub fn count(nodes: &List<Node>) -> (number: usize)
    ensures
        number == capped(nodes.items().len()),
    decreases nodes,
{
    match nodes {
        List::Nil => 0,
        List::Cons(_, tail) => {
            let rest = count(tail);
            assert(nodes.items().len() == tail.items().len() + 1);
            if rest == usize::MAX {
                rest
            } else {
                rest + 1
            }
        },
    }
}

/// A copy of a list of types.
pub fn copy_types(ids: &Vec<TypeId>) -> (copy: Vec<TypeId>)
    ensures
        copy@ == ids@,
{
    let mut copy: Vec<TypeId> = Vec::new();
    let mut index: usize = 0;
    while index < ids.len()
        invariant
            index <= ids@.len(),
            copy@ == ids@.take(index as int),
        decreases ids.len() - index,
    {
        copy.push(ids[index]);
        assert(copy@ =~= ids@.take(index + 1));
        index += 1;
    }
    assert(ids@.take(ids@.len() as int) =~= ids@);
    copy
}

/// The types of the arguments and of the result of the function that a
/// type of the table is.
pub fn signature(types: &Types, id: TypeId) -> (found: Option<(Vec<TypeId>, TypeId)>)
    ensures
        match found {
            Some((formals, result)) => signature_of(types@, id) == Some((formals@, result)),
            None => signature_of(types@, id) is None,
        },
{
    match types.get(id) {
        None => None,
        Some(held) => match held {
            Type::Function { formals, result } => Some((copy_types(formals), *result)),
            _ => None,
        },
    }
}

/// Builds the call of a function with the values of its arguments.
pub fn call(level: usize, function: Function, result: TypeId, values: List<Exp>) -> (typed: Typed)
    ensures
        typed == called(level, function, result, values),
{
    let exp = if function.external {
        external_call(function.label, values)
    } else {
        let hops = if function.level <= level {
            level - function.level
        } else {
            0
        };
        call_function(function.label, static_link(hops), values)
    };
    Typed { exp, typ: result }
}

/// The type of a variable that is declared with a first value of the type
/// `found`.
pub fn declare(
    setting: &Setting,
    position: Position,
    value: Position,
    annotation: Option<Symbol>,
    found: TypeId,
) -> (result: Result<TypeId, Failure>)
    ensures
        result == declared(*setting, position, value, annotation, found),
{
    match annotation {
        None => Ok(found),
        Some(name) => match setting.named.look(name) {
            None => Err(reject(position, SemanticError::UndefinedType(name))),
            Some(expected) => if setting.types.is_compatible(*expected, found) {
                Ok(*expected)
            } else {
                Err(mismatch(setting, value, *expected, found))
            },
        },
    }
}

/// Whether a value of the type is a pointer into the heap.
pub fn holds_pointer(types: &Types, id: TypeId) -> (result: bool)
    ensures
        result == is_pointer(types@, id),
{
    match types.actual(id) {
        None => false,
        Some(found) => match types.get(found) {
            None => false,
            Some(typ) => match typ {
                Type::Record { .. } => true,
                Type::Array { .. } => true,
                Type::Class { .. } => true,
                Type::String => true,
                _ => false,
            },
        },
    }
}

/// Notes the temporary that keeps a value, if the value is a pointer.
pub fn hold(result: Result<Typed, Failure>, types: &Types, temp: usize, pointers: &mut Vec<Access>) -> (kept:
    Result<Typed, Failure>)
    ensures
        kept == result,
        final(pointers)@ == match result {
            Ok(typed) => if is_pointer(types@, typed.typ) {
                old(pointers)@.push(Access::InReg(Temp { num: temp }))
            } else {
                old(pointers)@
            },
            Err(_) => old(pointers)@,
        },
{
    match result {
        Ok(typed) => {
            if holds_pointer(types, typed.typ) {
                pointers.push(Access::InReg(Temp { num: temp }));
            }
            Ok(typed)
        },
        Err(failure) => Err(failure),
    }
}

/// Gives a new variable its home and notes a temporary that holds a
/// pointer.
pub fn home(
    escapes: bool,
    pointer: bool,
    frame: &mut Frame,
    source: &mut TempSource,
    pointers: &mut Vec<Access>,
) -> (access: Option<Access>)
    requires
        old(frame).wf(),
    ensures
        final(frame).wf(),
        final(frame).name == old(frame).name,
        final(frame).formals == old(frame).formals,
        match placed(escapes, pointer, room_of(*old(frame), *old(source), old(pointers)@)) {
            Some((found, after)) => access == Some(found) && room_of(
                *final(frame),
                *final(source),
                final(pointers)@,
            ) == after,
            None => access.is_none(),
        },
{
    proof {
        source.lemma_in_range();
    }
    let found = frame.alloc_local(escapes, source);
    proof {
        source.lemma_in_range();
    }
    match found {
        None => None,
        Some(access) => {
            if pointer {
                pointers.push(access);
            }
            Some(access)
        },
    }
}

/// What is wrong with the bounds of a counting loop, if anything.
pub fn bounds(setting: &Setting, low: Position, high: Position, first: TypeId, last: TypeId) -> (failure:
    Option<Failure>)
    ensures
        failure == bounded(*setting, low, high, first, last),
{
    let number = setting.builtins.int;
    if !setting.types.is_compatible(number, first) {
        Some(mismatch(setting, low, number, first))
    } else if !setting.types.is_compatible(number, last) {
        Some(mismatch(setting, high, number, last))
    } else {
        None
    }
}

/// Checks and builds a counting loop that leaves to `done`.
pub fn iterate(
    setting: &Setting,
    position: Position,
    home: Access,
    low: Exp,
    high: Exp,
    body: Typed,
    done: Label,
    source: &mut TempSource,
) -> (result: Result<Typed, Failure>)
    ensures
        match iterated(
            *setting,
            position,
            home,
            low,
            high,
            body,
            done,
            counters_of(*old(source)),
        ) {
            Ok((typed, after)) => result == Ok::<Typed, Failure>(typed) && counters_of(
                *final(source),
            ) == after,
            Err(failure) => result == Err::<Typed, Failure>(failure),
        },
{
    let nothing = setting.builtins.unit;
    if !setting.types.is_compatible(nothing, body.typ) {
        return Err(mismatch(setting, position, nothing, body.typ));
    }
    let exp = for_loop(home, low, high, body.exp, done, source);
    proof {
        source.lemma_in_range();
    }
    match exp {
        Some(exp) => Ok(Typed { exp, typ: nothing }),
        None => Err(Failure::Exhausted),
    }
}

/// Checks and builds a new array.
pub fn array(
    setting: &Setting,
    position: Position,
    name: Symbol,
    size: Position,
    length: Typed,
    init: Position,
    value: Typed,
    source: &mut TempSource,
) -> (result: Result<Typed, Failure>)
    ensures
        match arrayed(
            *setting,
            position,
            name,
            size,
            length,
            init,
            value,
            counters_of(*old(source)),
        ) {
            Ok((typed, after)) => result == Ok::<Typed, Failure>(typed) && counters_of(
                *final(source),
            ) == after,
            Err(failure) => result == Err::<Typed, Failure>(failure),
        },
{
    let typ = match setting.named.look(name) {
        None => {
            return Err(reject(position, SemanticError::UndefinedType(name)));
        },
        Some(typ) => *typ,
    };
    let found = match setting.types.actual(typ) {
        None => None,
        Some(id) => match setting.types.get(id) {
            None => None,
            Some(held) => match held {
                Type::Array { element, .. } => Some(*element),
                _ => None,
            },
        },
    };
    let element = match found {
        None => {
            let actual = name_of_type(setting, typ);
            return Err(
                reject(
                    position,
                    SemanticError::TypeMismatch { expected: setting.names.array, actual },
                ),
            );
        },
        Some(element) => element,
    };
    if !setting.types.is_compatible(setting.builtins.int, length.typ) {
        return Err(mismatch(setting, size, setting.builtins.int, length.typ));
    }
    if !setting.types.is_compatible(element, value.typ) {
        return Err(mismatch(setting, init, element, value.typ));
    }
    let exp = array_filled(
        setting.builtins.array_allocator,
        length.exp,
        value.exp,
        setting.builtins.array_header,
        source,
    );
    proof {
        source.lemma_in_range();
    }
    match exp {
        Some(exp) => Ok(Typed { exp, typ }),
        None => Err(Failure::Exhausted),
    }
}

/// The number of values of a list, or the largest number where there are
/// more.
pub fn count_values(values: &List<FieldValue>) -> (number: usize)
    ensures
        number == capped(values.items().len()),
    decreases values,
{
    match values {
        List::Nil => 0,
        List::Cons(_, tail) => {
            let rest = count_values(tail);
            assert(values.items().len() == tail.items().len() + 1);
            if rest == usize::MAX {
                rest
            } else {
                rest + 1
            }
        },
    }
}

/// A copy of a list of fields.
pub fn copy_fields(fields: &Vec<Field>) -> (copy: Vec<Field>)
    ensures
        copy@ == fields@,
{
    let mut copy: Vec<Field> = Vec::new();
    let mut index: usize = 0;
    while index < fields.len()
        invariant
            index <= fields@.len(),
            copy@ == fields@.take(index as int),
        decreases fields.len() - index,
    {
        copy.push(fields[index]);
        assert(copy@ =~= fields@.take(index + 1));
        index += 1;
    }
    assert(fields@.take(fields@.len() as int) =~= fields@);
    copy
}

/// The fields of the record that a type stands for.
pub fn record_fields(types: &Types, id: TypeId) -> (found: Option<Vec<Field>>)
    ensures
        match found {
            Some(fields) => record_of(types@, id) == Some(fields@),
            None => record_of(types@, id) is None,
        },
{
    match types.actual(id) {
        None => None,
        Some(found) => match types.get(found) {
            None => None,
            Some(typ) => match typ {
                Type::Record { fields, .. } => Some(copy_fields(fields)),
                _ => None,
            },
        },
    }
}

/// Builds a new record from what its fields start with.
pub fn make(
    setting: &Setting,
    descriptor: Label,
    typ: TypeId,
    inits: Vec<FieldInit>,
    source: &mut TempSource,
) -> (result: Result<Typed, Failure>)
    ensures
        match made(*setting, descriptor, typ, inits@, counters_of(*old(source))) {
            Ok((typed, after)) => result == Ok::<Typed, Failure>(typed) && counters_of(
                *final(source),
            ) == after,
            Err(failure) => result == Err::<Typed, Failure>(failure),
        },
{
    let allocation = external_call(
        setting.builtins.record_allocator,
        List::Cons(Exp::Name(descriptor), Box::new(List::Nil)),
    );
    proof {
        source.lemma_in_range();
    }
    let exp = record_creation(allocation, inits, source);
    proof {
        source.lemma_in_range();
    }
    match exp {
        Some(exp) => Ok(Typed { exp, typ }),
        None => Err(Failure::Exhausted),
    }
}

/// The first method of the name.
pub fn find_method(methods: &Vec<Method>, name: Symbol) -> (found: Option<Method>)
    ensures
        found == method_named(methods@, name, 0),
{
    let mut index: usize = 0;
    while index < methods.len()
        invariant
            index <= methods@.len(),
            method_named(methods@, name, 0) == method_named(methods@, name, index as int),
        decreases methods.len() - index,
    {
        if methods[index].name == name {
            return Some(methods[index]);
        }
        index += 1;
    }
    None
}

/// The method of a name of the class that a type stands for.
pub fn method(setting: &Setting, position: Position, typ: TypeId, name: Symbol) -> (result: Result<
    Signature,
    Failure,
>)
    ensures
        match method_of(*setting, position, typ, name) {
            Ok((index, formals, result_type)) => {
                &&& result matches Ok(found)
                &&& found.index == index
                &&& found.formals@ == formals
                &&& found.result == result_type
            },
            Err(failure) => result matches Err(found) && found == failure,
        },
{
    let found = match setting.types.actual(typ) {
        None => None,
        Some(id) => match setting.types.get(id) {
            None => None,
            Some(held) => match held {
                Type::Class { methods, .. } => Some(find_method(methods, name)),
                _ => None,
            },
        },
    };
    let method = match found {
        None => {
            let class = name_of_type(setting, typ);
            return Err(reject(position, SemanticError::NotAClass(class)));
        },
        Some(None) => {
            return Err(reject(position, SemanticError::UndefinedIdentifier(name)));
        },
        Some(Some(method)) => method,
    };
    match setting.types.get(method.signature) {
        None => Err(reject(position, SemanticError::UndefinedIdentifier(name))),
        Some(held) => match held {
            Type::Function { formals, result } => Ok(
                Signature { index: method.index, formals: copy_types(formals), result: *result },
            ),
            _ => Err(reject(position, SemanticError::UndefinedIdentifier(name))),
        },
    }
}

/// Builds the call of a method with the values of its arguments.
pub fn send(
    setting: &Setting,
    receiver: Exp,
    index: usize,
    result_type: TypeId,
    values: List<Exp>,
    source: &mut TempSource,
) -> (result: Result<Typed, Failure>)
    ensures
        match sent(*setting, receiver, index, result_type, values, counters_of(*old(source))) {
            Ok((typed, after)) => result == Ok::<Typed, Failure>(typed) && counters_of(
                *final(source),
            ) == after,
            Err(failure) => result == Err::<Typed, Failure>(failure),
        },
{
    proof {
        source.lemma_in_range();
    }
    let exp = method_call(
        receiver,
        setting.builtins.vtable_offset,
        index,
        static_link(0),
        values,
        source,
    );
    proof {
        source.lemma_in_range();
    }
    match exp {
        Some(exp) => Ok(Typed { exp, typ: result_type }),
        None => Err(Failure::Exhausted),
    }
}

/// Builds a declaration with the expression that it is for.
pub fn bind(access: Access, value: Typed, body: Typed) -> (typed: Typed)
    ensures
        typed == bound(access, value, body),
{
    Typed {
        exp: Exp::ESeq(
            Box::new(assign(simple_var(access, 0), value.exp)),
            Box::new(body.exp),
        ),
        typ: body.typ,
    }
}

/// Builds two expressions one after the other.
pub fn follow(first: Typed, second: Typed) -> (typed: Typed)
    ensures
        typed == followed(first, second),
{
    Typed { exp: Exp::ESeq(Box::new(Stm::Exp(first.exp)), Box::new(second.exp)), typ: second.typ }
}

/// Analyses an expression: checks it against the variables in scope and
/// the types of the setting, and gives its tree and its type, or the first
/// thing that is wrong with it. New variables get their homes from the
/// frame and the source. The variables in scope are the same afterwards.
pub fn analyse(
    node: &Node,
    setting: &Setting,
    level: usize,
    done: Option<Label>,
    vars: &mut Symbols<Entry>,
    frame: &mut Frame,
    source: &mut TempSource,
    pointers: &mut Vec<Access>,
    fragments: &mut Vec<FunctionFragment>,
) -> (result: Result<Typed, Failure>)
    requires
        old(frame).wf(),
    ensures
        final(vars)@ == old(vars)@,
        final(frame).wf(),
        final(frame).name == old(frame).name,
        final(frame).formals == old(frame).formals,
        frames_fit(old(fragments)@) ==> frames_fit(final(fragments)@),
        match analysed(
            *node,
            *setting,
            level,
            old(vars)@,
            done,
            progress_of(*old(frame), *old(source), old(pointers)@, old(fragments)@),
        ) {
            Ok((typed, after)) => result == Ok::<Typed, Failure>(typed) && progress_of(
                *final(frame),
                *final(source),
                final(pointers)@,
                final(fragments)@,
            ) == after,
            Err(failure) => result == Err::<Typed, Failure>(failure),
        },
    decreases node, 1int,
{
    match &node.expr {
        Expr::Int(value) => Ok(Typed { exp: int_literal(*value), typ: setting.builtins.int }),
        Expr::Nil => Ok(Typed { exp: nil(), typ: setting.builtins.nil }),
        Expr::Unit => Ok(Typed { exp: unit(), typ: setting.builtins.unit }),
        Expr::Str(label) => Ok(
            Typed { exp: string_literal(*label), typ: setting.builtins.string },
        ),
        Expr::Var(symbol) => match vars.look(*symbol) {
            None => Err(reject(node.position, SemanticError::UndefinedIdentifier(*symbol))),
            Some(entry) => match entry {
                Entry::Var(found) => Ok(fetch(level, *found)),
                Entry::Fun(_) => Err(
                    reject(node.position, SemanticError::UndefinedIdentifier(*symbol)),
                ),
            },
        },
        Expr::Break => match done {
            None => Err(reject(node.position, SemanticError::BreakOutsideLoop)),
            Some(label) => Ok(Typed { exp: break_to(label), typ: setting.builtins.unit }),
        },
        Expr::This => match vars.look(setting.receiver) {
            None => Err(reject(node.position, SemanticError::SelfOutsideClass)),
            Some(entry) => match entry {
                Entry::Var(found) => Ok(fetch(level, *found)),
                Entry::Fun(_) => Err(reject(node.position, SemanticError::SelfOutsideClass)),
            },
        },
        Expr::Arith(..) => analyse_operation(node, setting, level, done, vars, frame, source, pointers, fragments),
        Expr::Compare(..) => analyse_operation(node, setting, level, done, vars, frame, source, pointers, fragments),
        Expr::Then(..) => analyse_operation(node, setting, level, done, vars, frame, source, pointers, fragments),
        Expr::Assign(..) => analyse_operation(node, setting, level, done, vars, frame, source, pointers, fragments),
        Expr::If(..) => analyse_choice(node, setting, level, done, vars, frame, source, pointers, fragments),
        Expr::IfThen(..) => analyse_choice(node, setting, level, done, vars, frame, source, pointers, fragments),
        Expr::While(..) => analyse_choice(node, setting, level, done, vars, frame, source, pointers, fragments),
        Expr::Field(..) => analyse_place(node, setting, level, done, vars, frame, source, pointers, fragments),
        Expr::Subscript(..) => analyse_place(node, setting, level, done, vars, frame, source, pointers, fragments),
        Expr::Array(..) => analyse_place(node, setting, level, done, vars, frame, source, pointers, fragments),
        Expr::Call(..) => analyse_call(node, setting, level, done, vars, frame, source, pointers, fragments),
        Expr::MethodCall(..) => analyse_send(node, setting, level, done, vars, frame, source, pointers, fragments),
        Expr::Let(..) => analyse_declaration(node, setting, level, done, vars, frame, source, pointers, fragments),
        Expr::For(..) => analyse_counting(node, setting, level, done, vars, frame, source, pointers, fragments),
        Expr::Record(..) => analyse_creation(node, setting, level, done, vars, frame, source, pointers, fragments),
        Expr::Functions(..) => analyse_group(node, setting, level, done, vars, frame, source, pointers, fragments),
    }
}

/// Analyses an operation, an assignment or a sequence.
fn analyse_operation(
    node: &Node,
    setting: &Setting,
    level: usize,
    done: Option<Label>,
    vars: &mut Symbols<Entry>,
    frame: &mut Frame,
    source: &mut TempSource,
    pointers: &mut Vec<Access>,
    fragments: &mut Vec<FunctionFragment>,
) -> (result: Result<Typed, Failure>)
    requires
        old(frame).wf(),
        node.expr is Arith || node.expr is Compare || node.expr is Then || node.expr is Assign,
    ensures
        final(vars)@ == old(vars)@,
        final(frame).wf(),
        final(frame).name == old(frame).name,
        final(frame).formals == old(frame).formals,
        frames_fit(old(fragments)@) ==> frames_fit(final(fragments)@),
        match analysed(
            *node,
            *setting,
            level,
            old(vars)@,
            done,
            progress_of(*old(frame), *old(source), old(pointers)@, old(fragments)@),
        ) {
            Ok((typed, after)) => result == Ok::<Typed, Failure>(typed) && progress_of(
                *final(frame),
                *final(source),
                final(pointers)@,
                final(fragments)@,
            ) == after,
            Err(failure) => result == Err::<Typed, Failure>(failure),
        },
    decreases node, 0int,
{
    match &node.expr {
        Expr::Arith(op, left, right) => {
            let first = match analyse(left, setting, level, done, vars, frame, source, pointers, fragments) {
                Ok(typed) => typed,
                Err(failure) => {
                    return Err(failure);
                },
            };
            let second = match analyse(right, setting, level, done, vars, frame, source, pointers, fragments) {
                Ok(typed) => typed,
                Err(failure) => {
                    return Err(failure);
                },
            };
            calculate(setting, *op, left.position, right.position, first, second)
        },
        Expr::Compare(op, left, right) => {
            let first = match analyse(left, setting, level, done, vars, frame, source, pointers, fragments) {
                Ok(typed) => typed,
                Err(failure) => {
                    return Err(failure);
                },
            };
            let second = match analyse(right, setting, level, done, vars, frame, source, pointers, fragments) {
                Ok(typed) => typed,
                Err(failure) => {
                    return Err(failure);
                },
            };
            relate(setting, *op, right.position, first, second, source)
        },
        Expr::Then(first, second) => {
            let before = match analyse(first, setting, level, done, vars, frame, source, pointers, fragments) {
                Ok(typed) => typed,
                Err(failure) => {
                    return Err(failure);
                },
            };
            let value = match analyse(second, setting, level, done, vars, frame, source, pointers, fragments) {
                Ok(typed) => typed,
                Err(failure) => {
                    return Err(failure);
                },
            };
            Ok(follow(before, value))
        },
        Expr::Assign(place, value) => {
            let target = match analyse(place, setting, level, done, vars, frame, source, pointers, fragments) {
                Ok(typed) => typed,
                Err(failure) => {
                    return Err(failure);
                },
            };
            let given = match analyse(value, setting, level, done, vars, frame, source, pointers, fragments) {
                Ok(typed) => typed,
                Err(failure) => {
                    return Err(failure);
                },
            };
            store(setting, value.position, target, given)
        },
        _ => Err(Failure::Exhausted),
    }
}

/// Analyses a conditional or a loop.
fn analyse_choice(
    node: &Node,
    setting: &Setting,
    level: usize,
    done: Option<Label>,
    vars: &mut Symbols<Entry>,
    frame: &mut Frame,
    source: &mut TempSource,
    pointers: &mut Vec<Access>,
    fragments: &mut Vec<FunctionFragment>,
) -> (result: Result<Typed, Failure>)
    requires
        old(frame).wf(),
        node.expr is If || node.expr is IfThen || node.expr is While,
    ensures
        final(vars)@ == old(vars)@,
        final(frame).wf(),
        final(frame).name == old(frame).name,
        final(frame).formals == old(frame).formals,
        frames_fit(old(fragments)@) ==> frames_fit(final(fragments)@),
        match analysed(
            *node,
            *setting,
            level,
            old(vars)@,
            done,
            progress_of(*old(frame), *old(source), old(pointers)@, old(fragments)@),
        ) {
            Ok((typed, after)) => result == Ok::<Typed, Failure>(typed) && progress_of(
                *final(frame),
                *final(source),
                final(pointers)@,
                final(fragments)@,
            ) == after,
            Err(failure) => result == Err::<Typed, Failure>(failure),
        },
    decreases node, 0int,
{
    match &node.expr {
        Expr::If(test, then, otherwise) => {
            let condition = match analyse(test, setting, level, done, vars, frame, source, pointers, fragments) {
                Ok(typed) => typed,
                Err(failure) => {
                    return Err(failure);
                },
            };
            let first = match analyse(then, setting, level, done, vars, frame, source, pointers, fragments) {
                Ok(typed) => typed,
                Err(failure) => {
                    return Err(failure);
                },
            };
            let other = match analyse(otherwise, setting, level, done, vars, frame, source, pointers, fragments) {
                Ok(typed) => typed,
                Err(failure) => {
                    return Err(failure);
                },
            };
            proof {
                source.lemma_in_range();
            }
            let temp = source.peek_temp();
            let result = decide(
                setting,
                test.position,
                otherwise.position,
                condition,
                first,
                other,
                source,
            );
            hold(result, &setting.types, temp, pointers)
        },
        Expr::IfThen(test, then) => {
            let condition = match analyse(test, setting, level, done, vars, frame, source, pointers, fragments) {
                Ok(typed) => typed,
                Err(failure) => {
                    return Err(failure);
                },
            };
            let first = match analyse(then, setting, level, done, vars, frame, source, pointers, fragments) {
                Ok(typed) => typed,
                Err(failure) => {
                    return Err(failure);
                },
            };
            guard(setting, test.position, then.position, condition, first, source)
        },
        Expr::While(test, body) => {
            let fresh = source.fresh_label();
            proof {
                source.lemma_in_range();
            }
            let exit = match fresh {
                Some(label) => label,
                None => {
                    return Err(Failure::Exhausted);
                },
            };
            let condition = match analyse(test, setting, level, done, vars, frame, source, pointers, fragments) {
                Ok(typed) => typed,
                Err(failure) => {
                    return Err(failure);
                },
            };
            let inner = match analyse(body, setting, level, Some(exit), vars, frame, source, pointers, fragments) {
                Ok(typed) => typed,
                Err(failure) => {
                    return Err(failure);
                },
            };
            repeat(setting, test.position, body.position, condition, inner, exit, source)
        },
        _ => Err(Failure::Exhausted),
    }
}

/// Analyses a field, an element or a new array.
fn analyse_place(
    node: &Node,
    setting: &Setting,
    level: usize,
    done: Option<Label>,
    vars: &mut Symbols<Entry>,
    frame: &mut Frame,
    source: &mut TempSource,
    pointers: &mut Vec<Access>,
    fragments: &mut Vec<FunctionFragment>,
) -> (result: Result<Typed, Failure>)
    requires
        old(frame).wf(),
        node.expr is Field || node.expr is Subscript || node.expr is Array,
    ensures
        final(vars)@ == old(vars)@,
        final(frame).wf(),
        final(frame).name == old(frame).name,
        final(frame).formals == old(frame).formals,
        frames_fit(old(fragments)@) ==> frames_fit(final(fragments)@),
        match analysed(
            *node,
            *setting,
            level,
            old(vars)@,
            done,
            progress_of(*old(frame), *old(source), old(pointers)@, old(fragments)@),
        ) {
            Ok((typed, after)) => result == Ok::<Typed, Failure>(typed) && progress_of(
                *final(frame),
                *final(source),
                final(pointers)@,
                final(fragments)@,
            ) == after,
            Err(failure) => result == Err::<Typed, Failure>(failure),
        },
    decreases node, 0int,
{
    match &node.expr {
        Expr::Field(record, name) => {
            let base = match analyse(record, setting, level, done, vars, frame, source, pointers, fragments) {
                Ok(typed) => typed,
                Err(failure) => {
                    return Err(failure);
                },
            };
            select(setting, node.position, base, *name)
        },
        Expr::Subscript(array, place) => {
            let base = match analyse(array, setting, level, done, vars, frame, source, pointers, fragments) {
                Ok(typed) => typed,
                Err(failure) => {
                    return Err(failure);
                },
            };
            let at = match analyse(place, setting, level, done, vars, frame, source, pointers, fragments) {
                Ok(typed) => typed,
                Err(failure) => {
                    return Err(failure);
                },
            };
            subscript(setting, array.position, place.position, base, at)
        },
        Expr::Array(name, size, init) => {
            let length = match analyse(size, setting, level, done, vars, frame, source, pointers, fragments) {
                Ok(typed) => typed,
                Err(failure) => {
                    return Err(failure);
                },
            };
            let value = match analyse(init, setting, level, done, vars, frame, source, pointers, fragments) {
                Ok(typed) => typed,
                Err(failure) => {
                    return Err(failure);
                },
            };
            proof {
                source.lemma_in_range();
            }
            let temp = source.peek_temp();
            let result = array(
                setting,
                node.position,
                *name,
                size.position,
                length,
                init.position,
                value,
                source,
            );
            hold(result, &setting.types, temp, pointers)
        },
        _ => Err(Failure::Exhausted),
    }
}

/// Analyses the call of a function.
fn analyse_call(
    node: &Node,
    setting: &Setting,
    level: usize,
    done: Option<Label>,
    vars: &mut Symbols<Entry>,
    frame: &mut Frame,
    source: &mut TempSource,
    pointers: &mut Vec<Access>,
    fragments: &mut Vec<FunctionFragment>,
) -> (result: Result<Typed, Failure>)
    requires
        old(frame).wf(),
        node.expr is Call,
    ensures
        final(vars)@ == old(vars)@,
        final(frame).wf(),
        final(frame).name == old(frame).name,
        final(frame).formals == old(frame).formals,
        frames_fit(old(fragments)@) ==> frames_fit(final(fragments)@),
        match analysed(
            *node,
            *setting,
            level,
            old(vars)@,
            done,
            progress_of(*old(frame), *old(source), old(pointers)@, old(fragments)@),
        ) {
            Ok((typed, after)) => result == Ok::<Typed, Failure>(typed) && progress_of(
                *final(frame),
                *final(source),
                final(pointers)@,
                final(fragments)@,
            ) == after,
            Err(failure) => result == Err::<Typed, Failure>(failure),
        },
    decreases node, 0int,
{
    match &node.expr {
        Expr::Call(symbol, arguments) => {
            let function = match vars.look(*symbol) {
                None => {
                    return Err(
                        reject(node.position, SemanticError::UndefinedIdentifier(*symbol)),
                    );
                },
                Some(entry) => match entry {
                    Entry::Var(_) => {
                        return Err(
                            reject(node.position, SemanticError::UndefinedIdentifier(*symbol)),
                        );
                    },
                    Entry::Fun(function) => *function,
                },
            };
            let (formals, result) = match signature(&setting.types, function.signature) {
                None => {
                    return Err(
                        reject(node.position, SemanticError::UndefinedIdentifier(*symbol)),
                    );
                },
                Some(found) => found,
            };
            let actual = count(arguments);
            if actual != formals.len() {
                return Err(
                    reject(
                        node.position,
                        SemanticError::ArityMismatch { expected: formals.len(), actual },
                    ),
                );
            }
            let values = match analyse_all(
                arguments,
                &formals,
                0,
                setting,
                level,
                done,
                vars,
                frame,
                source,
                pointers,
                fragments,
            ) {
                Ok(values) => values,
                Err(failure) => {
                    return Err(failure);
                },
            };
            Ok(call(level, function, result, values))
        },
        _ => Err(Failure::Exhausted),
    }
}

/// Analyses the call of a method.
fn analyse_send(
    node: &Node,
    setting: &Setting,
    level: usize,
    done: Option<Label>,
    vars: &mut Symbols<Entry>,
    frame: &mut Frame,
    source: &mut TempSource,
    pointers: &mut Vec<Access>,
    fragments: &mut Vec<FunctionFragment>,
) -> (result: Result<Typed, Failure>)
    requires
        old(frame).wf(),
        node.expr is MethodCall,
    ensures
        final(vars)@ == old(vars)@,
        final(frame).wf(),
        final(frame).name == old(frame).name,
        final(frame).formals == old(frame).formals,
        frames_fit(old(fragments)@) ==> frames_fit(final(fragments)@),
        match analysed(
            *node,
            *setting,
            level,
            old(vars)@,
            done,
            progress_of(*old(frame), *old(source), old(pointers)@, old(fragments)@),
        ) {
            Ok((typed, after)) => result == Ok::<Typed, Failure>(typed) && progress_of(
                *final(frame),
                *final(source),
                final(pointers)@,
                final(fragments)@,
            ) == after,
            Err(failure) => result == Err::<Typed, Failure>(failure),
        },
    decreases node, 0int,
{
    match &node.expr {
        Expr::MethodCall(object, name, arguments) => {
            let receiver = match analyse(object, setting, level, done, vars, frame, source, pointers, fragments) {
                Ok(typed) => typed,
                Err(failure) => {
                    return Err(failure);
                },
            };
            let found = match method(setting, node.position, receiver.typ, *name) {
                Ok(found) => found,
                Err(failure) => {
                    return Err(failure);
                },
            };
            let actual = count(arguments);
            if actual != found.formals.len() {
                return Err(
                    reject(
                        node.position,
                        SemanticError::ArityMismatch { expected: found.formals.len(), actual },
                    ),
                );
            }
            let values = match analyse_all(
                arguments,
                &found.formals,
                0,
                setting,
                level,
                done,
                vars,
                frame,
                source,
                pointers,
                fragments,
            ) {
                Ok(values) => values,
                Err(failure) => {
                    return Err(failure);
                },
            };
            send(setting, receiver.exp, found.index, found.result, values, source)
        },
        _ => Err(Failure::Exhausted),
    }
}

/// Analyses a declaration.
fn analyse_declaration(
    node: &Node,
    setting: &Setting,
    level: usize,
    done: Option<Label>,
    vars: &mut Symbols<Entry>,
    frame: &mut Frame,
    source: &mut TempSource,
    pointers: &mut Vec<Access>,
    fragments: &mut Vec<FunctionFragment>,
) -> (result: Result<Typed, Failure>)
    requires
        old(frame).wf(),
        node.expr is Let,
    ensures
        final(vars)@ == old(vars)@,
        final(frame).wf(),
        final(frame).name == old(frame).name,
        final(frame).formals == old(frame).formals,
        frames_fit(old(fragments)@) ==> frames_fit(final(fragments)@),
        match analysed(
            *node,
            *setting,
            level,
            old(vars)@,
            done,
            progress_of(*old(frame), *old(source), old(pointers)@, old(fragments)@),
        ) {
            Ok((typed, after)) => result == Ok::<Typed, Failure>(typed) && progress_of(
                *final(frame),
                *final(source),
                final(pointers)@,
                final(fragments)@,
            ) == after,
            Err(failure) => result == Err::<Typed, Failure>(failure),
        },
    decreases node, 0int,
{
    match &node.expr {
        Expr::Let(declaration, init, body) => {
            let value = match analyse(init, setting, level, done, vars, frame, source, pointers, fragments) {
                Ok(typed) => typed,
                Err(failure) => {
                    return Err(failure);
                },
            };
            let typ = match declare(
                setting,
                node.position,
                init.position,
                declaration.annotation,
                value.typ,
            ) {
                Ok(typ) => typ,
                Err(failure) => {
                    return Err(failure);
                },
            };
            let pointer = holds_pointer(&setting.types, typ);
            let escaping = is_escaping(&setting.escapes, declaration.site);
            let access = match home(escaping, pointer, frame, source, pointers) {
                Some(access) => access,
                None => {
                    return Err(Failure::Exhausted);
                },
            };
            vars.begin_scope();
            vars.enter(
                declaration.name,
                Entry::Var(Variable { access, typ, level: level }),
            );
            let outcome = analyse(body, setting, level, done, vars, frame, source, pointers, fragments);
            vars.end_scope();
            assert(vars@ =~= old(vars)@);
            match outcome {
                Ok(result) => Ok(bind(access, value, result)),
                Err(failure) => Err(failure),
            }
        },
        _ => Err(Failure::Exhausted),
    }
}

/// Analyses a counting loop.
fn analyse_counting(
    node: &Node,
    setting: &Setting,
    level: usize,
    done: Option<Label>,
    vars: &mut Symbols<Entry>,
    frame: &mut Frame,
    source: &mut TempSource,
    pointers: &mut Vec<Access>,
    fragments: &mut Vec<FunctionFragment>,
) -> (result: Result<Typed, Failure>)
    requires
        old(frame).wf(),
        node.expr is For,
    ensures
        final(vars)@ == old(vars)@,
        final(frame).wf(),
        final(frame).name == old(frame).name,
        final(frame).formals == old(frame).formals,
        frames_fit(old(fragments)@) ==> frames_fit(final(fragments)@),
        match analysed(
            *node,
            *setting,
            level,
            old(vars)@,
            done,
            progress_of(*old(frame), *old(source), old(pointers)@, old(fragments)@),
        ) {
            Ok((typed, after)) => result == Ok::<Typed, Failure>(typed) && progress_of(
                *final(frame),
                *final(source),
                final(pointers)@,
                final(fragments)@,
            ) == after,
            Err(failure) => result == Err::<Typed, Failure>(failure),
        },
    decreases node, 0int,
{
    match &node.expr {
        Expr::For(declaration, low, high, body) => {
            let first = match analyse(low, setting, level, done, vars, frame, source, pointers, fragments) {
                Ok(typed) => typed,
                Err(failure) => {
                    return Err(failure);
                },
            };
            let last = match analyse(high, setting, level, done, vars, frame, source, pointers, fragments) {
                Ok(typed) => typed,
                Err(failure) => {
                    return Err(failure);
                },
            };
            match bounds(setting, low.position, high.position, first.typ, last.typ) {
                Some(failure) => {
                    return Err(failure);
                },
                None => {},
            }
            let escaping = is_escaping(&setting.escapes, declaration.site);
            let access = match home(escaping, false, frame, source, pointers) {
                Some(access) => access,
                None => {
                    return Err(Failure::Exhausted);
                },
            };
            let fresh = source.fresh_label();
            proof {
                source.lemma_in_range();
            }
            let exit = match fresh {
                Some(label) => label,
                None => {
                    return Err(Failure::Exhausted);
                },
            };
            vars.begin_scope();
            vars.enter(
                declaration.name,
                Entry::Var(
                    Variable { access, typ: setting.builtins.int, level: level },
                ),
            );
            let outcome = analyse(body, setting, level, Some(exit), vars, frame, source, pointers, fragments);
            vars.end_scope();
            assert(vars@ =~= old(vars)@);
            match outcome {
                Ok(inner) => iterate(
                    setting,
                    body.position,
                    access,
                    first.exp,
                    last.exp,
                    inner,
                    exit,
                    source,
                ),
                Err(failure) => Err(failure),
            }
        },
        _ => Err(Failure::Exhausted),
    }
}

/// Analyses a new record.
fn analyse_creation(
    node: &Node,
    setting: &Setting,
    level: usize,
    done: Option<Label>,
    vars: &mut Symbols<Entry>,
    frame: &mut Frame,
    source: &mut TempSource,
    pointers: &mut Vec<Access>,
    fragments: &mut Vec<FunctionFragment>,
) -> (result: Result<Typed, Failure>)
    requires
        old(frame).wf(),
        node.expr is Record,
    ensures
        final(vars)@ == old(vars)@,
        final(frame).wf(),
        final(frame).name == old(frame).name,
        final(frame).formals == old(frame).formals,
        frames_fit(old(fragments)@) ==> frames_fit(final(fragments)@),
        match analysed(
            *node,
            *setting,
            level,
            old(vars)@,
            done,
            progress_of(*old(frame), *old(source), old(pointers)@, old(fragments)@),
        ) {
            Ok((typed, after)) => result == Ok::<Typed, Failure>(typed) && progress_of(
                *final(frame),
                *final(source),
                final(pointers)@,
                final(fragments)@,
            ) == after,
            Err(failure) => result == Err::<Typed, Failure>(failure),
        },
    decreases node, 0int,
{
    match &node.expr {
        Expr::Record(name, descriptor, values) => {
            let typ = match setting.named.look(*name) {
                None => {
                    return Err(reject(node.position, SemanticError::UndefinedType(*name)));
                },
                Some(typ) => *typ,
            };
            let fields = match record_fields(&setting.types, typ) {
                None => {
                    return Err(reject(node.position, SemanticError::UndefinedType(*name)));
                },
                Some(fields) => fields,
            };
            let actual = count_values(values);
            if actual != fields.len() {
                return Err(
                    reject(
                        node.position,
                        SemanticError::ArityMismatch { expected: fields.len(), actual },
                    ),
                );
            }
            let mut inits: Vec<FieldInit> = Vec::new();
            match analyse_fields(
                values,
                &fields,
                0,
                setting,
                level,
                done,
                vars,
                frame,
                source,
                pointers,
                fragments,
                &mut inits,
            ) {
                Some(failure) => {
                    return Err(failure);
                },
                None => {},
            }
            proof {
                source.lemma_in_range();
            }
            let temp = source.peek_temp();
            let result = make(setting, *descriptor, typ, inits, source);
            hold(result, &setting.types, temp, pointers)
        },
        _ => Err(Failure::Exhausted),
    }
}

/// Analyses a group of functions and the expression that they are
/// declared for.
fn analyse_group(
    node: &Node,
    setting: &Setting,
    level: usize,
    done: Option<Label>,
    vars: &mut Symbols<Entry>,
    frame: &mut Frame,
    source: &mut TempSource,
    pointers: &mut Vec<Access>,
    fragments: &mut Vec<FunctionFragment>,
) -> (result: Result<Typed, Failure>)
    requires
        old(frame).wf(),
        node.expr is Functions,
    ensures
        final(vars)@ == old(vars)@,
        final(frame).wf(),
        final(frame).name == old(frame).name,
        final(frame).formals == old(frame).formals,
        frames_fit(old(fragments)@) ==> frames_fit(final(fragments)@),
        match analysed(
            *node,
            *setting,
            level,
            old(vars)@,
            done,
            progress_of(*old(frame), *old(source), old(pointers)@, old(fragments)@),
        ) {
            Ok((typed, after)) => result == Ok::<Typed, Failure>(typed) && progress_of(
                *final(frame),
                *final(source),
                final(pointers)@,
                final(fragments)@,
            ) == after,
            Err(failure) => result == Err::<Typed, Failure>(failure),
        },
    decreases node, 0int,
{
    match &node.expr {
        Expr::Functions(group, body) => {
            if level == usize::MAX {
                return Err(Failure::Exhausted);
            }
            vars.begin_scope();
            match head_all(group, level, vars) {
                Some((position, name)) => {
                    vars.end_scope();
                    assert(vars@ =~= old(vars)@);
                    return Err(reject(position, SemanticError::DuplicateDeclaration(name)));
                },
                None => {},
            }
            match define_all(group, setting, level + 1, vars, source, fragments) {
                Some(failure) => {
                    vars.end_scope();
                    assert(vars@ =~= old(vars)@);
                    return Err(failure);
                },
                None => {},
            }
            let outcome = analyse(body, setting, level, done, vars, frame, source, pointers, fragments);
            vars.end_scope();
            assert(vars@ =~= old(vars)@);
            outcome
        },
        _ => Err(Failure::Exhausted),
    }
}

/// Binds the functions of a group in the innermost scope, each as a
/// function that is declared at the given depth. The result is the place
/// and the name of the first that is bound there already, if one is.
pub fn head_all(group: &List<Definition>, level: usize, vars: &mut Symbols<Entry>) -> (result: Option<
    (Position, Symbol),
>)
    ensures
        old(vars)@.len() > 0 ==> final(vars)@.len() == old(vars)@.len(),
        old(vars)@.len() > 0 ==> final(vars)@.drop_last() == old(vars)@.drop_last(),
        match headed(old(vars)@, *group, level) {
            Ok(inner) => result.is_none() && final(vars)@ == inner,
            Err(found) => result == Some(found),
        },
    decreases group,
{
    match group {
        List::Nil => None,
        List::Cons(head, tail) => {
            if vars.is_bound_here(head.name) {
                return Some((head.position, head.name));
            }
            vars.enter(
                head.name,
                Entry::Fun(
                    Function {
                        label: head.label,
                        signature: head.signature,
                        level,
                        external: false,
                    },
                ),
            );
            assert(old(vars)@.len() > 0 ==> vars@.drop_last() =~= old(vars)@.drop_last());
            head_all(tail, level, vars)
        },
    }
}

/// Analyses the functions of a group, first to last, and adds each to the
/// functions that have been analysed. The result is the first thing that
/// is wrong, if anything is.
pub fn define_all(
    group: &List<Definition>,
    setting: &Setting,
    level: usize,
    vars: &mut Symbols<Entry>,
    source: &mut TempSource,
    fragments: &mut Vec<FunctionFragment>,
) -> (result: Option<Failure>)
    ensures
        final(vars)@ == old(vars)@,
        frames_fit(old(fragments)@) ==> frames_fit(final(fragments)@),
        match defined_all(
            *group,
            *setting,
            level,
            old(vars)@,
            counters_of(*old(source)),
            fragment_views(old(fragments)@),
        ) {
            Ok((counters, found)) => result.is_none() && counters_of(*final(source)) == counters
                && fragment_views(final(fragments)@) == found,
            Err(failure) => result == Some(failure),
        },
    decreases group, 0int,
{
    match group {
        List::Nil => None,
        List::Cons(head, tail) => {
            let fragment = match define(head, setting, level, vars, source, fragments) {
                Ok(fragment) => fragment,
                Err(failure) => {
                    return Some(failure);
                },
            };
            let ghost before = fragments@;
            fragments.push(fragment);
            assert(frames_fit(before) ==> frames_fit(fragments@)) by {
                assert forall|i: int| 0 <= i < before.len() implies fragments@[i] == before[i] by {}
            }
            assert(fragment_views(fragments@) =~= fragment_views(before).push(
                fragment_view(fragment),
            ));
            define_all(tail, setting, level, vars, source, fragments)
        },
    }
}

/// Analyses the values of a new record, first to last, against the fields
/// from `index` on, and adds what each field starts with to `inits`. The
/// result is the first thing that is wrong, if anything is.
pub fn analyse_fields(
    values: &List<FieldValue>,
    fields: &Vec<Field>,
    index: usize,
    setting: &Setting,
    level: usize,
    done: Option<Label>,
    vars: &mut Symbols<Entry>,
    frame: &mut Frame,
    source: &mut TempSource,
    pointers: &mut Vec<Access>,
    fragments: &mut Vec<FunctionFragment>,
    inits: &mut Vec<FieldInit>,
) -> (result: Option<Failure>)
    requires
        old(frame).wf(),
    ensures
        final(vars)@ == old(vars)@,
        final(frame).wf(),
        final(frame).name == old(frame).name,
        final(frame).formals == old(frame).formals,
        frames_fit(old(fragments)@) ==> frames_fit(final(fragments)@),
        match analysed_fields(
            *values,
            fields@,
            index,
            *setting,
            level,
            old(vars)@,
            done,
            progress_of(*old(frame), *old(source), old(pointers)@, old(fragments)@),
        ) {
            Ok((found, after)) => result.is_none() && final(inits)@ == old(inits)@ + found
                && progress_of(*final(frame), *final(source), final(pointers)@, final(fragments)@,) == after,
            Err(failure) => result == Some(failure),
        },
    decreases values, 0int,
{
    match values {
        List::Nil => {
            assert(inits@ =~= old(inits)@ + Seq::<FieldInit>::empty());
            None
        },
        List::Cons(head, tail) => {
            if index < fields.len() && head.name != fields[index].name {
                return Some(
                    reject(head.value.position, SemanticError::UndefinedField(head.name)),
                );
            }
            let value = match analyse(&head.value, setting, level, done, vars, frame, source, pointers, fragments) {
                Ok(typed) => typed,
                Err(failure) => {
                    return Some(failure);
                },
            };
            if index < fields.len() && !setting.types.is_compatible(fields[index].typ, value.typ) {
                return Some(
                    mismatch(setting, head.value.position, fields[index].typ, value.typ),
                );
            }
            let offset = if index < fields.len() {
                fields[index].offset
            } else {
                0
            };
            let next = if index < fields.len() {
                index + 1
            } else {
                index
            };
            inits.push(FieldInit { offset, value: value.exp });
            let result = analyse_fields(
                tail,
                fields,
                next,
                setting,
                level,
                done,
                vars,
                frame,
                source,
                pointers,
                fragments,
                inits,
            );
            proof {
                if result.is_none() {
                    let found = analysed_fields(
                        *values,
                        fields@,
                        index,
                        *setting,
                        level,
                        old(vars)@,
                        done,
                        progress_of(*old(frame), *old(source), old(pointers)@, old(fragments)@),
                    )->Ok_0.0;
                    assert(inits@ =~= old(inits)@ + found);
                }
            }
            result
        },
    }
}

/// Analyses the arguments of a call, first to last, against the formals
/// from `index` on.
pub fn analyse_all(
    nodes: &List<Node>,
    formals: &Vec<TypeId>,
    index: usize,
    setting: &Setting,
    level: usize,
    done: Option<Label>,
    vars: &mut Symbols<Entry>,
    frame: &mut Frame,
    source: &mut TempSource,
    pointers: &mut Vec<Access>,
    fragments: &mut Vec<FunctionFragment>,
) -> (result: Result<List<Exp>, Failure>)
    requires
        old(frame).wf(),
    ensures
        final(vars)@ == old(vars)@,
        final(frame).wf(),
        final(frame).name == old(frame).name,
        final(frame).formals == old(frame).formals,
        frames_fit(old(fragments)@) ==> frames_fit(final(fragments)@),
        match analysed_all(
            *nodes,
            formals@,
            index,
            *setting,
            level,
            old(vars)@,
            done,
            progress_of(*old(frame), *old(source), old(pointers)@, old(fragments)@),
        ) {
            Ok((values, after)) => result == Ok::<List<Exp>, Failure>(values) && progress_of(
                *final(frame),
                *final(source),
                final(pointers)@,
                final(fragments)@,
            ) == after,
            Err(failure) => result == Err::<List<Exp>, Failure>(failure),
        },
    decreases nodes, 0int,
{
    match nodes {
        List::Nil => Ok(List::Nil),
        List::Cons(head, tail) => {
            let value = match analyse(head, setting, level, done, vars, frame, source, pointers, fragments) {
                Ok(typed) => typed,
                Err(failure) => {
                    return Err(failure);
                },
            };
            if index < formals.len() && !setting.types.is_compatible(formals[index], value.typ) {
                return Err(mismatch(setting, head.position, formals[index], value.typ));
            }
            let next = if index < formals.len() {
                index + 1
            } else {
                index
            };
            match analyse_all(tail, formals, next, setting, level, done, vars, frame, source, pointers, fragments) {
                Ok(rest) => Ok(List::Cons(value.exp, Box::new(rest))),
                Err(failure) => Err(failure),
            }
        },
    }
}

/// Whether a type stands for the type without values.
pub fn is_unit(types: &Types, id: TypeId) -> (result: bool)
    ensures
        result == is_nothing(types@, id),
{
    match types.actual(id) {
        None => false,
        Some(found) => match types.get(found) {
            None => false,
            Some(typ) => match typ {
                Type::Unit => true,
                _ => false,
            },
        },
    }
}

/// Whether the variable of a declaration has to live in the frame.
pub fn is_escaping(marks: &Vec<bool>, site: usize) -> (escapes: bool)
    ensures
        escapes == escapes_at(marks@, site),
{
    site >= marks.len() || marks[site]
}

/// Which of the words that a function gets escape.
pub fn escapes_of(marks: &Vec<bool>, formals: &Vec<Formal>) -> (escapes: Vec<bool>)
    ensures
        escapes@ == frame_escapes(marks@, formals@),
{
    let mut escapes: Vec<bool> = Vec::new();
    escapes.push(true);
    let mut index: usize = 0;
    while index < formals.len()
        invariant
            index <= formals@.len(),
            escapes@.len() == index + 1,
            forall|i: int|
                0 <= i <= index ==> escapes@[i] == frame_escapes(marks@, formals@)[i],
        decreases formals.len() - index,
    {
        escapes.push(is_escaping(marks, formals[index].site));
        index += 1;
    }
    assert(escapes@ =~= frame_escapes(marks@, formals@));
    escapes
}

/// Analyses a function at the depth `level`: gives it a frame, binds
/// its formals, analyses its body and checks the type of its value. The
/// functions that are declared inside it are added to the functions that
/// have been analysed. The variables in scope are the same afterwards.
pub fn define(
    definition: &Definition,
    setting: &Setting,
    level: usize,
    vars: &mut Symbols<Entry>,
    source: &mut TempSource,
    fragments: &mut Vec<FunctionFragment>,
) -> (result: Result<FunctionFragment, Failure>)
    ensures
        final(vars)@ == old(vars)@,
        frames_fit(old(fragments)@) ==> frames_fit(final(fragments)@),
        match defined(
            *definition,
            *setting,
            level,
            old(vars)@,
            counters_of(*old(source)),
            fragment_views(old(fragments)@),
        ) {
            Ok((found, counters, inner)) => {
                &&& result matches Ok(fragment)
                &&& fragment_view(fragment) == found
                &&& fragment.frame.wf()
                &&& counters_of(*final(source)) == counters
                &&& fragment_views(final(fragments)@) == inner
            },
            Err(failure) => result matches Err(found) && found == failure,
        },
    decreases definition, 0int,
{
    let escapes = escapes_of(&setting.escapes, &definition.formals);
    proof {
        source.lemma_in_range();
    }
    let made = Frame::new(definition.label, &escapes, source);
    proof {
        source.lemma_in_range();
    }
    let mut frame = match made {
        Some(frame) => frame,
        None => {
            return Err(Failure::Exhausted);
        },
    };
    let mut pointers: Vec<Access> = Vec::new();
    vars.begin_scope();
    let ghost mut scope: Seq<Binding<Entry>> = Seq::empty();
    let ghost table = setting.types@;
    let ghost homes = frame.formals@;
    let mut index: usize = 0;
    while index < definition.formals.len() && index + 1 < frame.formals.len()
        invariant
            index <= definition.formals@.len(),
            table == setting.types@,
            homes == frame.formals@,
            escapes@ == frame_escapes(setting.escapes@, definition.formals@),
            escapes@.len() <= MAX_SLOTS,
            (frame.formals@, frame.slots as nat, source.next_temp()) == accesses_from(
                escapes@,
                0,
                0,
                old(source).next_temp(),
            ),
            vars@ == old(vars)@.push(scope),
            entering(Seq::empty(), Seq::empty(), table, definition.formals@, homes, level, 0)
                == entering(
                scope,
                pointers@,
                table,
                definition.formals@,
                homes,
                level,
                index as int,
            ),
        decreases definition.formals.len() - index,
    {
        let formal = definition.formals[index];
        assert(vars@.last() == scope);
        if vars.is_bound_here(formal.name) {
            proof {
                source.lemma_in_range();
            }
            vars.end_scope();
            assert(vars@ =~= old(vars)@);
            return Err(
                reject(definition.position, SemanticError::DuplicateDeclaration(formal.name)),
            );
        }
        let access = frame.formals[index + 1];
        vars.enter(formal.name, Entry::Var(Variable { access, typ: formal.typ, level }));
        let pointer = holds_pointer(&setting.types, formal.typ);
        if pointer {
            pointers.push(access);
        }
        proof {
            scope =
            scope.push(
                Binding {
                    symbol: formal.name,
                    value: Entry::Var(Variable { access, typ: formal.typ, level }),
                },
            );
            assert(vars@ =~= old(vars)@.push(scope));
        }
        index += 1;
    }
    let outcome = analyse(
        &definition.body,
        setting,
        level,
        None,
        vars,
        &mut frame,
        source,
        &mut pointers,
        fragments,
    );
    vars.end_scope();
    assert(vars@ =~= old(vars)@);
    let value = match outcome {
        Ok(value) => value,
        Err(failure) => {
            return Err(failure);
        },
    };
    if !setting.types.is_compatible(definition.result, value.typ) {
        return Err(mismatch(setting, definition.body.position, definition.result, value.typ));
    }
    let body = if is_unit(&setting.types, definition.result) {
        procedure_body(value.exp)
    } else {
        function_body(value.exp)
    };
    let (temp_map, escaping_vars) = split_homes(&pointers);
    Ok(FunctionFragment { body, frame, temp_map, escaping_vars })
}

/// The temporaries and the words of the frame among homes, each in the
/// order of the homes.
pub fn split_homes(homes: &Vec<Access>) -> (parts: (Vec<Temp>, Vec<i64>))
    ensures
        parts.0@ == registers_among(homes@, homes@.len() as int),
        parts.1@ == words_among(homes@, homes@.len() as int),
{
    let mut temps: Vec<Temp> = Vec::new();
    let mut words: Vec<i64> = Vec::new();
    let mut index: usize = 0;
    while index < homes.len()
        invariant
            index <= homes@.len(),
            temps@ == registers_among(homes@, index as int),
            words@ == words_among(homes@, index as int),
        decreases homes.len() - index,
    {
        match homes[index] {
            Access::InReg(temp) => {
                temps.push(temp);
            },
            Access::InFrame(offset) => {
                words.push(offset);
            },
        }
        index += 1;
    }
    (temps, words)
}

/// Analyses a program: its outermost function, at depth zero, and every
/// function that is declared inside it. First the walk over the program
/// finds the variables that escape, `sites` being the number of
/// declarations of variables, and the setting is told. The result holds
/// the functions in the order in which their analysis ended, so that the
/// outermost one comes last.
pub fn analyse_program(
    main: &Definition,
    setting: &mut Setting,
    sites: usize,
    vars: &mut Symbols<Entry>,
    source: &mut TempSource,
) -> (result: Result<Vec<FunctionFragment>, Failure>)
    ensures
        final(vars)@ == old(vars)@,
        final(setting).types == old(setting).types,
        final(setting).named == old(setting).named,
        final(setting).builtins == old(setting).builtins,
        final(setting).names == old(setting).names,
        final(setting).receiver == old(setting).receiver,
        final(setting).escapes@ == escaping(*main, old(setting).receiver, sites as nat),
        match defined(
            *main,
            *final(setting),
            0,
            old(vars)@,
            counters_of(*old(source)),
            Seq::empty(),
        ) {
            Ok((found, counters, inner)) => {
                &&& result matches Ok(fragments)
                &&& fragment_views(fragments@) == inner.push(found)
                &&& frames_fit(fragments@)
                &&& counters_of(*final(source)) == counters
            },
            Err(failure) => result matches Err(found) && found == failure,
        },
{
    setting.escapes = program_escapes(main, setting.receiver, sites);
    let mut fragments: Vec<FunctionFragment> = Vec::new();
    assert(fragment_views(fragments@) =~= Seq::empty());
    let fragment = match define(main, setting, 0, vars, source, &mut fragments) {
        Ok(fragment) => fragment,
        Err(failure) => {
            return Err(failure);
        },
    };
    let ghost before = fragments@;
    fragments.push(fragment);
    assert(fragment_views(fragments@) =~= fragment_views(before).push(fragment_view(fragment)));
    assert(frames_fit(fragments@)) by {
        assert forall|i: int| 0 <= i < before.len() implies fragments@[i] == before[i] by {}
    }
    Ok(fragments)
}

/// A type that a group of declarations declares, and where.
#[derive(Clone, Copy, Debug, PartialEq, Eq)]
pub struct Declared {
    pub position: Position,
    pub name: Symbol,
    pub typ: TypeId,
}

/// The first of the declared types from `from` on that stands for no
/// type: its names lead in a circle, or to a name that was never
/// resolved.
pub open spec fn unfounded_from(table: Seq<Type>, declared: Seq<Declared>, from: int) -> Option<
    Declared,
>
    decreases declared.len() - from,
{
    if from < 0 || from >= declared.len() {
        None
    } else if actual(table, declared[from].typ) is None {
        Some(declared[from])
    } else {
        unfounded_from(table, declared, from + 1)
    }
}

/// What is wrong with the types of a group of declarations, once each
/// has been resolved: the first that is declared through names alone,
/// none of which is a record, an array or a class.
pub open spec fn groundless(table: Seq<Type>, declared: Seq<Declared>) -> Option<Failure> {
    match unfounded_from(table, declared, 0) {
        Some(found) => Some(rejected(found.position, SemanticError::RecursiveType(found.name))),
        None => None,
    }
}

/// Checks the types of a group of declarations, once each has been
/// resolved.
pub fn check_types(types: &Types, declared: &Vec<Declared>) -> (failure: Option<Failure>)
    ensures
        failure == groundless(types@, declared@),
{
    let mut index: usize = 0;
    while index < declared.len()
        invariant
            index <= declared@.len(),
            unfounded_from(types@, declared@, 0) == unfounded_from(
                types@,
                declared@,
                index as int,
            ),
        decreases declared.len() - index,
    {
        let found = declared[index];
        if types.actual(found.typ).is_none() {
            return Some(reject(found.position, SemanticError::RecursiveType(found.name)));
        }
        index += 1;
    }
    None
}

/// The label of the table of methods of the class that a type stands
/// for, and its methods.
pub open spec fn class_of(table: Seq<Type>, id: TypeId) -> Option<(Label, Seq<Method>)> {
    match actual(table, id) {
        Some(found) => if found < table.len() {
            match table[found as int] {
                Type::Class { methods, vtable, .. } => Some((vtable, methods@)),
                _ => None,
            }
        } else {
            None
        },
        None => None,
    }
}

/// The labels of methods, in their order.
pub open spec fn labels_of(methods: Seq<Method>) -> Seq<Label> {
    methods.map_values(|method: Method| method.label)
}

/// The table of methods of a class as data of the program: the labels
/// of its methods in the order in which the class lists them. The result
/// is `None` where the type stands for no class.
pub fn vtable(types: &Types, class: TypeId) -> (fragment: Option<Fragment>)
    ensures
        match class_of(types@, class) {
            Some((label, methods)) => {
                &&& fragment matches Some(Fragment::VTable { class: found, methods: labels })
                &&& found == label
                &&& labels@ == labels_of(methods)
            },
            None => fragment is None,
        },
{
    let id = match types.actual(class) {
        None => {
            return None;
        },
        Some(id) => id,
    };
    match types.get(id) {
        None => None,
        Some(held) => match held {
            Type::Class { methods, vtable, .. } => {
                let mut labels: Vec<Label> = Vec::new();
                let mut index: usize = 0;
                while index < methods.len()
                    invariant
                        index <= methods@.len(),
                        labels@ == labels_of(methods@).take(index as int),
                    decreases methods.len() - index,
                {
                    labels.push(methods[index].label);
                    assert(labels@ =~= labels_of(methods@).take(index + 1));
                    index += 1;
                }
                assert(labels_of(methods@).take(methods@.len() as int) =~= labels_of(methods@));
                Some(Fragment::VTable { class: *vtable, methods: labels })
            },
            _ => None,
        },
    }
}

} // verus!
