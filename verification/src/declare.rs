//! Declarations of types: a group of declarations, which may name one
//! another, is entered into the table of types.

use crate::analysis::{
    check_types, copy_fields, groundless, reject, rejected, Declared, Failure,
};
use crate::diagnostic::Position;
use crate::env::{bound_in, entered, looked, Binding, Symbols};
use crate::error::SemanticError;
use crate::symbol::Symbol;
use crate::temp::Label;
use crate::types::{actual, Field, Method, Type, TypeId, Types};
use vstd::prelude::*;

verus! {

/// A field as a declaration writes it: its name and the name of its
/// type.
#[derive(Clone, Copy, Debug, PartialEq, Eq)]
pub struct FieldSyntax {
    pub position: Position,
    pub name: Symbol,
    pub typ: Symbol,
}

/// What a declaration says that its name stands for: another name, an
/// array of a named type, or a record.
#[derive(Debug, PartialEq, Eq)]
pub enum TypeBody {
    Alias(Symbol),
    Array(Symbol),
    Record(Vec<FieldSyntax>),
}

/// The declaration of a type.
#[derive(Debug, PartialEq, Eq)]
pub struct TypeDeclaration {
    pub position: Position,
    pub name: Symbol,
    pub body: TypeBody,
}

/// Whether a declaration makes a type of its own.
pub open spec fn is_composite(declaration: TypeDeclaration) -> bool {
    !(declaration.body is Alias)
}

/// The number of declarations among the first `count` that make a type
/// of their own.
pub open spec fn composites_before(group: Seq<TypeDeclaration>, count: int) -> nat
    decreases count,
{
    if count <= 0 || count > group.len() {
        0
    } else {
        composites_before(group, count - 1) + if is_composite(group[count - 1]) {
            1nat
        } else {
            0nat
        }
    }
}

/// The scopes with the names of the first `count` declarations bound,
/// each to its place in the table, `base` being the place of the first.
pub open spec fn header_scopes(
    scopes: Seq<Seq<Binding<TypeId>>>,
    group: Seq<TypeDeclaration>,
    base: nat,
    count: int,
) -> Seq<Seq<Binding<TypeId>>>
    decreases count,
{
    if count <= 0 || count > group.len() {
        scopes
    } else {
        entered(
            header_scopes(scopes, group, base, count - 1),
            Binding { symbol: group[count - 1].name, value: (base + count - 1) as usize },
        )
    }
}

/// Whether the name of a declaration is bound in the innermost scope
/// when its turn comes.
pub open spec fn twice_at(
    scopes: Seq<Seq<Binding<TypeId>>>,
    group: Seq<TypeDeclaration>,
    base: nat,
    index: int,
) -> bool {
    let before = header_scopes(scopes, group, base, index);
    before.len() > 0 && bound_in(before.last(), group[index].name) is Some
}

/// The first declaration from `from` on whose name is declared twice.
pub open spec fn first_twice(
    scopes: Seq<Seq<Binding<TypeId>>>,
    group: Seq<TypeDeclaration>,
    base: nat,
    from: int,
) -> Option<int>
    decreases group.len() - from,
{
    if from < 0 || from >= group.len() {
        None
    } else if twice_at(scopes, group, base, from) {
        Some(from)
    } else {
        first_twice(scopes, group, base, from + 1)
    }
}

/// The first field from `from` on whose type is not in scope.
pub open spec fn first_unknown(
    scopes: Seq<Seq<Binding<TypeId>>>,
    fields: Seq<FieldSyntax>,
    from: int,
) -> Option<int>
    decreases fields.len() - from,
{
    if from < 0 || from >= fields.len() {
        None
    } else if looked(scopes, fields[from].typ) is None {
        Some(from)
    } else {
        first_unknown(scopes, fields, from + 1)
    }
}

/// Whether the offsets of so many fields behind a header of `header`
/// bytes are machine integers.
pub open spec fn fits(header: i64, count: nat) -> bool {
    count == 0 || header + 8 * (count - 1) <= i64::MAX
}

/// The fields of a record or a class: each with the type that its name
/// stands for, eight bytes behind the one before it, the first behind
/// the header and behind `first` fields that are there already.
pub open spec fn fields_from(
    scopes: Seq<Seq<Binding<TypeId>>>,
    fields: Seq<FieldSyntax>,
    header: i64,
    first: nat,
) -> Seq<Field> {
    Seq::new(
        fields.len(),
        |k: int|
            Field {
                name: fields[k].name,
                typ: looked(scopes, fields[k].typ)->0,
                offset: (header + 8 * (first + k)) as i64,
            },
    )
}

/// What is wrong with what a declaration stands for, if anything: a name
/// of a type is not in scope; or the marks or the offsets have run out.
/// `marks` is the number of marks in use when its turn comes.
pub open spec fn body_failure(
    scopes: Seq<Seq<Binding<TypeId>>>,
    declaration: TypeDeclaration,
    marks: nat,
    header: i64,
) -> Option<Failure> {
    match declaration.body {
        TypeBody::Alias(target) => if looked(scopes, target) is None {
            Some(rejected(declaration.position, SemanticError::UndefinedType(target)))
        } else {
            None
        },
        TypeBody::Array(element) => if looked(scopes, element) is None {
            Some(rejected(declaration.position, SemanticError::UndefinedType(element)))
        } else if marks >= usize::MAX {
            Some(Failure::Exhausted)
        } else {
            None
        },
        TypeBody::Record(fields) => if !fits(header, fields@.len()) {
            Some(Failure::Exhausted)
        } else {
            match first_unknown(scopes, fields@, 0) {
                Some(k) => Some(
                    rejected(fields@[k].position, SemanticError::UndefinedType(fields@[k].typ)),
                ),
                None => if marks >= usize::MAX {
                    Some(Failure::Exhausted)
                } else {
                    None
                },
            }
        },
    }
}

/// What is wrong with the first declaration from `from` on with which
/// something is wrong.
pub open spec fn first_failure(
    scopes: Seq<Seq<Binding<TypeId>>>,
    group: Seq<TypeDeclaration>,
    marks: nat,
    header: i64,
    from: int,
) -> Option<Failure>
    decreases group.len() - from,
{
    if from < 0 || from >= group.len() {
        None
    } else {
        match body_failure(
            scopes,
            group[from],
            marks + composites_before(group, from),
            header,
        ) {
            Some(failure) => Some(failure),
            None => first_failure(scopes, group, marks, header, from + 1),
        }
    }
}

/// The place in the table of what a declaration stands for: the place
/// of the type that it names, or the place of the type that it makes,
/// behind the names of the group.
pub open spec fn target_of(
    scopes: Seq<Seq<Binding<TypeId>>>,
    group: Seq<TypeDeclaration>,
    base: nat,
    index: int,
) -> TypeId {
    match group[index].body {
        TypeBody::Alias(target) => looked(scopes, target)->0,
        _ => (base + group.len() + composites_before(group, index)) as usize,
    }
}

/// Whether a type of the table is the one that a declaration makes.
pub open spec fn built(
    typ: Type,
    scopes: Seq<Seq<Binding<TypeId>>>,
    declaration: TypeDeclaration,
    mark: nat,
    header: i64,
) -> bool {
    match declaration.body {
        TypeBody::Alias(_) => true,
        TypeBody::Array(element) => typ == Type::Array {
            element: looked(scopes, element)->0,
            unique: mark as usize,
        },
        TypeBody::Record(fields) => typ matches Type::Record { name, fields: made, unique }
            && name == declaration.name && unique == mark && made@ == fields_from(
            scopes,
            fields@,
            header,
            0,
        ),
    }
}

/// Whether the table holds the first `done` declarations of the group in
/// full and the names of the others: the types that were there are
/// unchanged; behind them stand the names of the group, each resolved to
/// what its declaration stands for once that is done; and behind those
/// the types that the declarations make, in their order, each with a mark
/// of its own.
pub open spec fn partly(
    old: Seq<Type>,
    table: Seq<Type>,
    scopes: Seq<Seq<Binding<TypeId>>>,
    group: Seq<TypeDeclaration>,
    marks: nat,
    header: i64,
    done: int,
) -> bool {
    let base = old.len();
    &&& table.len() == base + group.len() + composites_before(group, done)
    &&& forall|j: int| 0 <= j < base ==> #[trigger] table[j] == old[j]
    &&& forall|i: int|
        0 <= i < group.len() ==> table[base + i] == Type::Name {
            name: (#[trigger] group[i]).name,
            resolved: if i < done {
                Some(target_of(scopes, group, base, i))
            } else {
                None
            },
        }
    &&& forall|i: int|
        0 <= i < done && is_composite(#[trigger] group[i]) ==> built(
            table[(base + group.len() + composites_before(group, i)) as int],
            scopes,
            group[i],
            marks + composites_before(group, i),
            header,
        )
}

/// The declared types of a group with their places in the table.
pub open spec fn declared_of(group: Seq<TypeDeclaration>, base: nat) -> Seq<Declared> {
    Seq::new(
        group.len(),
        |i: int|
            Declared {
                position: group[i].position,
                name: group[i].name,
                typ: (base + i) as usize,
            },
    )
}

/// Whether a table, scopes, a number of marks in use and a result are
/// what a group of declarations gives, from a table with `marks` marks in
/// use and from scopes. The result is what is wrong with the first name
/// that is declared twice; or else with the first declaration that names
/// a type that is not in scope or for which marks or offsets have run
/// out; or else, with the group in the table, with the first name that
/// leads to no type.
pub open spec fn types_declared(
    old: Seq<Type>,
    outer: Seq<Seq<Binding<TypeId>>>,
    marks: nat,
    group: Seq<TypeDeclaration>,
    header: i64,
    table: Seq<Type>,
    inside: Seq<Seq<Binding<TypeId>>>,
    used: nat,
    result: Result<(), Failure>,
) -> bool {
    match first_twice(outer, group, old.len(), 0) {
        Some(index) => result == Err::<(), Failure>(
            rejected(
                group[index].position,
                SemanticError::DuplicateDeclaration(group[index].name),
            ),
        ),
        None => match first_failure(
            header_scopes(outer, group, old.len(), group.len() as int),
            group,
            marks,
            header,
            0,
        ) {
            Some(failure) => result == Err::<(), Failure>(failure),
            None => {
                &&& inside == header_scopes(outer, group, old.len(), group.len() as int)
                &&& partly(old, table, inside, group, marks, header, group.len() as int)
                &&& used == marks + composites_before(group, group.len() as int)
                &&& result == match groundless(table, declared_of(group, old.len())) {
                    Some(failure) => Err::<(), Failure>(failure),
                    None => Ok(()),
                }
            },
        },
    }
}

/// Later declarations have no fewer types of their own in front of them,
/// and one more behind a declaration that makes one.
pub proof fn lemma_composites(group: Seq<TypeDeclaration>, first: int, second: int)
    requires
        0 <= first <= second <= group.len(),
    ensures
        composites_before(group, first) <= composites_before(group, second),
        first < second && is_composite(group[first]) ==> composites_before(group, first) + 1
            <= composites_before(group, second),
    decreases second - first,
{
    if first < second {
        lemma_composites(group, first, second - 1);
    }
}

/// The fields of a record or a class with their types and offsets,
/// behind `first` fields that are there already. The result is the first
/// thing that is wrong: the offsets do not fit, or the type of a field is
/// not in scope.
pub fn resolve_fields(
    named: &Symbols<TypeId>,
    fields: &Vec<FieldSyntax>,
    header: i64,
    first: usize,
) -> (result: Result<Vec<Field>, Failure>)
    ensures
        match result {
            Ok(made) => fits(header, (first + fields@.len()) as nat) && first_unknown(named@, fields@, 0)
                is None && made@ == fields_from(named@, fields@, header, first as nat),
            Err(failure) => if !fits(header, (first + fields@.len()) as nat) {
                failure == Failure::Exhausted
            } else {
                first_unknown(named@, fields@, 0) matches Some(k) && failure == rejected(
                    fields@[k].position,
                    SemanticError::UndefinedType(fields@[k].typ),
                )
            },
        },
{
    let count = fields.len();
    let total: i128 = (first as i128) + (count as i128);
    if total > 0 && (header as i128) + 8 * (total - 1) > (i64::MAX as i128) {
        return Err(Failure::Exhausted);
    }
    let mut made: Vec<Field> = Vec::new();
    let mut index: usize = 0;
    while index < count
        invariant
            count == fields@.len(),
            fits(header, (first + count) as nat),
            index <= count,
            first_unknown(named@, fields@, 0) == first_unknown(named@, fields@, index as int),
            made@.len() == index,
            forall|k: int|
                0 <= k < index ==> #[trigger] made@[k] == fields_from(
                    named@,
                    fields@,
                    header,
                    first as nat,
                )[k],
        decreases count - index,
    {
        let field = fields[index];
        let typ = match named.look(field.typ) {
            Some(typ) => *typ,
            None => {
                return Err(reject(field.position, SemanticError::UndefinedType(field.typ)));
            },
        };
        let offset = ((header as i128) + 8 * ((first as i128) + (index as i128))) as i64;
        made.push(Field { name: field.name, typ, offset });
        index += 1;
    }
    assert(made@ =~= fields_from(named@, fields@, header, first as nat));
    Ok(made)
}

/// Enters a group of declarations of types, which may name one another
/// and themselves: first every name is bound, each once; then each
/// declaration is resolved, in its order, to the type that it names or
/// makes; then it is checked that every name leads to a type. `header`
/// is the number of bytes in front of the fields of a record. The result
/// is the first thing that is wrong, if anything is.
pub fn declare_types(
    types: &mut Types,
    named: &mut Symbols<TypeId>,
    group: &Vec<TypeDeclaration>,
    header: i64,
) -> (result: Result<(), Failure>)
    requires
        old(types).wf(),
    ensures
        final(types).wf(),
        types_declared(
            old(types)@,
            old(named)@,
            old(types).marks_used(),
            group@,
            header,
            final(types)@,
            final(named)@,
            final(types).marks_used(),
            result,
        ),
{
    let count = group.len();
    let base = types.len();
    let ghost before = types@;
    let ghost outer = named@;
    let ghost marks = types.marks_used();
    let mut declared: Vec<Declared> = Vec::new();
    let mut index: usize = 0;
    while index < count
        invariant
            count == group@.len(),
            base == before.len(),
            before == old(types)@,
            outer == old(named)@,
            marks == old(types).marks_used(),
            index <= count,
            types.wf(),
            types.marks_used() == marks,
            types@.len() == base + index,
            forall|j: int| 0 <= j < base ==> #[trigger] types@[j] == before[j],
            forall|i: int|
                0 <= i < index ==> types@[base + i] == (Type::Name {
                    name: (#[trigger] group@[i]).name,
                    resolved: None,
                }),
            named@ == header_scopes(outer, group@, base as nat, index as int),
            first_twice(outer, group@, base as nat, 0) == first_twice(
                outer,
                group@,
                base as nat,
                index as int,
            ),
            declared@ == declared_of(group@, base as nat).take(index as int),
        decreases count - index,
    {
        let name = group[index].name;
        if named.is_bound_here(name) {
            return Err(reject(group[index].position, SemanticError::DuplicateDeclaration(name)));
        }
        let ghost table = types@;
        let id = types.declare(name);
        named.enter(name, id);
        declared.push(Declared { position: group[index].position, name, typ: id });
        assert(declared@ =~= declared_of(group@, base as nat).take(index + 1));
        assert forall|i: int| 0 <= i < index + 1 implies types@[base + i] == (Type::Name {
            name: (#[trigger] group@[i]).name,
            resolved: None,
        }) by {
            if i < index {
                assert(types@[base + i] == table[base + i]);
            }
        }
        assert forall|j: int| 0 <= j < base implies #[trigger] types@[j] == before[j] by {
            assert(types@[j] == table[j]);
        }
        index += 1;
    }
    assert(declared@ =~= declared_of(group@, base as nat));
    let ghost scopes = named@;
    assert(partly(before, types@, scopes, group@, marks, header, 0));
    let mut turn: usize = 0;
    while turn < count
        invariant
            count == group@.len(),
            base == before.len(),
            before == old(types)@,
            outer == old(named)@,
            marks == old(types).marks_used(),
            first_twice(outer, group@, base as nat, 0) is None,
            scopes == header_scopes(outer, group@, base as nat, count as int),
            turn <= count,
            types.wf(),
            named@ == scopes,
            types.marks_used() == marks + composites_before(group@, turn as int),
            partly(before, types@, scopes, group@, marks, header, turn as int),
            first_failure(scopes, group@, marks, header, 0) == first_failure(
                scopes,
                group@,
                marks,
                header,
                turn as int,
            ),
        decreases count - turn,
    {
        let ghost table = types@;
        let ghost made = composites_before(group@, turn as int);
        proof {
            lemma_composites(group@, turn as int, count as int);
            types.lemma_marks_in_range();
        }
        let target = match &group[turn].body {
            TypeBody::Alias(target) => match named.look(*target) {
                Some(found) => *found,
                None => {
                    return Err(
                        reject(group[turn].position, SemanticError::UndefinedType(*target)),
                    );
                },
            },
            TypeBody::Array(element) => {
                let element = match named.look(*element) {
                    Some(found) => *found,
                    None => {
                        return Err(
                            reject(group[turn].position, SemanticError::UndefinedType(*element)),
                        );
                    },
                };
                match types.add_array(element) {
                    Some(id) => id,
                    None => {
                        return Err(Failure::Exhausted);
                    },
                }
            },
            TypeBody::Record(fields) => {
                let made = match resolve_fields(named, fields, header, 0) {
                    Ok(made) => made,
                    Err(failure) => {
                        return Err(failure);
                    },
                };
                match types.add_record(group[turn].name, made) {
                    Some(id) => id,
                    None => {
                        return Err(Failure::Exhausted);
                    },
                }
            },
        };
        let ghost grown = types@;
        assert(body_failure(scopes, group@[turn as int], marks + made, header) is None);
        assert(target == target_of(scopes, group@, base as nat, turn as int));
        assert(is_composite(group@[turn as int]) ==> target == table.len() && built(
            grown[target as int],
            scopes,
            group@[turn as int],
            marks + made,
            header,
        ));
        assert(forall|j: int| 0 <= j < table.len() ==> grown[j] == table[j]) by {
            if is_composite(group@[turn as int]) {
                assert(grown.take(table.len() as int) == table);
                assert forall|j: int| 0 <= j < table.len() implies grown[j] == table[j] by {
                    assert(grown.take(table.len() as int)[j] == grown[j]);
                }
            }
        }
        let length = types.len();
        assert(base + turn < length);
        let resolved = types.resolve(base + turn, target);
        assert(resolved) by {
            assert(grown[base + turn] == table[base + turn]);
        }
        proof {
            let after = types@;
            let next = turn + 1;
            assert forall|j: int| 0 <= j < base implies #[trigger] after[j] == before[j] by {
                assert(grown[j] == table[j]);
            }
            assert forall|i: int| 0 <= i < group@.len() implies after[base + i] == (Type::Name {
                name: (#[trigger] group@[i]).name,
                resolved: if i < next {
                    Some(target_of(scopes, group@, base as nat, i))
                } else {
                    None
                },
            }) by {
                assert(grown[base + i] == table[base + i]);
            }
            assert forall|i: int| 0 <= i < next && is_composite(#[trigger] group@[i]) implies built(
                after[(base + group@.len() + composites_before(group@, i)) as int],
                scopes,
                group@[i],
                marks + composites_before(group@, i),
                header,
            ) by {
                let place = (base + group@.len() + composites_before(group@, i)) as int;
                if i < turn {
                    lemma_composites(group@, i, turn as int);
                    assert(grown[place] == table[place]);
                    assert(after[place] == grown[place]);
                } else {
                    assert(place == table.len());
                    assert(place == target);
                    assert(after[place] == grown[place]);
                }
            }
        }
        turn += 1;
    }
    match check_types(types, &declared) {
        Some(failure) => Err(failure),
        None => Ok(()),
    }
}

/// A method as a declaration of a class writes it: its name, the label
/// of its code, and its type in the table of types.
#[derive(Clone, Copy, Debug, PartialEq, Eq)]
pub struct MethodSyntax {
    pub name: Symbol,
    pub label: Label,
    pub signature: TypeId,
}

/// The declaration of a class: its name, the name of the class that it
/// extends, the fields and the methods that it adds or overrides, and
/// the label of its table of methods.
#[derive(Debug, PartialEq, Eq)]
pub struct ClassDeclaration {
    pub position: Position,
    pub name: Symbol,
    pub parent: Option<Symbol>,
    pub fields: Vec<FieldSyntax>,
    pub methods: Vec<MethodSyntax>,
    pub vtable: Label,
}

/// The place of the first method of the name from `from` on.
pub open spec fn place_of(methods: Seq<Method>, name: Symbol, from: int) -> Option<int>
    decreases methods.len() - from,
{
    if from < 0 || from >= methods.len() {
        None
    } else if methods[from].name == name {
        Some(from)
    } else {
        place_of(methods, name, from + 1)
    }
}

/// The methods of a class: those that it inherits, with the first
/// `count` methods of its own laid over them. A method that the class
/// inherits under the same name is overridden and keeps its place in the
/// table; another method goes behind the last.
pub open spec fn overlaid(inherited: Seq<Method>, own: Seq<MethodSyntax>, count: int) -> Seq<Method>
    decreases count,
{
    if count <= 0 || count > own.len() {
        inherited
    } else {
        let before = overlaid(inherited, own, count - 1);
        let method = own[count - 1];
        match place_of(before, method.name, 0) {
            Some(place) => before.update(
                place,
                Method {
                    name: method.name,
                    label: method.label,
                    index: before[place].index,
                    signature: method.signature,
                },
            ),
            None => before.push(
                Method {
                    name: method.name,
                    label: method.label,
                    index: before.len() as usize,
                    signature: method.signature,
                },
            ),
        }
    }
}

/// Laying methods over a table changes no name and no place of a method
/// that is there: a method that is overridden is called through the same
/// place of the table.
pub proof fn lemma_overlaid_keeps_places(
    inherited: Seq<Method>,
    own: Seq<MethodSyntax>,
    count: int,
    place: int,
)
    requires
        0 <= count <= own.len(),
        0 <= place < inherited.len(),
    ensures
        overlaid(inherited, own, count).len() >= inherited.len(),
        overlaid(inherited, own, count)[place].name == inherited[place].name,
        overlaid(inherited, own, count)[place].index == inherited[place].index,
    decreases count,
{
    if count > 0 {
        lemma_overlaid_keeps_places(inherited, own, count - 1, place);
        let before = overlaid(inherited, own, count - 1);
        match place_of(before, own[count - 1].name, 0) {
            Some(found) => {
                lemma_place_of(before, own[count - 1].name, 0);
            },
            None => {},
        }
    }
}

/// Whether every method stands at the place of the table that its index
/// names.
pub open spec fn in_place(methods: Seq<Method>) -> bool {
    forall|place: int| 0 <= place < methods.len() ==> (#[trigger] methods[place]).index == place
}

/// Where every inherited method stands at the place that its index
/// names, so does every method of the class: the table of methods, which
/// lists the methods in their order, has each method at its index.
pub proof fn lemma_overlaid_in_place(inherited: Seq<Method>, own: Seq<MethodSyntax>, count: int)
    requires
        0 <= count <= own.len(),
        in_place(inherited),
        inherited.len() + own.len() <= usize::MAX,
    ensures
        in_place(overlaid(inherited, own, count)),
        overlaid(inherited, own, count).len() <= inherited.len() + count,
    decreases count,
{
    if count > 0 {
        lemma_overlaid_in_place(inherited, own, count - 1);
        let before = overlaid(inherited, own, count - 1);
        let after = overlaid(inherited, own, count);
        lemma_place_of(before, own[count - 1].name, 0);
        assert forall|place: int| 0 <= place < after.len() implies (#[trigger] after[place]).index
            == place by {
            if place < before.len() {
                assert(before[place].index == place);
            }
        }
    }
}

/// The place that is found holds a method of the name.
pub proof fn lemma_place_of(methods: Seq<Method>, name: Symbol, from: int)
    requires
        0 <= from,
    ensures
        place_of(methods, name, from) matches Some(place) ==> from <= place < methods.len()
            && methods[place].name == name,
    decreases methods.len() - from,
{
    if from < methods.len() && methods[from].name != name {
        lemma_place_of(methods, name, from + 1);
    }
}

/// The fields and the methods of the class that a type stands for.
pub open spec fn class_parts(table: Seq<Type>, id: TypeId) -> Option<(Seq<Field>, Seq<Method>)> {
    match actual(table, id) {
        Some(found) => if found < table.len() {
            match table[found as int] {
                Type::Class { fields, methods, .. } => Some((fields@, methods@)),
                _ => None,
            }
        } else {
            None
        },
        None => None,
    }
}

/// The class that a declaration extends, with its fields and methods:
/// none, and no fields and methods, where it extends no class. The name
/// has to be in scope and to stand for a class.
pub open spec fn parent_of(
    table: Seq<Type>,
    scopes: Seq<Seq<Binding<TypeId>>>,
    declaration: ClassDeclaration,
) -> Result<(Option<TypeId>, Seq<Field>, Seq<Method>), Failure> {
    match declaration.parent {
        None => Ok((None, Seq::empty(), Seq::empty())),
        Some(name) => match looked(scopes, name) {
            None => Err(rejected(declaration.position, SemanticError::UndefinedType(name))),
            Some(id) => match class_parts(table, id) {
                None => Err(rejected(declaration.position, SemanticError::NotAClass(name))),
                Some((fields, methods)) => Ok((Some(id), fields, methods)),
            },
        },
    }
}

/// What the declaration of a class gives: the fields and the methods of
/// the class, the fields of its parent first; or the first thing that is
/// wrong. The name must not be bound in the innermost scope; then it is
/// bound, so that the fields may be of the class itself.
pub open spec fn class_of_declaration(
    table: Seq<Type>,
    scopes: Seq<Seq<Binding<TypeId>>>,
    marks: nat,
    declaration: ClassDeclaration,
    header: i64,
) -> Result<(Option<TypeId>, Seq<Field>, Seq<Method>), Failure> {
    let inside = entered(scopes, Binding { symbol: declaration.name, value: table.len() as usize });
    let named = table.push(Type::Name { name: declaration.name, resolved: None });
    if scopes.len() > 0 && bound_in(scopes.last(), declaration.name) is Some {
        Err(rejected(declaration.position, SemanticError::DuplicateDeclaration(declaration.name)))
    } else {
        match parent_of(named, inside, declaration) {
            Err(failure) => Err(failure),
            Ok((parent, fields, methods)) => if !fits(
                header,
                (fields.len() + declaration.fields@.len()) as nat,
            ) {
                Err(Failure::Exhausted)
            } else {
                match first_unknown(inside, declaration.fields@, 0) {
                    Some(k) => Err(
                        rejected(
                            declaration.fields@[k].position,
                            SemanticError::UndefinedType(declaration.fields@[k].typ),
                        ),
                    ),
                    None => if marks >= usize::MAX {
                        Err(Failure::Exhausted)
                    } else {
                        Ok(
                            (
                                parent,
                                fields + fields_from(
                                    inside,
                                    declaration.fields@,
                                    header,
                                    fields.len(),
                                ),
                                overlaid(
                                    methods,
                                    declaration.methods@,
                                    declaration.methods@.len() as int,
                                ),
                            ),
                        )
                    },
                }
            },
        }
    }
}

/// Whether a table, scopes and a result are what the declaration of a
/// class gives, from a table with `marks` marks in use and from scopes.
/// Where nothing is wrong, the table holds two more types: the name of
/// the class, which stands for the class, and the class.
pub open spec fn class_entered(
    old: Seq<Type>,
    scopes: Seq<Seq<Binding<TypeId>>>,
    marks: nat,
    declaration: ClassDeclaration,
    header: i64,
    table: Seq<Type>,
    inside: Seq<Seq<Binding<TypeId>>>,
    result: Result<TypeId, Failure>,
) -> bool {
    match class_of_declaration(old, scopes, marks, declaration, header) {
        Err(failure) => result == Err::<TypeId, Failure>(failure),
        Ok((parent, fields, methods)) => {
            &&& result == Ok::<TypeId, Failure>((old.len() + 1) as usize)
            &&& inside == entered(
                scopes,
                Binding { symbol: declaration.name, value: old.len() as usize },
            )
            &&& table.len() == old.len() + 2
            &&& table.take(old.len() as int) == old
            &&& table[old.len() as int] == (Type::Name {
                name: declaration.name,
                resolved: Some((old.len() + 1) as usize),
            })
            &&& table[old.len() as int + 1] matches Type::Class {
                name,
                parent: extended,
                fields: held,
                methods: offered,
                vtable,
                unique,
            } && name == declaration.name && extended == parent && held@ == fields && offered@
                == methods && vtable == declaration.vtable && unique == marks
        },
    }
}

/// Whether tables, one for each of the first `count` classes and one
/// more, are the tables that the declarations of these classes give one
/// after the other, each from the table and the scopes that the one
/// before it left; `places` holds the places of the classes.
pub open spec fn classes_entered(
    tables: Seq<Seq<Type>>,
    scopes: Seq<Seq<Seq<Binding<TypeId>>>>,
    marks: nat,
    classes: Seq<ClassDeclaration>,
    header: i64,
    places: Seq<TypeId>,
    count: int,
) -> bool {
    &&& tables.len() == count + 1
    &&& scopes.len() == count + 1
    &&& places.len() == count
    &&& forall|k: int|
        0 <= k < count ==> class_entered(
            #[trigger] tables[k],
            scopes[k],
            (marks + k) as nat,
            classes[k],
            header,
            tables[k + 1],
            scopes[k + 1],
            Ok(places[k]),
        )
}

/// Whether a table, scopes, a number of marks and a result are what the
/// declarations of classes give, one after the other: the places of the
/// classes; or what is wrong with the first class with which something
/// is wrong, behind the classes in front of it.
pub open spec fn classes_declared(
    old: Seq<Type>,
    outer: Seq<Seq<Binding<TypeId>>>,
    marks: nat,
    classes: Seq<ClassDeclaration>,
    header: i64,
    table: Seq<Type>,
    inside: Seq<Seq<Binding<TypeId>>>,
    used: nat,
    result: Result<Vec<TypeId>, Failure>,
) -> bool {
    exists|tables: Seq<Seq<Type>>, scopes: Seq<Seq<Seq<Binding<TypeId>>>>, places: Seq<TypeId>|
        0 <= places.len() <= classes.len() && #[trigger] classes_entered(
            tables,
            scopes,
            marks,
            classes,
            header,
            places,
            places.len() as int,
        ) && tables[0] == old && scopes[0] == outer && match result {
            Ok(found) => places.len() == classes.len() && found@ == places && tables.last()
                == table && scopes.last() == inside && used == marks + classes.len(),
            Err(failure) => places.len() < classes.len() && class_of_declaration(
                tables.last(),
                scopes.last(),
                marks + places.len(),
                classes[places.len() as int],
                header,
            ) == Err::<(Option<TypeId>, Seq<Field>, Seq<Method>), Failure>(failure),
        }
}

/// Enters the declarations of classes one after the other, so that a
/// class may extend a class in front of it. The result holds the places
/// of the classes in the table, or the first thing that is wrong.
pub fn declare_classes(
    types: &mut Types,
    named: &mut Symbols<TypeId>,
    classes: &Vec<ClassDeclaration>,
    header: i64,
) -> (result: Result<Vec<TypeId>, Failure>)
    requires
        old(types).wf(),
    ensures
        final(types).wf(),
        classes_declared(
            old(types)@,
            old(named)@,
            old(types).marks_used(),
            classes@,
            header,
            final(types)@,
            final(named)@,
            final(types).marks_used(),
            result,
        ),
{
    let ghost marks = types.marks_used();
    let ghost mut tables: Seq<Seq<Type>> = seq![types@];
    let ghost mut scopes: Seq<Seq<Seq<Binding<TypeId>>>> = seq![named@];
    let mut places: Vec<TypeId> = Vec::new();
    let mut index: usize = 0;
    while index < classes.len()
        invariant
            index <= classes@.len(),
            types.wf(),
            marks == old(types).marks_used(),
            types.marks_used() == marks + index,
            places@.len() == index,
            classes_entered(tables, scopes, marks, classes@, header, places@, index as int),
            tables[0] == old(types)@,
            scopes[0] == old(named)@,
            tables.last() == types@,
            scopes.last() == named@,
        decreases classes.len() - index,
    {
        let ghost before_tables = tables;
        let ghost before_scopes = scopes;
        let ghost before_places = places@;
        let place = match declare_class(types, named, &classes[index], header) {
            Ok(place) => place,
            Err(failure) => {
                return Err(failure);
            },
        };
        places.push(place);
        proof {
            tables = tables.push(types@);
            scopes = scopes.push(named@);
            assert forall|k: int| 0 <= k < index + 1 implies class_entered(
                #[trigger] tables[k],
                scopes[k],
                (marks + k) as nat,
                classes@[k],
                header,
                tables[k + 1],
                scopes[k + 1],
                Ok(places@[k]),
            ) by {
                if k < index {
                    assert(tables[k] == before_tables[k]);
                    assert(tables[k + 1] == before_tables[k + 1]);
                    assert(scopes[k] == before_scopes[k]);
                    assert(scopes[k + 1] == before_scopes[k + 1]);
                    assert(places@[k] == before_places[k]);
                    assert(class_entered(
                        before_tables[k],
                        before_scopes[k],
                        (marks + k) as nat,
                        classes@[k],
                        header,
                        before_tables[k + 1],
                        before_scopes[k + 1],
                        Ok(before_places[k]),
                    ));
                }
            }
        }
        index += 1;
    }
    Ok(places)
}

/// A copy of a list of methods.
pub fn copy_methods(methods: &Vec<Method>) -> (copy: Vec<Method>)
    ensures
        copy@ == methods@,
{
    let mut copy: Vec<Method> = Vec::new();
    let mut index: usize = 0;
    while index < methods.len()
        invariant
            index <= methods@.len(),
            copy@ == methods@.take(index as int),
        decreases methods.len() - index,
    {
        copy.push(methods[index]);
        assert(copy@ =~= methods@.take(index + 1));
        index += 1;
    }
    assert(methods@.take(methods@.len() as int) =~= methods@);
    copy
}

/// The place of the first method of the name.
pub fn find_place(methods: &Vec<Method>, name: Symbol) -> (found: Option<usize>)
    ensures
        match found {
            Some(place) => place_of(methods@, name, 0) == Some(place as int) && place
                < methods@.len(),
            None => place_of(methods@, name, 0) is None,
        },
{
    let mut index: usize = 0;
    while index < methods.len()
        invariant
            index <= methods@.len(),
            place_of(methods@, name, 0) == place_of(methods@, name, index as int),
        decreases methods.len() - index,
    {
        if methods[index].name == name {
            return Some(index);
        }
        index += 1;
    }
    None
}

/// Lays the methods of a class over the methods that it inherits.
pub fn overlay(inherited: Vec<Method>, own: &Vec<MethodSyntax>) -> (methods: Vec<Method>)
    ensures
        methods@ == overlaid(inherited@, own@, own@.len() as int),
{
    let mut methods = inherited;
    let mut index: usize = 0;
    while index < own.len()
        invariant
            index <= own@.len(),
            methods@ == overlaid(inherited@, own@, index as int),
        decreases own.len() - index,
    {
        let method = own[index];
        match find_place(&methods, method.name) {
            Some(place) => {
                let kept = methods[place].index;
                methods.set(
                    place,
                    Method {
                        name: method.name,
                        label: method.label,
                        index: kept,
                        signature: method.signature,
                    },
                );
            },
            None => {
                let next = methods.len();
                methods.push(
                    Method {
                        name: method.name,
                        label: method.label,
                        index: next,
                        signature: method.signature,
                    },
                );
            },
        }
        index += 1;
    }
    methods
}

/// The fields and the methods of the class that a type stands for.
pub fn parts_of_class(types: &Types, id: TypeId) -> (parts: Option<(Vec<Field>, Vec<Method>)>)
    ensures
        match parts {
            Some((fields, methods)) => class_parts(types@, id) == Some((fields@, methods@)),
            None => class_parts(types@, id) is None,
        },
{
    match types.actual(id) {
        None => None,
        Some(found) => match types.get(found) {
            None => None,
            Some(typ) => match typ {
                Type::Class { fields, methods, .. } => Some(
                    (copy_fields(fields), copy_methods(methods)),
                ),
                _ => None,
            },
        },
    }
}

/// Enters the declaration of a class: its name is bound; its fields go
/// behind those of the class that it extends; its methods are laid over
/// the methods of that class; and the class gets a mark of its own. The
/// result is the place of the class in the table, or the first thing
/// that is wrong.
pub fn declare_class(
    types: &mut Types,
    named: &mut Symbols<TypeId>,
    declaration: &ClassDeclaration,
    header: i64,
) -> (result: Result<TypeId, Failure>)
    requires
        old(types).wf(),
    ensures
        final(types).wf(),
        match class_of_declaration(
            old(types)@,
            old(named)@,
            old(types).marks_used(),
            *declaration,
            header,
        ) {
            Err(failure) => result == Err::<TypeId, Failure>(failure),
            Ok((parent, fields, methods)) => {
                &&& result == Ok::<TypeId, Failure>((old(types)@.len() + 1) as usize)
                &&& final(named)@ == entered(
                    old(named)@,
                    Binding { symbol: declaration.name, value: old(types)@.len() as usize },
                )
                &&& final(types).marks_used() == old(types).marks_used() + 1
                &&& final(types)@.len() == old(types)@.len() + 2
                &&& final(types)@.take(old(types)@.len() as int) == old(types)@
                &&& final(types)@[old(types)@.len() as int] == (Type::Name {
                    name: declaration.name,
                    resolved: Some((old(types)@.len() + 1) as usize),
                })
                &&& final(types)@[old(types)@.len() as int + 1] matches Type::Class {
                    name,
                    parent: extended,
                    fields: held,
                    methods: offered,
                    vtable,
                    unique,
                } && name == declaration.name && extended == parent && held@ == fields
                    && offered@ == methods && vtable == declaration.vtable && unique == old(
                    types,
                ).marks_used()
            },
        },
{
    if named.is_bound_here(declaration.name) {
        return Err(
            reject(declaration.position, SemanticError::DuplicateDeclaration(declaration.name)),
        );
    }
    let ghost before = types@;
    let id = types.declare(declaration.name);
    named.enter(declaration.name, id);
    let (parent, inherited_fields, inherited_methods) = match declaration.parent {
        None => (None, Vec::new(), Vec::new()),
        Some(name) => match named.look(name) {
            None => {
                return Err(reject(declaration.position, SemanticError::UndefinedType(name)));
            },
            Some(found) => {
                let parent = *found;
                match parts_of_class(types, parent) {
                    None => {
                        return Err(reject(declaration.position, SemanticError::NotAClass(name)));
                    },
                    Some((fields, methods)) => (Some(parent), fields, methods),
                }
            },
        },
    };
    let ghost first = inherited_fields@;
    let own = match resolve_fields(named, &declaration.fields, header, inherited_fields.len()) {
        Ok(own) => own,
        Err(failure) => {
            return Err(failure);
        },
    };
    let mut fields = inherited_fields;
    let mut index: usize = 0;
    while index < own.len()
        invariant
            index <= own@.len(),
            fields@ == first + own@.take(index as int),
        decreases own.len() - index,
    {
        fields.push(own[index]);
        assert(fields@ =~= first + own@.take(index + 1));
        index += 1;
    }
    assert(own@.take(own@.len() as int) =~= own@);
    let methods = overlay(inherited_methods, &declaration.methods);
    proof {
        types.lemma_marks_in_range();
    }
    let ghost table = types@;
    let class = match types.add_class(
        declaration.name,
        parent,
        fields,
        methods,
        declaration.vtable,
    ) {
        Some(class) => class,
        None => {
            return Err(Failure::Exhausted);
        },
    };
    let ghost grown = types@;
    assert(forall|j: int| 0 <= j < table.len() ==> grown[j] == table[j]) by {
        assert(grown.take(table.len() as int) == table);
        assert forall|j: int| 0 <= j < table.len() implies grown[j] == table[j] by {
            assert(grown.take(table.len() as int)[j] == grown[j]);
        }
    }
    let resolved = types.resolve(id, class);
    assert(resolved);
    assert(types@.take(before.len() as int) =~= before);
    Ok(class)
}

} // verus!
