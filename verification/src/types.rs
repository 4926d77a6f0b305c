//! The types of the language, kept in a table so that a type can refer to
//! a type that is declared later, or to itself.

use crate::symbol::Symbol;
use crate::temp::Label;
use vstd::prelude::*;

verus! {

/// A type: its position in the table.
pub type TypeId = usize;

/// A field of a record or a class.
#[derive(Clone, Copy, Debug, PartialEq, Eq, Structural)]
pub struct Field {
    pub name: Symbol,
    pub typ: TypeId,
    pub offset: i64,
}

/// A method of a class.
#[derive(Clone, Copy, Debug, PartialEq, Eq, Structural)]
pub struct Method {
    pub name: Symbol,
    pub label: Label,
    pub index: usize,
    pub signature: TypeId,
}

/// A type of the language.
#[derive(Debug, PartialEq, Eq)]
pub enum Type {
    Int,
    String,
    Unit,
    Nil,
    Record { name: Symbol, fields: Vec<Field>, unique: usize },
    Array { element: TypeId, unique: usize },
    Class {
        name: Symbol,
        parent: Option<TypeId>,
        fields: Vec<Field>,
        methods: Vec<Method>,
        vtable: Label,
        unique: usize,
    },
    /// A name for another type, which may not be known yet.
    Name { name: Symbol, resolved: Option<TypeId> },
    Function { formals: Vec<TypeId>, result: TypeId },
}

/// The table of types.
pub struct Types {
    table: Vec<Type>,
    next_unique: usize,
}

/// The mark that tells a record, an array or a class from every other
/// declaration.
pub open spec fn unique_of(typ: Type) -> Option<usize> {
    match typ {
        Type::Record { unique, .. } => Some(unique),
        Type::Array { unique, .. } => Some(unique),
        Type::Class { unique, .. } => Some(unique),
        _ => None,
    }
}

/// No two entries of the table carry the same mark.
pub open spec fn marks_differ(table: Seq<Type>) -> bool {
    forall|i: int, j: int|
        0 <= i < table.len() && 0 <= j < table.len() && unique_of(#[trigger] table[i]) is Some
            && unique_of(table[i]) == unique_of(#[trigger] table[j]) ==> i == j
}

/// The type that a type stands for after at most `fuel` names have been
/// followed: a type that is no name stands for itself; a name stands for
/// what the type it is resolved to stands for. There is none where a name
/// is not resolved or the names do not end.
pub open spec fn actual_from(table: Seq<Type>, id: TypeId, fuel: nat) -> Option<TypeId>
    decreases fuel,
{
    if id >= table.len() {
        None
    } else {
        match table[id as int] {
            Type::Name { resolved: Some(next), .. } => if fuel == 0 {
                None
            } else {
                actual_from(table, next, (fuel - 1) as nat)
            },
            Type::Name { resolved: None, .. } => None,
            _ => Some(id),
        }
    }
}

/// The type that a type stands for. A chain of names that is longer than
/// the table goes round in a circle, so it stands for nothing.
pub open spec fn actual(table: Seq<Type>, id: TypeId) -> Option<TypeId> {
    actual_from(table, id, table.len())
}

/// Whether the class `sub` is the class `ancestor` or comes from it by at
/// most `fuel` steps from a class to its parent.
pub open spec fn extends_from(table: Seq<Type>, sub: TypeId, ancestor: TypeId, fuel: nat) -> bool
    decreases fuel,
{
    if sub == ancestor {
        true
    } else if sub >= table.len() || fuel == 0 {
        false
    } else {
        match table[sub as int] {
            Type::Class { parent: Some(parent), .. } => match actual(table, parent) {
                Some(parent) => extends_from(table, parent, ancestor, (fuel - 1) as nat),
                None => false,
            },
            _ => false,
        }
    }
}

/// Whether two types stand for the same type.
pub open spec fn same(table: Seq<Type>, first: TypeId, second: TypeId) -> bool {
    actual(table, first) is Some && actual(table, first) == actual(table, second)
}

/// Whether the first `count` formals of two functions are the same.
pub open spec fn same_formals(table: Seq<Type>, first: Seq<TypeId>, second: Seq<TypeId>, count: int) -> bool {
    forall|i: int| 0 <= i < count ==> same(table, #[trigger] first[i], second[i])
}

/// Whether a value of the type `found` may stand where `expected` is asked
/// for, both being no names: the types are the same entry; or both are
/// `int`, `string`, `unit` or `nil`; or one is `nil` and the other a
/// record or a class; or both are records, or arrays, of the same
/// declaration; or both are classes and `found` is `expected` or comes
/// from it; or both are functions with the same formals and result.
pub open spec fn agree(table: Seq<Type>, expected: TypeId, found: TypeId) -> bool {
    expected == found || match (table[expected as int], table[found as int]) {
        (Type::Int, Type::Int) => true,
        (Type::String, Type::String) => true,
        (Type::Unit, Type::Unit) => true,
        (Type::Nil, Type::Nil) => true,
        (Type::Nil, Type::Record { .. }) => true,
        (Type::Nil, Type::Class { .. }) => true,
        (Type::Record { .. }, Type::Nil) => true,
        (Type::Class { .. }, Type::Nil) => true,
        (Type::Record { unique: first, .. }, Type::Record { unique: second, .. }) => first
            == second,
        (Type::Array { unique: first, .. }, Type::Array { unique: second, .. }) => first
            == second,
        (Type::Class { .. }, Type::Class { .. }) => extends_from(
            table,
            found,
            expected,
            table.len(),
        ),
        (
            Type::Function { formals: first, result: first_result },
            Type::Function { formals: second, result: second_result },
        ) => first@.len() == second@.len() && same_formals(
            table,
            first@,
            second@,
            first@.len() as int,
        ) && same(table, first_result, second_result),
        _ => false,
    }
}

/// Whether a value of the type `found` may stand where `expected` is asked
/// for: both stand for a type, and those agree.
pub open spec fn compatible(table: Seq<Type>, expected: TypeId, found: TypeId) -> bool {
    match (actual(table, expected), actual(table, found)) {
        (Some(expected), Some(found)) => agree(table, expected, found),
        _ => false,
    }
}

/// What a type stands for is in the table and is no name.
pub proof fn lemma_actual_from(table: Seq<Type>, id: TypeId, fuel: nat)
    ensures
        actual_from(table, id, fuel) matches Some(found) ==> found < table.len() && !(
        table[found as int] is Name),
    decreases fuel,
{
    if id < table.len() {
        match table[id as int] {
            Type::Name { resolved: Some(next), .. } => {
                if fuel > 0 {
                    lemma_actual_from(table, next, (fuel - 1) as nat);
                }
            },
            _ => {},
        }
    }
}

/// Every type that stands for a type is compatible with itself.
pub proof fn lemma_compatible_reflexive(table: Seq<Type>, id: TypeId)
    requires
        actual(table, id) is Some,
    ensures
        compatible(table, id, id),
{
}

impl View for Types {
    type V = Seq<Type>;

    closed spec fn view(&self) -> Seq<Type> {
        self.table@
    }
}

impl Types {
    /// The marks of records, arrays and classes differ, and are below the
    /// next one.
    pub closed spec fn wf(&self) -> bool {
        &&& marks_differ(self.table@)
        &&& forall|i: int|
            0 <= i < self.table@.len() ==> (unique_of(#[trigger] self.table@[i]) matches Some(mark)
                ==> mark < self.next_unique)
    }

    /// The number of marks that have been handed out to records, arrays
    /// and classes. The next declaration gets this number as its mark.
    pub closed spec fn marks_used(&self) -> nat {
        self.next_unique as nat
    }

    /// The number of marks in use is a machine integer.
    pub proof fn lemma_marks_in_range(&self)
        ensures
            self.marks_used() <= usize::MAX,
    {
    }

    /// A record, an array or a class of a well-formed table is the only
    /// entry with its mark: a declaration gets its mark once, whatever it
    /// looks like.
    pub proof fn lemma_marked_once(&self, first: int, second: int)
        requires
            self.wf(),
            0 <= first < self@.len(),
            0 <= second < self@.len(),
            unique_of(self@[first]) is Some,
            unique_of(self@[first]) == unique_of(self@[second]),
        ensures
            first == second,
    {
    }

    /// An empty table.
    pub fn new() -> (types: Self)
        ensures
            types.wf(),
            types@.len() == 0,
            types.marks_used() == 0,
    {
        Types { table: Vec::new(), next_unique: 0 }
    }

    /// The number of types.
    pub fn len(&self) -> (len: usize)
        ensures
            len == self@.len(),
    {
        self.table.len()
    }

    /// The type at a position of the table.
    pub fn get(&self, id: TypeId) -> (typ: Option<&Type>)
        ensures
            match typ {
                Some(typ) => id < self@.len() && *typ == self@[id as int],
                None => id >= self@.len(),
            },
    {
        if id < self.table.len() {
            Some(&self.table[id])
        } else {
            None
        }
    }

    fn add(&mut self, typ: Type) -> (id: TypeId)
        requires
            old(self).wf(),
            unique_of(typ) is None,
        ensures
            final(self).wf(),
            final(self).marks_used() == old(self).marks_used(),
            final(self)@ == old(self)@.push(typ),
            id == old(self)@.len(),
    {
        let id = self.table.len();
        self.table.push(typ);
        id
    }

    fn add_marked(&mut self, typ: Type) -> (id: TypeId)
        requires
            old(self).wf(),
            old(self).next_unique < usize::MAX,
            unique_of(typ) == Some(old(self).next_unique),
        ensures
            final(self).wf(),
            final(self).marks_used() == old(self).marks_used() + 1,
            final(self)@ == old(self)@.push(typ),
            id == old(self)@.len(),
    {
        let id = self.table.len();
        self.table.push(typ);
        self.next_unique = self.next_unique + 1;
        id
    }

    /// Adds the type `int`.
    pub fn add_int(&mut self) -> (id: TypeId)
        requires
            old(self).wf(),
        ensures
            final(self).wf(),
            final(self).marks_used() == old(self).marks_used(),
            final(self)@ == old(self)@.push(Type::Int),
            id == old(self)@.len(),
    {
        self.add(Type::Int)
    }

    /// Adds the type `string`.
    pub fn add_string(&mut self) -> (id: TypeId)
        requires
            old(self).wf(),
        ensures
            final(self).wf(),
            final(self).marks_used() == old(self).marks_used(),
            final(self)@ == old(self)@.push(Type::String),
            id == old(self)@.len(),
    {
        self.add(Type::String)
    }

    /// Adds the type of expressions without a value.
    pub fn add_unit(&mut self) -> (id: TypeId)
        requires
            old(self).wf(),
        ensures
            final(self).wf(),
            final(self).marks_used() == old(self).marks_used(),
            final(self)@ == old(self)@.push(Type::Unit),
            id == old(self)@.len(),
    {
        self.add(Type::Unit)
    }

    /// Adds the type of `nil`.
    pub fn add_nil(&mut self) -> (id: TypeId)
        requires
            old(self).wf(),
        ensures
            final(self).wf(),
            final(self).marks_used() == old(self).marks_used(),
            final(self)@ == old(self)@.push(Type::Nil),
            id == old(self)@.len(),
    {
        self.add(Type::Nil)
    }

    /// Adds a name whose type is not known yet.
    pub fn declare(&mut self, name: Symbol) -> (id: TypeId)
        requires
            old(self).wf(),
        ensures
            final(self).wf(),
            final(self).marks_used() == old(self).marks_used(),
            final(self)@ == old(self)@.push(Type::Name { name, resolved: None }),
            id == old(self)@.len(),
    {
        self.add(Type::Name { name, resolved: None })
    }

    /// Says what a name stands for. Nothing changes, and the result is
    /// `false`, where `id` is no name that is still open.
    pub fn resolve(&mut self, id: TypeId, target: TypeId) -> (resolved: bool)
        requires
            old(self).wf(),
        ensures
            final(self).wf(),
            final(self).marks_used() == old(self).marks_used(),
            resolved == (id < old(self)@.len() && old(self)@[id as int] matches Type::Name {
                resolved: None,
                ..
            }),
            final(self)@ == if resolved {
                old(self)@.update(
                    id as int,
                    Type::Name { name: old(self)@[id as int]->Name_name, resolved: Some(target) },
                )
            } else {
                old(self)@
            },
    {
        if id >= self.table.len() {
            return false;
        }
        let name = match &self.table[id] {
            Type::Name { name, resolved: None } => *name,
            _ => {
                return false;
            },
        };
        let ghost before = self.table@;
        self.table.set(id, Type::Name { name, resolved: Some(target) });
        proof {
            assert forall|i: int, j: int|
                0 <= i < self.table@.len() && 0 <= j < self.table@.len() && unique_of(
                    #[trigger] self.table@[i],
                ) is Some && unique_of(self.table@[i]) == unique_of(
                    #[trigger] self.table@[j],
                ) implies i == j by {
                assert(self.table@[i] == before[i]);
                assert(self.table@[j] == before[j]);
            }
        }
        true
    }

    /// Adds a record. Each call makes a type of its own, whatever the
    /// fields are. The result is `None` when the marks have run out.
    pub fn add_record(&mut self, name: Symbol, fields: Vec<Field>) -> (id: Option<TypeId>)
        requires
            old(self).wf(),
        ensures
            final(self).wf(),
            id is None <==> old(self).marks_used() == usize::MAX,
            final(self).marks_used() == if id is Some {
                old(self).marks_used() + 1
            } else {
                old(self).marks_used()
            },
            id matches Some(at) ==> unique_of(final(self)@[at as int]) == Some(
                old(self).marks_used() as usize,
            ),
            match id {
                Some(id) => id == old(self)@.len() && final(self)@.len() == old(self)@.len() + 1
                    && final(self)@.take(id as int) == old(self)@ && (
                final(self)@[id as int] matches Type::Record { name: entered, fields: kept, .. }
                    && entered == name && kept == fields),
                None => final(self)@ == old(self)@,
            },
    {
        if self.next_unique == usize::MAX {
            return None;
        }
        let id = self.add_marked(Type::Record { name, fields, unique: self.next_unique });
        assert(self@.take(id as int) =~= old(self)@);
        Some(id)
    }

    /// Adds an array. Each call makes a type of its own. The result is
    /// `None` when the marks have run out.
    pub fn add_array(&mut self, element: TypeId) -> (id: Option<TypeId>)
        requires
            old(self).wf(),
        ensures
            final(self).wf(),
            id is None <==> old(self).marks_used() == usize::MAX,
            final(self).marks_used() == if id is Some {
                old(self).marks_used() + 1
            } else {
                old(self).marks_used()
            },
            id matches Some(at) ==> unique_of(final(self)@[at as int]) == Some(
                old(self).marks_used() as usize,
            ),
            match id {
                Some(id) => id == old(self)@.len() && final(self)@.len() == old(self)@.len() + 1
                    && final(self)@.take(id as int) == old(self)@ && (
                final(self)@[id as int] matches Type::Array { element: kept, .. } && kept
                    == element),
                None => final(self)@ == old(self)@,
            },
    {
        if self.next_unique == usize::MAX {
            return None;
        }
        let id = self.add_marked(Type::Array { element, unique: self.next_unique });
        assert(self@.take(id as int) =~= old(self)@);
        Some(id)
    }

    /// Adds a class. Each call makes a type of its own. The result is
    /// `None` when the marks have run out.
    pub fn add_class(
        &mut self,
        name: Symbol,
        parent: Option<TypeId>,
        fields: Vec<Field>,
        methods: Vec<Method>,
        vtable: Label,
    ) -> (id: Option<TypeId>)
        requires
            old(self).wf(),
        ensures
            final(self).wf(),
            id is None <==> old(self).marks_used() == usize::MAX,
            final(self).marks_used() == if id is Some {
                old(self).marks_used() + 1
            } else {
                old(self).marks_used()
            },
            id matches Some(at) ==> unique_of(final(self)@[at as int]) == Some(
                old(self).marks_used() as usize,
            ),
            match id {
                Some(id) => id == old(self)@.len() && final(self)@.len() == old(self)@.len() + 1
                    && final(self)@.take(id as int) == old(self)@ && (
                final(self)@[id as int] matches Type::Class {
                    name: entered,
                    parent: from,
                    fields: kept,
                    methods: offered,
                    vtable: table,
                    ..
                } && entered == name && from == parent && kept == fields && offered == methods
                    && table == vtable),
                None => final(self)@ == old(self)@,
            },
    {
        if self.next_unique == usize::MAX {
            return None;
        }
        let id = self.add_marked(
            Type::Class { name, parent, fields, methods, vtable, unique: self.next_unique },
        );
        assert(self@.take(id as int) =~= old(self)@);
        Some(id)
    }

    /// Adds the type of a function.
    pub fn add_function(&mut self, formals: Vec<TypeId>, result: TypeId) -> (id: TypeId)
        requires
            old(self).wf(),
        ensures
            final(self).wf(),
            final(self).marks_used() == old(self).marks_used(),
            final(self)@ == old(self)@.push(Type::Function { formals, result }),
            id == old(self)@.len(),
    {
        self.add(Type::Function { formals, result })
    }

    /// The type that a type stands for, or `None` where a name is not
    /// resolved or the names go round in a circle.
    pub fn actual(&self, id: TypeId) -> (found: Option<TypeId>)
        ensures
            found == actual(self@, id),
    {
        let mut current = id;
        let mut fuel = self.table.len();
        loop
            invariant
                fuel <= self@.len(),
                actual(self@, id) == actual_from(self@, current, fuel as nat),
            decreases fuel,
        {
            if current >= self.table.len() {
                return None;
            }
            match &self.table[current] {
                Type::Name { resolved: Some(next), .. } => {
                    if fuel == 0 {
                        return None;
                    }
                    current = *next;
                    fuel -= 1;
                },
                Type::Name { resolved: None, .. } => {
                    return None;
                },
                _ => {
                    return Some(current);
                },
            }
        }
    }

    /// The first name from `from` on that stands for no type: it is not
    /// resolved, or resolved to names that go round in a circle without a
    /// record or an array among them.
    pub fn first_unresolved(&self, from: TypeId) -> (found: Option<TypeId>)
        ensures
            match found {
                Some(id) => from <= id < self@.len() && self@[id as int] is Name && actual(
                    self@,
                    id,
                ) is None && forall|earlier: int|
                    from <= earlier < id ==> !(#[trigger] self@[earlier] is Name && actual(
                        self@,
                        earlier as usize,
                    ) is None),
                None => forall|id: int|
                    from <= id < self@.len() ==> !(#[trigger] self@[id] is Name && actual(
                        self@,
                        id as usize,
                    ) is None),
            },
    {
        let mut id = from;
        while id < self.table.len()
            invariant
                from <= id,
                forall|earlier: int|
                    from <= earlier < id && earlier < self@.len() ==> !(
                    #[trigger] self@[earlier] is Name && actual(self@, earlier as usize) is None),
            decreases self.table.len() - id,
        {
            let is_name = match &self.table[id] {
                Type::Name { .. } => true,
                _ => false,
            };
            if is_name && self.actual(id).is_none() {
                return Some(id);
            }
            id += 1;
        }
        None
    }

    /// Whether a class is another class or comes from it.
    pub fn extends(&self, sub: TypeId, ancestor: TypeId) -> (result: bool)
        ensures
            result == extends_from(self@, sub, ancestor, self@.len()),
    {
        let mut current = sub;
        let mut fuel = self.table.len();
        loop
            invariant
                fuel <= self@.len(),
                extends_from(self@, sub, ancestor, self@.len()) == extends_from(
                    self@,
                    current,
                    ancestor,
                    fuel as nat,
                ),
            decreases fuel,
        {
            if current == ancestor {
                return true;
            }
            if current >= self.table.len() || fuel == 0 {
                return false;
            }
            match &self.table[current] {
                Type::Class { parent: Some(parent), .. } => {
                    match self.actual(*parent) {
                        Some(parent) => {
                            current = parent;
                            fuel -= 1;
                        },
                        None => {
                            return false;
                        },
                    }
                },
                _ => {
                    return false;
                },
            }
        }
    }

    /// Whether two types stand for the same type.
    pub fn is_same(&self, first: TypeId, second: TypeId) -> (result: bool)
        ensures
            result == same(self@, first, second),
    {
        match (self.actual(first), self.actual(second)) {
            (Some(first), Some(second)) => first == second,
            _ => false,
        }
    }

    /// Whether two lists of types have the same length and stand for the
    /// same types, one by one.
    pub fn are_same(&self, first: &Vec<TypeId>, second: &Vec<TypeId>) -> (result: bool)
        ensures
            result == (first@.len() == second@.len() && same_formals(
                self@,
                first@,
                second@,
                first@.len() as int,
            )),
    {
        if first.len() != second.len() {
            return false;
        }
        let mut index: usize = 0;
        while index < first.len()
            invariant
                index <= first@.len(),
                first@.len() == second@.len(),
                same_formals(self@, first@, second@, index as int),
            decreases first.len() - index,
        {
            if !self.is_same(first[index], second[index]) {
                assert(!same_formals(self@, first@, second@, first@.len() as int));
                return false;
            }
            index += 1;
        }
        true
    }

    /// Whether a value of the type `found` may stand where `expected` is
    /// asked for.
    pub fn is_compatible(&self, expected: TypeId, found: TypeId) -> (result: bool)
        ensures
            result == compatible(self@, expected, found),
    {
        let (wanted, given) = match (self.actual(expected), self.actual(found)) {
            (Some(wanted), Some(given)) => (wanted, given),
            _ => {
                return false;
            },
        };
        proof {
            lemma_actual_from(self@, expected, self@.len());
            lemma_actual_from(self@, found, self@.len());
        }
        if wanted == given {
            return true;
        }
        match (&self.table[wanted], &self.table[given]) {
            (Type::Int, Type::Int) => true,
            (Type::String, Type::String) => true,
            (Type::Unit, Type::Unit) => true,
            (Type::Nil, Type::Nil) => true,
            (Type::Nil, Type::Record { .. }) => true,
            (Type::Nil, Type::Class { .. }) => true,
            (Type::Record { .. }, Type::Nil) => true,
            (Type::Class { .. }, Type::Nil) => true,
            (Type::Record { unique: first, .. }, Type::Record { unique: second, .. }) => *first
                == *second,
            (Type::Array { unique: first, .. }, Type::Array { unique: second, .. }) => *first
                == *second,
            (Type::Class { .. }, Type::Class { .. }) => self.extends(given, wanted),
            (
                Type::Function { formals: first, result: first_result },
                Type::Function { formals: second, result: second_result },
            ) => self.are_same(first, second) && self.is_same(*first_result, *second_result),
            _ => false,
        }
    }
}

} // verus!
