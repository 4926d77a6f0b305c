//! The walk over a program that the escape analysis follows: what it
//! meets in a syntax tree, in the order in which it meets it.

use crate::analysis::{Definition, Expr, FieldValue, Formal, Node};
use crate::escape::{find_escapes, walked, Event};
use crate::ir::List;
use crate::symbol::Symbol;
use vstd::prelude::*;

verus! {

/// The events of the declaration of a variable and of what it is
/// declared for: a scope with the variable in it.
pub open spec fn scoped(name: Symbol, site: usize, inside: Seq<Event>) -> Seq<Event> {
    seq![Event::BeginScope, Event::Declare { name, site }] + inside + seq![Event::EndScope]
}

/// What the walk meets in an expression. A variable that is read or
/// written is a use, and so is the object of a method under the name
/// `receiver`; the first value of a variable is met outside its scope,
/// and so are the bounds of a counting loop.
pub open spec fn events_of(node: Node, receiver: Symbol) -> Seq<Event>
    decreases node,
{
    match node.expr {
        Expr::Int(_) => Seq::empty(),
        Expr::Nil => Seq::empty(),
        Expr::Unit => Seq::empty(),
        Expr::Str(_) => Seq::empty(),
        Expr::Break => Seq::empty(),
        Expr::This => seq![Event::Use { name: receiver }],
        Expr::Var(name) => seq![Event::Use { name }],
        Expr::Field(record, _) => events_of(*record, receiver),
        Expr::Subscript(first, second) => events_of(*first, receiver) + events_of(
            *second,
            receiver,
        ),
        Expr::Arith(_, first, second) => events_of(*first, receiver) + events_of(
            *second,
            receiver,
        ),
        Expr::Compare(_, first, second) => events_of(*first, receiver) + events_of(
            *second,
            receiver,
        ),
        Expr::IfThen(first, second) => events_of(*first, receiver) + events_of(*second, receiver),
        Expr::While(first, second) => events_of(*first, receiver) + events_of(*second, receiver),
        Expr::Assign(first, second) => events_of(*first, receiver) + events_of(*second, receiver),
        Expr::Then(first, second) => events_of(*first, receiver) + events_of(*second, receiver),
        Expr::Array(_, first, second) => events_of(*first, receiver) + events_of(
            *second,
            receiver,
        ),
        Expr::If(test, then, otherwise) => events_of(*test, receiver) + events_of(
            *then,
            receiver,
        ) + events_of(*otherwise, receiver),
        Expr::Call(_, arguments) => events_of_all(*arguments, receiver),
        Expr::MethodCall(object, _, arguments) => events_of(*object, receiver) + events_of_all(
            *arguments,
            receiver,
        ),
        Expr::Record(_, _, values) => events_of_values(*values, receiver),
        Expr::Let(declaration, init, body) => events_of(*init, receiver) + scoped(
            declaration.name,
            declaration.site,
            events_of(*body, receiver),
        ),
        Expr::For(declaration, low, high, body) => events_of(*low, receiver) + events_of(
            *high,
            receiver,
        ) + scoped(declaration.name, declaration.site, events_of(*body, receiver)),
        Expr::Functions(group, body) => events_of_group(*group, receiver) + events_of(
            *body,
            receiver,
        ),
    }
}

/// What the walk meets in the expressions of a list, first to last.
pub open spec fn events_of_all(nodes: List<Node>, receiver: Symbol) -> Seq<Event>
    decreases nodes,
{
    match nodes {
        List::Nil => Seq::empty(),
        List::Cons(head, tail) => events_of(head, receiver) + events_of_all(*tail, receiver),
    }
}

/// What the walk meets in the values of the fields of a new record.
pub open spec fn events_of_values(values: List<FieldValue>, receiver: Symbol) -> Seq<Event>
    decreases values,
{
    match values {
        List::Nil => Seq::empty(),
        List::Cons(head, tail) => events_of(head.value, receiver) + events_of_values(
            *tail,
            receiver,
        ),
    }
}

/// What the walk meets in the functions of a group, first to last.
pub open spec fn events_of_group(group: List<Definition>, receiver: Symbol) -> Seq<Event>
    decreases group,
{
    match group {
        List::Nil => Seq::empty(),
        List::Cons(head, tail) => events_of_function(head, receiver) + events_of_group(
            *tail,
            receiver,
        ),
    }
}

/// The declarations of the formals from `from` on.
pub open spec fn formal_events(formals: Seq<Formal>, from: int) -> Seq<Event>
    decreases formals.len() - from,
{
    if from < 0 || from >= formals.len() {
        Seq::empty()
    } else {
        seq![Event::Declare { name: formals[from].name, site: formals[from].site }]
            + formal_events(formals, from + 1)
    }
}

/// What the walk meets in a function: the function begins, its formals
/// are declared, its body follows, and the function ends.
pub open spec fn events_of_function(definition: Definition, receiver: Symbol) -> Seq<Event>
    decreases definition,
{
    seq![Event::BeginFunction] + formal_events(definition.formals@, 0) + events_of(
        definition.body,
        receiver,
    ) + seq![Event::EndFunction]
}

/// For each of `sites` declarations whether its variable escapes in the
/// program with the given outermost function: whether the walk over the
/// program marks it.
pub open spec fn escaping(main: Definition, receiver: Symbol, sites: nat) -> Seq<bool> {
    walked(
        events_of_function(main, receiver),
        sites,
        events_of_function(main, receiver).len() as int,
    ).escapes
}

/// Adds what the walk meets in a scope with a variable.
fn walk_scope(name: Symbol, site: usize, body: &Node, receiver: Symbol, events: &mut Vec<Event>)
    ensures
        final(events)@ == old(events)@ + scoped(name, site, events_of(*body, receiver)),
    decreases body, 1int,
{
    events.push(Event::BeginScope);
    events.push(Event::Declare { name, site });
    walk(body, receiver, events);
    events.push(Event::EndScope);
    assert(events@ =~= old(events)@ + scoped(name, site, events_of(*body, receiver)));
}

/// Adds what the walk meets in an expression.
pub fn walk(node: &Node, receiver: Symbol, events: &mut Vec<Event>)
    ensures
        final(events)@ == old(events)@ + events_of(*node, receiver),
    decreases node, 0int,
{
    match &node.expr {
        Expr::Int(_) => {},
        Expr::Nil => {},
        Expr::Unit => {},
        Expr::Str(_) => {},
        Expr::Break => {},
        Expr::This => {
            events.push(Event::Use { name: receiver });
        },
        Expr::Var(name) => {
            events.push(Event::Use { name: *name });
        },
        Expr::Field(record, _) => {
            walk(record, receiver, events);
        },
        Expr::Subscript(first, second) => {
            walk(first, receiver, events);
            walk(second, receiver, events);
        },
        Expr::Arith(_, first, second) => {
            walk(first, receiver, events);
            walk(second, receiver, events);
        },
        Expr::Compare(_, first, second) => {
            walk(first, receiver, events);
            walk(second, receiver, events);
        },
        Expr::IfThen(first, second) => {
            walk(first, receiver, events);
            walk(second, receiver, events);
        },
        Expr::While(first, second) => {
            walk(first, receiver, events);
            walk(second, receiver, events);
        },
        Expr::Assign(first, second) => {
            walk(first, receiver, events);
            walk(second, receiver, events);
        },
        Expr::Then(first, second) => {
            walk(first, receiver, events);
            walk(second, receiver, events);
        },
        Expr::Array(_, first, second) => {
            walk(first, receiver, events);
            walk(second, receiver, events);
        },
        Expr::If(test, then, otherwise) => {
            walk(test, receiver, events);
            walk(then, receiver, events);
            walk(otherwise, receiver, events);
        },
        Expr::Call(_, arguments) => {
            walk_all(arguments, receiver, events);
        },
        Expr::MethodCall(object, _, arguments) => {
            walk(object, receiver, events);
            walk_all(arguments, receiver, events);
        },
        Expr::Record(_, _, values) => {
            walk_values(values, receiver, events);
        },
        Expr::Let(declaration, init, body) => {
            walk(init, receiver, events);
            walk_scope(declaration.name, declaration.site, body, receiver, events);
        },
        Expr::For(declaration, low, high, body) => {
            walk(low, receiver, events);
            walk(high, receiver, events);
            walk_scope(declaration.name, declaration.site, body, receiver, events);
        },
        Expr::Functions(group, body) => {
            walk_group(group, receiver, events);
            walk(body, receiver, events);
        },
    }
    assert(events@ =~= old(events)@ + events_of(*node, receiver));
}

/// Adds what the walk meets in the expressions of a list.
pub fn walk_all(nodes: &List<Node>, receiver: Symbol, events: &mut Vec<Event>)
    ensures
        final(events)@ == old(events)@ + events_of_all(*nodes, receiver),
    decreases nodes, 0int,
{
    match nodes {
        List::Nil => {},
        List::Cons(head, tail) => {
            walk(head, receiver, events);
            walk_all(tail, receiver, events);
        },
    }
    assert(events@ =~= old(events)@ + events_of_all(*nodes, receiver));
}

/// Adds what the walk meets in the values of the fields of a new record.
pub fn walk_values(values: &List<FieldValue>, receiver: Symbol, events: &mut Vec<Event>)
    ensures
        final(events)@ == old(events)@ + events_of_values(*values, receiver),
    decreases values, 0int,
{
    match values {
        List::Nil => {},
        List::Cons(head, tail) => {
            walk(&head.value, receiver, events);
            walk_values(tail, receiver, events);
        },
    }
    assert(events@ =~= old(events)@ + events_of_values(*values, receiver));
}

/// Adds what the walk meets in the functions of a group.
pub fn walk_group(group: &List<Definition>, receiver: Symbol, events: &mut Vec<Event>)
    ensures
        final(events)@ == old(events)@ + events_of_group(*group, receiver),
    decreases group, 0int,
{
    match group {
        List::Nil => {},
        List::Cons(head, tail) => {
            walk_function(head, receiver, events);
            walk_group(tail, receiver, events);
        },
    }
    assert(events@ =~= old(events)@ + events_of_group(*group, receiver));
}

/// Adds what the walk meets in a function.
pub fn walk_function(definition: &Definition, receiver: Symbol, events: &mut Vec<Event>)
    ensures
        final(events)@ == old(events)@ + events_of_function(*definition, receiver),
    decreases definition, 0int,
{
    events.push(Event::BeginFunction);
    let ghost start = events@;
    let mut index: usize = 0;
    while index < definition.formals.len()
        invariant
            index <= definition.formals@.len(),
            events@ + formal_events(definition.formals@, index as int) == start + formal_events(
                definition.formals@,
                0,
            ),
        decreases definition.formals.len() - index,
    {
        let ghost before = events@;
        let formal = definition.formals[index];
        events.push(Event::Declare { name: formal.name, site: formal.site });
        assert(events@ + formal_events(definition.formals@, index + 1) =~= before + formal_events(
            definition.formals@,
            index as int,
        ));
        index += 1;
    }
    assert(events@ =~= start + formal_events(definition.formals@, 0));
    walk(&definition.body, receiver, events);
    events.push(Event::EndFunction);
    assert(events@ =~= old(events)@ + events_of_function(*definition, receiver));
}

/// Finds the variables of a program that escape: for each of `sites`
/// declarations whether its variable is used in a function inside the one
/// that declares it.
pub fn program_escapes(main: &Definition, receiver: Symbol, sites: usize) -> (escapes: Vec<bool>)
    ensures
        escapes@ == escaping(*main, receiver, sites as nat),
{
    let mut events: Vec<Event> = Vec::new();
    walk_function(main, receiver, &mut events);
    assert(events@ =~= events_of_function(*main, receiver));
    find_escapes(&events, sites)
}

} // verus!
