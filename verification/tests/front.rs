use tiger::env::Symbols;
use tiger::temp::Label;
use tiger::types::{Field, Method, Type, Types};

#[test]
fn inner_scopes_hide_and_give_back() {
    let mut symbols: Symbols<i32> = Symbols::new();
    assert_eq!(symbols.depth(), 1);
    symbols.enter(1, 10);
    symbols.enter(2, 20);
    assert_eq!(symbols.look(1), Some(&10));
    symbols.begin_scope();
    assert_eq!(symbols.look(1), Some(&10));
    assert!(!symbols.is_bound_here(1));
    symbols.enter(1, 11);
    assert!(symbols.is_bound_here(1));
    assert_eq!(symbols.look(1), Some(&11));
    assert_eq!(symbols.look(2), Some(&20));
    assert_eq!(symbols.look(3), None);
    assert!(symbols.end_scope());
    assert_eq!(symbols.look(1), Some(&10));
    assert_eq!(symbols.depth(), 1);
}

#[test]
fn the_last_binding_of_a_scope_counts() {
    let mut symbols: Symbols<&str> = Symbols::new();
    symbols.enter(5, "first");
    symbols.enter(5, "second");
    assert_eq!(symbols.look(5), Some(&"second"));
}

#[test]
fn a_table_without_scopes() {
    let mut symbols: Symbols<u8> = Symbols::new();
    assert!(symbols.end_scope());
    assert!(!symbols.end_scope());
    assert_eq!(symbols.depth(), 0);
    assert_eq!(symbols.look(1), None);
    assert!(!symbols.is_bound_here(1));
    symbols.enter(1, 7);
    assert_eq!(symbols.depth(), 1);
    assert_eq!(symbols.look(1), Some(&7));
}

fn basics(types: &mut Types) -> (usize, usize, usize, usize) {
    (types.add_int(), types.add_string(), types.add_unit(), types.add_nil())
}

#[test]
fn basic_types_agree_with_themselves_only() {
    let mut types = Types::new();
    let (int, string, unit, nil) = basics(&mut types);
    let other_int = types.add_int();
    assert!(types.is_compatible(int, int));
    assert!(types.is_compatible(int, other_int));
    assert!(types.is_compatible(nil, nil));
    assert!(!types.is_compatible(int, string));
    assert!(!types.is_compatible(unit, int));
    assert!(!types.is_compatible(int, nil));
    assert!(!types.is_compatible(int, 99));
    assert_eq!(types.len(), 5);
    assert_eq!(types.get(1), Some(&Type::String));
    assert_eq!(types.get(5), None);
}

#[test]
fn records_are_told_apart_by_their_declaration() {
    let mut types = Types::new();
    let (int, _, _, nil) = basics(&mut types);
    let fields = || vec![Field { name: 1, typ: int, offset: 0 }];
    let first = types.add_record(7, fields()).unwrap();
    let second = types.add_record(7, fields()).unwrap();
    assert!(types.is_compatible(first, first));
    assert!(!types.is_compatible(first, second));
    assert!(types.is_compatible(first, nil));
    assert!(types.is_compatible(nil, second));
    assert!(!types.is_compatible(first, int));
    let numbers = types.add_array(int).unwrap();
    let more = types.add_array(int).unwrap();
    assert!(types.is_compatible(numbers, numbers));
    assert!(!types.is_compatible(numbers, more));
    assert!(!types.is_compatible(numbers, nil));
    match (types.get(first), types.get(second)) {
        (Some(Type::Record { unique: a, .. }), Some(Type::Record { unique: b, .. })) => assert_ne!(a, b),
        _ => panic!("two records"),
    }
}

#[test]
fn a_name_stands_for_what_it_is_resolved_to() {
    let mut types = Types::new();
    let (int, string, _, _) = basics(&mut types);
    let name = types.declare(3);
    assert_eq!(types.actual(name), None);
    assert!(!types.is_compatible(name, int));
    assert!(types.resolve(name, int));
    assert!(!types.resolve(name, string));
    assert!(!types.resolve(int, string));
    assert!(!types.resolve(50, string));
    assert_eq!(types.actual(name), Some(int));
    assert!(types.is_compatible(name, int));
    assert!(types.is_compatible(int, name));
    assert!(types.is_same(name, int));
    assert!(!types.is_same(name, string));
    let alias = types.declare(4);
    assert!(types.resolve(alias, name));
    assert_eq!(types.actual(alias), Some(int));
}

#[test]
fn names_in_a_circle_stand_for_nothing() {
    let mut types = Types::new();
    let first = types.declare(1);
    let second = types.declare(2);
    assert!(types.resolve(first, second));
    assert!(types.resolve(second, first));
    assert_eq!(types.actual(first), None);
    assert_eq!(types.actual(second), None);
    assert!(!types.is_compatible(first, first));
    let own = types.declare(3);
    assert!(types.resolve(own, own));
    assert_eq!(types.actual(own), None);
}

#[test]
fn a_recursive_record_goes_through_a_name() {
    let mut types = Types::new();
    let (int, _, _, nil) = basics(&mut types);
    let list = types.declare(1);
    let record = types
        .add_record(
            1,
            vec![Field { name: 2, typ: int, offset: 0 }, Field { name: 3, typ: list, offset: 8 }],
        )
        .unwrap();
    assert!(types.resolve(list, record));
    assert_eq!(types.actual(list), Some(record));
    assert!(types.is_compatible(list, record));
    assert!(types.is_compatible(list, nil));
}

#[test]
fn a_subclass_may_stand_for_its_superclass() {
    let mut types = Types::new();
    let (int, _, unit, nil) = basics(&mut types);
    let speak = types.add_function(vec![], unit);
    let method = |label: usize| Method { name: 9, label: Label::Num(label), index: 0, signature: speak };
    let object = types.add_class(1, None, vec![], vec![], Label::Num(1)).unwrap();
    let animal = types.add_class(2, Some(object), vec![], vec![method(10)], Label::Num(2)).unwrap();
    let name = types.declare(2);
    assert!(types.resolve(name, animal));
    let dog = types.add_class(3, Some(name), vec![], vec![method(11)], Label::Num(3)).unwrap();
    let cat = types.add_class(4, Some(animal), vec![], vec![method(12)], Label::Num(4)).unwrap();
    assert!(types.is_compatible(animal, dog));
    assert!(types.is_compatible(object, dog));
    assert!(types.is_compatible(name, dog));
    assert!(!types.is_compatible(dog, animal));
    assert!(!types.is_compatible(dog, cat));
    assert!(types.is_compatible(dog, nil));
    assert!(!types.is_compatible(dog, int));
    assert!(types.extends(dog, object));
    assert!(!types.extends(object, dog));
}

#[test]
fn functions_agree_when_formals_and_result_do() {
    let mut types = Types::new();
    let (int, string, unit, _) = basics(&mut types);
    let name = types.declare(1);
    assert!(types.resolve(name, int));
    let first = types.add_function(vec![int, string], unit);
    let second = types.add_function(vec![name, string], unit);
    let third = types.add_function(vec![int], unit);
    let fourth = types.add_function(vec![int, string], int);
    assert!(types.is_compatible(first, second));
    assert!(!types.is_compatible(first, third));
    assert!(!types.is_compatible(first, fourth));
    assert!(types.are_same(&vec![int, name], &vec![name, int]));
    assert!(!types.are_same(&vec![int], &vec![int, int]));
    assert!(!types.are_same(&vec![int], &vec![string]));
}

#[test]
fn the_first_name_that_stands_for_nothing_is_found() {
    let mut types = Types::new();
    let int = types.add_int();
    let good = types.declare(1);
    assert!(types.resolve(good, int));
    assert_eq!(types.first_unresolved(0), None);
    let first = types.declare(2);
    let second = types.declare(3);
    assert!(types.resolve(first, second));
    assert_eq!(types.first_unresolved(0), Some(first));
    assert!(types.resolve(second, first));
    assert_eq!(types.first_unresolved(0), Some(first));
    assert_eq!(types.first_unresolved(first + 1), Some(second));
    assert_eq!(types.first_unresolved(second + 1), None);
    assert_eq!(types.first_unresolved(99), None);
}
