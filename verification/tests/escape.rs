use tiger::escape::{find_escapes, Event};

fn declare(name: usize, site: usize) -> Event {
    Event::Declare { name, site }
}

fn used(name: usize) -> Event {
    Event::Use { name }
}

#[test]
fn a_variable_used_in_its_own_function_does_not_escape() {
    let events = vec![Event::BeginFunction, declare(1, 0), used(1), Event::EndFunction];
    assert_eq!(find_escapes(&events, 1), vec![false]);
}

#[test]
fn a_variable_used_in_a_nested_function_escapes() {
    let events = vec![
        Event::BeginFunction,
        declare(1, 0),
        declare(2, 1),
        Event::BeginFunction,
        declare(3, 2),
        used(1),
        used(3),
        Event::EndFunction,
        used(2),
        Event::EndFunction,
    ];
    assert_eq!(find_escapes(&events, 3), vec![true, false, false]);
}

#[test]
fn an_inner_variable_hides_an_outer_one() {
    let events = vec![
        declare(1, 0),
        Event::BeginFunction,
        Event::BeginScope,
        declare(1, 1),
        used(1),
        Event::EndScope,
        Event::EndFunction,
    ];
    assert_eq!(find_escapes(&events, 2), vec![false, false]);
    let events = vec![
        declare(1, 0),
        Event::BeginFunction,
        Event::BeginScope,
        declare(1, 1),
        Event::EndScope,
        used(1),
        Event::EndFunction,
    ];
    assert_eq!(find_escapes(&events, 2), vec![true, false]);
}

#[test]
fn taking_the_address_makes_a_variable_escape() {
    let events = vec![declare(1, 0), declare(2, 1), Event::Address { name: 2 }];
    assert_eq!(find_escapes(&events, 2), vec![false, true]);
}

#[test]
fn names_that_are_not_in_scope_are_passed_over() {
    let events = vec![
        used(1),
        Event::BeginFunction,
        declare(1, 0),
        Event::EndFunction,
        Event::BeginFunction,
        used(1),
        Event::Address { name: 1 },
        Event::EndFunction,
        Event::EndFunction,
        Event::EndScope,
        declare(2, 7),
        Event::BeginFunction,
        used(2),
    ];
    assert_eq!(find_escapes(&events, 2), vec![false, false]);
    assert_eq!(find_escapes(&vec![], 0), Vec::<bool>::new());
}
