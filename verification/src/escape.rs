//! Escape analysis: which variables must live in the frame because an
//! inner function uses them, or because their address is taken.

use crate::env::{entered, looked, Binding, Symbols};
use crate::symbol::Symbol;
use vstd::prelude::*;

verus! {

/// What the walk over a program meets, in the order in which it meets it.
#[derive(Clone, Copy, Debug, PartialEq, Eq, Structural)]
pub enum Event {
    /// The body of a function begins; its formals are declared behind this.
    BeginFunction,
    /// The body of a function ends.
    EndFunction,
    /// A scope begins: a `let`, or the body of a loop with a variable.
    BeginScope,
    /// The innermost scope ends.
    EndScope,
    /// A variable or a formal is declared; `site` tells the declaration
    /// from all others.
    Declare { name: Symbol, site: usize },
    /// A variable is read or written.
    Use { name: Symbol },
    /// The address of a variable is taken.
    Address { name: Symbol },
}

/// Where a variable was declared: how deep in functions, and at which
/// site.
#[derive(Clone, Copy, Debug, PartialEq, Eq, Structural)]
pub struct Declared {
    pub depth: usize,
    pub site: usize,
}

/// What the walk knows at a point of the program.
pub struct Walk {
    /// The variables in scope.
    pub scopes: Seq<Seq<Binding<Declared>>>,
    /// The number of functions around the point.
    pub depth: nat,
    /// For each site, whether its variable escapes.
    pub escapes: Seq<bool>,
}

/// The marks with the one of a site set, if there is such a site.
pub open spec fn marked(escapes: Seq<bool>, site: usize) -> Seq<bool> {
    if site < escapes.len() {
        escapes.update(site as int, true)
    } else {
        escapes
    }
}

/// What the walk knows after an event. A function is a scope one level
/// deeper; a use marks the variable if it was declared at a smaller depth;
/// taking the address marks it in any case; a name that is not in scope is
/// passed over.
pub open spec fn stepped(walk: Walk, event: Event) -> Walk {
    match event {
        Event::BeginFunction => Walk {
            scopes: walk.scopes.push(Seq::empty()),
            depth: walk.depth + 1,
            ..walk
        },
        Event::EndFunction => Walk {
            scopes: if walk.scopes.len() > 0 {
                walk.scopes.drop_last()
            } else {
                walk.scopes
            },
            depth: if walk.depth > 0 {
                (walk.depth - 1) as nat
            } else {
                0
            },
            ..walk
        },
        Event::BeginScope => Walk { scopes: walk.scopes.push(Seq::empty()), ..walk },
        Event::EndScope => Walk {
            scopes: if walk.scopes.len() > 0 {
                walk.scopes.drop_last()
            } else {
                walk.scopes
            },
            ..walk
        },
        Event::Declare { name, site } => Walk {
            scopes: entered(
                walk.scopes,
                Binding { symbol: name, value: Declared { depth: walk.depth as usize, site } },
            ),
            ..walk
        },
        Event::Use { name } => match looked(walk.scopes, name) {
            Some(declared) => if declared.depth < walk.depth {
                Walk { escapes: marked(walk.escapes, declared.site), ..walk }
            } else {
                walk
            },
            None => walk,
        },
        Event::Address { name } => match looked(walk.scopes, name) {
            Some(declared) => Walk { escapes: marked(walk.escapes, declared.site), ..walk },
            None => walk,
        },
    }
}

/// What the walk knows after the first `count` events.
pub open spec fn walked(events: Seq<Event>, sites: nat, count: int) -> Walk
    decreases count,
{
    if count <= 0 || count > events.len() {
        Walk {
            scopes: seq![Seq::<Binding<Declared>>::empty()],
            depth: 0,
            escapes: Seq::new(sites, |site: int| false),
        }
    } else {
        stepped(walked(events, sites, count - 1), events[count - 1])
    }
}

/// The walk never forgets a mark, and keeps one mark for each site.
pub proof fn lemma_walked(events: Seq<Event>, sites: nat, count: int, later: int)
    requires
        0 <= count <= later <= events.len(),
    ensures
        walked(events, sites, count).escapes.len() == sites,
        walked(events, sites, later).escapes.len() == sites,
        forall|site: int|
            0 <= site < sites && walked(events, sites, count).escapes[site] ==> #[trigger] walked(
                events,
                sites,
                later,
            ).escapes[site],
    decreases later,
{
    if count < later {
        lemma_walked(events, sites, count, later - 1);
    } else if later > 0 {
        lemma_walked(events, sites, 0, later - 1);
    }
}

/// The walk is never deeper in functions than it has met events.
pub proof fn lemma_depth(events: Seq<Event>, sites: nat, count: int)
    requires
        0 <= count <= events.len(),
    ensures
        walked(events, sites, count).depth <= count,
    decreases count,
{
    if count > 0 {
        lemma_depth(events, sites, count - 1);
    }
}

/// Finds the variables that escape. `events` is the walk over the program
/// and `sites` the number of declarations; the result says for each site
/// whether its variable must live in the frame.
pub fn find_escapes(events: &Vec<Event>, sites: usize) -> (escapes: Vec<bool>)
    ensures
        escapes@ == walked(events@, sites as nat, events@.len() as int).escapes,
{
    let mut escapes = crate::marks::unmarked(sites);
    let mut symbols: Symbols<Declared> = Symbols::new();
    let mut depth: usize = 0;
    let mut at: usize = 0;
    while at < events.len()
        invariant
            at <= events@.len(),
            symbols@ == walked(events@, sites as nat, at as int).scopes,
            depth == walked(events@, sites as nat, at as int).depth,
            escapes@ == walked(events@, sites as nat, at as int).escapes,
            escapes@.len() == sites,
        decreases events.len() - at,
    {
        let ghost before = walked(events@, sites as nat, at as int);
        let ghost after = walked(events@, sites as nat, at + 1);
        assert(after == stepped(before, events@[at as int]));
        proof {
            lemma_depth(events@, sites as nat, at + 1);
        }
        match events[at] {
            Event::BeginFunction => {
                symbols.begin_scope();
                depth = depth + 1;
            },
            Event::EndFunction => {
                symbols.end_scope();
                if depth > 0 {
                    depth = depth - 1;
                }
            },
            Event::BeginScope => {
                symbols.begin_scope();
            },
            Event::EndScope => {
                symbols.end_scope();
            },
            Event::Declare { name, site } => {
                symbols.enter(name, Declared { depth, site });
            },
            Event::Use { name } => {
                match symbols.look(name) {
                    Some(declared) => {
                        if declared.depth < depth && declared.site < sites {
                            escapes.set(declared.site, true);
                        }
                    },
                    None => {},
                }
            },
            Event::Address { name } => {
                match symbols.look(name) {
                    Some(declared) => {
                        if declared.site < sites {
                            escapes.set(declared.site, true);
                        }
                    },
                    None => {},
                }
            },
        }
        at += 1;
    }
    escapes
}

} // verus!
