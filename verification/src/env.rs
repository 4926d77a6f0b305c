//! Scoped tables: what a name stands for, where inner scopes hide the
//! bindings of outer ones and give them back when they end.

use crate::symbol::Symbol;
use vstd::prelude::*;

verus! {

/// A binding of a name.
pub struct Binding<T> {
    pub symbol: Symbol,
    pub value: T,
}

/// A table of bindings in nested scopes.
pub struct Symbols<T> {
    scopes: Vec<Vec<Binding<T>>>,
}

/// The value of the last binding of the name among the first `count`
/// bindings of a scope.
pub open spec fn bound_among<T>(scope: Seq<Binding<T>>, symbol: Symbol, count: int) -> Option<T>
    decreases count,
{
    if count <= 0 || count > scope.len() {
        None
    } else if scope[count - 1].symbol == symbol {
        Some(scope[count - 1].value)
    } else {
        bound_among(scope, symbol, count - 1)
    }
}

/// What the name stands for in a scope: the value of its last binding
/// there.
pub open spec fn bound_in<T>(scope: Seq<Binding<T>>, symbol: Symbol) -> Option<T> {
    bound_among(scope, symbol, scope.len() as int)
}

/// What the name stands for in the innermost of the first `count` scopes
/// that binds it.
pub open spec fn looked_among<T>(scopes: Seq<Seq<Binding<T>>>, symbol: Symbol, count: int) -> Option<
    T,
>
    decreases count,
{
    if count <= 0 || count > scopes.len() {
        None
    } else {
        match bound_in(scopes[count - 1], symbol) {
            Some(value) => Some(value),
            None => looked_among(scopes, symbol, count - 1),
        }
    }
}

/// What the name stands for: its binding in the innermost scope that has
/// one.
pub open spec fn looked<T>(scopes: Seq<Seq<Binding<T>>>, symbol: Symbol) -> Option<T> {
    looked_among(scopes, symbol, scopes.len() as int)
}

/// The scopes with one more binding in the innermost one. Where no scope
/// is open, one is opened for it.
pub open spec fn entered<T>(scopes: Seq<Seq<Binding<T>>>, binding: Binding<T>) -> Seq<
    Seq<Binding<T>>,
> {
    if scopes.len() == 0 {
        seq![seq![binding]]
    } else {
        scopes.update(scopes.len() - 1, scopes.last().push(binding))
    }
}

impl<T> View for Symbols<T> {
    type V = Seq<Seq<Binding<T>>>;

    /// The scopes, outermost first, each with its bindings in the order in
    /// which they were made.
    closed spec fn view(&self) -> Seq<Seq<Binding<T>>> {
        self.scopes@.map_values(|scope: Vec<Binding<T>>| scope@)
    }
}

impl<T> Symbols<T> {
    /// A table with one scope and no bindings.
    pub fn new() -> (symbols: Self)
        ensures
            symbols@ == seq![Seq::<Binding<T>>::empty()],
    {
        let mut scopes: Vec<Vec<Binding<T>>> = Vec::new();
        scopes.push(Vec::new());
        let symbols = Symbols { scopes };
        assert(symbols@ =~= seq![Seq::<Binding<T>>::empty()]);
        symbols
    }

    /// The number of open scopes.
    pub fn depth(&self) -> (depth: usize)
        ensures
            depth == self@.len(),
    {
        self.scopes.len()
    }

    /// Opens a scope inside the innermost one.
    pub fn begin_scope(&mut self)
        ensures
            final(self)@ == old(self)@.push(Seq::<Binding<T>>::empty()),
    {
        self.scopes.push(Vec::new());
        assert(self@ =~= old(self)@.push(Seq::<Binding<T>>::empty()));
    }

    /// Ends the innermost scope and forgets its bindings. Returns whether
    /// a scope was open.
    pub fn end_scope(&mut self) -> (ended: bool)
        ensures
            ended == (old(self)@.len() > 0),
            final(self)@ == if ended {
                old(self)@.drop_last()
            } else {
                old(self)@
            },
    {
        let ended = match self.scopes.pop() {
            Some(_) => true,
            None => false,
        };
        assert(self@ =~= if ended {
            old(self)@.drop_last()
        } else {
            old(self)@
        });
        ended
    }

    /// Binds a name in the innermost scope.
    pub fn enter(&mut self, symbol: Symbol, value: T)
        ensures
            final(self)@ == entered(old(self)@, Binding { symbol, value }),
            looked(final(self)@, symbol) == Some(value),
    {
        let mut scope = match self.scopes.pop() {
            Some(scope) => scope,
            None => Vec::new(),
        };
        scope.push(Binding { symbol, value });
        self.scopes.push(scope);
        assert(self@ =~= entered(old(self)@, Binding { symbol, value }));
    }

    /// Whether the innermost scope binds the name.
    pub fn is_bound_here(&self, symbol: Symbol) -> (bound: bool)
        ensures
            bound == (self@.len() > 0 && bound_in(self@.last(), symbol) is Some),
    {
        if self.scopes.len() == 0 {
            return false;
        }
        let scope = &self.scopes[self.scopes.len() - 1];
        assert(scope@ == self@.last());
        let mut left = scope.len();
        while left > 0
            invariant
                left <= scope@.len(),
                self@.len() > 0,
                scope@ == self@.last(),
                bound_in(scope@, symbol) == bound_among(scope@, symbol, left as int),
            decreases left,
        {
            if scope[left - 1].symbol == symbol {
                assert(bound_among(scope@, symbol, left as int) is Some);
                return true;
            }
            left -= 1;
        }
        false
    }

    /// What the name stands for.
    pub fn look(&self, symbol: Symbol) -> (found: Option<&T>)
        ensures
            match found {
                Some(value) => looked(self@, symbol) == Some(*value),
                None => looked(self@, symbol) is None,
            },
    {
        let mut depth = self.scopes.len();
        while depth > 0
            invariant
                depth <= self@.len(),
                looked(self@, symbol) == looked_among(self@, symbol, depth as int),
            decreases depth,
        {
            let scope = &self.scopes[depth - 1];
            assert(scope@ == self@[depth - 1]);
            let mut left = scope.len();
            while left > 0
                invariant
                    left <= scope@.len(),
                    0 < depth <= self@.len(),
                    looked(self@, symbol) == looked_among(self@, symbol, depth as int),
                    scope@ == self@[depth - 1],
                    bound_in(scope@, symbol) == bound_among(scope@, symbol, left as int),
                decreases left,
            {
                if scope[left - 1].symbol == symbol {
                    assert(bound_among(scope@, symbol, left as int) == Some(
                        scope@[left - 1].value,
                    ));
                    assert(looked_among(self@, symbol, depth as int) == Some(
                        scope@[left - 1].value,
                    ));
                    return Some(&scope[left - 1].value);
                }
                left -= 1;
            }
            depth -= 1;
        }
        None
    }
}

/// A binding in an inner scope hides an outer one until the scope ends:
/// after the scope has ended, every name stands for what it stood for
/// before the scope began.
pub proof fn lemma_scope_restores<T>(scopes: Seq<Seq<Binding<T>>>, inner: Seq<Binding<T>>, symbol: Symbol)
    ensures
        looked(scopes.push(inner).drop_last(), symbol) == looked(scopes, symbol),
        bound_in(inner, symbol) is None ==> looked(scopes.push(inner), symbol) == looked(
            scopes,
            symbol,
        ),
        bound_in(inner, symbol) is Some ==> looked(scopes.push(inner), symbol) == bound_in(
            inner,
            symbol,
        ),
{
    assert(scopes.push(inner).drop_last() =~= scopes);
    lemma_looked_prefix(scopes.push(inner), scopes, symbol, scopes.len() as int);
}

/// Looking a name up in the first scopes of two tables that agree on them
/// gives the same.
pub proof fn lemma_looked_prefix<T>(
    first: Seq<Seq<Binding<T>>>,
    second: Seq<Seq<Binding<T>>>,
    symbol: Symbol,
    count: int,
)
    requires
        0 <= count <= first.len(),
        count <= second.len(),
        forall|i: int| 0 <= i < count ==> first[i] == second[i],
    ensures
        looked_among(first, symbol, count) == looked_among(second, symbol, count),
    decreases count,
{
    if count > 0 {
        lemma_looked_prefix(first, second, symbol, count - 1);
    }
}

} // verus!
