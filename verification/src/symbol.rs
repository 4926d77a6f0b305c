//! Interned identifiers: every distinct name is stored once and is known
//! afterwards by its position in the table.

use vstd::prelude::*;

verus! {

/// An interned name: its position in the table that interned it.
pub type Symbol = usize;

/// The table of interned names.
pub struct Strings {
    names: Vec<String>,
}

impl View for Strings {
    type V = Seq<Seq<char>>;

    /// The interned names, in the order in which they were first seen.
    closed spec fn view(&self) -> Seq<Seq<char>> {
        self.names@.map_values(|name: String| name@)
    }
}

/// No name occurs twice.
pub open spec fn distinct_names(names: Seq<Seq<char>>) -> bool {
    forall|i: int, j: int| 0 <= i < j < names.len() ==> names[i] != names[j]
}

/// The table after `name` has been interned in `names`.
pub open spec fn interned(names: Seq<Seq<char>>, name: Seq<char>) -> Seq<Seq<char>> {
    if names.contains(name) {
        names
    } else {
        names.push(name)
    }
}

impl Strings {
    /// Every name has exactly one symbol.
    pub open spec fn wf(&self) -> bool {
        distinct_names(self@)
    }

    /// A table without names.
    pub fn new() -> (strings: Self)
        ensures
            strings@ == Seq::<Seq<char>>::empty(),
            strings.wf(),
    {
        let strings = Strings { names: Vec::new() };
        assert(strings@ =~= Seq::<Seq<char>>::empty());
        strings
    }

    /// The number of interned names.
    pub fn len(&self) -> (len: usize)
        ensures
            len == self@.len(),
    {
        self.names.len()
    }

    /// The symbol of an interned name, if it has one.
    pub fn find(&self, name: &str) -> (found: Option<Symbol>)
        ensures
            match found {
                Some(symbol) => symbol < self@.len() && self@[symbol as int] == name@ && forall|
                    i: int,
                | 0 <= i < symbol ==> self@[i] != name@,
                None => !self@.contains(name@),
            },
    {
        let owned = name.to_owned();
        let mut index: usize = 0;
        while index < self.names.len()
            invariant
                index <= self.names.len(),
                owned@ == name@,
                forall|i: int| 0 <= i < index ==> self@[i] != name@,
            decreases self.names.len() - index,
        {
            if self.names[index] == owned {
                return Some(index);
            }
            index += 1;
        }
        None
    }

    /// Interns `name`: the symbol it already has, or a new one at the end of
    /// the table.
    pub fn symbol(&mut self, name: &str) -> (symbol: Symbol)
        requires
            old(self).wf(),
        ensures
            final(self).wf(),
            final(self)@ == interned(old(self)@, name@),
            symbol < final(self)@.len(),
            final(self)@[symbol as int] == name@,
    {
        match self.find(name) {
            Some(symbol) => symbol,
            None => {
                let symbol = self.names.len();
                self.names.push(name.to_owned());
                assert(self@ =~= old(self)@.push(name@));
                symbol
            },
        }
    }

    /// The name behind a symbol of this table.
    pub fn name(&self, symbol: Symbol) -> (name: Option<&str>)
        ensures
            match name {
                Some(text) => symbol < self@.len() && text@ == self@[symbol as int],
                None => symbol >= self@.len(),
            },
    {
        if symbol < self.names.len() {
            Some(self.names[symbol].as_str())
        } else {
            None
        }
    }
}

/// A name has at most one symbol in a well-formed table, and interning the
/// same name again changes nothing.
pub proof fn lemma_symbol_unique(names: Seq<Seq<char>>, first: int, second: int)
    requires
        distinct_names(names),
        0 <= first < names.len(),
        0 <= second < names.len(),
        names[first] == names[second],
    ensures
        first == second,
        interned(names, names[first]) == names,
{
}

} // verus!
