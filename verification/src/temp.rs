//! Temporaries and labels, and the source that hands out fresh ones.

use crate::symbol::{Strings, Symbol};
use crate::text::{decimal, push_decimal};
use vstd::prelude::*;

verus! {

/// A virtual register. The numbers below `first_temp` of a `TempSource`
/// are reserved for the machine's own registers.
#[derive(Clone, Copy, Debug, PartialEq, Eq, Hash, Structural)]
pub struct Temp {
    pub num: usize,
}

/// A symbolic address: a name for an entry point, a number for a place in
/// the code.
#[derive(Clone, Copy, Debug, PartialEq, Eq, Hash, Structural)]
pub enum Label {
    Named(Symbol),
    Num(usize),
}

/// Whether a label can be written: a named label needs its symbol in the
/// table.
pub open spec fn label_known(label: Label, names: Seq<Seq<char>>) -> bool {
    match label {
        Label::Named(symbol) => symbol < names.len(),
        Label::Num(_) => true,
    }
}

/// The text of a label in a listing: the name itself, or `l` and the number.
pub open spec fn label_text(label: Label, names: Seq<Seq<char>>) -> Seq<char> {
    match label {
        Label::Named(symbol) => if symbol < names.len() {
            names[symbol as int]
        } else {
            Seq::empty()
        },
        Label::Num(num) => seq!['l'] + decimal(num as nat),
    }
}

/// Whether every label of a list can be written.
pub open spec fn labels_known(labels: Seq<Label>, names: Seq<Seq<char>>) -> bool {
    forall|i: int| 0 <= i < labels.len() ==> label_known(#[trigger] labels[i], names)
}

/// Tests whether a label can be written with this table.
pub fn is_label_known(label: Label, names: &Strings) -> (known: bool)
    ensures
        known == label_known(label, names@),
{
    match label {
        Label::Named(symbol) => symbol < names.len(),
        Label::Num(_) => true,
    }
}

/// Tests whether every label of a list can be written with this table.
pub fn are_labels_known(labels: &Vec<Label>, names: &Strings) -> (known: bool)
    ensures
        known == labels_known(labels@, names@),
{
    let mut index: usize = 0;
    while index < labels.len()
        invariant
            index <= labels.len(),
            forall|i: int| 0 <= i < index ==> label_known(#[trigger] labels@[i], names@),
        decreases labels.len() - index,
    {
        if !is_label_known(labels[index], names) {
            return false;
        }
        index += 1;
    }
    true
}

/// Appends the text of a label.
pub fn push_label(text: &mut String, label: Label, names: &Strings)
    requires
        label_known(label, names@),
    ensures
        final(text)@ == old(text)@ + label_text(label, names@),
{
    match label {
        Label::Named(symbol) => {
            match names.name(symbol) {
                Some(name) => {
                    text.append(name);
                },
                None => {},
            }
        },
        Label::Num(num) => {
            text.push('l');
            push_decimal(text, num as u64);
            assert(text@ =~= old(text)@ + label_text(label, names@));
        },
    }
}

/// A monotonic source of temporaries and labels.
pub struct TempSource {
    next_temp: usize,
    next_label: usize,
}

impl TempSource {
    /// The number of the next temporary.
    pub closed spec fn next_temp(&self) -> nat {
        self.next_temp as nat
    }

    /// The number of the next label.
    pub closed spec fn next_label(&self) -> nat {
        self.next_label as nat
    }

    /// The numbers are machine words.
    pub proof fn lemma_in_range(&self)
        ensures
            self.next_temp() <= usize::MAX,
            self.next_label() <= usize::MAX,
    {
    }

    /// A source whose first temporary is `first_temp` and whose first label
    /// is number zero.
    pub fn new(first_temp: usize) -> (source: Self)
        ensures
            source.next_temp() == first_temp,
            source.next_label() == 0,
    {
        TempSource { next_temp: first_temp, next_label: 0 }
    }

    /// The number that the next fresh temporary will have.
    pub fn peek_temp(&self) -> (num: usize)
        ensures
            num == self.next_temp(),
    {
        self.next_temp
    }

    /// The number that the next fresh label will have.
    pub fn peek_label(&self) -> (num: usize)
        ensures
            num == self.next_label(),
    {
        self.next_label
    }

    /// Hands out so many temporaries and labels at once and returns the
    /// numbers of the first of each. Where there are not enough numbers
    /// left, nothing is handed out.
    pub fn reserve(&mut self, temps: usize, labels: usize) -> (first: Option<(usize, usize)>)
        ensures
            match first {
                Some((temp, label)) => {
                    &&& temp == old(self).next_temp()
                    &&& label == old(self).next_label()
                    &&& final(self).next_temp() == old(self).next_temp() + temps
                    &&& final(self).next_label() == old(self).next_label() + labels
                },
                None => {
                    &&& old(self).next_temp() + temps > usize::MAX || old(self).next_label()
                        + labels > usize::MAX
                    &&& final(self).next_temp() == old(self).next_temp()
                    &&& final(self).next_label() == old(self).next_label()
                },
            },
    {
        if usize::MAX - self.next_temp < temps || usize::MAX - self.next_label < labels {
            None
        } else {
            let first = (self.next_temp, self.next_label);
            self.next_temp = self.next_temp + temps;
            self.next_label = self.next_label + labels;
            Some(first)
        }
    }

    /// A temporary that was never handed out before, or `None` when the
    /// numbers are used up.
    pub fn fresh_temp(&mut self) -> (temp: Option<Temp>)
        ensures
            final(self).next_label() == old(self).next_label(),
            match temp {
                Some(temp) => temp.num == old(self).next_temp() && final(self).next_temp() == old(self).next_temp() + 1,
                None => old(self).next_temp() == usize::MAX && final(self).next_temp() == old(self).next_temp(),
            },
    {
        if self.next_temp == usize::MAX {
            None
        } else {
            let temp = Temp { num: self.next_temp };
            self.next_temp = self.next_temp + 1;
            Some(temp)
        }
    }

    /// A label that was never handed out before, or `None` when the numbers
    /// are used up.
    pub fn fresh_label(&mut self) -> (label: Option<Label>)
        ensures
            final(self).next_temp() == old(self).next_temp(),
            match label {
                Some(label) => label == Label::Num(old(self).next_label() as usize) && final(self).next_label() == old(self).next_label() + 1,
                None => old(self).next_label() == usize::MAX && final(self).next_label() == old(self).next_label(),
            },
    {
        if self.next_label == usize::MAX {
            None
        } else {
            let label = Label::Num(self.next_label);
            self.next_label = self.next_label + 1;
            Some(label)
        }
    }
}

} // verus!
