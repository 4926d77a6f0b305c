//! Helpers on vectors.

use vstd::prelude::*;

verus! {

/// The items of a vector in the opposite order, so that popping hands them
/// out first to last.
pub fn reversed<T>(items: Vec<T>) -> (result: Vec<T>)
    ensures
        result@.len() == items@.len(),
        forall|i: int| 0 <= i < items@.len() ==> result@[i] == items@[items@.len() - 1 - i],
{
    let mut items = items;
    let ghost whole = items@;
    let mut result: Vec<T> = Vec::new();
    while items.len() > 0
        invariant
            items@.len() + result@.len() == whole.len(),
            items@ == whole.take(items@.len() as int),
            forall|i: int| 0 <= i < result@.len() ==> result@[i] == whole[whole.len() - 1 - i],
        decreases items.len(),
    {
        let item = items.pop().unwrap();
        result.push(item);
        assert(items@ =~= whole.take(items@.len() as int));
    }
    result
}

} // verus!
