//! Marks on the items of a list, and how many items are still unmarked.

use vstd::prelude::*;

verus! {

/// The number of items that are not marked.
pub open spec fn unvisited(visited: Seq<bool>) -> nat
    decreases visited.len(),
{
    if visited.len() == 0 {
        0
    } else {
        unvisited(visited.drop_last()) + if visited.last() {
            0nat
        } else {
            1nat
        }
    }
}

/// Marking an unmarked item leaves one item less to mark.
pub proof fn lemma_visit(visited: Seq<bool>, index: int)
    requires
        0 <= index < visited.len(),
        !visited[index],
    ensures
        unvisited(visited.update(index, true)) + 1 == unvisited(visited),
    decreases visited.len(),
{
    if index == visited.len() - 1 {
        assert(visited.update(index, true).drop_last() =~= visited.drop_last());
    } else {
        lemma_visit(visited.drop_last(), index);
        assert(visited.update(index, true).drop_last() =~= visited.drop_last().update(
            index,
            true,
        ));
    }
}

/// The number of items that are marked.
pub open spec fn count_true(marks: Seq<bool>) -> nat
    decreases marks.len(),
{
    if marks.len() == 0 {
        0
    } else {
        count_true(marks.drop_last()) + if marks.last() {
            1nat
        } else {
            0nat
        }
    }
}

/// Setting a mark adds one to the number of marks if it was not set, and
/// nothing if it was.
pub proof fn lemma_mark(marks: Seq<bool>, index: int)
    requires
        0 <= index < marks.len(),
    ensures
        count_true(marks.update(index, true)) == count_true(marks) + if marks[index] {
            0nat
        } else {
            1nat
        },
    decreases marks.len(),
{
    if index == marks.len() - 1 {
        assert(marks.update(index, true).drop_last() =~= marks.drop_last());
    } else {
        lemma_mark(marks.drop_last(), index);
        assert(marks.update(index, true).drop_last() =~= marks.drop_last().update(index, true));
    }
}

/// No more items are marked than there are.
pub proof fn lemma_count_bound(marks: Seq<bool>)
    ensures
        count_true(marks) <= marks.len(),
    decreases marks.len(),
{
    if marks.len() > 0 {
        lemma_count_bound(marks.drop_last());
    }
}

/// One more item of a list counts for one if it is marked.
pub proof fn lemma_count_step(marks: Seq<bool>, index: int)
    requires
        0 <= index < marks.len(),
    ensures
        count_true(marks.take(index + 1)) == count_true(marks.take(index)) + if marks[index] {
            1nat
        } else {
            0nat
        },
{
    assert(marks.take(index + 1).drop_last() =~= marks.take(index));
}

/// In a list without marks every item is unmarked.
pub proof fn lemma_unvisited_all(visited: Seq<bool>)
    requires
        forall|i: int| 0 <= i < visited.len() ==> !visited[i],
    ensures
        unvisited(visited) == visited.len(),
    decreases visited.len(),
{
    if visited.len() > 0 {
        lemma_unvisited_all(visited.drop_last());
    }
}

/// There are no more unmarked items than items.
pub proof fn lemma_unvisited_bound(visited: Seq<bool>)
    ensures
        unvisited(visited) <= visited.len(),
    decreases visited.len(),
{
    if visited.len() > 0 {
        lemma_unvisited_bound(visited.drop_last());
    }
}

/// A list of `len` marks, none of them set.
pub fn unmarked(len: usize) -> (marks: Vec<bool>)
    ensures
        marks@ == Seq::new(len as nat, |i: int| false),
{
    let mut marks: Vec<bool> = Vec::new();
    while marks.len() < len
        invariant
            marks@.len() <= len,
            forall|i: int| 0 <= i < marks@.len() ==> !marks@[i],
        decreases len - marks.len(),
    {
        marks.push(false);
    }
    assert(marks@ =~= Seq::new(len as nat, |i: int| false));
    marks
}

} // verus!
