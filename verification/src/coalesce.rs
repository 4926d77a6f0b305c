//! Iterated register coalescing: temporaries leave the interference graph
//! one by one, and the two ends of a move are made one node where that
//! cannot make the graph harder to colour.

use crate::colour::{
    assign_colours,
    coloured_before,
    count_marks,
    follows_rule,
    cheaper,
    is_cheaper,
    is_free_register,
    lemma_taken_agrees,
    proper,
    taken,
    COLOURS,
};
use crate::flow::{holds_node, FlowGraph};
use crate::frame::{RBP, REGISTER_COUNT, RSP};
use crate::interference::{is_square, mark, Interference};
use crate::marks::{count_true, lemma_unvisited_bound, lemma_visit, unmarked, unvisited};
use vstd::prelude::*;

verus! {

/// A move between two temporaries, given by their numbers.
#[derive(Clone, Copy, Debug, PartialEq, Eq, Structural)]
pub struct MovePair {
    pub destination: usize,
    pub source: usize,
}

/// What is left of an interference graph when all temporaries have left
/// it.
#[derive(Clone, Debug, PartialEq, Eq)]
pub struct Reduction {
    /// The graph with the coalesced temporaries made one: the edges of a
    /// temporary that was coalesced are edges of the one it stands for now.
    pub merged: Interference,
    /// For each temporary the one that stands for it, which is itself
    /// unless it was coalesced.
    pub alias: Vec<usize>,
    /// The order in which the temporaries that stand for themselves left
    /// the graph.
    pub order: Vec<usize>,
}

/// A square matrix whose marks have no direction and that has none on the
/// diagonal.
pub open spec fn is_graph(matrix: Seq<Vec<bool>>) -> bool {
    &&& is_square(matrix, matrix.len())
    &&& forall|a: int, b: int|
        0 <= a < matrix.len() && 0 <= b < matrix.len() ==> #[trigger] matrix[a]@[b]
            == matrix[b]@[a]
    &&& forall|a: int| 0 <= a < matrix.len() ==> !(#[trigger] matrix[a])@[a]
}

/// Every temporary stands for itself or for one that stands for itself,
/// and a register stands for itself.
pub open spec fn is_alias(alias: Seq<usize>, size: nat) -> bool {
    &&& alias.len() == size
    &&& forall|x: int| 0 <= x < size ==> #[trigger] alias[x] < size
    &&& forall|x: int| 0 <= x < size ==> alias[#[trigger] alias[x] as int] == alias[x]
    &&& forall|x: int| 0 <= x < size && x < REGISTER_COUNT ==> #[trigger] alias[x] == x
    &&& forall|x: int|
        REGISTER_COUNT <= x < size && #[trigger] alias[x] < REGISTER_COUNT ==> is_free_register(
            alias[x] as int,
        )
}

/// Two temporaries that interfere stand for different temporaries, and
/// those interfere in the merged graph.
pub open spec fn carries(given: Interference, merged: Seq<Vec<bool>>, alias: Seq<usize>) -> bool {
    forall|a: int, b: int|
        0 <= a < given.size() && 0 <= b < given.size() && #[trigger] given.edge(a, b)
            ==> alias[a] != alias[b] && merged[alias[a] as int]@[alias[b] as int]
}

/// What holds while temporaries leave the graph: the merged graph carries
/// the graph that was given, a temporary that was coalesced or is a register
/// counts as gone, and the order holds exactly the temporaries that stand
/// for themselves and are gone.
pub open spec fn reducing(
    given: Interference,
    merged: Seq<Vec<bool>>,
    alias: Seq<usize>,
    removed: Seq<bool>,
    order: Seq<usize>,
) -> bool {
    &&& merged.len() == given.size()
    &&& is_graph(merged)
    &&& is_alias(alias, given.size())
    &&& carries(given, merged, alias)
    &&& removed.len() == given.size()
    &&& forall|x: int| 0 <= x < removed.len() && x < REGISTER_COUNT ==> #[trigger] removed[x]
    &&& forall|x: int|
        REGISTER_COUNT <= x < removed.len() && #[trigger] alias[x] != x ==> removed[x]
    &&& order.no_duplicates()
    &&& forall|i: int|
        0 <= i < order.len() ==> REGISTER_COUNT <= #[trigger] order[i] < removed.len()
            && alias[order[i] as int] == order[i] && removed[order[i] as int]
    &&& forall|x: int|
        REGISTER_COUNT <= x < removed.len() && #[trigger] removed[x] && alias[x] == x
            ==> holds_node(order, x)
}

/// Whether the reduction is one of the graph: the merged graph carries the
/// graph that was given, and the order holds each temporary that stands for itself
/// and is no register exactly once.
pub open spec fn is_reduction(reduction: Reduction, given: Interference) -> bool {
    &&& reduction.merged.wf()
    &&& reduction.merged.size() == given.size()
    &&& is_alias(reduction.alias@, given.size())
    &&& carries(given, reduction.merged.adjacent@, reduction.alias@)
    &&& reduction.order@.no_duplicates()
    &&& forall|i: int|
        0 <= i < reduction.order@.len() ==> REGISTER_COUNT <= #[trigger] reduction.order@[i]
            < given.size() && reduction.alias@[reduction.order@[i] as int]
            == reduction.order@[i]
    &&& forall|x: int|
        REGISTER_COUNT <= x < given.size() && #[trigger] reduction.alias@[x] == x
            ==> holds_node(reduction.order@, x)
}

/// The moves of the first `nodes` nodes of a flow graph.
pub open spec fn pairs_before(graph: FlowGraph, nodes: int) -> Seq<MovePair>
    decreases nodes,
{
    if nodes <= 0 {
        Seq::empty()
    } else if graph.moves@[nodes - 1] && graph.defs@[nodes - 1]@.len() > 0 && graph.uses@[nodes
        - 1]@.len() > 0 {
        pairs_before(graph, nodes - 1).push(
            MovePair {
                destination: graph.defs@[nodes - 1]@[0].num,
                source: graph.uses@[nodes - 1]@[0].num,
            },
        )
    } else {
        pairs_before(graph, nodes - 1)
    }
}

/// The moves of a flow graph, in the order of the nodes.
pub fn move_pairs(graph: &FlowGraph) -> (pairs: Vec<MovePair>)
    requires
        graph.wf(),
    ensures
        pairs@ == pairs_before(*graph, graph.len() as int),
{
    let mut pairs: Vec<MovePair> = Vec::new();
    let mut node: usize = 0;
    while node < graph.moves.len()
        invariant
            graph.wf(),
            node <= graph.len(),
            pairs@ == pairs_before(*graph, node as int),
        decreases graph.moves.len() - node,
    {
        if graph.moves[node] && graph.defs[node].len() > 0 && graph.uses[node].len() > 0 {
            pairs.push(
                MovePair { destination: graph.defs[node][0].num, source: graph.uses[node][0].num },
            );
        }
        node += 1;
    }
    pairs
}

fn copy_marks(row: &Vec<bool>) -> (copy: Vec<bool>)
    ensures
        copy@ == row@,
{
    let mut copy: Vec<bool> = Vec::new();
    let mut index: usize = 0;
    while index < row.len()
        invariant
            index <= row.len(),
            copy@ == row@.take(index as int),
        decreases row.len() - index,
    {
        copy.push(row[index]);
        assert(copy@ =~= row@.take(index + 1));
        index += 1;
    }
    assert(row@.take(row.len() as int) =~= row@);
    copy
}

fn copy_matrix(matrix: &Vec<Vec<bool>>) -> (copy: Vec<Vec<bool>>)
    ensures
        copy@.len() == matrix@.len(),
        forall|row: int| 0 <= row < matrix@.len() ==> (#[trigger] copy@[row])@ == matrix@[row]@,
{
    let mut copy: Vec<Vec<bool>> = Vec::new();
    let mut index: usize = 0;
    while index < matrix.len()
        invariant
            index <= matrix.len(),
            copy@.len() == index,
            forall|row: int| 0 <= row < index ==> (#[trigger] copy@[row])@ == matrix@[row]@,
        decreases matrix.len() - index,
    {
        copy.push(copy_marks(&matrix[index]));
        index += 1;
    }
    copy
}

/// Makes `from` one with `into`: every neighbour of `from` becomes a
/// neighbour of `into`, whatever stood for `from` stands for `into`, and
/// `from` is gone.
fn merge(
    merged: &mut Vec<Vec<bool>>,
    alias: &mut Vec<usize>,
    removed: &mut Vec<bool>,
    into: usize,
    from: usize,
    Ghost(given): Ghost<Interference>,
    Ghost(order): Ghost<Seq<usize>>,
)
    requires
        reducing(given, old(merged)@, old(alias)@, old(removed)@, order),
        REGISTER_COUNT <= from < given.size(),
        into < given.size(),
        from != into,
        !old(removed)@[from as int],
        old(alias)@[into as int] == into,
        into < REGISTER_COUNT ==> is_free_register(into as int),
        into >= REGISTER_COUNT ==> !old(removed)@[into as int],
        !old(merged)@[from as int]@[into as int],
    ensures
        reducing(given, final(merged)@, final(alias)@, final(removed)@, order),
        final(removed)@ == old(removed)@.update(from as int, true),
        unvisited(final(removed)@) + 1 == unvisited(old(removed)@),
        rows(final(merged)@) == joined_rows(rows(old(merged)@), into as int, from as int),
        final(alias)@ == joined_alias(old(alias)@, into, from),
{
    proof {
        lemma_visit(removed@, from as int);
    }
    let size = merged.len();
    let ghost before = merged@;
    let ghost stood = alias@;
    let mut other: usize = 0;
    while other < size
        invariant
            size == given.size(),
            size == before.len(),
            is_graph(before),
            from < size,
            into < size,
            from != into,
            !before[from as int]@[into as int],
            other <= size,
            is_square(merged@, size as nat),
            forall|x: int, y: int|
                0 <= x < size && 0 <= y < size ==> #[trigger] merged@[x]@[y] == (before[x]@[y] || (x
                    == into && y < other && before[from as int]@[y]) || (y == into && x < other
                    && before[from as int]@[x])),
        decreases size - other,
    {
        assert(merged@[from as int]@[other as int] == before[from as int]@[other as int]) by {
            assert(before[from as int]@[into as int] == before[into as int]@[from as int]);
        }
        assert(merged@[from as int]@.len() == size);
        if merged[from][other] {
            mark(merged, into, other);
            mark(merged, other, into);
        }
        other += 1;
    }
    assert(is_graph(merged@)) by {
        assert forall|a: int, b: int| 0 <= a < size && 0 <= b < size implies #[trigger] merged@[a]@[b]
            == merged@[b]@[a] by {
            assert(before[a]@[b] == before[b]@[a]);
        }
        assert forall|a: int| 0 <= a < size implies !(#[trigger] merged@[a])@[a] by {
            assert(!before[a]@[a]);
        }
    }
    let mut index: usize = 0;
    while index < size
        invariant
            size == stood.len(),
            alias@.len() == size,
            index <= size,
            into < size,
            forall|x: int|
                0 <= x < size ==> #[trigger] alias@[x] == if x < index && stood[x] == from {
                    into
                } else {
                    stood[x]
                },
        decreases size - index,
    {
        if alias[index] == from {
            alias.set(index, into);
        }
        index += 1;
    }
    removed.set(from, true);
    proof {
        assert(rows(merged@) =~~= joined_rows(rows(before), into as int, from as int));
        assert(alias@ =~= joined_alias(stood, into, from));
        assert(stood[from as int] == from);
        assert forall|x: int| 0 <= x < size implies alias@[#[trigger] alias@[x] as int]
            == alias@[x] by {
            assert(stood[stood[x] as int] == stood[x]);
        }
        assert forall|x: int|
            REGISTER_COUNT <= x < size && #[trigger] alias@[x] < REGISTER_COUNT implies is_free_register(
            alias@[x] as int,
        ) by {
            if stood[x] != from {
                assert(stood[x] < REGISTER_COUNT ==> is_free_register(stood[x] as int));
            }
        }
        assert forall|a: int, b: int|
            0 <= a < size && 0 <= b < size && #[trigger] given.edge(a, b) implies alias@[a]
            != alias@[b] && merged@[alias@[a] as int]@[alias@[b] as int] by {
            let first = stood[a] as int;
            let second = stood[b] as int;
            assert(first != second && before[first]@[second]);
            assert(before[first]@[second] == before[second]@[first]);
            assert(stood[first] == first && stood[second] == second);
        }
        assert forall|x: int|
            REGISTER_COUNT <= x < size && #[trigger] alias@[x] != x implies removed@[x] by {
            if x != from {
                assert(stood[x] != x);
            }
        }
        assert forall|i: int| 0 <= i < order.len() implies REGISTER_COUNT <= #[trigger] order[i]
            < size && alias@[order[i] as int] == order[i] && removed@[order[i] as int] by {
            assert(old(removed)@[order[i] as int]);
        }
        assert forall|x: int|
            REGISTER_COUNT <= x < size && #[trigger] removed@[x] && alias@[x] == x implies holds_node(
            order,
            x,
        ) by {
            assert(x != from);
            assert(old(removed)@[x] && stood[x] == x);
        }
    }
}

/// The rows of a matrix of marks.
pub open spec fn rows(matrix: Seq<Vec<bool>>) -> Seq<Seq<bool>> {
    Seq::new(matrix.len(), |x: int| matrix[x]@)
}

/// Whether a temporary is still in the graph. Registers never leave.
pub open spec fn stays(removed: Seq<bool>, other: int) -> bool {
    other < REGISTER_COUNT || !removed[other]
}

/// The number of the first `count` temporaries that are marked in the row
/// and still in the graph.
pub open spec fn neighbours_left(row: Seq<bool>, removed: Seq<bool>, count: int) -> nat
    decreases count,
{
    if count <= 0 {
        0
    } else {
        neighbours_left(row, removed, count - 1) + if row[count - 1] && stays(removed, count - 1) {
            1nat
        } else {
            0nat
        }
    }
}

/// The number of neighbours of a temporary that are still in the graph.
fn degree_left(merged: &Vec<Vec<bool>>, removed: &Vec<bool>, temp: usize) -> (degree: usize)
    requires
        is_square(merged@, merged@.len()),
        removed@.len() == merged@.len(),
        temp < merged@.len(),
    ensures
        degree == neighbours_left(merged@[temp as int]@, removed@, merged@.len() as int),
{
    let row = &merged[temp];
    let mut degree: usize = 0;
    let mut other: usize = 0;
    while other < row.len()
        invariant
            other <= row@.len(),
            degree <= other,
            row@.len() == removed@.len(),
            degree == neighbours_left(row@, removed@, other as int),
        decreases row.len() - other,
    {
        if row[other] && (other < REGISTER_COUNT || !removed[other]) {
            degree += 1;
        }
        other += 1;
    }
    degree
}

/// Whether a temporary has significant degree: it is a register, or it is
/// still in the graph with as many neighbours as there are registers to
/// hand out, or more.
pub open spec fn is_significant(removed: Seq<bool>, degrees: Seq<usize>, other: int) -> bool {
    other < REGISTER_COUNT || (!removed[other] && degrees[other] >= COLOURS)
}

/// The number of the first `count` temporaries that are neighbours of one
/// of two temporaries and have significant degree.
pub open spec fn significant_neighbours(
    first: Seq<bool>,
    second: Seq<bool>,
    removed: Seq<bool>,
    degrees: Seq<usize>,
    count: int,
) -> nat
    decreases count,
{
    if count <= 0 {
        0
    } else {
        significant_neighbours(first, second, removed, degrees, count - 1) + if (first[count - 1]
            || second[count - 1]) && is_significant(removed, degrees, count - 1) {
            1nat
        } else {
            0nat
        }
    }
}

/// The test of Briggs: the two temporaries together have fewer neighbours
/// of significant degree than there are registers to hand out.
fn briggs(
    merged: &Vec<Vec<bool>>,
    removed: &Vec<bool>,
    degrees: &Vec<usize>,
    first: usize,
    second: usize,
) -> (safe: bool)
    requires
        is_square(merged@, merged@.len()),
        removed@.len() == merged@.len(),
        degrees@.len() == merged@.len(),
        first < merged@.len(),
        second < merged@.len(),
    ensures
        safe == (significant_neighbours(
            merged@[first as int]@,
            merged@[second as int]@,
            removed@,
            degrees@,
            merged@.len() as int,
        ) < COLOURS),
{
    let size = merged.len();
    let mut significant: usize = 0;
    let mut other: usize = 0;
    while other < size
        invariant
            size == merged@.len(),
            is_square(merged@, merged@.len()),
            removed@.len() == size,
            degrees@.len() == size,
            first < size,
            second < size,
            other <= size,
            significant <= other,
            significant == significant_neighbours(
                merged@[first as int]@,
                merged@[second as int]@,
                removed@,
                degrees@,
                other as int,
            ),
        decreases size - other,
    {
        assert(merged@[first as int]@.len() == size);
        assert(merged@[second as int]@.len() == size);
        if (merged[first][other] || merged[second][other]) && (other < REGISTER_COUNT || (
        !removed[other] && degrees[other] >= COLOURS)) {
            significant += 1;
        }
        other += 1;
    }
    significant < COLOURS
}

/// Whether a temporary does not stand in the way of making `temp` one with
/// a register: it is no neighbour of `temp` that is still in the graph, or
/// it is a register, or it interferes with the register already, or it
/// has insignificant degree.
pub open spec fn george_fine(
    merged: Seq<Seq<bool>>,
    removed: Seq<bool>,
    degrees: Seq<usize>,
    register: int,
    temp: int,
    other: int,
) -> bool {
    !(merged[temp][other] && stays(removed, other)) || other < REGISTER_COUNT
        || merged[other][register] || degrees[other] < COLOURS
}

/// The test of George: every neighbour of the temporary already
/// interferes with the register, or has insignificant degree.
fn george(
    merged: &Vec<Vec<bool>>,
    removed: &Vec<bool>,
    degrees: &Vec<usize>,
    register: usize,
    temp: usize,
) -> (safe: bool)
    requires
        is_square(merged@, merged@.len()),
        removed@.len() == merged@.len(),
        degrees@.len() == merged@.len(),
        register < merged@.len(),
        temp < merged@.len(),
    ensures
        safe == forall|other: int|
            0 <= other < merged@.len() ==> #[trigger] george_fine(
                rows(merged@),
                removed@,
                degrees@,
                register as int,
                temp as int,
                other,
            ),
{
    let size = merged.len();
    let mut other: usize = 0;
    while other < size
        invariant
            size == merged@.len(),
            is_square(merged@, merged@.len()),
            removed@.len() == size,
            degrees@.len() == size,
            register < size,
            temp < size,
            other <= size,
            forall|seen: int|
                0 <= seen < other ==> #[trigger] george_fine(
                    rows(merged@),
                    removed@,
                    degrees@,
                    register as int,
                    temp as int,
                    seen,
                ),
        decreases size - other,
    {
        assert(merged@[temp as int]@.len() == size);
        assert(merged@[other as int]@.len() == size);
        if merged[temp][other] && (other < REGISTER_COUNT || !removed[other]) {
            let fine = other < REGISTER_COUNT || merged[other][register] || degrees[other]
                < COLOURS;
            if !fine {
                assert(!george_fine(
                    rows(merged@),
                    removed@,
                    degrees@,
                    register as int,
                    temp as int,
                    other as int,
                ));
                return false;
            }
        }
        other += 1;
    }
    true
}

/// Lowers the degree of every temporary that is marked in the row by one,
/// but not below zero.
fn lowered(degrees: &mut Vec<usize>, row: &Vec<bool>)
    requires
        old(degrees)@.len() == row@.len(),
    ensures
        final(degrees)@.len() == old(degrees)@.len(),
        forall|other: int|
            0 <= other < row@.len() ==> #[trigger] final(degrees)@[other] == if row@[other] && old(
                degrees,
            )@[other] > 0 {
                (old(degrees)@[other] - 1) as usize
            } else {
                old(degrees)@[other]
            },
{
    let mut other: usize = 0;
    while other < row.len()
        invariant
            other <= row@.len(),
            degrees@.len() == row@.len(),
            forall|seen: int|
                0 <= seen < other ==> #[trigger] degrees@[seen] == if row@[seen] && old(
                    degrees,
                )@[seen] > 0 {
                    (old(degrees)@[seen] - 1) as usize
                } else {
                    old(degrees)@[seen]
                },
            forall|later: int|
                other <= later < row@.len() ==> #[trigger] degrees@[later] == old(degrees)@[later],
        decreases row.len() - other,
    {
        if row[other] && degrees[other] > 0 {
            let less = degrees[other] - 1;
            degrees.set(other, less);
        }
        other += 1;
    }
}

/// Counts anew the neighbours left of a temporary and of each of its
/// neighbours.
fn recount(merged: &Vec<Vec<bool>>, removed: &Vec<bool>, degrees: &mut Vec<usize>, around: usize)
    requires
        is_square(merged@, merged@.len()),
        removed@.len() == merged@.len(),
        old(degrees)@.len() == merged@.len(),
        around < merged@.len(),
    ensures
        final(degrees)@.len() == old(degrees)@.len(),
        forall|other: int|
            0 <= other < merged@.len() ==> #[trigger] final(degrees)@[other] == if merged@[around as int]@[other]
                || other == around {
                neighbours_left(merged@[other]@, removed@, merged@.len() as int) as usize
            } else {
                old(degrees)@[other]
            },
{
    let size = merged.len();
    let mut other: usize = 0;
    while other < size
        invariant
            size == merged@.len(),
            is_square(merged@, merged@.len()),
            removed@.len() == size,
            degrees@.len() == size,
            around < size,
            other <= size,
            forall|seen: int|
                0 <= seen < other ==> #[trigger] degrees@[seen] == if merged@[around as int]@[seen]
                    || seen == around {
                    neighbours_left(merged@[seen]@, removed@, size as int) as usize
                } else {
                    old(degrees)@[seen]
                },
            forall|later: int|
                other <= later < size ==> #[trigger] degrees@[later] == old(degrees)@[later],
        decreases size - other,
    {
        assert(merged@[around as int]@.len() == size);
        if merged[around][other] || other == around {
            let degree = degree_left(merged, removed, other);
            degrees.set(other, degree);
        }
        other += 1;
    }
}

/// Whether one of the first `count` moves has not been given up and has
/// the temporary, or one that it stands for, at an end.
pub open spec fn related_among(
    moves: Seq<MovePair>,
    settled: Seq<bool>,
    alias: Seq<usize>,
    count: int,
    temp: int,
) -> bool {
    exists|i: int|
        0 <= i < count && i < moves.len() && !settled[i] && (#[trigger] moves[i]).destination
            < alias.len() && moves[i].source < alias.len() && (alias[moves[i].destination as int]
            == temp || alias[moves[i].source as int] == temp)
}

/// For each temporary, whether a move that has not been given up has it
/// at one end.
fn related_marks(moves: &Vec<MovePair>, settled: &Vec<bool>, alias: &Vec<usize>) -> (related: Vec<
    bool,
>)
    requires
        settled@.len() == moves@.len(),
        forall|x: int| 0 <= x < alias@.len() ==> #[trigger] alias@[x] < alias@.len(),
    ensures
        related@.len() == alias@.len(),
        forall|temp: int|
            0 <= temp < alias@.len() ==> #[trigger] related@[temp] == related_among(
                moves@,
                settled@,
                alias@,
                moves@.len() as int,
                temp,
            ),
{
    let mut related = unmarked(alias.len());
    let mut index: usize = 0;
    assert forall|temp: int| 0 <= temp < alias@.len() implies #[trigger] related@[temp]
        == related_among(moves@, settled@, alias@, 0, temp) by {}
    while index < moves.len()
        invariant
            index <= moves@.len(),
            settled@.len() == moves@.len(),
            related@.len() == alias@.len(),
            forall|x: int| 0 <= x < alias@.len() ==> #[trigger] alias@[x] < alias@.len(),
            forall|temp: int|
                0 <= temp < alias@.len() ==> #[trigger] related@[temp] == related_among(
                    moves@,
                    settled@,
                    alias@,
                    index as int,
                    temp,
                ),
        decreases moves.len() - index,
    {
        let pair = moves[index];
        let ghost before = related@;
        let active = !settled[index] && pair.destination < alias.len() && pair.source
            < alias.len();
        if active {
            related.set(alias[pair.destination], true);
            related.set(alias[pair.source], true);
        }
        assert forall|temp: int| 0 <= temp < alias@.len() implies #[trigger] related@[temp]
            == related_among(moves@, settled@, alias@, index + 1, temp) by {
            assert(before[temp] == related_among(moves@, settled@, alias@, index as int, temp));
            if related_among(moves@, settled@, alias@, index + 1, temp) {
                let i = choose|i: int|
                    0 <= i < index + 1 && i < moves@.len() && !settled@[i] && (
                    #[trigger] moves@[i]).destination < alias@.len() && moves@[i].source
                        < alias@.len() && (alias@[moves@[i].destination as int] == temp
                        || alias@[moves@[i].source as int] == temp);
                if i < index {
                    assert(related_among(moves@, settled@, alias@, index as int, temp));
                }
            }
            if related_among(moves@, settled@, alias@, index as int, temp) {
                let i = choose|i: int|
                    0 <= i < index && i < moves@.len() && !settled@[i] && (
                    #[trigger] moves@[i]).destination < alias@.len() && moves@[i].source
                        < alias@.len() && (alias@[moves@[i].destination as int] == temp
                        || alias@[moves@[i].source as int] == temp);
                assert(related_among(moves@, settled@, alias@, index + 1, temp));
            }
            if active && (alias@[pair.destination as int] == temp || alias@[pair.source as int]
                == temp) {
                assert(moves@[index as int] == pair);
                assert(related_among(moves@, settled@, alias@, index + 1, temp));
            }
        }
        index += 1;
    }
    related
}

/// The graph while temporaries leave it: the merged matrix, for each
/// temporary the one that stands for it, which temporaries have left,
/// the number of neighbours that each has left, which moves have been
/// given up or carried out, and the order in which temporaries left.
pub struct Working {
    pub merged: Seq<Seq<bool>>,
    pub alias: Seq<usize>,
    pub removed: Seq<bool>,
    pub degrees: Seq<usize>,
    pub settled: Seq<bool>,
    pub order: Seq<usize>,
}

/// What is decided of a move: it can never be carried out, its ends are
/// made one, or it has to wait.
pub enum Verdict {
    GiveUp,
    Merge { into: usize, from: usize },
    Wait,
}

/// The graph as the parts that the code holds.
pub open spec fn state_of(
    merged: Seq<Vec<bool>>,
    alias: Seq<usize>,
    removed: Seq<bool>,
    degrees: Seq<usize>,
    settled: Seq<bool>,
    order: Seq<usize>,
) -> Working {
    Working { merged: rows(merged), alias, removed, degrees, settled, order }
}

/// The graph at the start: every temporary stands for itself, the
/// registers count as gone, and no move has been looked at.
pub open spec fn started(graph: Seq<Seq<bool>>, moves: Seq<MovePair>) -> Working {
    Working {
        merged: graph,
        alias: Seq::new(graph.len(), |x: int| x as usize),
        removed: Seq::new(graph.len(), |x: int| x < REGISTER_COUNT),
        degrees: Seq::new(graph.len(), |x: int| count_true(graph[x]) as usize),
        settled: Seq::new(moves.len(), |i: int| false),
        order: Seq::empty(),
    }
}

/// Whether a move that has not been settled has the temporary at an end.
pub open spec fn is_related(state: Working, moves: Seq<MovePair>, temp: int) -> bool {
    related_among(moves, state.settled, state.alias, moves.len() as int, temp)
}

/// The first temporary from `from` on that is still in the graph, has
/// insignificant degree and is at the end of a move or not, as wanted.
pub open spec fn first_low(state: Working, moves: Seq<MovePair>, wanted: bool, from: int) -> Option<
    usize,
>
    decreases state.removed.len() - from,
{
    if from < 0 || from >= state.removed.len() {
        None
    } else if !state.removed[from] && state.degrees[from] < COLOURS && is_related(
        state,
        moves,
        from,
    ) == wanted {
        Some(from as usize)
    } else {
        first_low(state, moves, wanted, from + 1)
    }
}

/// The cost of spilling a temporary; nothing where none is given.
pub open spec fn cost_of(costs: Seq<u64>, temp: int) -> u64 {
    if 0 <= temp < costs.len() {
        costs[temp]
    } else {
        0
    }
}

/// The temporary below `count` that is still in the graph and cheapest to
/// spill for each neighbour that it has left: a later one is taken only
/// where it is cheaper than the one that was taken before it.
pub open spec fn cheapest_among(state: Working, costs: Seq<u64>, count: int) -> Option<usize>
    decreases count,
{
    if count <= REGISTER_COUNT {
        None
    } else {
        let before = cheapest_among(state, costs, count - 1);
        let temp = count - 1;
        if temp >= state.removed.len() || state.removed[temp] {
            before
        } else {
            match before {
                None => Some(temp as usize),
                Some(chosen) => if cheaper(
                    cost_of(costs, temp),
                    state.degrees[temp],
                    cost_of(costs, chosen as int),
                    state.degrees[chosen as int],
                ) {
                    Some(temp as usize)
                } else {
                    Some(chosen)
                },
            }
        }
    }
}

/// The degrees after a temporary with the given row has left: each of its
/// neighbours has one neighbour less.
pub open spec fn lowered_by(degrees: Seq<usize>, row: Seq<bool>) -> Seq<usize> {
    Seq::new(
        degrees.len(),
        |other: int|
            if row[other] && degrees[other] > 0 {
                (degrees[other] - 1) as usize
            } else {
                degrees[other]
            },
    )
}

/// The graph after a temporary has left it.
pub open spec fn left(state: Working, temp: usize) -> Working {
    Working {
        removed: state.removed.update(temp as int, true),
        order: state.order.push(temp),
        degrees: lowered_by(state.degrees, state.merged[temp as int]),
        ..state
    }
}

/// The matrix after `from` was made one with `into`: every neighbour of
/// `from` is a neighbour of `into`.
pub open spec fn joined_rows(merged: Seq<Seq<bool>>, into: int, from: int) -> Seq<Seq<bool>> {
    Seq::new(
        merged.len(),
        |x: int|
            Seq::new(
                merged.len(),
                |y: int|
                    merged[x][y] || (x == into && merged[from][y]) || (y == into
                        && merged[from][x]),
            ),
    )
}

/// What stands for each temporary after `from` was made one with `into`.
pub open spec fn joined_alias(alias: Seq<usize>, into: usize, from: usize) -> Seq<usize> {
    Seq::new(
        alias.len(),
        |x: int|
            if alias[x] == from {
                into
            } else {
                alias[x]
            },
    )
}

/// The degrees after the neighbours left of `around` and of each of its
/// neighbours have been counted anew.
pub open spec fn recounted(
    merged: Seq<Seq<bool>>,
    removed: Seq<bool>,
    degrees: Seq<usize>,
    around: int,
) -> Seq<usize> {
    Seq::new(
        degrees.len(),
        |other: int|
            if merged[around][other] || other == around {
                neighbours_left(merged[other], removed, merged.len() as int) as usize
            } else {
                degrees[other]
            },
    )
}

/// The graph after `from` was made one with `into`.
pub open spec fn joined(state: Working, into: usize, from: usize) -> Working {
    let merged = joined_rows(state.merged, into as int, from as int);
    let removed = state.removed.update(from as int, true);
    Working {
        merged,
        alias: joined_alias(state.alias, into, from),
        removed,
        degrees: recounted(merged, removed, state.degrees, into as int),
        ..state
    }
}

/// The graph with one more move settled.
pub open spec fn settled_at(state: Working, index: int) -> Working {
    Working { settled: state.settled.update(index, true), ..state }
}

/// The test of George on the graph: every neighbour of the temporary
/// that is left already interferes with the register or has
/// insignificant degree.
pub open spec fn george_safe(state: Working, register: usize, temp: usize) -> bool {
    forall|other: int|
        0 <= other < state.merged.len() ==> #[trigger] george_fine(
            state.merged,
            state.removed,
            state.degrees,
            register as int,
            temp as int,
            other,
        )
}

/// The test of Briggs on the graph: the two temporaries together have
/// fewer neighbours of significant degree than there are registers to
/// hand out.
pub open spec fn briggs_safe(state: Working, first: usize, second: usize) -> bool {
    significant_neighbours(
        state.merged[first as int],
        state.merged[second as int],
        state.removed,
        state.degrees,
        state.merged.len() as int,
    ) < COLOURS
}

/// What is decided of a move. It is given up where an end is no
/// temporary of the graph; where both ends stand for the same temporary,
/// or for two registers; where one has left the graph; where it would be
/// made one with the stack or the frame pointer; or where the two
/// interfere. Otherwise `from`, which is no register, is made one with
/// `into` if the test of George (where `into` is a register) or of Briggs
/// says so; if not, the move waits.
pub open spec fn judged(state: Working, pair: MovePair) -> Verdict {
    let size = state.merged.len();
    if pair.destination >= size || pair.source >= size {
        Verdict::GiveUp
    } else {
        let first = state.alias[pair.destination as int];
        let second = state.alias[pair.source as int];
        let into = if second < REGISTER_COUNT {
            second
        } else {
            first
        };
        let from = if second < REGISTER_COUNT {
            first
        } else {
            second
        };
        if into == from || from < REGISTER_COUNT || state.removed[from as int] || (into
            >= REGISTER_COUNT && state.removed[into as int]) || (into < REGISTER_COUNT && (into
            == RSP || into == RBP)) || state.merged[from as int][into as int] {
            Verdict::GiveUp
        } else if if into < REGISTER_COUNT {
            george_safe(state, into, from)
        } else {
            briggs_safe(state, into, from)
        } {
            Verdict::Merge { into, from }
        } else {
            Verdict::Wait
        }
    }
}

/// The first move from `from` on that is not settled and does not have
/// to wait, with what is decided of it.
pub open spec fn first_move(state: Working, moves: Seq<MovePair>, from: int) -> Option<
    (int, Verdict),
>
    decreases moves.len() - from,
{
    if from < 0 || from >= moves.len() {
        None
    } else if !state.settled[from] && judged(state, moves[from]) != Verdict::Wait {
        Some((from, judged(state, moves[from])))
    } else {
        first_move(state, moves, from + 1)
    }
}

/// The graph after a move was settled as decided.
pub open spec fn moved(state: Working, index: int, verdict: Verdict) -> Working {
    match verdict {
        Verdict::GiveUp => settled_at(state, index),
        Verdict::Merge { into, from } => settled_at(joined(state, into, from), index),
        Verdict::Wait => state,
    }
}

/// The first move from `from` on that is not settled and has the
/// temporary at an end.
pub open spec fn first_move_of(
    moves: Seq<MovePair>,
    settled: Seq<bool>,
    alias: Seq<usize>,
    chosen: usize,
    from: int,
) -> Option<int>
    decreases moves.len() - from,
{
    if from < 0 || from >= moves.len() {
        None
    } else if !settled[from] && moves[from].destination < alias.len() && moves[from].source
        < alias.len() && (alias[moves[from].destination as int] == chosen
        || alias[moves[from].source as int] == chosen) {
        Some(from)
    } else {
        first_move_of(moves, settled, alias, chosen, from + 1)
    }
}

/// One round of the reduction, or `None` when every temporary has left
/// the graph. The first of these is done that can be: the first
/// temporary of insignificant degree that no move has at an end leaves
/// the graph; the first move that need not wait is settled; the first
/// move at the first temporary of insignificant degree is given up, or
/// that temporary leaves if there is none; the temporary that is cheapest
/// to spill leaves the graph.
pub open spec fn stepped(state: Working, moves: Seq<MovePair>, costs: Seq<u64>) -> Option<Working> {
    match first_low(state, moves, false, REGISTER_COUNT as int) {
        Some(chosen) => Some(left(state, chosen)),
        None => match first_move(state, moves, 0) {
            Some((index, verdict)) => Some(moved(state, index, verdict)),
            None => match first_low(state, moves, true, REGISTER_COUNT as int) {
                Some(chosen) => match first_move_of(
                    moves,
                    state.settled,
                    state.alias,
                    chosen,
                    0,
                ) {
                    Some(index) => Some(settled_at(state, index)),
                    None => Some(left(state, chosen)),
                },
                None => match cheapest_among(state, costs, state.removed.len() as int) {
                    Some(chosen) => Some(left(state, chosen)),
                    None => None,
                },
            },
        },
    }
}

/// The graph after at most `fuel` rounds.
pub open spec fn reduced_from(state: Working, moves: Seq<MovePair>, costs: Seq<u64>, fuel: nat) -> Working
    decreases fuel,
{
    if fuel == 0 {
        state
    } else {
        match stepped(state, moves, costs) {
            None => state,
            Some(next) => reduced_from(next, moves, costs, (fuel - 1) as nat),
        }
    }
}

/// What is left of a graph when every temporary has left it. Each round
/// takes a temporary out of the graph or settles a move, so that there
/// are no more rounds than temporaries and moves.
pub open spec fn reduced(graph: Seq<Seq<bool>>, moves: Seq<MovePair>, costs: Seq<u64>) -> Working {
    reduced_from(started(graph, moves), moves, costs, graph.len() + moves.len() + 1)
}

/// Whether the reduction is what the rounds leave of the graph, with the
/// given moves and costs of spilling.
pub open spec fn reduces(
    reduction: Reduction,
    given: Interference,
    moves: Seq<MovePair>,
    costs: Seq<u64>,
) -> bool {
    let end = reduced(rows(given.adjacent@), moves, costs);
    &&& rows(reduction.merged.adjacent@) == end.merged
    &&& reduction.alias@ == end.alias
    &&& reduction.order@ == end.order
}

/// Looks for the temporaries that a round may act on.
fn scan(
    removed: &Vec<bool>,
    degrees: &Vec<usize>,
    related: &Vec<bool>,
    costs: &Vec<u64>,
    Ghost(state): Ghost<Working>,
    Ghost(moves): Ghost<Seq<MovePair>>,
) -> (found: (Option<usize>, Option<usize>, Option<usize>))
    requires
        state.removed == removed@,
        state.degrees == degrees@,
        degrees@.len() == removed@.len(),
        related@.len() == removed@.len(),
        forall|temp: int|
            0 <= temp < removed@.len() ==> #[trigger] related@[temp] == is_related(
                state,
                moves,
                temp,
            ),
    ensures
        found.0 == first_low(state, moves, false, REGISTER_COUNT as int),
        found.1 == first_low(state, moves, true, REGISTER_COUNT as int),
        found.2 == cheapest_among(state, costs@, removed@.len() as int),
        found.0 matches Some(chosen) ==> REGISTER_COUNT <= chosen < removed@.len()
            && !removed@[chosen as int],
        found.1 matches Some(chosen) ==> REGISTER_COUNT <= chosen < removed@.len()
            && !removed@[chosen as int],
        found.2 matches Some(chosen) ==> REGISTER_COUNT <= chosen < removed@.len()
            && !removed@[chosen as int],
        found.2 is None ==> forall|x: int|
            REGISTER_COUNT <= x < removed@.len() ==> #[trigger] removed@[x],
{
    let size = removed.len();
    let mut leaving: Option<usize> = None;
    let mut frozen: Option<usize> = None;
    let mut cheapest: Option<usize> = None;
    let mut temp: usize = REGISTER_COUNT;
    while temp < size
        invariant
            size == removed@.len(),
            size == degrees@.len(),
            size == related@.len(),
            state.removed == removed@,
            state.degrees == degrees@,
            forall|temp: int|
                0 <= temp < removed@.len() ==> #[trigger] related@[temp] == is_related(
                    state,
                    moves,
                    temp,
                ),
            REGISTER_COUNT <= temp,
            temp <= size || temp == REGISTER_COUNT,
            first_low(state, moves, false, REGISTER_COUNT as int) == if leaving is Some {
                leaving
            } else {
                first_low(state, moves, false, temp as int)
            },
            first_low(state, moves, true, REGISTER_COUNT as int) == if frozen is Some {
                frozen
            } else {
                first_low(state, moves, true, temp as int)
            },
            cheapest == cheapest_among(state, costs@, temp as int),
            leaving matches Some(chosen) ==> REGISTER_COUNT <= chosen < size
                && !removed@[chosen as int],
            frozen matches Some(chosen) ==> REGISTER_COUNT <= chosen < size
                && !removed@[chosen as int],
            cheapest matches Some(chosen) ==> REGISTER_COUNT <= chosen < size
                && !removed@[chosen as int],
            cheapest is None ==> forall|x: int|
                REGISTER_COUNT <= x < temp && x < size ==> #[trigger] removed@[x],
        decreases size - temp,
    {
        if !removed[temp] {
            if degrees[temp] < COLOURS {
                if !related[temp] {
                    if leaving.is_none() {
                        leaving = Some(temp);
                    }
                } else if frozen.is_none() {
                    frozen = Some(temp);
                }
            }
            cheapest = match cheapest {
                None => Some(temp),
                Some(chosen) => {
                    let cost = if temp < costs.len() {
                        costs[temp]
                    } else {
                        0
                    };
                    let chosen_cost = if chosen < costs.len() {
                        costs[chosen]
                    } else {
                        0
                    };
                    if is_cheaper(cost, degrees[temp], chosen_cost, degrees[chosen]) {
                        Some(temp)
                    } else {
                        Some(chosen)
                    }
                },
            };
        }
        temp += 1;
    }
    (leaving, frozen, cheapest)
}

/// Settles the first move that need not wait: gives it up, or makes its
/// ends one. Returns whether there was one.
fn settle_move(
    merged: &mut Vec<Vec<bool>>,
    alias: &mut Vec<usize>,
    removed: &mut Vec<bool>,
    degrees: &mut Vec<usize>,
    settled: &mut Vec<bool>,
    moves: &Vec<MovePair>,
    Ghost(given): Ghost<Interference>,
    Ghost(order): Ghost<Seq<usize>>,
) -> (acted: bool)
    requires
        given.wf(),
        reducing(given, old(merged)@, old(alias)@, old(removed)@, order),
        old(degrees)@.len() == given.size(),
        old(settled)@.len() == moves@.len(),
    ensures
        reducing(given, final(merged)@, final(alias)@, final(removed)@, order),
        final(degrees)@.len() == given.size(),
        final(settled)@.len() == moves@.len(),
        unvisited(final(removed)@) + unvisited(final(settled)@) + (if acted {
            1nat
        } else {
            0nat
        }) <= unvisited(old(removed)@) + unvisited(old(settled)@),
        match first_move(
            state_of(
                old(merged)@,
                old(alias)@,
                old(removed)@,
                old(degrees)@,
                old(settled)@,
                order,
            ),
            moves@,
            0,
        ) {
            Some((index, verdict)) => acted && state_of(
                final(merged)@,
                final(alias)@,
                final(removed)@,
                final(degrees)@,
                final(settled)@,
                order,
            ) == moved(
                state_of(
                    old(merged)@,
                    old(alias)@,
                    old(removed)@,
                    old(degrees)@,
                    old(settled)@,
                    order,
                ),
                index,
                verdict,
            ),
            None => !acted && state_of(
                final(merged)@,
                final(alias)@,
                final(removed)@,
                final(degrees)@,
                final(settled)@,
                order,
            ) == state_of(
                old(merged)@,
                old(alias)@,
                old(removed)@,
                old(degrees)@,
                old(settled)@,
                order,
            ),
        },
{
    let size = merged.len();
    let ghost start = state_of(merged@, alias@, removed@, degrees@, settled@, order);
    let ghost measure = unvisited(removed@) + unvisited(settled@);
    let mut acted = false;
    let mut index: usize = 0;
    while index < moves.len() && !acted
        invariant
            given.wf(),
            size == given.size(),
            degrees@.len() == size,
            settled@.len() == moves@.len(),
            index <= moves@.len(),
            reducing(given, merged@, alias@, removed@, order),
            start.merged.len() == size,
            unvisited(removed@) + unvisited(settled@) + (if acted {
                1nat
            } else {
                0nat
            }) <= measure,
            !acted ==> state_of(merged@, alias@, removed@, degrees@, settled@, order) == start
                && first_move(start, moves@, 0) == first_move(start, moves@, index as int),
            acted ==> (first_move(start, moves@, 0) matches Some((at, verdict)) && state_of(
                merged@,
                alias@,
                removed@,
                degrees@,
                settled@,
                order,
            ) == moved(start, at, verdict)),
        decreases moves.len() - index + if acted {
                0nat
            } else {
                1nat
            },
    {
        if !settled[index] {
            let pair = moves[index];
            let ghost verdict = judged(start, pair);
            let mut give_up = pair.destination >= size || pair.source >= size;
            if !give_up {
                let first = alias[pair.destination];
                let second = alias[pair.source];
                let (into, from) = if second < REGISTER_COUNT {
                    (second, first)
                } else {
                    (first, second)
                };
                assert(merged@[from as int]@.len() == size);
                assert(rows(merged@)[from as int][into as int] == merged@[from as int]@[into as int]);
                if into == from || from < REGISTER_COUNT || removed[from] || (into
                    >= REGISTER_COUNT && removed[into]) || (into < REGISTER_COUNT && (into == RSP
                    || into == RBP)) || merged[from][into] {
                    give_up = true;
                } else {
                    let safe = if into < REGISTER_COUNT {
                        george(&merged, &removed, &degrees, into, from)
                    } else {
                        briggs(&merged, &removed, &degrees, into, from)
                    };
                    assert(rows(merged@)[into as int] == merged@[into as int]@);
                    assert(safe == (verdict == Verdict::Merge { into, from }));
                    if safe {
                        let ghost before = degrees@;
                        merge(merged, alias, removed, into, from, Ghost(given), Ghost(order));
                        recount(merged, removed, degrees, into);
                        proof {
                            lemma_visit(settled@, index as int);
                            assert(degrees@ =~= recounted(
                                rows(merged@),
                                removed@,
                                before,
                                into as int,
                            )) by {
                                assert forall|other: int| 0 <= other < size implies rows(
                                    merged@,
                                )[other] == merged@[other]@ by {}
                            }
                        }
                        settled.set(index, true);
                        acted = true;
                        assert(state_of(merged@, alias@, removed@, degrees@, settled@, order)
                            == moved(start, index as int, verdict));
                    } else {
                        assert(verdict == Verdict::Wait);
                    }
                }
            }
            if give_up {
                assert(verdict == Verdict::GiveUp);
                proof {
                    lemma_visit(settled@, index as int);
                }
                settled.set(index, true);
                acted = true;
                assert(state_of(merged@, alias@, removed@, degrees@, settled@, order) == moved(
                    start,
                    index as int,
                    verdict,
                ));
            }
        }
        if !acted {
            index += 1;
        }
    }
    acted
}

/// Gives up the first move that is not settled and has the temporary at
/// an end. Returns whether there was one.
fn freeze_move(settled: &mut Vec<bool>, alias: &Vec<usize>, moves: &Vec<MovePair>, chosen: usize) -> (found:
    bool)
    requires
        old(settled)@.len() == moves@.len(),
    ensures
        final(settled)@.len() == moves@.len(),
        found ==> unvisited(final(settled)@) + 1 == unvisited(old(settled)@),
        match first_move_of(moves@, old(settled)@, alias@, chosen, 0) {
            Some(index) => found && final(settled)@ == old(settled)@.update(index, true),
            None => !found && final(settled)@ == old(settled)@,
        },
{
    let size = alias.len();
    let mut found = false;
    let mut at: usize = 0;
    while at < moves.len() && !found
        invariant
            size == alias@.len(),
            settled@.len() == moves@.len(),
            at <= moves@.len(),
            !found ==> settled@ == old(settled)@ && first_move_of(
                moves@,
                old(settled)@,
                alias@,
                chosen,
                0,
            ) == first_move_of(moves@, old(settled)@, alias@, chosen, at as int),
            found ==> first_move_of(moves@, old(settled)@, alias@, chosen, 0) == Some(at as int)
                && settled@ == old(settled)@.update(at as int, true) && unvisited(settled@) + 1
                == unvisited(old(settled)@),
        decreases moves.len() - at + if found {
                0nat
            } else {
                1nat
            },
    {
        let pair = moves[at];
        if !settled[at] && pair.destination < size && pair.source < size && (
        alias[pair.destination] == chosen || alias[pair.source] == chosen) {
            proof {
                lemma_visit(settled@, at as int);
            }
            settled.set(at, true);
            found = true;
        } else {
            at += 1;
        }
    }
    found
}

/// Takes a temporary that stands for itself out of the graph.
fn leave(
    order: &mut Vec<usize>,
    removed: &mut Vec<bool>,
    temp: usize,
    Ghost(given): Ghost<Interference>,
    Ghost(merged): Ghost<Seq<Vec<bool>>>,
    Ghost(alias): Ghost<Seq<usize>>,
)
    requires
        reducing(given, merged, alias, old(removed)@, old(order)@),
        REGISTER_COUNT <= temp < given.size(),
        !old(removed)@[temp as int],
    ensures
        reducing(given, merged, alias, final(removed)@, final(order)@),
        unvisited(final(removed)@) + 1 == unvisited(old(removed)@),
        final(removed)@ == old(removed)@.update(temp as int, true),
        final(order)@ == old(order)@.push(temp),
{
    proof {
        lemma_visit(removed@, temp as int);
    }
    let ghost before = order@;
    let ghost gone = removed@;
    removed.set(temp, true);
    order.push(temp);
    proof {
        assert(alias[temp as int] == temp);
        assert forall|i: int, j: int|
            0 <= i < order@.len() && 0 <= j < order@.len() && i != j implies order@[i]
            != order@[j] by {
            if i < before.len() {
                assert(gone[before[i] as int]);
            }
            if j < before.len() {
                assert(gone[before[j] as int]);
            }
        }
        assert forall|i: int| 0 <= i < order@.len() implies REGISTER_COUNT <= #[trigger] order@[i]
            < removed@.len() && alias[order@[i] as int] == order@[i] && removed@[order@[i] as int] by {
            if i < before.len() {
                assert(order@[i] == before[i]);
                assert(gone[before[i] as int]);
            }
        }
        assert forall|x: int|
            REGISTER_COUNT <= x < removed@.len() && #[trigger] removed@[x] && alias[x]
                == x implies holds_node(order@, x) by {
            if x == temp {
                assert(order@[before.len() as int] == x);
            } else {
                assert(gone[x]);
                assert(holds_node(before, x));
                let i = choose|i: int| 0 <= i < before.len() && #[trigger] before[i] == x;
                assert(order@[i] == x);
            }
        }
    }
}

/// Takes the temporaries out of the graph. In each round the first of
/// these is done that can be: a temporary of insignificant degree that no
/// move has at an end leaves the graph; the ends of a move are made one,
/// if they do not interfere and the test of George (where one is a
/// register) or of Briggs says that this is safe; a move at a temporary of
/// insignificant degree is given up; the temporary that is cheapest to
/// spill for each neighbour it has left leaves the graph.
pub fn reduce(graph: &Interference, moves: &Vec<MovePair>, costs: &Vec<u64>) -> (reduction: Reduction)
    requires
        graph.wf(),
    ensures
        is_reduction(reduction, *graph),
        reduces(reduction, *graph, moves@, costs@),
{
    let size = graph.adjacent.len();
    let mut merged = copy_matrix(&graph.adjacent);
    let mut alias: Vec<usize> = Vec::new();
    let mut removed: Vec<bool> = Vec::new();
    let mut degrees: Vec<usize> = Vec::new();
    while alias.len() < size
        invariant
            graph.wf(),
            size == graph.size(),
            alias@.len() <= size,
            removed@.len() == alias@.len(),
            degrees@.len() == alias@.len(),
            forall|x: int| 0 <= x < alias@.len() ==> #[trigger] alias@[x] == x,
            forall|x: int| 0 <= x < removed@.len() ==> #[trigger] removed@[x] == (x
                < REGISTER_COUNT),
            forall|x: int|
                0 <= x < degrees@.len() ==> #[trigger] degrees@[x] == count_true(
                    graph.adjacent@[x]@,
                ),
        decreases size - alias.len(),
    {
        let temp = alias.len();
        alias.push(temp);
        removed.push(temp < REGISTER_COUNT);
        degrees.push(count_marks(&graph.adjacent[temp]));
    }
    let mut settled = unmarked(moves.len());
    let mut order: Vec<usize> = Vec::new();
    let mut working = true;
    assert(reducing(*graph, merged@, alias@, removed@, order@)) by {
        assert forall|a: int, b: int| 0 <= a < size && 0 <= b < size implies #[trigger] merged@[a]@[b]
            == merged@[b]@[a] by {
            assert(graph.edge(a, b) == graph.edge(b, a));
        }
        assert forall|a: int| 0 <= a < size implies !(#[trigger] merged@[a])@[a] by {
            assert(!graph.edge(a, a));
        }
        assert forall|a: int, b: int|
            0 <= a < size && 0 <= b < size && #[trigger] graph.edge(a, b) implies alias@[a]
            != alias@[b] && merged@[alias@[a] as int]@[alias@[b] as int] by {
            assert(!graph.edge(a, a));
        }
    }
    let ghost total: nat = (size + moves@.len() + 1) as nat;
    let ghost mut fuel: nat = total;
    let ghost initial = started(rows(graph.adjacent@), moves@);
    proof {
        lemma_unvisited_bound(removed@);
        lemma_unvisited_bound(settled@);
        assert(rows(merged@) =~~= rows(graph.adjacent@));
        assert(alias@ =~= initial.alias);
        assert(removed@ =~= initial.removed);
        assert(degrees@ =~= initial.degrees) by {
            assert forall|x: int| 0 <= x < size implies degrees@[x] == initial.degrees[x] by {
                assert(rows(graph.adjacent@)[x] == graph.adjacent@[x]@);
            }
        }
        assert(settled@ =~= initial.settled);
        assert(order@ =~= initial.order);
        assert(state_of(merged@, alias@, removed@, degrees@, settled@, order@) =~~= initial);
    }
    while working
        invariant
            graph.wf(),
            size == graph.size(),
            degrees@.len() == size,
            settled@.len() == moves@.len(),
            reducing(*graph, merged@, alias@, removed@, order@),
            !working ==> forall|x: int| 0 <= x < size ==> #[trigger] removed@[x],
            initial == started(rows(graph.adjacent@), moves@),
            total == size + moves@.len() + 1,
            working ==> fuel >= unvisited(removed@) + unvisited(settled@) + 1,
            reduced_from(
                state_of(merged@, alias@, removed@, degrees@, settled@, order@),
                moves@,
                costs@,
                fuel,
            ) == reduced_from(initial, moves@, costs@, total),
            !working ==> stepped(
                state_of(merged@, alias@, removed@, degrees@, settled@, order@),
                moves@,
                costs@,
            ) is None,
        decreases
                unvisited(removed@) + unvisited(settled@) + if working {
                    1nat
                } else {
                    0nat
                },
    {
        let ghost state = state_of(merged@, alias@, removed@, degrees@, settled@, order@);
        let related = related_marks(moves, &settled, &alias);
        let (leaving, frozen, cheapest) = scan(
            &removed,
            &degrees,
            &related,
            costs,
            Ghost(state),
            Ghost(moves@),
        );
        match leaving {
            Some(chosen) => {
                leave(&mut order, &mut removed, chosen, Ghost(*graph), Ghost(merged@), Ghost(alias@));
                assert(merged@[chosen as int]@.len() == size);
                let ghost before = degrees@;
                lowered(&mut degrees, &merged[chosen]);
                assert(degrees@ =~= lowered_by(before, rows(merged@)[chosen as int]));
            },
            None => {
                let acted = settle_move(
                    &mut merged,
                    &mut alias,
                    &mut removed,
                    &mut degrees,
                    &mut settled,
                    moves,
                    Ghost(*graph),
                    Ghost(order@),
                );
                if !acted {
                    match frozen {
                        Some(chosen) => {
                            let found = freeze_move(&mut settled, &alias, moves, chosen);
                            if !found {
                                leave(
                                    &mut order,
                                    &mut removed,
                                    chosen,
                                    Ghost(*graph),
                                    Ghost(merged@),
                                    Ghost(alias@),
                                );
                                assert(merged@[chosen as int]@.len() == size);
                                let ghost before = degrees@;
                                lowered(&mut degrees, &merged[chosen]);
                                assert(degrees@ =~= lowered_by(
                                    before,
                                    rows(merged@)[chosen as int],
                                ));
                            }
                        },
                        None => {
                            match cheapest {
                                Some(chosen) => {
                                    leave(
                                        &mut order,
                                        &mut removed,
                                        chosen,
                                        Ghost(*graph),
                                        Ghost(merged@),
                                        Ghost(alias@),
                                    );
                                    assert(merged@[chosen as int]@.len() == size);
                                    let ghost before = degrees@;
                                    lowered(&mut degrees, &merged[chosen]);
                                    assert(degrees@ =~= lowered_by(
                                        before,
                                        rows(merged@)[chosen as int],
                                    ));
                                },
                                None => {
                                    working = false;
                                },
                            }
                        },
                    }
                }
            },
        }
        proof {
            let now = state_of(merged@, alias@, removed@, degrees@, settled@, order@);
            if working {
                assert(stepped(state, moves@, costs@) == Some(now));
                fuel = (fuel - 1) as nat;
            } else {
                assert(stepped(state, moves@, costs@) is None);
                assert(now == state);
            }
        }
    }
    let reduction = Reduction { merged: Interference { adjacent: merged }, alias, order };
    assert(is_reduction(reduction, *graph)) by {
        assert forall|a: int, b: int|
            0 <= a < reduction.merged.size() && 0 <= b < reduction.merged.size() implies #[trigger] reduction.merged.edge(
            a,
            b,
        ) == reduction.merged.edge(b, a) by {
            assert(reduction.merged.adjacent@[a]@[b] == reduction.merged.adjacent@[b]@[a]);
        }
        assert forall|x: int|
            REGISTER_COUNT <= x < graph.size() && #[trigger] reduction.alias@[x]
                == x implies holds_node(reduction.order@, x) by {
            assert(removed@[x]);
        }
    }
    reduction
}

/// A colouring of an interference graph after coalescing: the registers
/// keep their own numbers; every other temporary has a register that may
/// be handed out, or none; two temporaries that interfere never have the
/// same register; a temporary has the register of the one that stands for
/// it; it has a register if that one is a register or has fewer
/// neighbours than there are registers to hand out; and the temporaries
/// that stand for themselves got their registers in the order opposite to
/// the one in which they left the graph, each the free register with the
/// lowest number that no neighbour of it in the merged graph had.
pub open spec fn is_colouring(
    given: Interference,
    reduction: Reduction,
    colours: Seq<Option<usize>>,
) -> bool {
    &&& colours.len() == given.size()
    &&& forall|num: int|
        0 <= num < colours.len() && num < REGISTER_COUNT ==> #[trigger] colours[num] == Some(
            num as usize,
        )
    &&& forall|num: int|
        REGISTER_COUNT <= num < colours.len() ==> (#[trigger] colours[num] matches Some(register)
            ==> is_free_register(register as int))
    &&& proper(given, colours)
    &&& forall|num: int|
        0 <= num < colours.len() ==> #[trigger] colours[num] == colours[reduction.alias@[num] as int]
    &&& forall|num: int|
        REGISTER_COUNT <= num < colours.len() && reduction.merged.degree(
            reduction.alias@[num] as int,
        ) < COLOURS ==> (#[trigger] colours[num]) is Some
    &&& forall|at: int|
        0 <= at < reduction.order@.len() ==> #[trigger] follows_rule(
            reduction.merged,
            reduction.order@,
            colours,
            at,
        )
}

/// Gives each temporary the register of the one that stands for it.
pub fn resolve(assigned: &Vec<Option<usize>>, alias: &Vec<usize>) -> (colours: Vec<Option<usize>>)
    requires
        alias@.len() == assigned@.len(),
        forall|x: int| 0 <= x < alias@.len() ==> #[trigger] alias@[x] < alias@.len(),
    ensures
        colours@.len() == assigned@.len(),
        forall|x: int|
            0 <= x < alias@.len() ==> #[trigger] colours@[x] == assigned@[alias@[x] as int],
{
    let mut colours: Vec<Option<usize>> = Vec::new();
    let mut temp: usize = 0;
    while temp < alias.len()
        invariant
            temp <= alias@.len(),
            alias@.len() == assigned@.len(),
            forall|x: int| 0 <= x < alias@.len() ==> #[trigger] alias@[x] < alias@.len(),
            colours@.len() == temp,
            forall|x: int| 0 <= x < temp ==> #[trigger] colours@[x] == assigned@[alias@[x] as int],
        decreases alias.len() - temp,
    {
        colours.push(assigned[alias[temp]]);
        temp += 1;
    }
    colours
}

/// Colours an interference graph: the temporaries are taken out of the
/// graph, coalescing along the moves, and get their registers in the
/// opposite order.
pub fn colour(graph: &Interference, moves: &Vec<MovePair>, costs: &Vec<u64>) -> (result: (
    Reduction,
    Vec<Option<usize>>,
))
    requires
        graph.wf(),
    ensures
        is_reduction(result.0, *graph),
        reduces(result.0, *graph, moves@, costs@),
        is_colouring(*graph, result.0, result.1@),
{
    let reduction = reduce(graph, moves, costs);
    let assigned = assign_colours(&reduction.merged, &reduction.order);
    let colours = resolve(&assigned, &reduction.alias);
    proof {
        let alias = reduction.alias@;
        assert forall|a: int, b: int|
            0 <= a < colours@.len() && 0 <= b < colours@.len() && #[trigger] graph.edge(a, b)
                && colours@[a] is Some && colours@[b] is Some implies colours@[a] != colours@[b] by {
            assert(reduction.merged.edge(alias[a] as int, alias[b] as int));
        }
        assert forall|num: int| 0 <= num < colours@.len() implies #[trigger] colours@[num]
            == colours@[alias[num] as int] by {
            assert(alias[alias[num] as int] == alias[num]);
        }
        assert forall|num: int|
            REGISTER_COUNT <= num < colours@.len() implies (#[trigger] colours@[num] matches Some(
            register,
        ) ==> is_free_register(register as int)) by {
            if alias[num] < REGISTER_COUNT {
                assert(assigned@[alias[num] as int] == Some(alias[num]));
            }
        }
        assert forall|num: int|
            REGISTER_COUNT <= num < colours@.len() && reduction.merged.degree(alias[num] as int)
                < COLOURS implies (#[trigger] colours@[num]) is Some by {
            let root = alias[num] as int;
            if root >= REGISTER_COUNT {
                assert(alias[root] == root);
                assert(holds_node(reduction.order@, root));
                let i = choose|i: int|
                    0 <= i < reduction.order@.len() && #[trigger] reduction.order@[i] == root;
                assert(assigned@[reduction.order@[i] as int] is Some);
            }
        }
        assert forall|at: int| 0 <= at < reduction.order@.len() implies #[trigger] follows_rule(
            reduction.merged,
            reduction.order@,
            colours@,
            at,
        ) by {
            let order = reduction.order@;
            assert(follows_rule(reduction.merged, order, assigned@, at));
            assert(alias[order[at] as int] == order[at]);
            assert(colours@[order[at] as int] == assigned@[order[at] as int]);
            assert forall|other: int|
                0 <= other < colours@.len() && coloured_before(
                    order,
                    at,
                    other,
                ) implies #[trigger] colours@[other] == assigned@[other] by {
                if other >= REGISTER_COUNT {
                    let later = choose|later: int|
                        at < later < order.len() && #[trigger] order[later] == other;
                    assert(alias[order[later] as int] == order[later]);
                }
            }
            assert forall|any: int| #[trigger]
                taken(reduction.merged, order, colours@, at, any) == taken(
                    reduction.merged,
                    order,
                    assigned@,
                    at,
                    any,
                ) by {
                lemma_taken_agrees(reduction.merged, order, colours@, assigned@, at, any);
            }
            match assigned@[order[at] as int] {
                Some(chosen) => {
                    assert(!taken(reduction.merged, order, assigned@, at, chosen as int));
                    assert forall|lower: int|
                        0 <= lower < chosen && is_free_register(lower) implies #[trigger] taken(
                        reduction.merged,
                        order,
                        colours@,
                        at,
                        lower,
                    ) by {
                        assert(taken(reduction.merged, order, assigned@, at, lower));
                    }
                },
                None => {
                    assert forall|free: int| is_free_register(free) implies #[trigger] taken(
                        reduction.merged,
                        order,
                        colours@,
                        at,
                        free,
                    ) by {
                        assert(taken(reduction.merged, order, assigned@, at, free));
                    }
                },
            }
        }
    }
    (reduction, colours)
}

} // verus!
