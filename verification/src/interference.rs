//! The interference graph: which temporaries are alive at the same time
//! and so cannot share a register.

use crate::flow::FlowGraph;
use crate::liveness::{holds_temp, Liveness};
use crate::marks::{count_true, unmarked};
use crate::temp::Temp;
use vstd::prelude::*;

verus! {

/// An undirected graph over the temporaries below a bound, as a square
/// matrix of marks.
#[derive(Clone, Debug, PartialEq, Eq)]
pub struct Interference {
    pub adjacent: Vec<Vec<bool>>,
}

/// Whether a matrix has `size` rows of `size` marks.
pub open spec fn is_square(matrix: Seq<Vec<bool>>, size: nat) -> bool {
    matrix.len() == size && forall|row: int|
        0 <= row < size ==> (#[trigger] matrix[row])@.len() == size
}

impl Interference {
    /// The number of temporaries that the graph speaks of.
    pub open spec fn size(&self) -> nat {
        self.adjacent@.len()
    }

    /// Whether two temporaries, given by their numbers, interfere.
    pub open spec fn edge(&self, a: int, b: int) -> bool {
        self.adjacent@[a]@[b]
    }

    /// The matrix is square, an edge has no direction, and no temporary
    /// interferes with itself.
    pub open spec fn wf(&self) -> bool {
        &&& is_square(self.adjacent@, self.size())
        &&& forall|a: int, b: int|
            0 <= a < self.size() && 0 <= b < self.size() ==> #[trigger] self.edge(a, b)
                == self.edge(b, a)
        &&& forall|a: int| 0 <= a < self.size() ==> !#[trigger] self.edge(a, a)
    }

    /// The number of temporaries that interfere with a temporary.
    pub open spec fn degree(&self, a: int) -> nat {
        count_true(self.adjacent@[a]@)
    }

    /// Tests whether two temporaries interfere.
    pub fn interferes(&self, a: Temp, b: Temp) -> (result: bool)
        requires
            self.wf(),
        ensures
            result == (a.num < self.size() && b.num < self.size() && self.edge(
                a.num as int,
                b.num as int,
            )),
    {
        if a.num < self.adjacent.len() && b.num < self.adjacent.len() {
            assert(self.adjacent@[a.num as int]@.len() == self.size());
            self.adjacent[a.num][b.num]
        } else {
            false
        }
    }

    /// The temporaries that interfere with a temporary, by rising number.
    pub fn neighbours(&self, a: Temp) -> (result: Vec<Temp>)
        requires
            self.wf(),
        ensures
            forall|b: Temp|
                result@.contains(b) <==> (a.num < self.size() && b.num < self.size() && self.edge(
                    a.num as int,
                    b.num as int,
                )),
            forall|i: int, j: int|
                0 <= i < j < result@.len() ==> (#[trigger] result@[i]).num < (
                #[trigger] result@[j]).num,
    {
        let mut result: Vec<Temp> = Vec::new();
        if a.num >= self.adjacent.len() {
            return result;
        }
        let row = &self.adjacent[a.num];
        let size = self.adjacent.len();
        assert(row@.len() == size);
        let mut num: usize = 0;
        while num < size
            invariant
                num <= size,
                size == self.size(),
                a.num < size,
                row@ == self.adjacent@[a.num as int]@,
                row@.len() == size,
                forall|b: Temp|
                    result@.contains(b) <==> (b.num < num && self.edge(a.num as int, b.num as int)),
                forall|i: int, j: int|
                    0 <= i < j < result@.len() ==> (#[trigger] result@[i]).num < (
                    #[trigger] result@[j]).num,
            decreases size - num,
        {
            if row[num] {
                let ghost before = result@;
                result.push(Temp { num });
                assert forall|b: Temp|
                    result@.contains(b) <==> (b.num < num + 1 && self.edge(
                        a.num as int,
                        b.num as int,
                    )) by {
                    if result@.contains(b) {
                        let i = choose|i: int| 0 <= i < result@.len() && result@[i] == b;
                        if i < before.len() {
                            assert(before[i] == b);
                            assert(before.contains(b));
                        }
                    }
                    if b.num < num + 1 && self.edge(a.num as int, b.num as int) {
                        if b.num < num {
                            assert(before.contains(b));
                            let i = choose|i: int| 0 <= i < before.len() && before[i] == b;
                            assert(result@[i] == b);
                        } else {
                            assert(result@[before.len() as int] == b);
                        }
                    }
                }
                assert forall|i: int, j: int| 0 <= i < j < result@.len() implies (
                #[trigger] result@[i]).num < (#[trigger] result@[j]).num by {
                    if j == before.len() {
                        assert(before[i] == result@[i]);
                        assert(before.contains(result@[i]));
                    } else {
                        assert(before[i] == result@[i] && before[j] == result@[j]);
                    }
                }
            }
            num += 1;
        }
        result
    }
}

/// What, besides being written at the node, makes `a` clash with `b`
/// there: `b` is another temporary that is live after the node, and the
/// node is not a move that copies `b`.
pub open spec fn clashes_with(graph: FlowGraph, live: Liveness, node: int, a: int, b: int) -> bool {
    &&& a != b
    &&& live.live_out@[b]@[node]
    &&& !(graph.moves@[node] && graph.reads(node, Temp { num: b as usize }))
}

/// Whether the node writes `a` while `b` is live after it, or the other
/// way round.
pub open spec fn clash(graph: FlowGraph, live: Liveness, node: int, a: int, b: int) -> bool {
    ||| graph.defines(node, Temp { num: a as usize }) && clashes_with(graph, live, node, a, b)
    ||| graph.defines(node, Temp { num: b as usize }) && clashes_with(graph, live, node, b, a)
}

/// Whether two temporaries clash at one of the first `nodes` nodes.
pub open spec fn clash_before(graph: FlowGraph, live: Liveness, nodes: int, a: int, b: int) -> bool {
    exists|node: int| 0 <= node < nodes && #[trigger] clash(graph, live, node, a, b)
}

/// Whether two temporaries interfere: one is written at an instruction
/// after which the other is live, unless the instruction is a move that
/// copies the other into it.
pub open spec fn interfere(graph: FlowGraph, live: Liveness, a: int, b: int) -> bool {
    clash_before(graph, live, graph.len() as int, a, b)
}

/// Whether one of the first `count` temporaries that the node writes is
/// `a`.
pub open spec fn written_among(graph: FlowGraph, node: int, count: int, a: int) -> bool {
    exists|j: int| 0 <= j < count && j < graph.defs@[node]@.len() && (#[trigger] graph.defs@[node]@[j]).num == a
}

/// The clashes of a node that have been entered when its first `done`
/// written temporaries are through, and the next one has been held against
/// the temporaries below `seen`.
pub open spec fn entered_half(
    graph: FlowGraph,
    live: Liveness,
    node: int,
    done: int,
    seen: int,
    a: int,
    b: int,
) -> bool {
    clashes_with(graph, live, node, a, b) && (written_among(graph, node, done, a) || (0 <= done
        < graph.defs@[node]@.len() && graph.defs@[node]@[done].num == a && b < seen))
}

/// `entered_half` in either direction.
pub open spec fn entered(
    graph: FlowGraph,
    live: Liveness,
    node: int,
    done: int,
    seen: int,
    a: int,
    b: int,
) -> bool {
    entered_half(graph, live, node, done, seen, a, b) || entered_half(
        graph,
        live,
        node,
        done,
        seen,
        b,
        a,
    )
}

/// The matrix holds the clashes of the first `node` nodes and what has
/// been entered of the next one.
pub open spec fn holds_clashes(
    matrix: Seq<Vec<bool>>,
    graph: FlowGraph,
    live: Liveness,
    node: int,
    done: int,
    seen: int,
) -> bool {
    forall|a: int, b: int|
        0 <= a < matrix.len() && 0 <= b < matrix.len() ==> #[trigger] matrix[a]@[b] == (
        clash_before(graph, live, node, a, b) || entered(graph, live, node, done, seen, a, b))
}

/// Whether the graph is the interference graph of the temporaries below
/// `temp_count`.
pub open spec fn is_interference(
    result: Interference,
    graph: FlowGraph,
    live: Liveness,
    temp_count: nat,
) -> bool {
    &&& result.wf()
    &&& result.size() == temp_count
    &&& forall|a: int, b: int|
        0 <= a < temp_count && 0 <= b < temp_count ==> #[trigger] result.edge(a, b) == interfere(
            graph,
            live,
            a,
            b,
        )
}

/// Sets one mark of a square matrix.
pub fn mark(matrix: &mut Vec<Vec<bool>>, a: usize, b: usize)
    requires
        is_square(old(matrix)@, old(matrix)@.len()),
        a < old(matrix)@.len(),
        b < old(matrix)@.len(),
    ensures
        is_square(final(matrix)@, old(matrix)@.len()),
        forall|x: int, y: int|
            0 <= x < old(matrix)@.len() && 0 <= y < old(matrix)@.len() ==> #[trigger] final(matrix)@[x]@[y] == (old(matrix)@[x]@[y] || (x == a && y == b)),
{
    let mut row: Vec<bool> = Vec::new();
    matrix.set_and_swap(a, &mut row);
    row.set(b, true);
    matrix.set_and_swap(a, &mut row);
}

/// Builds the interference graph of the temporaries below `temp_count`.
pub fn interference(graph: &FlowGraph, live: &Liveness, temp_count: usize) -> (result: Interference)
    requires
        graph.wf(),
        live.live_out@.len() == temp_count,
        forall|num: int|
            0 <= num < temp_count ==> (#[trigger] live.live_out@[num])@.len() == graph.len(),
    ensures
        is_interference(result, *graph, *live, temp_count as nat),
{
    let mut matrix: Vec<Vec<bool>> = Vec::new();
    while matrix.len() < temp_count
        invariant
            matrix@.len() <= temp_count,
            forall|row: int| 0 <= row < matrix@.len() ==> (#[trigger] matrix@[row])@ == Seq::new(
                temp_count as nat,
                |i: int| false,
            ),
        decreases temp_count - matrix.len(),
    {
        matrix.push(unmarked(temp_count));
    }
    let nodes = graph.defs.len();
    let mut node: usize = 0;
    while node < nodes
        invariant
            graph.wf(),
            nodes == graph.len(),
            node <= nodes,
            live.live_out@.len() == temp_count,
            forall|num: int|
                0 <= num < temp_count ==> (#[trigger] live.live_out@[num])@.len() == graph.len(),
            is_square(matrix@, temp_count as nat),
            holds_clashes(matrix@, *graph, *live, node as int, 0, 0),
        decreases nodes - node,
    {
        let defs = &graph.defs[node];
        let is_move = graph.moves[node];
        let mut done: usize = 0;
        while done < defs.len()
            invariant
                graph.wf(),
                nodes == graph.len(),
                node < nodes,
                defs == &graph.defs@[node as int],
                is_move == graph.moves@[node as int],
                done <= defs@.len(),
                live.live_out@.len() == temp_count,
                forall|num: int|
                    0 <= num < temp_count ==> (#[trigger] live.live_out@[num])@.len()
                        == graph.len(),
                is_square(matrix@, temp_count as nat),
                holds_clashes(matrix@, *graph, *live, node as int, done as int, 0),
            decreases defs.len() - done,
        {
            let written = defs[done].num;
            if written < temp_count {
                let mut seen: usize = 0;
                while seen < temp_count
                    invariant
                        graph.wf(),
                        nodes == graph.len(),
                        node < nodes,
                        defs == &graph.defs@[node as int],
                        is_move == graph.moves@[node as int],
                        done < defs@.len(),
                        written == defs@[done as int].num,
                        written < temp_count,
                        seen <= temp_count,
                        live.live_out@.len() == temp_count,
                        forall|num: int|
                            0 <= num < temp_count ==> (#[trigger] live.live_out@[num])@.len()
                                == graph.len(),
                        is_square(matrix@, temp_count as nat),
                        holds_clashes(matrix@, *graph, *live, node as int, done as int, seen as int),
                    decreases temp_count - seen,
                {
                    let ghost before = matrix@;
                    let copied = is_move && holds_temp(&graph.uses[node], Temp { num: seen });
                    let clashes = seen != written && live.live_out[seen][node] && !copied;
                    assert(clashes == clashes_with(
                        *graph,
                        *live,
                        node as int,
                        written as int,
                        seen as int,
                    ));
                    if clashes {
                        mark(&mut matrix, written, seen);
                        mark(&mut matrix, seen, written);
                    }
                    assert forall|a: int, b: int|
                        0 <= a < temp_count && 0 <= b < temp_count implies #[trigger] matrix@[a]@[b]
                        == (clash_before(*graph, *live, node as int, a, b) || entered(
                        *graph,
                        *live,
                        node as int,
                        done as int,
                        seen + 1,
                        a,
                        b,
                    )) by {
                        assert(before[a]@[b] == (clash_before(*graph, *live, node as int, a, b)
                            || entered(*graph, *live, node as int, done as int, seen as int, a, b)));
                    }
                    seen += 1;
                }
            }
            let ghost through = done + 1;
            assert forall|a: int, b: int|
                0 <= a < temp_count && 0 <= b < temp_count implies #[trigger] entered(
                *graph,
                *live,
                node as int,
                through,
                0,
                a,
                b,
            ) == entered(
                *graph,
                *live,
                node as int,
                done as int,
                if written < temp_count {
                    temp_count as int
                } else {
                    0
                },
                a,
                b,
            ) by {
                lemma_written_step(*graph, node as int, done as int, a);
                lemma_written_step(*graph, node as int, done as int, b);
            }
            done += 1;
        }
        assert forall|a: int, b: int|
            0 <= a < temp_count && 0 <= b < temp_count implies #[trigger] matrix@[a]@[b] == (
        clash_before(*graph, *live, node + 1, a, b) || entered(
            *graph,
            *live,
            node + 1,
            0,
            0,
            a,
            b,
        )) by {
            lemma_node_entered(*graph, *live, node as int, a, b);
            assert(!written_among(*graph, node + 1, 0, a));
            assert(!written_among(*graph, node + 1, 0, b));
        }
        node += 1;
    }
    let result = Interference { adjacent: matrix };
    assert forall|a: int, b: int|
        0 <= a < temp_count && 0 <= b < temp_count implies #[trigger] result.edge(a, b)
        == interfere(*graph, *live, a, b) by {
        assert(!written_among(*graph, nodes as int, 0, a));
        assert(!written_among(*graph, nodes as int, 0, b));
    }
    assert(result.wf()) by {
        assert forall|a: int, b: int|
            0 <= a < result.size() && 0 <= b < result.size() implies #[trigger] result.edge(a, b)
            == result.edge(b, a) by {
            assert(interfere(*graph, *live, a, b) == interfere(*graph, *live, b, a)) by {
                lemma_clash_symmetric(*graph, *live, a, b);
                lemma_clash_symmetric(*graph, *live, b, a);
            }
        }
        assert forall|a: int| 0 <= a < result.size() implies !#[trigger] result.edge(a, a) by {
            assert(result.edge(a, a) == interfere(*graph, *live, a, a));
        }
    }
    result
}

/// One more written temporary is among the written ones.
pub proof fn lemma_written_step(graph: FlowGraph, node: int, done: int, a: int)
    requires
        0 <= done < graph.defs@[node]@.len(),
    ensures
        written_among(graph, node, done + 1, a) == (written_among(graph, node, done, a)
            || graph.defs@[node]@[done].num == a),
{
    if written_among(graph, node, done + 1, a) {
        let j = choose|j: int|
            0 <= j < done + 1 && j < graph.defs@[node]@.len() && (
            #[trigger] graph.defs@[node]@[j]).num == a;
        if j < done {
            assert(written_among(graph, node, done, a));
        }
    }
    if written_among(graph, node, done, a) {
        let j = choose|j: int|
            0 <= j < done && j < graph.defs@[node]@.len() && (#[trigger] graph.defs@[node]@[j]).num
                == a;
        assert(written_among(graph, node, done + 1, a));
    }
    if graph.defs@[node]@[done].num == a {
        assert(written_among(graph, node, done + 1, a));
    }
}

/// When all written temporaries of a node are through, its clashes have
/// been entered.
pub proof fn lemma_node_entered(graph: FlowGraph, live: Liveness, node: int, a: int, b: int)
    requires
        0 <= node < graph.len(),
        0 <= a <= usize::MAX,
        0 <= b <= usize::MAX,
    ensures
        clash_before(graph, live, node + 1, a, b) == (clash_before(graph, live, node, a, b)
            || entered(graph, live, node, graph.defs@[node]@.len() as int, 0, a, b)),
{
    let count = graph.defs@[node]@.len() as int;
    lemma_written_all(graph, node, a);
    lemma_written_all(graph, node, b);
    assert(entered(graph, live, node, count, 0, a, b) == clash(graph, live, node, a, b));
    if clash_before(graph, live, node + 1, a, b) {
        let at = choose|at: int| 0 <= at < node + 1 && #[trigger] clash(graph, live, at, a, b);
        if at < node {
            assert(clash_before(graph, live, node, a, b));
        }
    }
    if clash_before(graph, live, node, a, b) {
        let at = choose|at: int| 0 <= at < node && #[trigger] clash(graph, live, at, a, b);
        assert(clash_before(graph, live, node + 1, a, b));
    }
    if clash(graph, live, node, a, b) {
        assert(clash_before(graph, live, node + 1, a, b));
    }
}

/// A node writes a temporary exactly when it is among all the temporaries
/// that the node writes.
pub proof fn lemma_written_all(graph: FlowGraph, node: int, a: int)
    requires
        0 <= a <= usize::MAX,
    ensures
        written_among(graph, node, graph.defs@[node]@.len() as int, a) == graph.defines(
            node,
            Temp { num: a as usize },
        ),
{
    let defs = graph.defs@[node]@;
    let temp = Temp { num: a as usize };
    if written_among(graph, node, defs.len() as int, a) {
        let j = choose|j: int| 0 <= j < defs.len() && j < defs.len() && (#[trigger] defs[j]).num == a;
        assert(defs[j] == temp);
    }
    if defs.contains(temp) {
        let j = choose|j: int| 0 <= j < defs.len() && defs[j] == temp;
        assert(defs[j].num == a);
    }
}

/// Clashing has no direction.
pub proof fn lemma_clash_symmetric(graph: FlowGraph, live: Liveness, a: int, b: int)
    ensures
        interfere(graph, live, a, b) ==> interfere(graph, live, b, a),
{
    if interfere(graph, live, a, b) {
        let at = choose|at: int| 0 <= at < graph.len() && #[trigger] clash(graph, live, at, a, b);
        assert(clash(graph, live, at, b, a));
    }
}

} // verus!
