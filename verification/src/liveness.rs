//! Liveness: for each temporary, the instructions before and after which
//! its value is still needed.

use crate::flow::FlowGraph;
use crate::marks::{lemma_visit, unmarked, unvisited};
use crate::temp::Temp;
use vstd::prelude::*;

verus! {

/// What the dataflow equations ask of a temporary before a node: the node
/// reads it, or it is live after the node and the node does not write it.
pub open spec fn live_in_rule(graph: FlowGraph, temp: Temp, node: int, live_out: Seq<bool>) -> bool {
    graph.reads(node, temp) || (live_out[node] && !graph.defines(node, temp))
}

/// What the dataflow equations ask of a temporary after a node: it is live
/// before a node that may run next.
pub open spec fn live_out_rule(graph: FlowGraph, node: int, live_in: Seq<bool>) -> bool {
    exists|to: int| 0 <= to < graph.len() && #[trigger] graph.flows(node, to) && live_in[to]
}

/// Whether the two lists of marks, one mark per node, meet the dataflow
/// equations for the temporary.
pub open spec fn solves(graph: FlowGraph, temp: Temp, live_in: Seq<bool>, live_out: Seq<bool>) -> bool {
    &&& live_in.len() == graph.len()
    &&& live_out.len() == graph.len()
    &&& forall|node: int|
        0 <= node < graph.len() ==> #[trigger] live_in[node] == live_in_rule(
            graph,
            temp,
            node,
            live_out,
        )
    &&& forall|node: int|
        0 <= node < graph.len() ==> #[trigger] live_out[node] == live_out_rule(graph, node, live_in)
}

/// Every mark of `small` is a mark of `large`.
pub open spec fn below(small: Seq<bool>, large: Seq<bool>) -> bool {
    small.len() == large.len() && forall|i: int|
        0 <= i < small.len() ==> (#[trigger] small[i] ==> large[i])
}

/// The marks are below every solution of the dataflow equations.
pub open spec fn minimal(graph: FlowGraph, temp: Temp, live_in: Seq<bool>, live_out: Seq<bool>) -> bool {
    forall|other_in: Seq<bool>, other_out: Seq<bool>| #[trigger]
        solves(graph, temp, other_in, other_out) ==> below(live_in, other_in) && below(
            live_out,
            other_out,
        )
}

/// The liveness of a temporary: the least solution of the dataflow
/// equations.
pub open spec fn is_liveness(graph: FlowGraph, temp: Temp, live_in: Seq<bool>, live_out: Seq<bool>) -> bool {
    solves(graph, temp, live_in, live_out) && minimal(graph, temp, live_in, live_out)
}

/// Every mark that is set is asked for by the equations.
pub open spec fn justified(graph: FlowGraph, temp: Temp, live_in: Seq<bool>, live_out: Seq<bool>) -> bool {
    &&& live_in.len() == graph.len()
    &&& live_out.len() == graph.len()
    &&& forall|node: int|
        0 <= node < graph.len() ==> (#[trigger] live_in[node] ==> live_in_rule(
            graph,
            temp,
            node,
            live_out,
        ))
    &&& forall|node: int|
        0 <= node < graph.len() ==> (#[trigger] live_out[node] ==> live_out_rule(
            graph,
            node,
            live_in,
        ))
}

/// The equations hold at the nodes from `from` on.
pub open spec fn settled_from(
    graph: FlowGraph,
    temp: Temp,
    live_in: Seq<bool>,
    live_out: Seq<bool>,
    from: int,
) -> bool {
    forall|node: int|
        #![trigger live_in[node]]
        #![trigger live_out[node]]
        0 <= from <= node < graph.len() ==> live_in[node] == live_in_rule(
            graph,
            temp,
            node,
            live_out,
        ) && live_out[node] == live_out_rule(graph, node, live_in)
}

/// The liveness of a temporary is unique.
pub proof fn lemma_liveness_unique(
    graph: FlowGraph,
    temp: Temp,
    live_in: Seq<bool>,
    live_out: Seq<bool>,
    other_in: Seq<bool>,
    other_out: Seq<bool>,
)
    requires
        is_liveness(graph, temp, live_in, live_out),
        is_liveness(graph, temp, other_in, other_out),
    ensures
        live_in == other_in,
        live_out == other_out,
{
    assert(below(live_in, other_in) && below(other_in, live_in));
    assert(below(live_out, other_out) && below(other_out, live_out));
    assert(live_in =~= other_in);
    assert(live_out =~= other_out);
}

/// Tests whether a list holds a temporary.
pub fn holds_temp(temps: &Vec<Temp>, temp: Temp) -> (found: bool)
    ensures
        found == temps@.contains(temp),
{
    let mut index: usize = 0;
    while index < temps.len()
        invariant
            index <= temps.len(),
            forall|i: int| 0 <= i < index ==> temps@[i] != temp,
        decreases temps.len() - index,
    {
        if temps[index] == temp {
            return true;
        }
        index += 1;
    }
    false
}

fn flows_into_live(graph: &FlowGraph, node: usize, live_in: &Vec<bool>) -> (any: bool)
    requires
        graph.wf(),
        node < graph.len(),
        live_in@.len() == graph.len(),
    ensures
        any == live_out_rule(*graph, node as int, live_in@),
{
    let successors = &graph.successors[node];
    let mut index: usize = 0;
    while index < successors.len()
        invariant
            graph.wf(),
            node < graph.len(),
            live_in@.len() == graph.len(),
            successors == &graph.successors@[node as int],
            index <= successors.len(),
            forall|i: int| 0 <= i < index ==> !live_in@[#[trigger] successors@[i] as int],
        decreases successors.len() - index,
    {
        let to = successors[index];
        if live_in[to] {
            assert(graph.flows(node as int, to as int));
            return true;
        }
        index += 1;
    }
    assert(!live_out_rule(*graph, node as int, live_in@)) by {
        if live_out_rule(*graph, node as int, live_in@) {
            let to = choose|to: int|
                0 <= to < graph.len() && #[trigger] graph.flows(node as int, to) && live_in@[to];
            let j = choose|j: int| 0 <= j < successors@.len() && #[trigger] successors@[j] == to;
            assert(!live_in@[successors@[j] as int]);
        }
    }
    false
}

/// Computes where a temporary is live: for each node, whether it is live
/// before the node and whether it is live after it.
pub fn temp_liveness(graph: &FlowGraph, temp: Temp) -> (result: (Vec<bool>, Vec<bool>))
    requires
        graph.wf(),
    ensures
        is_liveness(*graph, temp, result.0@, result.1@),
{
    let count = graph.defs.len();
    let mut live_in = unmarked(count);
    let mut live_out = unmarked(count);
    let mut changed = true;
    while changed
        invariant
            graph.wf(),
            count == graph.len(),
            justified(*graph, temp, live_in@, live_out@),
            minimal(*graph, temp, live_in@, live_out@),
            !changed ==> settled_from(*graph, temp, live_in@, live_out@, 0),
        decreases
                unvisited(live_in@) + unvisited(live_out@) + if changed {
                    1nat
                } else {
                    0nat
                },
    {
        changed = false;
        let ghost start = unvisited(live_in@) + unvisited(live_out@);
        let mut done: usize = 0;
        while done < count
            invariant
                graph.wf(),
                count == graph.len(),
                done <= count,
                justified(*graph, temp, live_in@, live_out@),
                minimal(*graph, temp, live_in@, live_out@),
                unvisited(live_in@) + unvisited(live_out@) <= start,
                changed ==> unvisited(live_in@) + unvisited(live_out@) < start,
                !changed ==> settled_from(*graph, temp, live_in@, live_out@, count - done),
            decreases count - done,
        {
            let node = count - 1 - done;
            let ghost old_in = live_in@;
            let ghost old_out = live_out@;
            let any = flows_into_live(graph, node, &live_in);
            if any && !live_out[node] {
                proof {
                    lemma_visit(old_out, node as int);
                    let to = choose|to: int|
                        0 <= to < graph.len() && #[trigger] graph.flows(node as int, to)
                            && old_in[to];
                    assert forall|other_in: Seq<bool>, other_out: Seq<bool>| #[trigger]
                        solves(*graph, temp, other_in, other_out) implies below(
                        old_out.update(node as int, true),
                        other_out,
                    ) by {
                        assert(below(old_in, other_in) && below(old_out, other_out));
                        assert(other_in[to]);
                        assert(live_out_rule(*graph, node as int, other_in));
                        assert(other_out[node as int]);
                    }
                }
                live_out.set(node, true);
                changed = true;
                assert(justified(*graph, temp, live_in@, live_out@)) by {
                    assert forall|n: int| 0 <= n < graph.len() && #[trigger] live_in@[n]
                        implies live_in_rule(*graph, temp, n, live_out@) by {
                        if live_in@[n] {
                            assert(live_in_rule(*graph, temp, n, old_out));
                        }
                    }
                }
            }
            let ghost mid_out = live_out@;
            assert(mid_out[node as int] == any);
            let reads = holds_temp(&graph.uses[node], temp);
            let defines = holds_temp(&graph.defs[node], temp);
            let now_in = reads || (live_out[node] && !defines);
            assert(now_in == live_in_rule(*graph, temp, node as int, mid_out));
            if now_in && !live_in[node] {
                proof {
                    lemma_visit(old_in, node as int);
                    assert forall|other_in: Seq<bool>, other_out: Seq<bool>| #[trigger]
                        solves(*graph, temp, other_in, other_out) implies below(
                        old_in.update(node as int, true),
                        other_in,
                    ) by {
                        assert(below(old_in, other_in) && below(mid_out, other_out));
                        assert(live_in_rule(*graph, temp, node as int, other_out));
                        assert(other_in[node as int]);
                    }
                }
                live_in.set(node, true);
                changed = true;
                assert(justified(*graph, temp, live_in@, live_out@)) by {
                    assert forall|n: int| 0 <= n < graph.len() && #[trigger] live_out@[n]
                        implies live_out_rule(*graph, n, live_in@) by {
                        if live_out@[n] {
                            assert(live_out_rule(*graph, n, old_in));
                            let to = choose|to: int|
                                0 <= to < graph.len() && #[trigger] graph.flows(n, to)
                                    && old_in[to];
                            assert(graph.flows(n, to) && live_in@[to]);
                        }
                    }
                }
            }
            assert(!changed ==> settled_from(*graph, temp, live_in@, live_out@, node as int)) by {
                if !changed {
                    assert(live_in@ == old_in && live_out@ == old_out);
                    assert(settled_from(*graph, temp, old_in, old_out, node + 1));
                    assert(old_out[node as int] == live_out_rule(*graph, node as int, old_in));
                    assert(old_in[node as int] ==> live_in_rule(
                        *graph,
                        temp,
                        node as int,
                        old_out,
                    ));
                    assert(old_in[node as int] == live_in_rule(
                        *graph,
                        temp,
                        node as int,
                        old_out,
                    ));
                }
            }
            done += 1;
        }
    }
    (live_in, live_out)
}

/// Where every temporary below a bound is live.
#[derive(Clone, Debug, PartialEq, Eq)]
pub struct Liveness {
    /// For each temporary, whether it is live before each node.
    pub live_in: Vec<Vec<bool>>,
    /// For each temporary, whether it is live after each node.
    pub live_out: Vec<Vec<bool>>,
}

impl Liveness {
    /// Whether this is the liveness of the temporaries below `temp_count`
    /// in the graph.
    pub open spec fn describes(&self, graph: FlowGraph, temp_count: nat) -> bool {
        &&& self.live_in@.len() == temp_count
        &&& self.live_out@.len() == temp_count
        &&& forall|num: int|
            0 <= num < temp_count ==> is_liveness(
                graph,
                Temp { num: num as usize },
                (#[trigger] self.live_in@[num])@,
                self.live_out@[num]@,
            )
    }

    /// Whether the temporary is live after the node.
    pub open spec fn is_live_out(&self, temp: Temp, node: int) -> bool {
        self.live_out@[temp.num as int]@[node]
    }

    /// Whether the temporary is live before the node.
    pub open spec fn is_live_in(&self, temp: Temp, node: int) -> bool {
        self.live_in@[temp.num as int]@[node]
    }
}

/// Computes the liveness of every temporary below `temp_count`.
pub fn liveness(graph: &FlowGraph, temp_count: usize) -> (result: Liveness)
    requires
        graph.wf(),
    ensures
        result.describes(*graph, temp_count as nat),
{
    let mut result = Liveness { live_in: Vec::new(), live_out: Vec::new() };
    let mut num: usize = 0;
    while num < temp_count
        invariant
            graph.wf(),
            num <= temp_count,
            result.describes(*graph, num as nat),
        decreases temp_count - num,
    {
        let (live_in, live_out) = temp_liveness(graph, Temp { num });
        let ghost earlier = result;
        result.live_in.push(live_in);
        result.live_out.push(live_out);
        assert forall|n: int| 0 <= n < num + 1 implies is_liveness(
            *graph,
            Temp { num: n as usize },
            (#[trigger] result.live_in@[n])@,
            result.live_out@[n]@,
        ) by {
            if n < num {
                assert(result.live_in@[n] == earlier.live_in@[n]);
                assert(result.live_out@[n] == earlier.live_out@[n]);
            }
        }
        num += 1;
    }
    result
}

} // verus!
