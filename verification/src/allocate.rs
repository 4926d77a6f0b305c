//! Register allocation: colour, spill what got no register, and colour
//! again until every temporary has a register.

use crate::apply::{all_coloured, apply_colours, colour_of, coloured_from, no_redundant_moves, registers_only};
use crate::assembly::{
    are_temps_below,
    copy_instructions,
    instruction_views,
    temps_below,
    Instruction,
    InstructionView,
};
use crate::coalesce::{
    colour, is_colouring, is_reduction, move_pairs, pairs_before, reduces, Reduction,
};
use crate::colour::{is_free_register, uncoloured};
use crate::emit::{CallSite, PointerLocation};
use crate::flow::{flow_graph, is_flow_graph, FlowGraph};
use crate::frame::{is_register, slot_offset, Access, Frame, MAX_SLOTS, REGISTER_COUNT};
use crate::interference::{interfere, interference, is_interference, Interference};
use crate::liveness::{is_liveness, liveness, Liveness};
use crate::marks::{lemma_unvisited_all, lemma_visit, unmarked, unvisited};
use crate::pointers::{is_site_entry, pointer_map};
use crate::spill::{
    is_read,
    lemma_spilled_below,
    lemma_spilled_grows,
    spill_temp,
    spilled_program,
};
use crate::temp::{Label, Temp, TempSource};
use vstd::prelude::*;

verus! {

/// How often the temporary stands in a list.
pub open spec fn occurrences(temps: Seq<Temp>, temp: Temp) -> nat
    decreases temps.len(),
{
    if temps.len() == 0 {
        0
    } else {
        occurrences(temps.drop_last(), temp) + if temps.last() == temp {
            1nat
        } else {
            0nat
        }
    }
}

/// Whether the edge with the given position among the edges out of `from`
/// goes back to a node at or before `node`, while `from` is at or behind
/// it: the edge closes a loop around the node.
pub open spec fn closes_loop(graph: FlowGraph, node: int, from: int, position: int) -> bool {
    node <= from && graph.successors@[from]@[position] <= node
}

/// The number of the first `count` edges out of `from` that close a loop
/// around the node.
pub open spec fn loops_at(graph: FlowGraph, node: int, from: int, count: int) -> nat
    decreases count,
{
    if count <= 0 {
        0
    } else {
        loops_at(graph, node, from, count - 1) + if closes_loop(graph, node, from, count - 1) {
            1nat
        } else {
            0nat
        }
    }
}

/// The number of edges out of the first `nodes` nodes that close a loop
/// around the node.
pub open spec fn loops_before(graph: FlowGraph, node: int, nodes: int) -> nat
    decreases nodes,
{
    if nodes <= 0 {
        0
    } else {
        loops_before(graph, node, nodes - 1) + loops_at(
            graph,
            node,
            nodes - 1,
            graph.successors@[nodes - 1]@.len() as int,
        )
    }
}

/// The loop depth of a node: the number of backward edges that reach
/// around it.
pub open spec fn loop_depth(graph: FlowGraph, node: int) -> nat {
    loops_before(graph, node, graph.len() as int)
}

/// The weight of a node at a loop depth: ten to the power of the depth,
/// and no more than ten to the power of eighteen.
pub open spec fn depth_weight(depth: nat) -> u64 {
    if depth == 0 {
        1
    } else if depth == 1 {
        10
    } else if depth == 2 {
        100
    } else if depth == 3 {
        1_000
    } else if depth == 4 {
        10_000
    } else if depth == 5 {
        100_000
    } else if depth == 6 {
        1_000_000
    } else if depth == 7 {
        10_000_000
    } else if depth == 8 {
        100_000_000
    } else if depth == 9 {
        1_000_000_000
    } else if depth == 10 {
        10_000_000_000
    } else if depth == 11 {
        100_000_000_000
    } else if depth == 12 {
        1_000_000_000_000
    } else if depth == 13 {
        10_000_000_000_000
    } else if depth == 14 {
        100_000_000_000_000
    } else if depth == 15 {
        1_000_000_000_000_000
    } else if depth == 16 {
        10_000_000_000_000_000
    } else if depth == 17 {
        100_000_000_000_000_000
    } else {
        1_000_000_000_000_000_000
    }
}

/// One level of loops more makes a node ten times as heavy, up to the
/// eighteenth.
pub proof fn lemma_depth_weight(depth: nat)
    requires
        depth < 18,
    ensures
        depth_weight(depth + 1) == 10 * depth_weight(depth),
{
}

/// How much the first `nodes` nodes read and write the temporary: each
/// time counts with the weight of the node.
pub open spec fn touches_before(graph: FlowGraph, nodes: int, temp: Temp) -> nat
    decreases nodes,
{
    if nodes <= 0 {
        0
    } else {
        touches_before(graph, nodes - 1, temp) + ((occurrences(graph.defs@[nodes - 1]@, temp)
            + occurrences(graph.uses@[nodes - 1]@, temp)) * depth_weight(
            loop_depth(graph, nodes - 1),
        )) as nat
    }
}

/// A count as a cost: itself, or the largest cost if it is larger.
pub open spec fn capped(count: nat) -> u64 {
    if count >= u64::MAX {
        u64::MAX
    } else {
        count as u64
    }
}

/// What it costs to spill a temporary: the number of times that the
/// instructions read or write it, each time multiplied by ten for every
/// loop around the instruction. A temporary that was made for a spill has
/// the largest cost, so that it is the last to be spilled.
pub open spec fn spill_cost(graph: FlowGraph, temp: Temp, first_fresh: nat) -> u64 {
    if temp.num >= first_fresh {
        u64::MAX
    } else {
        capped(touches_before(graph, graph.len() as int, temp))
    }
}

/// The loop depth of a node, and no more than eighteen.
pub fn node_depth(graph: &FlowGraph, node: usize) -> (depth: usize)
    requires
        graph.wf(),
        node < graph.len(),
    ensures
        depth == if loop_depth(*graph, node as int) < 18 {
            loop_depth(*graph, node as int)
        } else {
            18
        },
{
    let mut depth: usize = 0;
    let mut from: usize = 0;
    while from < graph.successors.len()
        invariant
            graph.wf(),
            node < graph.len(),
            from <= graph.len(),
            depth == if loops_before(*graph, node as int, from as int) < 18 {
                loops_before(*graph, node as int, from as int)
            } else {
                18
            },
        decreases graph.successors.len() - from,
    {
        let edges = &graph.successors[from];
        let ghost before = loops_before(*graph, node as int, from as int);
        let mut position: usize = 0;
        while position < edges.len()
            invariant
                graph.wf(),
                node < graph.len(),
                from < graph.len(),
                edges == &graph.successors@[from as int],
                position <= edges@.len(),
                depth == if before + loops_at(*graph, node as int, from as int, position as int)
                    < 18 {
                    before + loops_at(*graph, node as int, from as int, position as int)
                } else {
                    18
                },
            decreases edges.len() - position,
        {
            if node <= from && edges[position] <= node && depth < 18 {
                depth += 1;
            }
            position += 1;
        }
        from += 1;
    }
    depth
}

/// The weight of a node at a loop depth.
pub fn weight_of(depth: usize) -> (weight: u64)
    ensures
        weight == depth_weight(depth as nat),
        1 <= weight <= 1_000_000_000_000_000_000,
{
    match depth {
        0 => 1,
        1 => 10,
        2 => 100,
        3 => 1_000,
        4 => 10_000,
        5 => 100_000,
        6 => 1_000_000,
        7 => 10_000_000,
        8 => 100_000_000,
        9 => 1_000_000_000,
        10 => 10_000_000_000,
        11 => 100_000_000_000,
        12 => 1_000_000_000_000,
        13 => 10_000_000_000_000,
        14 => 100_000_000_000_000,
        15 => 1_000_000_000_000_000,
        16 => 10_000_000_000_000_000,
        17 => 100_000_000_000_000_000,
        _ => 1_000_000_000_000_000_000,
    }
}

fn count_touches(
    costs: &mut Vec<u64>,
    temps: &Vec<Temp>,
    weight: u64,
    Ghost(exact): Ghost<Seq<nat>>,
) -> (after: Ghost<Seq<nat>>)
    requires
        exact.len() == old(costs)@.len(),
        forall|num: int| 0 <= num < exact.len() ==> old(costs)@[num] == capped(#[trigger] exact[num]),
    ensures
        final(costs)@.len() == old(costs)@.len(),
        after@.len() == exact.len(),
        forall|num: int|
            0 <= num < exact.len() ==> final(costs)@[num] == capped(#[trigger] after@[num]),
        forall|num: int|
            0 <= num < exact.len() ==> #[trigger] after@[num] == exact[num] + occurrences(
                temps@,
                Temp { num: num as usize },
            ) * weight,
{
    let ghost mut now = exact;
    let mut index: usize = 0;
    assert(temps@.take(0) =~= Seq::<Temp>::empty());
    assert forall|num: int| 0 <= num < exact.len() implies #[trigger] now[num] == exact[num]
        + occurrences(temps@.take(0), Temp { num: num as usize }) * weight by {
        assert(occurrences(temps@.take(0), Temp { num: num as usize }) * weight == 0)
            by (nonlinear_arith)
            requires
                occurrences(temps@.take(0), Temp { num: num as usize }) == 0,
        ;
    }
    while index < temps.len()
        invariant
            index <= temps.len(),
            costs@.len() == exact.len(),
            now.len() == exact.len(),
            forall|num: int| 0 <= num < exact.len() ==> costs@[num] == capped(#[trigger] now[num]),
            forall|num: int|
                0 <= num < exact.len() ==> #[trigger] now[num] == exact[num] + occurrences(
                    temps@.take(index as int),
                    Temp { num: num as usize },
                ) * weight,
        decreases temps.len() - index,
    {
        let temp = temps[index];
        let ghost earlier = now;
        assert(temps@.take(index + 1).drop_last() =~= temps@.take(index as int));
        if temp.num < costs.len() {
            let cost = costs[temp.num];
            let raised = if cost > u64::MAX - weight {
                u64::MAX
            } else {
                cost + weight
            };
            costs.set(temp.num, raised);
            proof {
                now = now.update(temp.num as int, (now[temp.num as int] + weight) as nat);
            }
        }
        assert forall|num: int| 0 <= num < exact.len() implies #[trigger] now[num] == exact[num]
            + occurrences(temps@.take(index + 1), Temp { num: num as usize }) * weight by {
            let before = occurrences(temps@.take(index as int), Temp { num: num as usize });
            let after = occurrences(temps@.take(index + 1), Temp { num: num as usize });
            assert(earlier[num] == exact[num] + before * weight);
            if temp == (Temp { num: num as usize }) {
                assert(after == before + 1);
                assert(after * weight == before * weight + weight) by (nonlinear_arith)
                    requires
                        after == before + 1,
                ;
            } else {
                assert(after == before);
            }
        }
        index += 1;
    }
    assert(temps@.take(temps.len() as int) =~= temps@);
    Ghost(now)
}

/// The cost of spilling each temporary below `temp_count`.
pub fn spill_costs(graph: &FlowGraph, temp_count: usize, first_fresh: usize) -> (costs: Vec<u64>)
    requires
        graph.wf(),
    ensures
        costs@.len() == temp_count,
        forall|num: int|
            0 <= num < temp_count ==> #[trigger] costs@[num] == spill_cost(
                *graph,
                Temp { num: num as usize },
                first_fresh as nat,
            ),
{
    let mut costs: Vec<u64> = Vec::new();
    while costs.len() < temp_count
        invariant
            costs@.len() <= temp_count,
            forall|num: int| 0 <= num < costs@.len() ==> costs@[num] == 0,
        decreases temp_count - costs.len(),
    {
        costs.push(0);
    }
    let ghost mut exact: Seq<nat> = Seq::new(temp_count as nat, |num: int| 0nat);
    let mut node: usize = 0;
    while node < graph.defs.len()
        invariant
            graph.wf(),
            node <= graph.len(),
            costs@.len() == temp_count,
            exact.len() == temp_count,
            forall|num: int| 0 <= num < temp_count ==> costs@[num] == capped(#[trigger] exact[num]),
            forall|num: int|
                0 <= num < temp_count ==> #[trigger] exact[num] == touches_before(
                    *graph,
                    node as int,
                    Temp { num: num as usize },
                ),
        decreases graph.defs.len() - node,
    {
        let depth = node_depth(graph, node);
        let weight = weight_of(depth);
        assert(weight == depth_weight(loop_depth(*graph, node as int)));
        let ghost start = exact;
        let written = count_touches(&mut costs, &graph.defs[node], weight, Ghost(exact));
        let read = count_touches(&mut costs, &graph.uses[node], weight, Ghost(written@));
        proof {
            exact = read@;
            assert forall|num: int| 0 <= num < temp_count implies #[trigger] exact[num]
                == touches_before(*graph, node + 1, Temp { num: num as usize }) by {
                let temp = Temp { num: num as usize };
                let defined = occurrences(graph.defs@[node as int]@, temp);
                let used = occurrences(graph.uses@[node as int]@, temp);
                assert(written@[num] == start[num] + defined * weight);
                assert(read@[num] == written@[num] + used * weight);
                assert((defined + used) * weight == defined * weight + used * weight)
                    by (nonlinear_arith);
            }
        }
        node += 1;
    }
    assert forall|other: int| 0 <= other < temp_count implies #[trigger] costs@[other] == capped(
        touches_before(*graph, graph.len() as int, Temp { num: other as usize }),
    ) by {
        assert(costs@[other] == capped(exact[other]));
    }
    let mut num: usize = first_fresh;
    while num < temp_count
        invariant
            first_fresh <= num,
            costs@.len() == temp_count,
            forall|other: int|
                0 <= other < temp_count ==> #[trigger] costs@[other] == if first_fresh <= other
                    < num {
                    u64::MAX
                } else {
                    capped(
                        touches_before(*graph, graph.len() as int, Temp { num: other as usize }),
                    )
                },
        decreases temp_count - num,
    {
        costs.set(num, u64::MAX);
        num += 1;
    }
    costs
}

/// The cost of spilling each temporary below `temp_count`.
pub open spec fn costs_of(graph: FlowGraph, temp_count: nat, first_fresh: nat) -> Seq<u64> {
    Seq::new(
        temp_count,
        |num: int| spill_cost(graph, Temp { num: num as usize }, first_fresh),
    )
}

/// What one round of allocation finds out about a program.
#[derive(Clone, Debug)]
pub struct Analysis {
    pub graph: FlowGraph,
    pub live: Liveness,
    pub interference: Interference,
    pub reduction: Reduction,
    pub colours: Vec<Option<usize>>,
}

impl Analysis {
    /// Whether this is the control-flow graph of the instructions, the
    /// liveness of the temporaries below `temp_count` in it, their
    /// interference graph, what is left of it after coalescing, and a
    /// colouring of the graph.
    pub open spec fn describes(&self, instructions: Seq<Instruction>, temp_count: nat) -> bool {
        &&& is_flow_graph(self.graph, instructions)
        &&& self.live.describes(self.graph, temp_count)
        &&& is_interference(self.interference, self.graph, self.live, temp_count)
        &&& is_reduction(self.reduction, self.interference)
        &&& is_colouring(self.interference, self.reduction, self.colours@)
    }
}

impl Analysis {
    /// Whether the temporaries left the graph as the rounds of the
    /// reduction say, with the moves of the program and with the costs of
    /// spilling, where temporaries from `first_fresh` on are spilled last.
    pub open spec fn chooses(&self, temp_count: nat, first_fresh: nat) -> bool {
        reduces(
            self.reduction,
            self.interference,
            pairs_before(self.graph, self.graph.len() as int),
            costs_of(self.graph, temp_count, first_fresh),
        )
    }
}

/// Two temporaries that interfere never share a register.
pub proof fn lemma_interfering_differ(
    analysis: Analysis,
    instructions: Seq<Instruction>,
    temp_count: nat,
    a: int,
    b: int,
)
    requires
        analysis.describes(instructions, temp_count),
        0 <= a < temp_count,
        0 <= b < temp_count,
        interfere(analysis.graph, analysis.live, a, b),
        analysis.colours@[a] is Some,
        analysis.colours@[b] is Some,
    ensures
        analysis.colours@[a] != analysis.colours@[b],
{
    assert(analysis.interference.edge(a, b));
}

/// Analyses a program: control flow, liveness, interference, and a
/// colouring. Temporaries from `first_fresh` on are spilled last.
pub fn analyse(instructions: &Vec<Instruction>, temp_count: usize, first_fresh: usize) -> (analysis:
    Analysis)
    ensures
        analysis.describes(instructions@, temp_count as nat),
        analysis.chooses(temp_count as nat, first_fresh as nat),
{
    let graph = flow_graph(instructions);
    let live = liveness(&graph, temp_count);
    assert forall|num: int| 0 <= num < temp_count implies (#[trigger] live.live_out@[num])@.len()
        == graph.len() by {
        assert(is_liveness(
            graph,
            Temp { num: num as usize },
            live.live_in@[num]@,
            live.live_out@[num]@,
        ));
    }
    let interference = interference(&graph, &live, temp_count);
    let costs = spill_costs(&graph, temp_count, first_fresh);
    let moves = move_pairs(&graph);
    assert(costs@ =~= costs_of(graph, temp_count as nat, first_fresh as nat));
    let (reduction, colours) = colour(&interference, &moves, &costs);
    Analysis { graph, live, interference, reduction, colours }
}

/// A temporary that lives in the frame, and where.
#[derive(Clone, Copy, Debug, PartialEq, Eq, Structural)]
pub struct Spill {
    pub temp: Temp,
    pub offset: i64,
}

/// Why allocation gave up.
#[derive(Clone, Copy, Debug, PartialEq, Eq, Structural)]
pub enum AllocError {
    /// An instruction touches a temporary that the source never handed out.
    UnknownTemp,
    /// The temporaries ran out.
    OutOfTemps,
    /// The frame is full.
    OutOfFrame,
    /// A temporary that cannot be spilled, or was spilled already, got no
    /// register.
    Unspillable(Temp),
}

/// The program after the temporaries have been spilled one after the
/// other, and the number of the next unused temporary.
pub open spec fn spilled_all(instructions: Seq<InstructionView>, spills: Seq<Spill>, next: nat) -> (
    Seq<InstructionView>,
    nat,
)
    decreases spills.len(),
{
    if spills.len() == 0 {
        (instructions, next)
    } else {
        let (before, next) = spilled_all(instructions, spills.drop_last(), next);
        spilled_program(before, spills.last().temp, spills.last().offset, next)
    }
}

/// Where in the frame a temporary lives, if it was spilled.
pub open spec fn slot_of(spills: Seq<Spill>, temp: Temp) -> Option<i64>
    decreases spills.len(),
{
    if spills.len() == 0 {
        None
    } else if spills.last().temp == temp {
        Some(spills.last().offset)
    } else {
        slot_of(spills.drop_last(), temp)
    }
}

/// The home of a temporary: its word of the frame if it was spilled, its
/// register otherwise.
pub open spec fn home_of(spills: Seq<Spill>, colours: Seq<Option<usize>>, temp: Temp) -> PointerLocation {
    match slot_of(spills, temp) {
        Some(offset) => PointerLocation::Frame(offset),
        None => PointerLocation::Register(colours[temp.num as int]->0),
    }
}

/// The result of allocation.
#[derive(Clone, Debug)]
pub struct Allocation {
    /// The instructions over registers, without moves from a register to
    /// itself.
    pub instructions: Vec<Instruction>,
    /// The instructions over temporaries, after spilling.
    pub program: Vec<Instruction>,
    /// The analysis of `program`, with the colouring that was applied.
    pub analysis: Analysis,
    /// The temporaries that were spilled, in order.
    pub spills: Vec<Spill>,
    /// The control-flow graph of the instructions as they were given.
    pub flow: FlowGraph,
    /// The liveness of the temporaries in the instructions as they were
    /// given.
    pub live: Liveness,
    /// The home of each temporary of the instructions as they were given.
    pub homes: Vec<PointerLocation>,
    /// The pointers that are live at each call site.
    pub pointer_map: Vec<CallSite>,
}

impl Allocation {
    /// Whether this is an allocation for the given instructions, whose
    /// temporaries are below `first`, with call sites and temporaries that
    /// hold pointers as given, with the words of the frame in which
    /// escaping variables hold pointers, ending with `last` as the next
    /// unused temporary.
    pub open spec fn allocates(
        &self,
        given: Seq<Instruction>,
        first: nat,
        last: nat,
        call_sites: Seq<Label>,
        pointers: Seq<Temp>,
        words: Seq<i64>,
    ) -> bool {
        &&& temps_below(instruction_views(given), first)
        &&& instruction_views(self.program@) == spilled_all(
            instruction_views(given),
            self.spills@,
            first,
        ).0
        &&& last == spilled_all(instruction_views(given), self.spills@, first).1
        &&& temps_below(instruction_views(self.program@), last)
        &&& self.analysis.describes(self.program@, last)
        &&& self.analysis.chooses(last, first)
        &&& forall|num: int| 0 <= num < last ==> (#[trigger] self.analysis.colours@[num]) is Some
        &&& instruction_views(self.instructions@) == coloured_from(
            instruction_views(self.program@),
            0,
            self.analysis.colours@,
        )
        &&& registers_only(instruction_views(self.instructions@))
        &&& no_redundant_moves(instruction_views(self.instructions@))
        &&& is_flow_graph(self.flow, given)
        &&& self.live.describes(self.flow, first)
        &&& self.homes@.len() == first
        &&& forall|num: int|
            0 <= num < first ==> #[trigger] self.homes@[num] == home_of(
                self.spills@,
                self.analysis.colours@,
                Temp { num: num as usize },
            )
        &&& self.pointer_map@.len() == call_sites.len()
        &&& forall|i: int|
            0 <= i < call_sites.len() ==> is_site_entry(
                #[trigger] self.pointer_map@[i],
                given,
                self.live,
                call_sites[i],
                pointers,
                self.homes@,
                words,
            )
    }
}

/// One round of allocation: the program that was analysed, the analysis,
/// the number of temporaries that were spilled before the round, and the
/// number that the round spilled.
pub struct Round {
    pub program: Seq<Instruction>,
    pub analysis: Analysis,
    pub before: nat,
    pub count: nat,
}

/// The temporaries that the colouring of a round leaves without a
/// register, by rising number.
pub open spec fn left_by(round: Round) -> Seq<Temp> {
    uncoloured(round.analysis.colours@, round.analysis.colours@.len() as int)
}

/// Whether a round belongs to the spills: its program is the given one
/// after the spills made before it, its analysis describes that program,
/// the temporaries left the graph as the rounds of the reduction say,
/// and what it spilled are the first of the temporaries that its
/// colouring left without a register, in their order.
#[verifier::opaque]
pub open spec fn is_round(
    round: Round,
    spills: Seq<Spill>,
    given: Seq<InstructionView>,
    first: nat,
) -> bool {
    &&& round.before + round.count <= spills.len()
    &&& instruction_views(round.program) == spilled_all(
        given,
        spills.take(round.before as int),
        first,
    ).0
    &&& round.analysis.describes(
        round.program,
        spilled_all(given, spills.take(round.before as int), first).1,
    )
    &&& round.analysis.chooses(
        spilled_all(given, spills.take(round.before as int), first).1,
        first,
    )
    &&& round.count <= left_by(round).len()
    &&& forall|j: int|
        0 <= j < round.count ==> spills[round.before + j].temp == #[trigger] left_by(round)[j]
}

/// Whether each spilled temporary is one of the given program, was not
/// spilled before, and got the next word of the frame, `slots` being the
/// number of words in use at the start.
#[verifier::opaque]
pub open spec fn well_spilled(spills: Seq<Spill>, first: nat, slots: nat) -> bool {
    forall|k: int|
        0 <= k < spills.len() ==> (#[trigger] spills[k]).offset == slot_offset((slots + k) as nat)
            && spills[k].temp.num < first && slot_of(spills.take(k), spills[k].temp) is None
}

/// Whether the rounds are the history of the spills: each round belongs
/// to them; each round but the last spilled every temporary that it left
/// without a register, and at least one; the rounds made the spills one
/// after the other; and each spilled temporary is one of the given
/// program, was not spilled before, and got the next word of the frame,
/// `slots` being the number of words in use at the start.
pub open spec fn is_history(
    rounds: Seq<Round>,
    spills: Seq<Spill>,
    given: Seq<InstructionView>,
    first: nat,
    slots: nat,
) -> bool {
    &&& forall|r: int| 0 <= r < rounds.len() ==> is_round(#[trigger] rounds[r], spills, given, first)
    &&& forall|r: int|
        0 <= r < rounds.len() ==> (#[trigger] rounds[r]).before == if r == 0 {
            0
        } else {
            rounds[r - 1].before + rounds[r - 1].count
        }
    &&& forall|r: int|
        0 <= r < rounds.len() - 1 ==> (#[trigger] rounds[r]).count == left_by(rounds[r]).len()
            && rounds[r].count > 0
    &&& spills.len() == if rounds.len() == 0 {
        0
    } else {
        rounds.last().before + rounds.last().count
    }
    &&& well_spilled(spills, first, slots)
}

/// Why the last round could not spill the next temporary that it left
/// without a register: the temporary was made by an earlier spill, or was
/// spilled before; or the frame is full; or the rewriting needs more
/// temporaries than there are.
pub open spec fn stuck(
    round: Round,
    spills: Seq<Spill>,
    given: Seq<InstructionView>,
    first: nat,
    slots: nat,
    error: AllocError,
) -> bool {
    let temp = left_by(round)[round.count as int];
    let spillable = temp.num < first && slot_of(spills, temp) is None;
    let room = slots + spills.len() < MAX_SLOTS;
    &&& round.count < left_by(round).len()
    &&& match error {
        AllocError::UnknownTemp => false,
        AllocError::Unspillable(found) => found == temp && !spillable,
        AllocError::OutOfFrame => spillable && !room,
        AllocError::OutOfTemps => spillable && room && spilled_program(
            spilled_all(given, spills, first).0,
            temp,
            slot_offset((slots + spills.len()) as nat) as i64,
            spilled_all(given, spills, first).1,
        ).1 > usize::MAX,
    }
}

/// When allocation gives up, and why: an instruction names a temporary
/// that is not below `first`; or there is a history of rounds whose last
/// round is stuck. `given` are the instructions, `first` the number of
/// the next unused temporary and `slots` the number of words of the frame
/// that are in use, all at the start.
pub open spec fn fails(given: Seq<InstructionView>, first: nat, slots: nat, error: AllocError) -> bool {
    if error == AllocError::UnknownTemp {
        !temps_below(given, first)
    } else {
        temps_below(given, first) && exists|rounds: Seq<Round>, spills: Seq<Spill>| #[trigger]
            is_history(rounds, spills, given, first, slots) && rounds.len() > 0 && stuck(
                rounds.last(),
                spills,
                given,
                first,
                slots,
                error,
            )
    }
}

/// Whether the allocation ends a history of rounds: the last round left
/// no temporary without a register, and its program and analysis are the
/// allocation's.
pub open spec fn succeeds(given: Seq<InstructionView>, first: nat, slots: nat, allocation: Allocation) -> bool {
    exists|rounds: Seq<Round>| #[trigger]
        is_history(rounds, allocation.spills@, given, first, slots) && rounds.len() > 0
            && left_by(rounds.last()).len() == 0 && rounds.last().program == allocation.program@
            && rounds.last().analysis == allocation.analysis
}

/// A history goes on with a new round, if the last round spilled every
/// temporary that it left without a register, and at least one.
proof fn lemma_history_round(
    rounds: Seq<Round>,
    spills: Seq<Spill>,
    given: Seq<InstructionView>,
    first: nat,
    slots: nat,
    round: Round,
)
    requires
        is_history(rounds, spills, given, first, slots),
        rounds.len() > 0 ==> rounds.last().count == left_by(rounds.last()).len()
            && rounds.last().count > 0,
        round.before == spills.len(),
        round.count == 0,
        instruction_views(round.program) == spilled_all(given, spills, first).0,
        round.analysis.describes(round.program, spilled_all(given, spills, first).1),
        round.analysis.chooses(spilled_all(given, spills, first).1, first),
    ensures
        is_history(rounds.push(round), spills, given, first, slots),
{
    let next = rounds.push(round);
    assert(is_round(round, spills, given, first)) by {
        reveal(is_round);
        assert(spills.take(spills.len() as int) =~= spills);
    }
    assert forall|r: int| 0 <= r < next.len() implies is_round(
        #[trigger] next[r],
        spills,
        given,
        first,
    ) by {
        if r < rounds.len() {
            assert(next[r] == rounds[r]);
        }
    }
    assert forall|r: int| 0 <= r < next.len() implies (#[trigger] next[r]).before == if r == 0 {
        0
    } else {
        next[r - 1].before + next[r - 1].count
    } by {
        if r < rounds.len() {
            assert(next[r] == rounds[r]);
            if r > 0 {
                assert(next[r - 1] == rounds[r - 1]);
            }
        } else if r > 0 {
            assert(next[r - 1] == rounds.last());
        }
    }
    assert forall|r: int| 0 <= r < next.len() - 1 implies (#[trigger] next[r]).count == left_by(
        next[r],
    ).len() && next[r].count > 0 by {
        assert(next[r] == rounds[r]);
    }
}

/// A history goes on with one more spill of its last round.
proof fn lemma_history_spill(
    rounds: Seq<Round>,
    spills: Seq<Spill>,
    given: Seq<InstructionView>,
    first: nat,
    slots: nat,
    spill: Spill,
)
    requires
        is_history(rounds, spills, given, first, slots),
        rounds.len() > 0,
        rounds.last().count < left_by(rounds.last()).len(),
        spill.temp == left_by(rounds.last())[rounds.last().count as int],
        spill.offset == slot_offset((slots + spills.len()) as nat),
        spill.temp.num < first,
        slot_of(spills, spill.temp) is None,
    ensures
        is_history(
            rounds.update(
                rounds.len() - 1,
                Round { count: rounds.last().count + 1, ..rounds.last() },
            ),
            spills.push(spill),
            given,
            first,
            slots,
        ),
{
    let last = rounds.len() - 1;
    let grown = Round { count: rounds.last().count + 1, ..rounds.last() };
    let next = rounds.update(last, grown);
    let more = spills.push(spill);
    assert forall|r: int| 0 <= r < next.len() implies is_round(
        #[trigger] next[r],
        more,
        given,
        first,
    ) by {
        reveal(is_round);
        assert(is_round(rounds[r], spills, given, first));
        assert(rounds[r].before == if r == 0 {
            0
        } else {
            rounds[r - 1].before + rounds[r - 1].count
        });
        assert(more.take(rounds[r].before as int) =~= spills.take(rounds[r].before as int));
        assert(left_by(next[r]) == left_by(rounds[r]));
        assert forall|j: int| 0 <= j < next[r].count implies more[next[r].before + j].temp
            == #[trigger] left_by(next[r])[j] by {
            if j < rounds[r].count {
                assert(spills[rounds[r].before + j].temp == left_by(rounds[r])[j]);
                assert(more[rounds[r].before + j] == spills[rounds[r].before + j]);
            }
        }
    }
    assert forall|r: int| 0 <= r < next.len() implies (#[trigger] next[r]).before == if r == 0 {
        0
    } else {
        next[r - 1].before + next[r - 1].count
    } by {
        assert(rounds[r].before == if r == 0 {
            0
        } else {
            rounds[r - 1].before + rounds[r - 1].count
        });
    }
    assert forall|r: int| 0 <= r < next.len() - 1 implies (#[trigger] next[r]).count == left_by(
        next[r],
    ).len() && next[r].count > 0 by {
        assert(next[r] == rounds[r]);
    }
    lemma_well_spilled(spills, first, slots, spill);
}

/// One more spill of a temporary that was not spilled before, into the
/// next word of the frame, keeps the spills well made.
proof fn lemma_well_spilled(spills: Seq<Spill>, first: nat, slots: nat, spill: Spill)
    requires
        well_spilled(spills, first, slots),
        spill.offset == slot_offset((slots + spills.len()) as nat),
        spill.temp.num < first,
        slot_of(spills, spill.temp) is None,
    ensures
        well_spilled(spills.push(spill), first, slots),
{
    reveal(well_spilled);
    let more = spills.push(spill);
    assert forall|k: int| 0 <= k < more.len() implies (#[trigger] more[k]).offset == slot_offset(
        (slots + k) as nat,
    ) && more[k].temp.num < first && slot_of(more.take(k), more[k].temp) is None by {
        if k < spills.len() {
            assert(more[k] == spills[k]);
            assert(more.take(k) =~= spills.take(k));
        } else {
            assert(more.take(k) =~= spills);
        }
    }
}

/// Which of the temporaries below `first` have been spilled.
pub open spec fn spilled_marks(spills: Seq<Spill>, first: nat) -> Seq<bool> {
    Seq::new(first, |num: int| slot_of(spills, Temp { num: num as usize }) is Some)
}

/// Spills of different temporaries below `first` leave as many of them
/// unspilled as there are spills fewer than temporaries.
proof fn lemma_spills_counted(spills: Seq<Spill>, first: nat, count: int)
    requires
        first <= usize::MAX,
        0 <= count <= spills.len(),
        forall|k: int|
            0 <= k < spills.len() ==> (#[trigger] spills[k]).temp.num < first && slot_of(
                spills.take(k),
                spills[k].temp,
            ) is None,
    ensures
        unvisited(spilled_marks(spills.take(count), first)) + count == first,
    decreases count,
{
    if count == 0 {
        assert(spills.take(0) =~= Seq::<Spill>::empty());
        lemma_unvisited_all(spilled_marks(spills.take(0), first));
    } else {
        lemma_spills_counted(spills, first, count - 1);
        let before = spills.take(count - 1);
        let now = spills.take(count);
        let spill = spills[count - 1];
        assert(now.drop_last() =~= before);
        assert(now.last() == spill);
        lemma_visit(spilled_marks(before, first), spill.temp.num as int);
        assert(spilled_marks(now, first) =~= spilled_marks(before, first).update(
            spill.temp.num as int,
            true,
        )) by {
            assert forall|num: int| 0 <= num < first implies spilled_marks(now, first)[num]
                == spilled_marks(before, first).update(spill.temp.num as int, true)[num] by {
                let temp = Temp { num: num as usize };
                if temp == spill.temp {
                    assert(slot_of(now, temp) == Some(spill.offset));
                } else {
                    assert(slot_of(now, temp) == slot_of(before, temp));
                }
            }
        }
    }
}

/// The rounds of allocation come to an end: a history spills no more
/// temporaries than the given program has, and has at most one round
/// more than spills.
pub proof fn lemma_history_bounded(
    rounds: Seq<Round>,
    spills: Seq<Spill>,
    given: Seq<InstructionView>,
    first: nat,
    slots: nat,
)
    requires
        first <= usize::MAX,
        is_history(rounds, spills, given, first, slots),
    ensures
        spills.len() <= first,
        rounds.len() <= spills.len() + 1,
{
    reveal(well_spilled);
    lemma_spills_counted(spills, first, spills.len() as int);
    if rounds.len() > 0 {
        lemma_rounds_spill(rounds, spills, given, first, slots, rounds.len() - 1);
    }
}

/// Each round of a history has at least as many spills in front of it as
/// rounds.
proof fn lemma_rounds_spill(
    rounds: Seq<Round>,
    spills: Seq<Spill>,
    given: Seq<InstructionView>,
    first: nat,
    slots: nat,
    round: int,
)
    requires
        is_history(rounds, spills, given, first, slots),
        0 <= round < rounds.len(),
    ensures
        rounds[round].before >= round,
    decreases round,
{
    if round > 0 {
        lemma_rounds_spill(rounds, spills, given, first, slots, round - 1);
        assert(rounds[round].before == rounds[round - 1].before + rounds[round - 1].count);
        assert(rounds[round - 1].count > 0);
    }
}

/// Gives every temporary of the instructions a register. As long as the
/// colouring leaves temporaries without one, each of them is given a word
/// of the frame and the instructions are rewritten; a round spills
/// temporaries that were not spilled before, so that the rounds come to an
/// end.
pub fn allocate(
    instructions: &Vec<Instruction>,
    frame: &mut Frame,
    call_sites: &Vec<Label>,
    pointers: &Vec<Temp>,
    words: &Vec<i64>,
    source: &mut TempSource,
) -> (result: Result<Allocation, AllocError>)
    requires
        old(frame).wf(),
    ensures
        final(frame).wf(),
        final(frame).name == old(frame).name,
        final(frame).formals == old(frame).formals,
        final(source).next_label() == old(source).next_label(),
        result == Err::<Allocation, AllocError>(AllocError::UnknownTemp) <==> !temps_below(
            instruction_views(instructions@),
            old(source).next_temp(),
        ),
        result matches Err(error) ==> fails(
            instruction_views(instructions@),
            old(source).next_temp(),
            old(frame).slots as nat,
            error,
        ),
        result matches Ok(allocation) ==> {
            &&& succeeds(
                instruction_views(instructions@),
                old(source).next_temp(),
                old(frame).slots as nat,
                allocation,
            )
            &&& allocation.allocates(
                instructions@,
                old(source).next_temp(),
                final(source).next_temp(),
                call_sites@,
                pointers@,
                words@,
            )
            &&& final(frame).slots == old(frame).slots + allocation.spills@.len()
            &&& forall|k: int|
                0 <= k < allocation.spills@.len() ==> (#[trigger] allocation.spills@[k]).offset
                    == slot_offset((old(frame).slots + k) as nat)
            &&& allocation.spills@.len() <= old(source).next_temp()
            &&& forall|k: int|
                0 <= k < allocation.spills@.len() ==> (#[trigger] allocation.spills@[k]).temp.num
                    < old(source).next_temp()
        },
{
    let first = source.peek_temp();
    if !are_temps_below(instructions, first) {
        return Err(AllocError::UnknownTemp);
    }
    let ghost given = instruction_views(instructions@);
    let flow = flow_graph(instructions);
    let live = liveness(&flow, first);
    let mut program = copy_instructions(instructions);
    let mut marks = unmarked(first);
    let mut offsets: Vec<i64> = Vec::new();
    while offsets.len() < first
        invariant
            offsets@.len() <= first,
        decreases first - offsets.len(),
    {
        offsets.push(0);
    }
    let mut spills: Vec<Spill> = Vec::new();
    let mut finished: Option<Analysis> = None;
    let ghost mut rounds: Seq<Round> = Seq::empty();
    let ghost slots = old(frame).slots as nat;
    proof {
        lemma_unvisited_all(marks@);
        reveal(well_spilled);
    }
    while finished.is_none()
        invariant
            slots == old(frame).slots,
            is_history(rounds, spills@, given, first as nat, slots),
            rounds.len() > 0 ==> rounds.last().count == left_by(rounds.last()).len(),
            finished is None && rounds.len() > 0 ==> rounds.last().count > 0,
            finished matches Some(analysis) ==> rounds.len() > 0 && rounds.last().analysis
                == analysis && rounds.last().program == program@ && left_by(rounds.last()).len()
                == 0,
            unvisited(marks@) + spills@.len() == first,
            forall|k: int| 0 <= k < spills@.len() ==> (#[trigger] spills@[k]).temp.num < first,
            frame.wf(),
            frame.name == old(frame).name,
            frame.formals == old(frame).formals,
            frame.slots == old(frame).slots + spills@.len(),
            forall|k: int|
                0 <= k < spills@.len() ==> (#[trigger] spills@[k]).offset == slot_offset(
                    (old(frame).slots + k) as nat,
                ),
            source.next_label() == old(source).next_label(),
            first == old(source).next_temp(),
            first <= source.next_temp(),
            given == instruction_views(instructions@),
            temps_below(given, first as nat),
            marks@.len() == first,
            offsets@.len() == first,
            instruction_views(program@) == spilled_all(given, spills@, first as nat).0,
            source.next_temp() == spilled_all(given, spills@, first as nat).1,
            temps_below(instruction_views(program@), source.next_temp()),
            forall|num: int|
                0 <= num < first ==> slot_of(spills@, Temp { num: num as usize }) == if (
                #[trigger] marks@[num]) {
                    Some(offsets@[num])
                } else {
                    None
                },
            finished matches Some(analysis) ==> analysis.describes(program@, source.next_temp())
                && analysis.chooses(source.next_temp(), first as nat) && forall|num: int|
                0 <= num < source.next_temp() ==> (#[trigger] analysis.colours@[num]) is Some,
        decreases
                unvisited(marks@) + if finished is None {
                    1nat
                } else {
                    0nat
                },
    {
        let count = source.peek_temp();
        let analysis = analyse(&program, count, first);
        let spilled = spilled_temps_of(&analysis);
        proof {
            let round = Round { program: program@, analysis, before: spills@.len(), count: 0 };
            lemma_history_round(rounds, spills@, given, first as nat, slots, round);
            rounds = rounds.push(round);
        }
        if spilled.len() == 0 {
            assert forall|num: int| 0 <= num < count implies (#[trigger] analysis.colours@[num])
                is Some by {
                assert(!spilled@.contains(Temp { num: num as usize }));
            }
            finished = Some(analysis);
        } else {
            let ghost left = unvisited(marks@);
            let mut index: usize = 0;
            while index < spilled.len()
                invariant
                    unvisited(marks@) + spills@.len() == first,
                    forall|k: int|
                        0 <= k < spills@.len() ==> (#[trigger] spills@[k]).temp.num < first,
                    frame.wf(),
                    frame.name == old(frame).name,
                    frame.formals == old(frame).formals,
                    frame.slots == old(frame).slots + spills@.len(),
                    forall|k: int|
                        0 <= k < spills@.len() ==> (#[trigger] spills@[k]).offset == slot_offset(
                            (old(frame).slots + k) as nat,
                        ),
                    source.next_label() == old(source).next_label(),
                    first == old(source).next_temp(),
                    first <= source.next_temp(),
                    given == instruction_views(instructions@),
                    temps_below(given, first as nat),
                    marks@.len() == first,
                    offsets@.len() == first,
                    instruction_views(program@) == spilled_all(given, spills@, first as nat).0,
                    source.next_temp() == spilled_all(given, spills@, first as nat).1,
                    temps_below(instruction_views(program@), source.next_temp()),
                    forall|num: int|
                        0 <= num < first ==> slot_of(spills@, Temp { num: num as usize }) == if (
                        #[trigger] marks@[num]) {
                            Some(offsets@[num])
                        } else {
                            None
                        },
                    index <= spilled@.len(),
                    unvisited(marks@) + index == left,
                    finished is None,
                    slots == old(frame).slots,
                    is_history(rounds, spills@, given, first as nat, slots),
                    rounds.len() > 0,
                    rounds.last().count == index,
                    left_by(rounds.last()) == spilled@,
                decreases spilled.len() - index,
            {
                let temp = spilled[index];
                if temp.num >= first || marks[temp.num] {
                    assert(stuck(
                        rounds.last(),
                        spills@,
                        given,
                        first as nat,
                        slots,
                        AllocError::Unspillable(temp),
                    ));
                    return Err(AllocError::Unspillable(temp));
                }
                assert(slot_of(spills@, temp) is None);
                let offset = match frame.alloc_local(true, source) {
                    Some(Access::InFrame(offset)) => offset,
                    _ => {
                        assert(stuck(
                            rounds.last(),
                            spills@,
                            given,
                            first as nat,
                            slots,
                            AllocError::OutOfFrame,
                        ));
                        return Err(AllocError::OutOfFrame);
                    },
                };
                let ghost views = instruction_views(program@);
                let ghost next = source.next_temp();
                let ghost earlier = spills@;
                let ghost marked = marks@;
                let ghost placed = offsets@;
                proof {
                    lemma_visit(marks@, temp.num as int);
                }
                marks.set(temp.num, true);
                offsets.set(temp.num, offset);
                program = match spill_temp(program, temp, offset, source) {
                    Some(rewritten) => rewritten,
                    None => {
                        assert(stuck(
                            rounds.last(),
                            spills@,
                            given,
                            first as nat,
                            slots,
                            AllocError::OutOfTemps,
                        ));
                        return Err(AllocError::OutOfTemps);
                    },
                };
                spills.push(Spill { temp, offset });
                proof {
                    lemma_history_spill(
                        rounds,
                        earlier,
                        given,
                        first as nat,
                        slots,
                        Spill { temp, offset },
                    );
                    rounds =
                    rounds.update(
                        rounds.len() - 1,
                        Round { count: rounds.last().count + 1, ..rounds.last() },
                    );
                    source.lemma_in_range();
                    lemma_spilled_below(views, 0, temp, offset, next, is_read(views, temp));
                    lemma_spilled_grows(views, 0, temp, offset, next, is_read(views, temp));
                    assert(spills@.drop_last() =~= earlier);
                    assert forall|num: int| 0 <= num < first implies slot_of(
                        spills@,
                        Temp { num: num as usize },
                    ) == if (#[trigger] marks@[num]) {
                        Some(offsets@[num])
                    } else {
                        None
                    } by {
                        assert(slot_of(earlier, Temp { num: num as usize }) == if marked[num] {
                            Some(placed[num])
                        } else {
                            None
                        });
                    }
                    assert forall|k: int| 0 <= k < spills@.len() implies (
                    #[trigger] spills@[k]).offset == slot_offset((old(frame).slots + k) as nat) by {
                        if k < earlier.len() {
                            assert(spills@[k] == earlier[k]);
                        }
                    }
                    assert forall|k: int| 0 <= k < spills@.len() implies (
                    #[trigger] spills@[k]).temp.num < first by {
                        if k < earlier.len() {
                            assert(spills@[k] == earlier[k]);
                        }
                    }
                }
                index += 1;
            }
        }
    }
    let analysis = match finished {
        Some(analysis) => analysis,
        None => {
            return Err(AllocError::OutOfTemps);
        },
    };
    let count = source.peek_temp();
    assert(all_coloured(instruction_views(program@), analysis.colours@)) by {
        assert forall|i: int, temp: Temp|
            0 <= i < instruction_views(program@).len() && (#[trigger] instruction_views(
                program@,
            )[i]).mentions(temp) implies is_register(
            #[trigger] colour_of(analysis.colours@, temp),
        ) by {
            assert(temp.num < count);
            assert(analysis.colours@[temp.num as int] is Some);
            if temp.num >= REGISTER_COUNT {
                assert(is_free_register(analysis.colours@[temp.num as int]->0 as int));
            }
        }
    }
    let coloured = apply_colours(&program, &analysis.colours);
    let mut homes: Vec<PointerLocation> = Vec::new();
    let mut num: usize = 0;
    while num < first
        invariant
            num <= first,
            first <= count,
            marks@.len() == first,
            offsets@.len() == first,
            analysis.colours@.len() == count,
            forall|other: int| 0 <= other < count ==> (#[trigger] analysis.colours@[other]) is Some,
            homes@.len() == num,
            forall|other: int|
                0 <= other < first ==> slot_of(spills@, Temp { num: other as usize }) == if (
                #[trigger] marks@[other]) {
                    Some(offsets@[other])
                } else {
                    None
                },
            forall|other: int|
                0 <= other < num ==> #[trigger] homes@[other] == home_of(
                    spills@,
                    analysis.colours@,
                    Temp { num: other as usize },
                ),
        decreases first - num,
    {
        let home = if marks[num] {
            PointerLocation::Frame(offsets[num])
        } else {
            match analysis.colours[num] {
                Some(register) => PointerLocation::Register(register),
                None => PointerLocation::Register(0),
            }
        };
        assert(marks@[num as int] == (slot_of(spills@, Temp { num }) is Some));
        homes.push(home);
        num += 1;
    }
    let map = pointer_map(instructions, &live, call_sites, pointers, &homes, words);
    let allocation = Allocation {
        instructions: coloured,
        program,
        analysis,
        spills,
        flow,
        live,
        homes,
        pointer_map: map,
    };
    assert(is_history(rounds, allocation.spills@, given, first as nat, slots));
    Ok(allocation)
}

fn spilled_temps_of(analysis: &Analysis) -> (spilled: Vec<Temp>)
    ensures
        spilled@ == uncoloured(analysis.colours@, analysis.colours@.len() as int),
        forall|temp: Temp|
            spilled@.contains(temp) <==> (temp.num < analysis.colours@.len()
                && analysis.colours@[temp.num as int] is None),
        spilled@.no_duplicates(),
{
    crate::colour::spilled_temps(&analysis.colours)
}

} // verus!
