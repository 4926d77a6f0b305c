//! The control-flow graph of a list of instructions: one node per
//! instruction, an edge to each instruction that may run next.

use crate::assembly::{copy_temps, Instruction};
use crate::temp::{Label, Temp};
use vstd::prelude::*;

verus! {

/// What dataflow analysis needs of each instruction.
#[derive(Clone, Debug, PartialEq, Eq)]
pub struct FlowGraph {
    /// The temporaries that each node writes.
    pub defs: Vec<Vec<Temp>>,
    /// The temporaries that each node reads.
    pub uses: Vec<Vec<Temp>>,
    /// The nodes that may run right after each node.
    pub successors: Vec<Vec<usize>>,
    /// Whether each node is a move between two temporaries.
    pub moves: Vec<bool>,
}

impl FlowGraph {
    /// The number of nodes.
    pub open spec fn len(&self) -> nat {
        self.defs@.len()
    }

    /// All four lists speak of the same nodes, and every edge ends at a
    /// node.
    pub open spec fn wf(&self) -> bool {
        &&& self.uses@.len() == self.len()
        &&& self.successors@.len() == self.len()
        &&& self.moves@.len() == self.len()
        &&& forall|node: int, k: int|
            0 <= node < self.len() && 0 <= k < self.successors@[node]@.len()
                ==> #[trigger] self.successors@[node]@[k] < self.len()
    }

    /// Whether the node writes the temporary.
    pub open spec fn defines(&self, node: int, temp: Temp) -> bool {
        self.defs@[node]@.contains(temp)
    }

    /// Whether the node reads the temporary.
    pub open spec fn reads(&self, node: int, temp: Temp) -> bool {
        self.uses@[node]@.contains(temp)
    }

    /// Whether `to` may run right after `from`.
    pub open spec fn flows(&self, from: int, to: int) -> bool {
        holds_node(self.successors@[from]@, to)
    }
}

/// Whether the instruction defines this label.
pub open spec fn defines_label(instruction: Instruction, label: Label) -> bool {
    match instruction {
        Instruction::Label { label: defined, .. } => defined == label,
        _ => false,
    }
}

/// The first instruction at or after `from` that defines the label.
pub open spec fn label_position(instructions: Seq<Instruction>, label: Label, from: int) -> Option<
    int,
>
    decreases instructions.len() - from,
{
    if from < 0 || from >= instructions.len() {
        None
    } else if defines_label(instructions[from], label) {
        Some(from)
    } else {
        label_position(instructions, label, from + 1)
    }
}

/// The nodes at which the first `count` labels are defined, in the order
/// of the labels. A label that is not defined gives no node.
pub open spec fn targets_before(instructions: Seq<Instruction>, labels: Seq<Label>, count: int) -> Seq<
    usize,
>
    decreases count,
{
    if count <= 0 || count > labels.len() {
        Seq::empty()
    } else {
        let rest = targets_before(instructions, labels, count - 1);
        match label_position(instructions, labels[count - 1], 0) {
            Some(at) => rest.push(at as usize),
            None => rest,
        }
    }
}

/// Whether a list of nodes holds the node `to`.
pub open spec fn holds_node(nodes: Seq<usize>, to: int) -> bool {
    exists|j: int| 0 <= j < nodes.len() && #[trigger] nodes[j] == to
}

/// The nodes that may run right after a node: an instruction that lists
/// jump targets goes to the definitions of those labels and nowhere else;
/// any other instruction goes to the one behind it, if there is one.
pub open spec fn successors_of(instructions: Seq<Instruction>, node: int) -> Seq<usize> {
    match instructions[node] {
        Instruction::Oper { jump: Some(labels), .. } => targets_before(
            instructions,
            labels@,
            labels@.len() as int,
        ),
        _ => if node + 1 < instructions.len() {
            seq![(node + 1) as usize]
        } else {
            Seq::empty()
        },
    }
}

/// Every target of a jump is a node.
pub proof fn lemma_targets_before(instructions: Seq<Instruction>, labels: Seq<Label>, count: int)
    requires
        instructions.len() <= usize::MAX,
    ensures
        forall|k: int|
            0 <= k < targets_before(instructions, labels, count).len() ==> #[trigger] targets_before(
                instructions,
                labels,
                count,
            )[k] < instructions.len(),
    decreases count,
{
    if count <= 0 || count > labels.len() {
    } else {
        lemma_targets_before(instructions, labels, count - 1);
        lemma_label_position(instructions, labels[count - 1], 0);
        let rest = targets_before(instructions, labels, count - 1);
        let all = targets_before(instructions, labels, count);
        assert forall|k: int| 0 <= k < all.len() implies #[trigger] all[k]
            < instructions.len() by {
            if k < rest.len() {
                assert(all[k] == rest[k]);
            }
        }
    }
}

/// Where a label is found, it is defined there and not before.
pub proof fn lemma_label_position(instructions: Seq<Instruction>, label: Label, from: int)
    requires
        0 <= from,
    ensures
        match label_position(instructions, label, from) {
            Some(at) => from <= at < instructions.len() && defines_label(instructions[at], label)
                && forall|i: int|
                from <= i < at ==> !defines_label(#[trigger] instructions[i], label),
            None => forall|i: int|
                from <= i < instructions.len() ==> !defines_label(
                    #[trigger] instructions[i],
                    label,
                ),
        },
    decreases instructions.len() - from,
{
    if from < instructions.len() && !defines_label(instructions[from], label) {
        lemma_label_position(instructions, label, from + 1);
    }
}

/// Finds the first instruction that defines the label.
pub fn find_label(instructions: &Vec<Instruction>, label: Label) -> (found: Option<usize>)
    ensures
        match found {
            Some(at) => at < instructions@.len() && label_position(instructions@, label, 0)
                == Some(at as int),
            None => label_position(instructions@, label, 0) is None,
        },
{
    let mut index: usize = 0;
    while index < instructions.len()
        invariant
            index <= instructions.len(),
            forall|i: int| 0 <= i < index ==> !defines_label(#[trigger] instructions@[i], label),
        decreases instructions.len() - index,
    {
        let defined = match &instructions[index] {
            Instruction::Label { label: defined, .. } => *defined == label,
            _ => false,
        };
        if defined {
            proof {
                lemma_label_position(instructions@, label, 0);
            }
            return Some(index);
        }
        index += 1;
    }
    proof {
        lemma_label_position(instructions@, label, 0);
    }
    None
}

fn jump_targets(instructions: &Vec<Instruction>, labels: &Vec<Label>) -> (targets: Vec<usize>)
    ensures
        targets@ == targets_before(instructions@, labels@, labels@.len() as int),
        forall|k: int| 0 <= k < targets@.len() ==> #[trigger] targets@[k] < instructions@.len(),
{
    let mut targets: Vec<usize> = Vec::new();
    let mut index: usize = 0;
    while index < labels.len()
        invariant
            index <= labels.len(),
            targets@ == targets_before(instructions@, labels@, index as int),
        decreases labels.len() - index,
    {
        match find_label(instructions, labels[index]) {
            Some(at) => {
                targets.push(at);
            },
            None => {},
        }
        index += 1;
    }
    let size = instructions.len();
    proof {
        assert(instructions@.len() == size);
        lemma_targets_before(instructions@, labels@, labels@.len() as int);
    }
    targets
}

/// Whether the graph is the control-flow graph of the instructions: one
/// node per instruction, with what the instruction writes and reads,
/// whether it is a move, and the instructions that may run next.
pub open spec fn is_flow_graph(graph: FlowGraph, instructions: Seq<Instruction>) -> bool {
    &&& graph.wf()
    &&& graph.len() == instructions.len()
    &&& forall|node: int|
        0 <= node < instructions.len() ==> (#[trigger] graph.defs@[node])@
            == instructions[node].defs()
    &&& forall|node: int|
        0 <= node < instructions.len() ==> (#[trigger] graph.uses@[node])@
            == instructions[node].uses()
    &&& forall|node: int|
        0 <= node < instructions.len() ==> #[trigger] graph.moves@[node] == (
        instructions[node] is Move)
    &&& forall|node: int|
        0 <= node < instructions.len() ==> (#[trigger] graph.successors@[node])@ == successors_of(
            instructions,
            node,
        )
}

/// Builds the control-flow graph of a list of instructions.
pub fn flow_graph(instructions: &Vec<Instruction>) -> (graph: FlowGraph)
    ensures
        is_flow_graph(graph, instructions@),
{
    let mut graph = FlowGraph {
        defs: Vec::new(),
        uses: Vec::new(),
        successors: Vec::new(),
        moves: Vec::new(),
    };
    let mut node: usize = 0;
    while node < instructions.len()
        invariant
            node <= instructions.len(),
            graph.defs@.len() == node,
            graph.uses@.len() == node,
            graph.successors@.len() == node,
            graph.moves@.len() == node,
            forall|n: int, k: int|
                0 <= n < node && 0 <= k < graph.successors@[n]@.len()
                    ==> #[trigger] graph.successors@[n]@[k] < instructions@.len(),
            forall|n: int| 0 <= n < node ==> (#[trigger] graph.defs@[n])@ == instructions@[n].defs(),
            forall|n: int| 0 <= n < node ==> (#[trigger] graph.uses@[n])@ == instructions@[n].uses(),
            forall|n: int|
                0 <= n < node ==> #[trigger] graph.moves@[n] == (instructions@[n] is Move),
            forall|n: int|
                0 <= n < node ==> (#[trigger] graph.successors@[n])@ == successors_of(
                    instructions@,
                    n,
                ),
        decreases instructions.len() - node,
    {
        let mut defs: Vec<Temp> = Vec::new();
        let mut uses: Vec<Temp> = Vec::new();
        let mut successors: Vec<usize> = Vec::new();
        let mut is_move = false;
        let mut falls = true;
        match &instructions[node] {
            Instruction::Oper { destination, source, jump, .. } => {
                defs = copy_temps(destination);
                uses = copy_temps(source);
                match jump {
                    Some(labels) => {
                        successors = jump_targets(instructions, labels);
                        falls = false;
                    },
                    None => {},
                }
            },
            Instruction::Move { destination, source, .. } => {
                defs.push(*destination);
                uses.push(*source);
                is_move = true;
                assert(defs@ =~= seq![*destination]);
                assert(uses@ =~= seq![*source]);
            },
            Instruction::Label { .. } => {
                assert(defs@ =~= Seq::<Temp>::empty());
                assert(uses@ =~= Seq::<Temp>::empty());
            },
        }
        if falls && instructions.len() - node > 1 {
            successors.push(node + 1);
        }
        assert(successors@ =~= successors_of(instructions@, node as int));
        graph.defs.push(defs);
        graph.uses.push(uses);
        graph.successors.push(successors);
        graph.moves.push(is_move);
        node += 1;
    }
    graph
}

} // verus!
