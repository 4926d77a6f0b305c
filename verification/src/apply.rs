//! The last step of allocation: every temporary is replaced by its
//! register, and moves from a register to itself are dropped.

use crate::assembly::{copy_labels, instruction_views, Instruction, InstructionView};
use crate::frame::is_register;
use crate::temp::Temp;
use vstd::prelude::*;

verus! {

/// The register of a temporary as a temporary, or the temporary itself if
/// it has none.
pub open spec fn colour_of(colours: Seq<Option<usize>>, temp: Temp) -> Temp {
    if temp.num < colours.len() && colours[temp.num as int] is Some {
        Temp { num: colours[temp.num as int]->0 }
    } else {
        temp
    }
}

/// A list of temporaries with each replaced by its register.
pub open spec fn coloured_temps(temps: Seq<Temp>, colours: Seq<Option<usize>>) -> Seq<Temp> {
    temps.map_values(|temp: Temp| colour_of(colours, temp))
}

/// An instruction with each temporary replaced by its register.
pub open spec fn coloured(instruction: InstructionView, colours: Seq<Option<usize>>) -> InstructionView {
    match instruction {
        InstructionView::Oper { assembly, destination, source, jump } => InstructionView::Oper {
            assembly,
            destination: coloured_temps(destination, colours),
            source: coloured_temps(source, colours),
            jump,
        },
        InstructionView::Move { assembly, destination, source } => InstructionView::Move {
            assembly,
            destination: colour_of(colours, destination),
            source: colour_of(colours, source),
        },
        InstructionView::Label { assembly, label } => instruction,
    }
}

/// A move from a temporary to itself.
pub open spec fn is_redundant(instruction: InstructionView) -> bool {
    instruction matches InstructionView::Move { destination, source, .. } && destination == source
}

/// The instructions from `at` on with each temporary replaced by its
/// register, without the moves that have become redundant.
pub open spec fn coloured_from(
    instructions: Seq<InstructionView>,
    at: int,
    colours: Seq<Option<usize>>,
) -> Seq<InstructionView>
    decreases instructions.len() - at,
{
    if at < 0 || at >= instructions.len() {
        Seq::empty()
    } else {
        let instruction = coloured(instructions[at], colours);
        let kept = if is_redundant(instruction) {
            Seq::empty()
        } else {
            seq![instruction]
        };
        kept + coloured_from(instructions, at + 1, colours)
    }
}

/// Whether every temporary that the instructions touch has a register.
pub open spec fn all_coloured(instructions: Seq<InstructionView>, colours: Seq<Option<usize>>) -> bool {
    forall|i: int, temp: Temp|
        0 <= i < instructions.len() && (#[trigger] instructions[i]).mentions(temp) ==> is_register(
            #[trigger] colour_of(colours, temp),
        )
}

/// Whether the instructions touch registers only.
pub open spec fn registers_only(instructions: Seq<InstructionView>) -> bool {
    forall|i: int, temp: Temp|
        0 <= i < instructions.len() && #[trigger] instructions[i].mentions(temp) ==> is_register(
            temp,
        )
}

/// Whether no instruction is a move from a temporary to itself.
pub open spec fn no_redundant_moves(instructions: Seq<InstructionView>) -> bool {
    forall|i: int| 0 <= i < instructions.len() ==> !is_redundant(#[trigger] instructions[i])
}

/// What a coloured instruction touches is the register of something that
/// the instruction touched.
pub proof fn lemma_coloured_mentions(
    instruction: InstructionView,
    colours: Seq<Option<usize>>,
    temp: Temp,
)
    requires
        coloured(instruction, colours).mentions(temp),
    ensures
        exists|before: Temp| instruction.mentions(before) && #[trigger] colour_of(colours, before)
            == temp,
{
    let after = coloured(instruction, colours);
    if after.defs().contains(temp) {
        let i = choose|i: int| 0 <= i < after.defs().len() && after.defs()[i] == temp;
        let before = instruction.defs()[i];
        assert(instruction.defs().contains(before));
        assert(colour_of(colours, before) == temp);
    } else {
        let i = choose|i: int| 0 <= i < after.uses().len() && after.uses()[i] == temp;
        let before = instruction.uses()[i];
        assert(instruction.uses().contains(before));
        assert(colour_of(colours, before) == temp);
    }
}

/// After colouring, every move that is left goes from one register to
/// another; and where every temporary had a register, only registers are
/// left.
pub proof fn lemma_coloured_from(
    instructions: Seq<InstructionView>,
    at: int,
    colours: Seq<Option<usize>>,
)
    requires
        0 <= at,
    ensures
        no_redundant_moves(coloured_from(instructions, at, colours)),
        all_coloured(instructions, colours) ==> registers_only(
            coloured_from(instructions, at, colours),
        ),
    decreases instructions.len() - at,
{
    if at < instructions.len() {
        lemma_coloured_from(instructions, at + 1, colours);
        let instruction = coloured(instructions[at], colours);
        let kept = if is_redundant(instruction) {
            Seq::<InstructionView>::empty()
        } else {
            seq![instruction]
        };
        let rest = coloured_from(instructions, at + 1, colours);
        let result = kept + rest;
        assert forall|i: int| 0 <= i < result.len() implies !is_redundant(#[trigger] result[i]) by {
            if i >= kept.len() {
                assert(result[i] == rest[i - kept.len()]);
            }
        }
        if all_coloured(instructions, colours) {
            assert forall|i: int, temp: Temp|
                0 <= i < result.len() && #[trigger] result[i].mentions(temp) implies is_register(
                temp,
            ) by {
                if i >= kept.len() {
                    assert(result[i] == rest[i - kept.len()]);
                    assert(rest[i - kept.len()].mentions(temp));
                } else {
                    lemma_coloured_mentions(instructions[at], colours, temp);
                    let before = choose|before: Temp|
                        instructions[at].mentions(before) && #[trigger] colour_of(colours, before)
                            == temp;
                    assert(is_register(colour_of(colours, before)));
                }
            }
        }
    }
}

fn colour_temp(colours: &Vec<Option<usize>>, temp: Temp) -> (result: Temp)
    ensures
        result == colour_of(colours@, temp),
{
    if temp.num < colours.len() {
        match colours[temp.num] {
            Some(register) => Temp { num: register },
            None => temp,
        }
    } else {
        temp
    }
}

fn colour_temps(colours: &Vec<Option<usize>>, temps: &Vec<Temp>) -> (result: Vec<Temp>)
    ensures
        result@ == coloured_temps(temps@, colours@),
{
    let mut result: Vec<Temp> = Vec::new();
    let mut index: usize = 0;
    while index < temps.len()
        invariant
            index <= temps.len(),
            result@.len() == index,
            forall|i: int| 0 <= i < index ==> result@[i] == colour_of(colours@, temps@[i]),
        decreases temps.len() - index,
    {
        result.push(colour_temp(colours, temps[index]));
        index += 1;
    }
    assert(result@ =~= coloured_temps(temps@, colours@));
    result
}

/// Replaces every temporary by its register and drops the moves from a
/// register to itself.
pub fn apply_colours(instructions: &Vec<Instruction>, colours: &Vec<Option<usize>>) -> (result: Vec<
    Instruction,
>)
    ensures
        instruction_views(result@) == coloured_from(
            instruction_views(instructions@),
            0,
            colours@,
        ),
        no_redundant_moves(instruction_views(result@)),
        all_coloured(instruction_views(instructions@), colours@) ==> registers_only(
            instruction_views(result@),
        ),
{
    let ghost views = instruction_views(instructions@);
    let ghost total = coloured_from(views, 0, colours@);
    proof {
        lemma_coloured_from(views, 0, colours@);
    }
    let mut out: Vec<Instruction> = Vec::new();
    let mut at: usize = 0;
    assert(instruction_views(out@) + total =~= total);
    while at < instructions.len()
        invariant
            views == instruction_views(instructions@),
            at <= instructions.len(),
            total == instruction_views(out@) + coloured_from(views, at as int, colours@),
        decreases instructions.len() - at,
    {
        let ghost before = instruction_views(out@);
        assert(instructions@[at as int]@ == views[at as int]);
        let changed = match &instructions[at] {
            Instruction::Oper { assembly, destination, source, jump } => Some(
                Instruction::Oper {
                    assembly: assembly.clone(),
                    destination: colour_temps(colours, destination),
                    source: colour_temps(colours, source),
                    jump: match jump {
                        Some(labels) => Some(copy_labels(labels)),
                        None => None,
                    },
                },
            ),
            Instruction::Move { assembly, destination, source } => {
                let destination = colour_temp(colours, *destination);
                let source = colour_temp(colours, *source);
                if destination == source {
                    None
                } else {
                    Some(Instruction::Move { assembly: assembly.clone(), destination, source })
                }
            },
            Instruction::Label { assembly, label } => Some(
                Instruction::Label { assembly: assembly.clone(), label: *label },
            ),
        };
        match changed {
            Some(kept) => {
                assert(kept@ == coloured(views[at as int], colours@));
                out.push(kept);
                assert(instruction_views(out@) =~= before + seq![
                    coloured(views[at as int], colours@),
                ]);
                assert(instruction_views(out@) + coloured_from(views, at + 1, colours@) =~= before
                    + (seq![coloured(views[at as int], colours@)] + coloured_from(
                    views,
                    at + 1,
                    colours@,
                )));
            },
            None => {
                assert(is_redundant(coloured(views[at as int], colours@)));
                assert(Seq::<InstructionView>::empty() + coloured_from(views, at + 1, colours@)
                    =~= coloured_from(views, at + 1, colours@));
            },
        }
        at += 1;
    }
    assert(instruction_views(out@) + Seq::<InstructionView>::empty() =~= instruction_views(out@));
    out
}

} // verus!
