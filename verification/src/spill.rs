//! Spilling: a temporary that got no register lives in the frame, and
//! every instruction that touches it does so through a short-lived
//! temporary of its own.

use crate::assembly::{instruction_views, temps_below, Instruction, InstructionView};
use crate::canon::temp_of;
use crate::liveness::holds_temp;
use crate::temp::{Temp, TempSource};
use crate::text::{push_signed_decimal, signed_decimal};
use crate::vectors::reversed;
use vstd::prelude::*;

verus! {

/// A list of temporaries with every `from` replaced by `to`.
pub open spec fn replaced(temps: Seq<Temp>, from: Temp, to: Temp) -> Seq<Temp> {
    temps.map_values(
        |temp: Temp|
            if temp == from {
                to
            } else {
                temp
            },
    )
}

/// An instruction with every `from` among its operands replaced by `to`.
pub open spec fn renamed(instruction: InstructionView, from: Temp, to: Temp) -> InstructionView {
    match instruction {
        InstructionView::Oper { assembly, destination, source, jump } => InstructionView::Oper {
            assembly,
            destination: replaced(destination, from, to),
            source: replaced(source, from, to),
            jump,
        },
        InstructionView::Move { assembly, destination, source } => InstructionView::Move {
            assembly,
            destination: if destination == from {
                to
            } else {
                destination
            },
            source: if source == from {
                to
            } else {
                source
            },
        },
        InstructionView::Label { assembly, label } => instruction,
    }
}

/// The instruction that loads the word at `offset` from the frame pointer
/// into a temporary.
pub open spec fn load(temp: Temp, offset: i64) -> InstructionView {
    InstructionView::Oper {
        assembly: "mov 'd0, [rbp + "@ + signed_decimal(offset as int) + "]"@,
        destination: seq![temp],
        source: Seq::empty(),
        jump: None,
    }
}

/// The instruction that stores a temporary into the word at `offset` from
/// the frame pointer.
pub open spec fn store(temp: Temp, offset: i64) -> InstructionView {
    InstructionView::Oper {
        assembly: "mov [rbp + "@ + signed_decimal(offset as int) + "], 's0"@,
        destination: Seq::empty(),
        source: seq![temp],
        jump: None,
    }
}

/// Whether an instruction reads the temporary.
pub open spec fn is_read(instructions: Seq<InstructionView>, temp: Temp) -> bool {
    exists|i: int| 0 <= i < instructions.len() && (#[trigger] instructions[i]).uses().contains(temp)
}

/// What becomes of an instruction that touches the spilled temporary: the
/// instruction with `fresh` in its place, a load in front if it reads the
/// temporary, and a store behind if it writes it and the value is ever
/// read again.
pub open spec fn spilled_at(
    instruction: InstructionView,
    spilled: Temp,
    offset: i64,
    fresh: Temp,
    stored: bool,
) -> Seq<InstructionView> {
    let front = if instruction.uses().contains(spilled) {
        seq![load(fresh, offset)]
    } else {
        Seq::empty()
    };
    let back = if stored && instruction.defs().contains(spilled) {
        seq![store(fresh, offset)]
    } else {
        Seq::empty()
    };
    front + seq![renamed(instruction, spilled, fresh)] + back
}

/// The instructions from `at` on with the temporary spilled to `offset`,
/// and the number of the next unused temporary. Each instruction that
/// touches the temporary takes a fresh one; the others stay as they are.
/// `stored` says whether what is written is put into the frame.
pub open spec fn spilled_from(
    instructions: Seq<InstructionView>,
    at: int,
    spilled: Temp,
    offset: i64,
    next: nat,
    stored: bool,
) -> (Seq<InstructionView>, nat)
    decreases instructions.len() - at,
{
    if at < 0 || at >= instructions.len() {
        (Seq::empty(), next)
    } else if instructions[at].mentions(spilled) {
        let (rest, after) = spilled_from(instructions, at + 1, spilled, offset, next + 1, stored);
        (spilled_at(instructions[at], spilled, offset, temp_of(next), stored) + rest, after)
    } else {
        let (rest, after) = spilled_from(instructions, at + 1, spilled, offset, next, stored);
        (seq![instructions[at]] + rest, after)
    }
}

/// The instructions with the temporary spilled to `offset`, and the number
/// of the next unused temporary. What is written is put into the frame
/// only if some instruction reads the temporary.
pub open spec fn spilled_program(
    instructions: Seq<InstructionView>,
    spilled: Temp,
    offset: i64,
    next: nat,
) -> (Seq<InstructionView>, nat) {
    spilled_from(instructions, 0, spilled, offset, next, is_read(instructions, spilled))
}

/// Whether no instruction reads or writes the temporary.
pub open spec fn unmentioned(instructions: Seq<InstructionView>, temp: Temp) -> bool {
    forall|i: int| 0 <= i < instructions.len() ==> !(#[trigger] instructions[i]).mentions(temp)
}

/// Replacing a temporary by another leaves no trace of it.
pub proof fn lemma_replaced(temps: Seq<Temp>, from: Temp, to: Temp)
    requires
        from != to,
    ensures
        !replaced(temps, from, to).contains(from),
        forall|other: Temp|
            other != from && other != to ==> (replaced(temps, from, to).contains(other)
                == temps.contains(other)),
{
    let result = replaced(temps, from, to);
    if result.contains(from) {
        let i = choose|i: int| 0 <= i < result.len() && result[i] == from;
        assert(false);
    }
    assert forall|other: Temp| other != from && other != to implies (result.contains(other)
        == temps.contains(other)) by {
        if result.contains(other) {
            let i = choose|i: int| 0 <= i < result.len() && result[i] == other;
            assert(temps[i] == other);
        }
        if temps.contains(other) {
            let i = choose|i: int| 0 <= i < temps.len() && temps[i] == other;
            assert(result[i] == other);
        }
    }
}

/// After a temporary has been spilled no instruction touches it, the
/// temporaries from `next` on are the only new ones, and no temporary
/// below `next` is handed out.
pub proof fn lemma_spilled_from(
    instructions: Seq<InstructionView>,
    at: int,
    spilled: Temp,
    offset: i64,
    next: nat,
    stored: bool,
)
    requires
        0 <= at,
        spilled.num < next,
        spilled_from(instructions, at, spilled, offset, next, stored).1 <= usize::MAX,
    ensures
        unmentioned(spilled_from(instructions, at, spilled, offset, next, stored).0, spilled),
        spilled_from(instructions, at, spilled, offset, next, stored).1 >= next,
    decreases instructions.len() - at,
{
    if at >= instructions.len() {
    } else {
        let instruction = instructions[at];
        if instruction.mentions(spilled) {
            lemma_spilled_grows(instructions, at + 1, spilled, offset, next + 1, stored);
            lemma_spilled_from(instructions, at + 1, spilled, offset, next + 1, stored);
            let fresh = temp_of(next);
            assert(fresh != spilled);
            let piece = spilled_at(instruction, spilled, offset, fresh, stored);
            let rest = spilled_from(instructions, at + 1, spilled, offset, next + 1, stored).0;
            lemma_replaced(instruction.defs(), spilled, fresh);
            lemma_replaced(instruction.uses(), spilled, fresh);
            let changed = renamed(instruction, spilled, fresh);
            assert(!changed.mentions(spilled)) by {
                match instruction {
                    InstructionView::Oper { .. } => {},
                    InstructionView::Move { destination, source, .. } => {
                        assert(changed.defs()[0] != spilled);
                        assert(changed.uses()[0] != spilled);
                    },
                    InstructionView::Label { .. } => {},
                }
            }
            assert(!load(fresh, offset).mentions(spilled)) by {
                assert(load(fresh, offset).defs()[0] == fresh);
            }
            assert(!store(fresh, offset).mentions(spilled)) by {
                assert(store(fresh, offset).uses()[0] == fresh);
            }
            assert forall|i: int| 0 <= i < (piece + rest).len() implies !(#[trigger] (piece
                + rest)[i]).mentions(spilled) by {
                if i < piece.len() {
                } else {
                    assert((piece + rest)[i] == rest[i - piece.len()]);
                }
            }
        } else {
            lemma_spilled_from(instructions, at + 1, spilled, offset, next, stored);
            let rest = spilled_from(instructions, at + 1, spilled, offset, next, stored).0;
            assert forall|i: int| 0 <= i < (seq![instruction] + rest).len() implies !(#[trigger] (
            seq![instruction] + rest)[i]).mentions(spilled) by {
                if i >= 1 {
                    assert((seq![instruction] + rest)[i] == rest[i - 1]);
                }
            }
        }
    }
}

/// Spilling hands out no temporary below `next`.
pub proof fn lemma_spilled_grows(
    instructions: Seq<InstructionView>,
    at: int,
    spilled: Temp,
    offset: i64,
    next: nat,
    stored: bool,
)
    ensures
        spilled_from(instructions, at, spilled, offset, next, stored).1 >= next,
    decreases instructions.len() - at,
{
    if at < 0 || at >= instructions.len() {
    } else if instructions[at].mentions(spilled) {
        lemma_spilled_grows(instructions, at + 1, spilled, offset, next + 1, stored);
    } else {
        lemma_spilled_grows(instructions, at + 1, spilled, offset, next, stored);
    }
}

/// What the renamed instruction touches, the instruction touched before,
/// apart from the new temporary.
pub proof fn lemma_renamed_mentions(
    instruction: InstructionView,
    from: Temp,
    to: Temp,
    temp: Temp,
)
    requires
        renamed(instruction, from, to).mentions(temp),
        temp != to,
    ensures
        instruction.mentions(temp),
{
    let after = renamed(instruction, from, to);
    if after.defs().contains(temp) {
        let i = choose|i: int| 0 <= i < after.defs().len() && after.defs()[i] == temp;
        assert(instruction.defs()[i] == temp);
    } else {
        let i = choose|i: int| 0 <= i < after.uses().len() && after.uses()[i] == temp;
        assert(instruction.uses()[i] == temp);
    }
}

/// Spilling brings in no temporaries but fresh ones: where every
/// temporary was below `next`, every temporary is below the next unused
/// number afterwards.
pub proof fn lemma_spilled_below(
    instructions: Seq<InstructionView>,
    at: int,
    spilled: Temp,
    offset: i64,
    next: nat,
    stored: bool,
)
    requires
        0 <= at,
        temps_below(instructions, next),
        spilled_from(instructions, at, spilled, offset, next, stored).1 <= usize::MAX,
    ensures
        temps_below(
            spilled_from(instructions, at, spilled, offset, next, stored).0,
            spilled_from(instructions, at, spilled, offset, next, stored).1,
        ),
    decreases instructions.len() - at,
{
    if at >= instructions.len() {
    } else {
        let instruction = instructions[at];
        if instruction.mentions(spilled) {
            lemma_spilled_grows(instructions, at + 1, spilled, offset, next + 1, stored);
            assert(temps_below(instructions, next + 1));
            lemma_spilled_below(instructions, at + 1, spilled, offset, next + 1, stored);
            let fresh = temp_of(next);
            let piece = spilled_at(instruction, spilled, offset, fresh, stored);
            let (rest, after) = spilled_from(instructions, at + 1, spilled, offset, next + 1, stored);
            assert forall|i: int, temp: Temp|
                0 <= i < (piece + rest).len() && #[trigger] (piece + rest)[i].mentions(
                    temp,
                ) implies temp.num < after by {
                if i < piece.len() {
                    if temp != fresh {
                        if piece[i] == renamed(instruction, spilled, fresh) {
                            lemma_renamed_mentions(instruction, spilled, fresh, temp);
                        } else if piece[i] == load(fresh, offset) {
                            assert(load(fresh, offset).defs().contains(temp));
                            assert(load(fresh, offset).defs()[0] == fresh);
                        } else {
                            assert(piece[i] == store(fresh, offset));
                            assert(store(fresh, offset).uses().contains(temp));
                            assert(store(fresh, offset).uses()[0] == fresh);
                        }
                    }
                } else {
                    assert((piece + rest)[i] == rest[i - piece.len()]);
                }
            }
        } else {
            lemma_spilled_below(instructions, at + 1, spilled, offset, next, stored);
            let (rest, after) = spilled_from(instructions, at + 1, spilled, offset, next, stored);
            lemma_spilled_grows(instructions, at + 1, spilled, offset, next, stored);
            assert forall|i: int, temp: Temp|
                0 <= i < (seq![instruction] + rest).len() && #[trigger] (seq![instruction]
                    + rest)[i].mentions(temp) implies temp.num < after by {
                if i >= 1 {
                    assert((seq![instruction] + rest)[i] == rest[i - 1]);
                }
            }
        }
    }
}

fn replace_temp(temps: &Vec<Temp>, from: Temp, to: Temp) -> (result: Vec<Temp>)
    ensures
        result@ == replaced(temps@, from, to),
{
    let mut result: Vec<Temp> = Vec::new();
    let mut index: usize = 0;
    while index < temps.len()
        invariant
            index <= temps.len(),
            result@.len() == index,
            forall|i: int| 0 <= i < index ==> result@[i] == replaced(temps@, from, to)[i],
        decreases temps.len() - index,
    {
        let temp = temps[index];
        result.push(
            if temp == from {
                to
            } else {
                temp
            },
        );
        index += 1;
    }
    assert(result@ =~= replaced(temps@, from, to));
    result
}

fn load_instruction(temp: Temp, offset: i64) -> (instruction: Instruction)
    ensures
        instruction@ == load(temp, offset),
{
    let mut assembly = String::new();
    assembly.append("mov 'd0, [rbp + ");
    push_signed_decimal(&mut assembly, offset);
    assembly.append("]");
    let mut destination: Vec<Temp> = Vec::new();
    destination.push(temp);
    let source: Vec<Temp> = Vec::new();
    assert(assembly@ =~= "mov 'd0, [rbp + "@ + signed_decimal(offset as int) + "]"@);
    assert(destination@ =~= seq![temp]);
    assert(source@ =~= Seq::<Temp>::empty());
    Instruction::Oper { assembly, destination, source, jump: None }
}

fn store_instruction(temp: Temp, offset: i64) -> (instruction: Instruction)
    ensures
        instruction@ == store(temp, offset),
{
    let mut assembly = String::new();
    assembly.append("mov [rbp + ");
    push_signed_decimal(&mut assembly, offset);
    assembly.append("], 's0");
    let destination: Vec<Temp> = Vec::new();
    let mut source: Vec<Temp> = Vec::new();
    source.push(temp);
    assert(assembly@ =~= "mov [rbp + "@ + signed_decimal(offset as int) + "], 's0"@);
    assert(source@ =~= seq![temp]);
    assert(destination@ =~= Seq::<Temp>::empty());
    Instruction::Oper { assembly, destination, source, jump: None }
}

/// Tests whether an instruction reads the temporary.
pub fn reads_temp(instructions: &Vec<Instruction>, temp: Temp) -> (read: bool)
    ensures
        read == is_read(instruction_views(instructions@), temp),
{
    let ghost views = instruction_views(instructions@);
    let mut index: usize = 0;
    while index < instructions.len()
        invariant
            index <= instructions.len(),
            views == instruction_views(instructions@),
            forall|i: int| 0 <= i < index ==> !(#[trigger] views[i]).uses().contains(temp),
        decreases instructions.len() - index,
    {
        assert(views[index as int] == instructions@[index as int]@);
        let read = match &instructions[index] {
            Instruction::Oper { source, .. } => holds_temp(source, temp),
            Instruction::Move { source, .. } => {
                assert(seq![*source].contains(temp) == (*source == temp)) by {
                    if *source == temp {
                        assert(seq![*source][0] == temp);
                    }
                }
                *source == temp
            },
            Instruction::Label { .. } => false,
        };
        if read {
            return true;
        }
        index += 1;
    }
    false
}

/// Rewrites the instructions so that the temporary lives in the frame at
/// `offset`: each instruction that touches it takes a fresh temporary,
/// loads it before if it reads the temporary and stores it afterwards if
/// it writes it. A temporary that is never read is not stored. Fresh
/// temporaries are taken from `source`; the result is `None` when they run
/// out.
pub fn spill_temp(
    instructions: Vec<Instruction>,
    spilled: Temp,
    offset: i64,
    source: &mut TempSource,
) -> (result: Option<Vec<Instruction>>)
    ensures
        final(source).next_label() == old(source).next_label(),
        match result {
            Some(rewritten) => instruction_views(rewritten@) == spilled_program(
                instruction_views(instructions@),
                spilled,
                offset,
                old(source).next_temp(),
            ).0 && final(source).next_temp() == spilled_program(
                instruction_views(instructions@),
                spilled,
                offset,
                old(source).next_temp(),
            ).1,
            None => spilled_program(
                instruction_views(instructions@),
                spilled,
                offset,
                old(source).next_temp(),
            ).1 > usize::MAX,
        },
{
    let ghost views = instruction_views(instructions@);
    let stored = reads_temp(&instructions, spilled);
    let ghost total = spilled_from(views, 0, spilled, offset, source.next_temp(), stored);
    let ghost length = instructions@.len() as int;
    let mut rest = reversed(instructions);
    let mut out: Vec<Instruction> = Vec::new();
    assert(instruction_views(out@) + total.0 =~= total.0);
    while rest.len() > 0
        invariant
            views == instruction_views(instructions@),
            stored == is_read(views, spilled),
            total == spilled_from(views, 0, spilled, offset, old(source).next_temp(), stored),
            length == instructions@.len(),
            rest@.len() <= length,
            forall|i: int| 0 <= i < rest@.len() ==> rest@[i] == instructions@[length - 1 - i],
            source.next_label() == old(source).next_label(),
            total.0 == instruction_views(out@) + spilled_from(
                views,
                length - rest@.len(),
                spilled,
                offset,
                source.next_temp(),
                stored,
            ).0,
            total.1 == spilled_from(
                views,
                length - rest@.len(),
                spilled,
                offset,
                source.next_temp(),
                stored,
            ).1,
        decreases rest.len(),
    {
        let ghost at = length - rest@.len();
        let ghost before = instruction_views(out@);
        let ghost next = source.next_temp();
        let instruction = rest.pop().unwrap();
        assert(instruction == instructions@[at]);
        assert(instruction@ == views[at]);
        let (reads, writes) = match &instruction {
            Instruction::Oper { destination, source, .. } => (
                holds_temp(source, spilled),
                holds_temp(destination, spilled),
            ),
            Instruction::Move { destination, source, .. } => {
                assert(seq![*source].contains(spilled) == (*source == spilled)) by {
                    if *source == spilled {
                        assert(seq![*source][0] == spilled);
                    }
                }
                assert(seq![*destination].contains(spilled) == (*destination == spilled)) by {
                    if *destination == spilled {
                        assert(seq![*destination][0] == spilled);
                    }
                }
                (*source == spilled, *destination == spilled)
            },
            Instruction::Label { .. } => (false, false),
        };
        assert(reads == instruction@.uses().contains(spilled));
        assert(writes == instruction@.defs().contains(spilled));
        if reads || writes {
            proof {
                lemma_spilled_grows(views, at + 1, spilled, offset, next + 1, stored);
            }
            let fresh = match source.fresh_temp() {
                Some(temp) => temp,
                None => {
                    return None;
                },
            };
            if reads {
                out.push(load_instruction(fresh, offset));
            }
            let changed = match instruction {
                Instruction::Oper { assembly, destination, source, jump } => Instruction::Oper {
                    assembly,
                    destination: replace_temp(&destination, spilled, fresh),
                    source: replace_temp(&source, spilled, fresh),
                    jump,
                },
                Instruction::Move { assembly, destination, source } => Instruction::Move {
                    assembly,
                    destination: if destination == spilled {
                        fresh
                    } else {
                        destination
                    },
                    source: if source == spilled {
                        fresh
                    } else {
                        source
                    },
                },
                Instruction::Label { assembly, label } => Instruction::Label { assembly, label },
            };
            assert(changed@ == renamed(views[at], spilled, fresh));
            out.push(changed);
            if writes && stored {
                out.push(store_instruction(fresh, offset));
            }
            assert(instruction_views(out@) =~= before + spilled_at(
                views[at],
                spilled,
                offset,
                temp_of(next),
                stored,
            ));
            assert(instruction_views(out@) + spilled_from(
                views,
                at + 1,
                spilled,
                offset,
                next + 1,
                stored,
            ).0 =~= before + (spilled_at(views[at], spilled, offset, temp_of(next), stored) + spilled_from(
                views,
                at + 1,
                spilled,
                offset,
                next + 1,
                stored,
            ).0));
        } else {
            out.push(instruction);
            assert(instruction_views(out@) =~= before + seq![views[at]]);
            assert(instruction_views(out@) + spilled_from(views, at + 1, spilled, offset, next, stored).0
                =~= before + (seq![views[at]] + spilled_from(
                views,
                at + 1,
                spilled,
                offset,
                next,
                stored,
            ).0));
        }
    }
    assert(instruction_views(out@) + Seq::<InstructionView>::empty() =~= instruction_views(out@));
    Some(out)
}

} // verus!
