//! Abstract machine instructions over temporaries, and their text.

use crate::frame::{push_temp, temp_text};
use crate::temp::{Label, Temp};
use crate::text::chars_of;
use vstd::prelude::*;

verus! {

/// An abstract instruction. `assembly` is a template in which `'d0` to
/// `'d9` stand for the destinations and `'s0` to `'s9` for the sources.
#[allow(inconsistent_fields)]
#[derive(Clone, Debug, PartialEq, Eq)]
pub enum Instruction {
    /// Any instruction but a register-to-register move; `jump` lists the
    /// labels it may go to when it does not fall through.
    Oper { assembly: String, destination: Vec<Temp>, source: Vec<Temp>, jump: Option<Vec<Label>> },
    /// A move between two temporaries, which the allocator may remove by
    /// giving both the same register.
    Move { assembly: String, destination: Temp, source: Temp },
    /// The definition of a label.
    Label { assembly: String, label: Label },
}

/// An instruction as a plain value: text and lists as sequences.
#[allow(inconsistent_fields)]
pub enum InstructionView {
    Oper { assembly: Seq<char>, destination: Seq<Temp>, source: Seq<Temp>, jump: Option<Seq<Label>> },
    Move { assembly: Seq<char>, destination: Temp, source: Temp },
    Label { assembly: Seq<char>, label: Label },
}

impl InstructionView {
    /// The temporaries that the instruction writes.
    pub open spec fn defs(self) -> Seq<Temp> {
        match self {
            InstructionView::Oper { destination, .. } => destination,
            InstructionView::Move { destination, .. } => seq![destination],
            InstructionView::Label { .. } => Seq::empty(),
        }
    }

    /// The temporaries that the instruction reads.
    pub open spec fn uses(self) -> Seq<Temp> {
        match self {
            InstructionView::Oper { source, .. } => source,
            InstructionView::Move { source, .. } => seq![source],
            InstructionView::Label { .. } => Seq::empty(),
        }
    }

    /// Whether the instruction reads or writes the temporary.
    pub open spec fn mentions(self, temp: Temp) -> bool {
        self.defs().contains(temp) || self.uses().contains(temp)
    }
}

impl View for Instruction {
    type V = InstructionView;

    open spec fn view(&self) -> InstructionView {
        match self {
            Instruction::Oper { assembly, destination, source, jump } => InstructionView::Oper {
                assembly: assembly@,
                destination: destination@,
                source: source@,
                jump: match jump {
                    Some(labels) => Some(labels@),
                    None => None,
                },
            },
            Instruction::Move { assembly, destination, source } => InstructionView::Move {
                assembly: assembly@,
                destination: *destination,
                source: *source,
            },
            Instruction::Label { assembly, label } => InstructionView::Label {
                assembly: assembly@,
                label: *label,
            },
        }
    }
}

/// The instructions of a list as plain values.
pub open spec fn instruction_views(instructions: Seq<Instruction>) -> Seq<InstructionView> {
    instructions.map_values(|instruction: Instruction| instruction@)
}

/// Whether a character is a decimal digit.
pub open spec fn is_digit(ch: char) -> bool {
    '0' <= ch <= '9'
}

/// Whether a hole (a quote, `d` or `s`, and a digit) starts at `at`.
pub open spec fn hole_at(template: Seq<char>, at: int) -> bool {
    &&& 0 <= at
    &&& at + 2 < template.len()
    &&& template[at] == '\''
    &&& (template[at + 1] == 'd' || template[at + 1] == 's')
    &&& is_digit(template[at + 2])
}

/// The operands that a hole at `at` selects from: the destinations for
/// `d`, the sources for `s`.
pub open spec fn hole_operands(
    template: Seq<char>,
    at: int,
    destination: Seq<Temp>,
    source: Seq<Temp>,
) -> Seq<Temp> {
    if template[at + 1] == 'd' {
        destination
    } else {
        source
    }
}

/// The position among the operands that a hole at `at` names.
pub open spec fn hole_index(template: Seq<char>, at: int) -> int {
    template[at + 2] as int - '0' as int
}

/// Whether a hole starts at `at` that names an operand that exists.
pub open spec fn filled_at(
    template: Seq<char>,
    at: int,
    destination: Seq<Temp>,
    source: Seq<Temp>,
) -> bool {
    hole_at(template, at) && hole_index(template, at) < hole_operands(
        template,
        at,
        destination,
        source,
    ).len()
}

/// The template from `at` on, with every hole that names an existing
/// operand replaced by that operand's text. Other characters, including
/// holes without an operand, are kept.
pub open spec fn instantiate_from(
    template: Seq<char>,
    destination: Seq<Temp>,
    source: Seq<Temp>,
    at: int,
) -> Seq<char>
    decreases template.len() - at,
{
    if at < 0 || at >= template.len() {
        Seq::empty()
    } else if filled_at(template, at, destination, source) {
        temp_text(hole_operands(template, at, destination, source)[hole_index(template, at)])
            + instantiate_from(template, destination, source, at + 3)
    } else {
        seq![template[at]] + instantiate_from(template, destination, source, at + 1)
    }
}

/// The whole template with its holes filled.
pub open spec fn instantiate(template: Seq<char>, destination: Seq<Temp>, source: Seq<Temp>) -> Seq<
    char,
> {
    instantiate_from(template, destination, source, 0)
}

impl Instruction {
    /// The temporaries that the instruction writes.
    pub open spec fn defs(&self) -> Seq<Temp> {
        match self {
            Instruction::Oper { destination, .. } => destination@,
            Instruction::Move { destination, .. } => seq![*destination],
            Instruction::Label { .. } => Seq::empty(),
        }
    }

    /// The temporaries that the instruction reads.
    pub open spec fn uses(&self) -> Seq<Temp> {
        match self {
            Instruction::Oper { source, .. } => source@,
            Instruction::Move { source, .. } => seq![*source],
            Instruction::Label { .. } => Seq::empty(),
        }
    }

    /// The template of the instruction.
    pub open spec fn template(&self) -> Seq<char> {
        match self {
            Instruction::Oper { assembly, .. } => assembly@,
            Instruction::Move { assembly, .. } => assembly@,
            Instruction::Label { assembly, .. } => assembly@,
        }
    }

    /// The line of assembly for the instruction: the text of a label as it
    /// is, the template of any other instruction with its holes filled.
    pub open spec fn rendered(&self) -> Seq<char> {
        match self {
            Instruction::Label { assembly, .. } => assembly@,
            _ => instantiate(self.template(), self.defs(), self.uses()),
        }
    }

    /// The line of assembly for the instruction.
    pub fn to_string(&self) -> (line: String)
        ensures
            line@ == self.rendered(),
    {
        match self {
            Instruction::Oper { assembly, destination, source, .. } => fill(
                assembly.as_str(),
                destination,
                source,
            ),
            Instruction::Move { assembly, destination, source } => {
                let mut destinations: Vec<Temp> = Vec::new();
                destinations.push(*destination);
                let mut sources: Vec<Temp> = Vec::new();
                sources.push(*source);
                assert(destinations@ =~= seq![*destination]);
                assert(sources@ =~= seq![*source]);
                fill(assembly.as_str(), &destinations, &sources)
            },
            Instruction::Label { assembly, .. } => assembly.clone(),
        }
    }
}

/// A copy of a list of labels.
pub fn copy_labels(labels: &Vec<Label>) -> (copy: Vec<Label>)
    ensures
        copy@ == labels@,
{
    let mut copy: Vec<Label> = Vec::new();
    let mut index: usize = 0;
    while index < labels.len()
        invariant
            index <= labels.len(),
            copy@ == labels@.take(index as int),
        decreases labels.len() - index,
    {
        copy.push(labels[index]);
        assert(copy@ =~= labels@.take(index + 1));
        index += 1;
    }
    assert(labels@.take(labels.len() as int) =~= labels@);
    copy
}

/// A copy of a list of temporaries.
pub fn copy_temps(temps: &Vec<Temp>) -> (copy: Vec<Temp>)
    ensures
        copy@ == temps@,
{
    let mut copy: Vec<Temp> = Vec::new();
    let mut index: usize = 0;
    while index < temps.len()
        invariant
            index <= temps.len(),
            copy@ == temps@.take(index as int),
        decreases temps.len() - index,
    {
        copy.push(temps[index]);
        assert(copy@ =~= temps@.take(index + 1));
        index += 1;
    }
    assert(temps@.take(temps.len() as int) =~= temps@);
    copy
}

/// A copy of an instruction.
pub fn copy_instruction(instruction: &Instruction) -> (copy: Instruction)
    ensures
        copy@ == instruction@,
{
    match instruction {
        Instruction::Oper { assembly, destination, source, jump } => Instruction::Oper {
            assembly: assembly.clone(),
            destination: copy_temps(destination),
            source: copy_temps(source),
            jump: match jump {
                Some(labels) => Some(copy_labels(labels)),
                None => None,
            },
        },
        Instruction::Move { assembly, destination, source } => Instruction::Move {
            assembly: assembly.clone(),
            destination: *destination,
            source: *source,
        },
        Instruction::Label { assembly, label } => Instruction::Label {
            assembly: assembly.clone(),
            label: *label,
        },
    }
}

/// A copy of a list of instructions.
pub fn copy_instructions(instructions: &Vec<Instruction>) -> (copy: Vec<Instruction>)
    ensures
        instruction_views(copy@) == instruction_views(instructions@),
{
    let mut copy: Vec<Instruction> = Vec::new();
    let mut index: usize = 0;
    while index < instructions.len()
        invariant
            index <= instructions.len(),
            copy@.len() == index,
            forall|i: int| 0 <= i < index ==> copy@[i]@ == instructions@[i]@,
        decreases instructions.len() - index,
    {
        copy.push(copy_instruction(&instructions[index]));
        index += 1;
    }
    assert(instruction_views(copy@) =~= instruction_views(instructions@));
    copy
}

/// Whether every temporary that the instructions touch has a number below
/// the bound.
pub open spec fn temps_below(instructions: Seq<InstructionView>, bound: nat) -> bool {
    forall|i: int, temp: Temp|
        0 <= i < instructions.len() && #[trigger] instructions[i].mentions(temp) ==> temp.num
            < bound
}

fn all_below(temps: &Vec<Temp>, bound: usize) -> (below: bool)
    ensures
        below == forall|temp: Temp| temps@.contains(temp) ==> temp.num < bound,
{
    let mut index: usize = 0;
    while index < temps.len()
        invariant
            index <= temps.len(),
            forall|i: int| 0 <= i < index ==> temps@[i].num < bound,
        decreases temps.len() - index,
    {
        if temps[index].num >= bound {
            assert(temps@.contains(temps@[index as int]));
            return false;
        }
        index += 1;
    }
    true
}

/// Tests whether every temporary that the instructions touch has a number
/// below the bound.
pub fn are_temps_below(instructions: &Vec<Instruction>, bound: usize) -> (below: bool)
    ensures
        below == temps_below(instruction_views(instructions@), bound as nat),
{
    let ghost views = instruction_views(instructions@);
    let mut index: usize = 0;
    while index < instructions.len()
        invariant
            index <= instructions.len(),
            views == instruction_views(instructions@),
            forall|i: int, temp: Temp|
                0 <= i < index && #[trigger] views[i].mentions(temp) ==> temp.num < bound,
        decreases instructions.len() - index,
    {
        let ghost view = views[index as int];
        assert(view == instructions@[index as int]@);
        let below = match &instructions[index] {
            Instruction::Oper { destination, source, .. } => {
                let below = all_below(destination, bound) && all_below(source, bound);
                assert(below == forall|temp: Temp| view.mentions(temp) ==> temp.num < bound) by {
                    if !below {
                        let temp = choose|temp: Temp|
                            (destination@.contains(temp) || source@.contains(temp)) && temp.num
                                >= bound;
                        assert(view.mentions(temp));
                    }
                }
                below
            },
            Instruction::Move { destination, source, .. } => {
                let below = destination.num < bound && source.num < bound;
                assert(below == forall|temp: Temp| view.mentions(temp) ==> temp.num < bound) by {
                    assert(seq![*destination][0] == *destination);
                    assert(seq![*source][0] == *source);
                    assert(view.mentions(*destination));
                    assert(view.mentions(*source));
                    if below {
                        assert forall|temp: Temp| view.mentions(temp) implies temp.num < bound by {
                            if view.defs().contains(temp) {
                                let i = choose|i: int|
                                    0 <= i < view.defs().len() && view.defs()[i] == temp;
                            } else {
                                let i = choose|i: int|
                                    0 <= i < view.uses().len() && view.uses()[i] == temp;
                            }
                        }
                    }
                }
                below
            },
            Instruction::Label { .. } => {
                assert(forall|temp: Temp| !view.mentions(temp));
                true
            },
        };
        if !below {
            return false;
        }
        index += 1;
    }
    true
}

/// Fills the holes of a template with the text of the operands.
pub fn fill(template: &str, destination: &Vec<Temp>, source: &Vec<Temp>) -> (line: String)
    ensures
        line@ == instantiate(template@, destination@, source@),
{
    let chars = chars_of(template);
    let mut line = String::new();
    let mut at: usize = 0;
    while at < chars.len()
        invariant
            at <= chars.len(),
            chars@ == template@,
            instantiate(template@, destination@, source@) == line@ + instantiate_from(
                template@,
                destination@,
                source@,
                at as int,
            ),
        decreases chars.len() - at,
    {
        let ghost before = line@;
        let mut filled = false;
        if chars.len() - at > 2 && chars[at] == '\'' && (chars[at + 1] == 'd' || chars[at + 1]
            == 's') && '0' <= chars[at + 2] && chars[at + 2] <= '9' {
            let index = (chars[at + 2] as u32 - '0' as u32) as usize;
            let operands = if chars[at + 1] == 'd' {
                destination
            } else {
                source
            };
            if index < operands.len() {
                push_temp(&mut line, operands[index]);
                filled = true;
            }
        }
        if filled {
            assert(filled_at(template@, at as int, destination@, source@));
            assert(line@ + instantiate_from(template@, destination@, source@, at + 3) =~= before
                + instantiate_from(template@, destination@, source@, at as int));
            at += 3;
        } else {
            assert(!filled_at(template@, at as int, destination@, source@));
            line.push(chars[at]);
            assert(line@ + instantiate_from(template@, destination@, source@, at + 1) =~= before
                + instantiate_from(template@, destination@, source@, at as int));
            at += 1;
        }
    }
    assert(line@ + Seq::<char>::empty() =~= line@);
    line
}

} // verus!
