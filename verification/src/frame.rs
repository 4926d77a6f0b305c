//! The x86-64 System V target: its registers and how a frame is laid out.

use crate::assembly::{instruction_views, Instruction, InstructionView};
use crate::canon::temp_of;
use crate::emit::Subroutine;
use crate::ir::{BinOp, Exp, List, Stm};
use crate::symbol::Strings;
use crate::temp::{is_label_known, label_known, label_text, push_label, Label, Temp, TempSource};
use crate::text::{decimal, push_decimal};
use vstd::prelude::*;

verus! {

/// The numbers of the registers as temporaries.
pub const RAX: usize = 0;
pub const RBX: usize = 1;
pub const RCX: usize = 2;
pub const RDX: usize = 3;
pub const RSI: usize = 4;
pub const RDI: usize = 5;
pub const RBP: usize = 6;
pub const RSP: usize = 7;
pub const R8: usize = 8;
pub const R9: usize = 9;
pub const R10: usize = 10;
pub const R11: usize = 11;
pub const R12: usize = 12;
pub const R13: usize = 13;
pub const R14: usize = 14;
pub const R15: usize = 15;

/// The temporaries below this number are the machine's registers.
pub const REGISTER_COUNT: usize = 16;

/// The size of a frame slot and of a machine word, in bytes.
pub const WORD_SIZE: i64 = 8;

/// The names of the registers, by number.
pub open spec fn register_names() -> Seq<Seq<char>> {
    seq![
        "rax"@,
        "rbx"@,
        "rcx"@,
        "rdx"@,
        "rsi"@,
        "rdi"@,
        "rbp"@,
        "rsp"@,
        "r8"@,
        "r9"@,
        "r10"@,
        "r11"@,
        "r12"@,
        "r13"@,
        "r14"@,
        "r15"@,
    ]
}

/// A temporary that is a machine register from the start.
pub open spec fn is_register(temp: Temp) -> bool {
    temp.num < REGISTER_COUNT
}

/// The registers that a callee must hand back unchanged.
pub open spec fn is_callee_saved(temp: Temp) -> bool {
    temp.num == RBX || temp.num == RBP || (R12 <= temp.num <= R15)
}

/// The registers that a call may overwrite: every register that is neither
/// callee-saved nor the stack pointer.
pub open spec fn is_caller_saved(temp: Temp) -> bool {
    is_register(temp) && !is_callee_saved(temp) && temp.num != RSP
}

/// How a temporary is written in a listing: a register by its name, any
/// other temporary as `t` and its number.
pub open spec fn temp_text(temp: Temp) -> Seq<char> {
    if is_register(temp) {
        register_names()[temp.num as int]
    } else {
        seq!['t'] + decimal(temp.num as nat)
    }
}

/// The name of a register, or `None` for a temporary that is none.
pub fn register_name(temp: Temp) -> (name: Option<&'static str>)
    ensures
        match name {
            Some(name) => is_register(temp) && name@ == register_names()[temp.num as int],
            None => !is_register(temp),
        },
{
    match temp.num {
        0 => Some("rax"),
        1 => Some("rbx"),
        2 => Some("rcx"),
        3 => Some("rdx"),
        4 => Some("rsi"),
        5 => Some("rdi"),
        6 => Some("rbp"),
        7 => Some("rsp"),
        8 => Some("r8"),
        9 => Some("r9"),
        10 => Some("r10"),
        11 => Some("r11"),
        12 => Some("r12"),
        13 => Some("r13"),
        14 => Some("r14"),
        15 => Some("r15"),
        _ => None,
    }
}

/// Appends the text of a temporary.
pub fn push_temp(text: &mut String, temp: Temp)
    ensures
        final(text)@ == old(text)@ + temp_text(temp),
{
    match register_name(temp) {
        Some(name) => {
            text.append(name);
        },
        None => {
            text.push('t');
            push_decimal(text, temp.num as u64);
            assert(text@ =~= old(text)@ + temp_text(temp));
        },
    }
}

fn temps_of(numbers: &[usize]) -> (temps: Vec<Temp>)
    ensures
        temps@.len() == numbers@.len(),
        forall|i: int| 0 <= i < numbers@.len() ==> (#[trigger] temps@[i]).num == numbers@[i],
{
    let mut temps: Vec<Temp> = Vec::new();
    let mut index: usize = 0;
    while index < numbers.len()
        invariant
            index <= numbers@.len(),
            temps@.len() == index,
            forall|i: int| 0 <= i < index ==> (#[trigger] temps@[i]).num == numbers@[i],
        decreases numbers.len() - index,
    {
        temps.push(Temp { num: numbers[index] });
        index += 1;
    }
    temps
}

/// The callee-saved registers: `rbx`, `rbp`, `r12` to `r15`.
pub fn callee_saved_registers() -> (temps: Vec<Temp>)
    ensures
        temps@ == seq![
            Temp { num: RBX },
            Temp { num: RBP },
            Temp { num: R12 },
            Temp { num: R13 },
            Temp { num: R14 },
            Temp { num: R15 },
        ],
        temps@.no_duplicates(),
        forall|temp: Temp| temps@.contains(temp) <==> is_callee_saved(temp),
{
    let numbers = [RBX, RBP, R12, R13, R14, R15];
    let temps = temps_of(numbers.as_slice());
    assert(temps@ =~= seq![
        Temp { num: RBX },
        Temp { num: RBP },
        Temp { num: R12 },
        Temp { num: R13 },
        Temp { num: R14 },
        Temp { num: R15 },
    ]);
    proof {
        assert forall|temp: Temp| is_callee_saved(temp) implies temps@.contains(temp) by {
            let i = if temp.num == RBX {
                0int
            } else if temp.num == RBP {
                1int
            } else {
                temp.num - 10
            };
            assert(temps@[i].num == temp.num);
        }
    }
    temps
}

/// The caller-saved registers: `rax`, `rcx`, `rdx`, `rsi`, `rdi`, `r8` to
/// `r11`.
pub fn caller_saved_registers() -> (temps: Vec<Temp>)
    ensures
        temps@ == seq![
            Temp { num: RAX },
            Temp { num: RCX },
            Temp { num: RDX },
            Temp { num: RSI },
            Temp { num: RDI },
            Temp { num: R8 },
            Temp { num: R9 },
            Temp { num: R10 },
            Temp { num: R11 },
        ],
        temps@.no_duplicates(),
        forall|temp: Temp| temps@.contains(temp) <==> is_caller_saved(temp),
{
    let numbers = [RAX, RCX, RDX, RSI, RDI, R8, R9, R10, R11];
    let temps = temps_of(numbers.as_slice());
    assert(temps@ =~= seq![
        Temp { num: RAX },
        Temp { num: RCX },
        Temp { num: RDX },
        Temp { num: RSI },
        Temp { num: RDI },
        Temp { num: R8 },
        Temp { num: R9 },
        Temp { num: R10 },
        Temp { num: R11 },
    ]);
    proof {
        assert forall|temp: Temp| is_caller_saved(temp) implies temps@.contains(temp) by {
            let i = if temp.num == RAX {
                0int
            } else if temp.num <= RDI {
                temp.num - 1
            } else {
                temp.num - 3
            };
            assert(temps@[i].num == temp.num);
        }
    }
    temps
}

/// The registers that carry the first six arguments of a call, in order:
/// `rdi`, `rsi`, `rdx`, `rcx`, `r8`, `r9`.
pub fn argument_registers() -> (temps: Vec<Temp>)
    ensures
        temps@ == seq![
            Temp { num: RDI },
            Temp { num: RSI },
            Temp { num: RDX },
            Temp { num: RCX },
            Temp { num: R8 },
            Temp { num: R9 },
        ],
{
    let numbers = [RDI, RSI, RDX, RCX, R8, R9];
    let temps = temps_of(numbers.as_slice());
    assert(temps@ =~= seq![
        Temp { num: RDI },
        Temp { num: RSI },
        Temp { num: RDX },
        Temp { num: RCX },
        Temp { num: R8 },
        Temp { num: R9 },
    ]);
    temps
}

/// The registers that carry the first six arguments, in order.
pub open spec fn argument_register_list() -> Seq<Temp> {
    seq![
        Temp { num: RDI },
        Temp { num: RSI },
        Temp { num: RDX },
        Temp { num: RCX },
        Temp { num: R8 },
        Temp { num: R9 },
    ]
}

/// The callee-saved registers that a function hands back through
/// temporaries of its own: all of them but the frame pointer.
pub open spec fn saved_registers() -> Seq<Temp> {
    seq![
        Temp { num: RBX },
        Temp { num: R12 },
        Temp { num: R13 },
        Temp { num: R14 },
        Temp { num: R15 },
    ]
}

/// The word of the frame at an offset from the frame pointer.
pub open spec fn frame_word(offset: i64) -> Exp {
    Exp::Mem(
        Box::new(
            Exp::BinOp(
                BinOp::Plus,
                Box::new(Exp::Temp(Temp { num: RBP })),
                Box::new(Exp::Const(offset)),
            ),
        ),
    )
}

/// The expression that stands for the home of a variable.
pub open spec fn access_exp(access: Access) -> Exp {
    match access {
        Access::InReg(temp) => Exp::Temp(temp),
        Access::InFrame(offset) => frame_word(offset),
    }
}

/// Where the argument with the given index is when the function is
/// entered: the first six in registers, the others in the frame of the
/// caller, above the return address.
pub open spec fn incoming(index: int) -> Exp {
    if index < 6 {
        Exp::Temp(argument_register_list()[index])
    } else {
        frame_word((16 + 8 * (index - 6)) as i64)
    }
}

/// The moves at the entry of a function that put the callee-saved
/// registers into the temporaries from `first` on.
pub open spec fn saves(first: nat) -> Seq<Stm> {
    Seq::new(
        5,
        |k: int| Stm::Move(Exp::Temp(temp_of((first + k) as nat)), Exp::Temp(saved_registers()[k])),
    )
}

/// The moves at the exit of a function that put the callee-saved
/// registers back.
pub open spec fn restores(first: nat) -> Seq<Stm> {
    Seq::new(
        5,
        |k: int| Stm::Move(Exp::Temp(saved_registers()[k]), Exp::Temp(temp_of((first + k) as nat))),
    )
}

/// The moves at the entry of a function that put each argument into the
/// home of its formal.
pub open spec fn arrivals(formals: Seq<Access>) -> Seq<Stm> {
    Seq::new(formals.len(), |i: int| Stm::Move(access_exp(formals[i]), incoming(i)))
}

/// The statements from `at` on as one statement.
pub open spec fn sequence_from(stms: Seq<Stm>, at: int) -> Stm
    decreases stms.len() - at,
{
    if at < 0 || at + 1 >= stms.len() {
        stms[at]
    } else {
        Stm::Sequence(Box::new(stms[at]), Box::new(sequence_from(stms, at + 1)))
    }
}

/// Joins statements into one statement that runs them in order.
pub fn sequence(stms: Vec<Stm>) -> (stm: Stm)
    requires
        stms@.len() > 0,
    ensures
        stm == sequence_from(stms@, 0),
{
    let ghost all = stms@;
    let mut stms = stms;
    let mut result = stms.pop().unwrap();
    assert(stms@ =~= all.take(all.len() - 1));
    while stms.len() > 0
        invariant
            stms@.len() < all.len(),
            stms@ == all.take(stms@.len() as int),
            result == sequence_from(all, stms@.len() as int),
        decreases stms.len(),
    {
        let stm = stms.pop().unwrap();
        assert(stms@ =~= all.take(stms@.len() as int));
        result = Stm::Sequence(Box::new(stm), Box::new(result));
    }
    result
}

/// The body of a function with the view shift around it: the
/// callee-saved registers are saved, the arguments are moved to their
/// homes, the body runs, and the registers are put back.
pub open spec fn view_shifted(body: Stm, formals: Seq<Access>, first: nat) -> Stm {
    sequence_from(saves(first) + arrivals(formals) + seq![body] + restores(first), 0)
}

/// The home of a variable: a temporary, or a word of the frame at an offset
/// from the frame pointer.
#[derive(Clone, Copy, Debug, PartialEq, Eq, Structural)]
pub enum Access {
    InReg(Temp),
    InFrame(i64),
}

/// The largest number of words that a frame may hold, and of formals that
/// a function may have.
pub const MAX_SLOTS: usize = 0x0fff_ffff;

/// The frame of one function.
#[derive(Clone, Debug, PartialEq, Eq)]
pub struct Frame {
    /// The label of the function.
    pub name: Label,
    /// The homes of the formals, the static link first.
    pub formals: Vec<Access>,
    /// The number of words that have been handed out in the frame.
    pub slots: usize,
}

/// The offset of a word of the frame from the frame pointer: the words
/// lie below the frame pointer, the first one right below it.
pub open spec fn slot_offset(slot: nat) -> int {
    -8 * (slot + 1)
}

/// The size of a frame of so many words, in bytes: the words, rounded up to
/// a multiple of sixteen.
pub open spec fn frame_size(slots: nat) -> nat {
    if slots % 2 == 0 {
        8 * slots
    } else {
        8 * slots + 8
    }
}

/// The homes of the formals from `at` on, with the number of words of the
/// frame in use and the number of the next unused temporary after them. A
/// formal that escapes gets the next word of the frame, any other a fresh
/// temporary.
pub open spec fn accesses_from(escapes: Seq<bool>, at: int, slots: nat, next: nat) -> (
    Seq<Access>,
    nat,
    nat,
)
    decreases escapes.len() - at,
{
    if at < 0 || at >= escapes.len() {
        (Seq::empty(), slots, next)
    } else if escapes[at] {
        let (rest, slots_after, next_after) = accesses_from(escapes, at + 1, slots + 1, next);
        (seq![Access::InFrame(slot_offset(slots) as i64)] + rest, slots_after, next_after)
    } else {
        let (rest, slots_after, next_after) = accesses_from(escapes, at + 1, slots, next + 1);
        (seq![Access::InReg(temp_of(next))] + rest, slots_after, next_after)
    }
}

/// Handing out homes uses up words and temporaries, and never gives any
/// back.
pub proof fn lemma_accesses_from(escapes: Seq<bool>, at: int, slots: nat, next: nat)
    ensures
        accesses_from(escapes, at, slots, next).1 >= slots,
        accesses_from(escapes, at, slots, next).2 >= next,
        0 <= at ==> accesses_from(escapes, at, slots, next).0.len() == if at < escapes.len() {
            escapes.len() - at
        } else {
            0
        },
    decreases escapes.len() - at,
{
    if at < 0 || at >= escapes.len() {
    } else if escapes[at] {
        lemma_accesses_from(escapes, at + 1, slots + 1, next);
    } else {
        lemma_accesses_from(escapes, at + 1, slots, next + 1);
    }
}

/// The call of a function of the runtime.
pub fn external_call(name: Label, arguments: List<Exp>) -> (call: Exp)
    ensures
        call == Exp::Call(Box::new(Exp::Name(name)), Box::new(arguments)),
{
    Exp::Call(Box::new(Exp::Name(name)), Box::new(arguments))
}

/// The instruction at the end of a function that reads the register of the
/// result and the callee-saved registers, so that they are live up to
/// there. It has no text and nothing runs after it.
pub open spec fn sink() -> InstructionView {
    InstructionView::Oper {
        assembly: Seq::empty(),
        destination: Seq::empty(),
        source: seq![
            Temp { num: RAX },
            Temp { num: RBX },
            Temp { num: RBP },
            Temp { num: R12 },
            Temp { num: R13 },
            Temp { num: R14 },
            Temp { num: R15 },
        ],
        jump: Some(Seq::empty()),
    }
}

/// The text in front of the code of a function: its label, and the
/// instructions that set up a frame of `size` bytes.
pub open spec fn prolog_text(name: Label, size: nat, names: Seq<Seq<char>>) -> Seq<char> {
    label_text(name, names) + ":\n    push rbp\n    mov rbp, rsp\n    sub rsp, "@ + decimal(size)
}

/// The text behind the code of a function: the instructions that take the
/// frame down and return.
pub open spec fn epilog_text() -> Seq<char> {
    "leave\n    ret"@
}

impl Frame {
    /// The frame holds no more words and formals than a frame may.
    pub open spec fn wf(&self) -> bool {
        self.slots <= MAX_SLOTS && self.formals@.len() <= MAX_SLOTS
    }

    /// The frame of a function with the given label and formals; `escapes`
    /// says of each formal whether it must live in the frame. The result is
    /// `None` when there are more formals than a function may have or the
    /// temporaries run out.
    pub fn new(name: Label, escapes: &Vec<bool>, source: &mut TempSource) -> (frame: Option<Frame>)
        ensures
            final(source).next_label() == old(source).next_label(),
            match frame {
                Some(frame) => {
                    &&& frame.wf()
                    &&& frame.name == name
                    &&& escapes@.len() <= MAX_SLOTS
                    &&& (frame.formals@, frame.slots as nat, final(source).next_temp())
                        == accesses_from(escapes@, 0, 0, old(source).next_temp())
                },
                None => escapes@.len() > MAX_SLOTS || accesses_from(
                    escapes@,
                    0,
                    0,
                    old(source).next_temp(),
                ).2 > usize::MAX,
            },
    {
        if escapes.len() > MAX_SLOTS {
            return None;
        }
        let ghost total = accesses_from(escapes@, 0, 0, source.next_temp());
        let mut formals: Vec<Access> = Vec::new();
        let mut slots: usize = 0;
        let mut index: usize = 0;
        assert(formals@ + total.0 =~= total.0);
        while index < escapes.len()
            invariant
                escapes@.len() <= MAX_SLOTS,
                index <= escapes@.len(),
                slots <= index,
                formals@.len() == index,
                source.next_label() == old(source).next_label(),
                total == accesses_from(escapes@, 0, 0, old(source).next_temp()),
                total.0 == formals@ + accesses_from(
                    escapes@,
                    index as int,
                    slots as nat,
                    source.next_temp(),
                ).0,
                total.1 == accesses_from(
                    escapes@,
                    index as int,
                    slots as nat,
                    source.next_temp(),
                ).1,
                total.2 == accesses_from(
                    escapes@,
                    index as int,
                    slots as nat,
                    source.next_temp(),
                ).2,
            decreases escapes.len() - index,
        {
            let ghost before = formals@;
            let ghost next = source.next_temp();
            if escapes[index] {
                let offset: i64 = -8 * (slots as i64 + 1);
                formals.push(Access::InFrame(offset));
                slots += 1;
                assert(formals@ + accesses_from(escapes@, index + 1, slots as nat, next).0
                    =~= before + (seq![Access::InFrame(offset)] + accesses_from(
                    escapes@,
                    index + 1,
                    slots as nat,
                    next,
                ).0));
            } else {
                proof {
                    lemma_accesses_from(escapes@, index + 1, slots as nat, next + 1);
                }
                let temp = match source.fresh_temp() {
                    Some(temp) => temp,
                    None => {
                        return None;
                    },
                };
                formals.push(Access::InReg(temp));
                assert(formals@ + accesses_from(escapes@, index + 1, slots as nat, next + 1).0
                    =~= before + (seq![Access::InReg(temp)] + accesses_from(
                    escapes@,
                    index + 1,
                    slots as nat,
                    next + 1,
                ).0));
            }
            index += 1;
        }
        assert(formals@ + Seq::<Access>::empty() =~= formals@);
        Some(Frame { name, formals, slots })
    }

    /// A home for a local variable: a fresh temporary, or the next word of
    /// the frame if the variable escapes. The result is `None` when the
    /// temporaries run out or the frame is full.
    pub fn alloc_local(&mut self, escapes: bool, source: &mut TempSource) -> (access: Option<
        Access,
    >)
        requires
            old(self).wf(),
        ensures
            final(self).wf(),
            final(self).name == old(self).name,
            final(self).formals == old(self).formals,
            final(source).next_label() == old(source).next_label(),
            match access {
                Some(Access::InFrame(offset)) => {
                    &&& escapes
                    &&& offset == slot_offset(old(self).slots as nat)
                    &&& final(self).slots == old(self).slots + 1
                    &&& final(source).next_temp() == old(source).next_temp()
                },
                Some(Access::InReg(temp)) => {
                    &&& !escapes
                    &&& temp.num == old(source).next_temp()
                    &&& final(source).next_temp() == old(source).next_temp() + 1
                    &&& final(self).slots == old(self).slots
                },
                None => {
                    &&& final(self).slots == old(self).slots
                    &&& final(source).next_temp() == old(source).next_temp()
                    &&& if escapes {
                        old(self).slots == MAX_SLOTS
                    } else {
                        old(source).next_temp() == usize::MAX
                    }
                },
            },
    {
        if escapes {
            if self.slots >= MAX_SLOTS {
                None
            } else {
                let offset: i64 = -8 * (self.slots as i64 + 1);
                self.slots = self.slots + 1;
                Some(Access::InFrame(offset))
            }
        } else {
            match source.fresh_temp() {
                Some(temp) => Some(Access::InReg(temp)),
                None => None,
            }
        }
    }

    /// The size of the frame in bytes, a multiple of sixteen.
    pub fn size(&self) -> (size: usize)
        requires
            self.wf(),
        ensures
            size == frame_size(self.slots as nat),
            size % 16 == 0,
    {
        if self.slots % 2 == 0 {
            8 * self.slots
        } else {
            8 * self.slots + 8
        }
    }

    /// Puts the view shift around the body of the function. The result is
    /// `None` when the temporaries run out.
    pub fn proc_entry_exit1(&self, body: Stm, source: &mut TempSource) -> (result: Option<Stm>)
        requires
            self.wf(),
        ensures
            final(source).next_label() == old(source).next_label(),
            match result {
                Some(stm) => stm == view_shifted(body, self.formals@, old(source).next_temp())
                    && final(source).next_temp() == old(source).next_temp() + 5,
                None => old(source).next_temp() + 5 > usize::MAX,
            },
    {
        let ghost first = source.next_temp();
        let ghost all = saves(first) + arrivals(self.formals@) + seq![body] + restores(first);
        proof {
            source.lemma_in_range();
        }
        let registers = [RBX, R12, R13, R14, R15];
        let mut stms: Vec<Stm> = Vec::new();
        let mut kept: Vec<Temp> = Vec::new();
        let mut index: usize = 0;
        while index < 5
            invariant
                index <= 5,
                first <= usize::MAX,
                first == old(source).next_temp(),
                registers@ == seq![RBX, R12, R13, R14, R15],
                source.next_label() == old(source).next_label(),
                source.next_temp() == first + index,
                kept@.len() == index,
                forall|k: int| 0 <= k < index ==> (#[trigger] kept@[k]).num == first + k,
                stms@ == saves(first).take(index as int),
            decreases 5 - index,
        {
            let temp = match source.fresh_temp() {
                Some(temp) => temp,
                None => {
                    return None;
                },
            };
            proof {
                source.lemma_in_range();
            }
            kept.push(temp);
            stms.push(Stm::Move(Exp::Temp(temp), Exp::Temp(Temp { num: registers[index] })));
            assert(stms@ =~= saves(first).take(index + 1));
            index += 1;
        }
        assert(saves(first).take(5) =~= saves(first));
        let mut formal: usize = 0;
        while formal < self.formals.len()
            invariant
                self.wf(),
                formal <= self.formals@.len(),
                stms@ == saves(first) + arrivals(self.formals@).take(formal as int),
            decreases self.formals.len() - formal,
        {
            let home = match self.formals[formal] {
                Access::InReg(temp) => Exp::Temp(temp),
                Access::InFrame(offset) => Exp::Mem(
                    Box::new(
                        Exp::BinOp(
                            BinOp::Plus,
                            Box::new(Exp::Temp(Temp { num: RBP })),
                            Box::new(Exp::Const(offset)),
                        ),
                    ),
                ),
            };
            let arrives = if formal < 6 {
                let numbers = [RDI, RSI, RDX, RCX, R8, R9];
                Exp::Temp(Temp { num: numbers[formal] })
            } else {
                let offset: i64 = 16 + 8 * (formal as i64 - 6);
                Exp::Mem(
                    Box::new(
                        Exp::BinOp(
                            BinOp::Plus,
                            Box::new(Exp::Temp(Temp { num: RBP })),
                            Box::new(Exp::Const(offset)),
                        ),
                    ),
                )
            };
            assert(home == access_exp(self.formals@[formal as int]));
            assert(arrives == incoming(formal as int));
            stms.push(Stm::Move(home, arrives));
            assert(stms@ =~= saves(first) + arrivals(self.formals@).take(formal + 1));
            formal += 1;
        }
        assert(arrivals(self.formals@).take(self.formals@.len() as int) =~= arrivals(
            self.formals@,
        ));
        stms.push(body);
        let ghost front = stms@;
        let mut index: usize = 0;
        while index < 5
            invariant
                index <= 5,
                first <= usize::MAX,
                registers@ == seq![RBX, R12, R13, R14, R15],
                kept@.len() == 5,
                forall|k: int| 0 <= k < 5 ==> (#[trigger] kept@[k]).num == first + k,
                stms@ == front + restores(first).take(index as int),
            decreases 5 - index,
        {
            stms.push(Stm::Move(Exp::Temp(Temp { num: registers[index] }), Exp::Temp(kept[index])));
            assert(stms@ =~= front + restores(first).take(index + 1));
            index += 1;
        }
        assert(restores(first).take(5) =~= restores(first));
        assert(stms@ =~= all);
        Some(sequence(stms))
    }

    /// Puts the sink behind the instructions of the function.
    pub fn proc_entry_exit2(&self, instructions: Vec<Instruction>) -> (result: Vec<Instruction>)
        ensures
            instruction_views(result@) == instruction_views(instructions@).push(sink()),
    {
        let ghost given = instruction_views(instructions@);
        let mut instructions = instructions;
        let numbers = [RAX, RBX, RBP, R12, R13, R14, R15];
        let source = temps_of(numbers.as_slice());
        let labels: Vec<Label> = Vec::new();
        let instruction = Instruction::Oper {
            assembly: String::new(),
            destination: Vec::new(),
            source,
            jump: Some(labels),
        };
        assert(instruction@ == sink()) by {
            assert(instruction@.uses() =~= sink().uses());
            assert(instruction@.defs() =~= sink().defs());
            assert(labels@ =~= Seq::<Label>::empty());
        }
        instructions.push(instruction);
        assert(instruction_views(instructions@) =~= given.push(sink()));
        instructions
    }

    /// Wraps the instructions of the function in its prologue and
    /// epilogue. The result is `None` when the name of the function is not
    /// in the table.
    pub fn proc_entry_exit3(&self, body: Vec<Instruction>, names: &Strings) -> (result: Option<
        Subroutine,
    >)
        requires
            self.wf(),
        ensures
            result is Some <==> label_known(self.name, names@),
            result matches Some(subroutine) ==> {
                &&& subroutine.prolog@ == prolog_text(
                    self.name,
                    frame_size(self.slots as nat),
                    names@,
                )
                &&& subroutine.body == body
                &&& subroutine.epilog@ == epilog_text()
            },
    {
        if !is_label_known(self.name, names) {
            return None;
        }
        let mut prolog = String::new();
        push_label(&mut prolog, self.name, names);
        prolog.append(":\n    push rbp\n    mov rbp, rsp\n    sub rsp, ");
        push_decimal(&mut prolog, self.size() as u64);
        let mut epilog = String::new();
        epilog.append("leave\n    ret");
        assert(prolog@ =~= prolog_text(self.name, frame_size(self.slots as nat), names@));
        assert(epilog@ =~= epilog_text());
        Some(Subroutine { prolog, body, epilog })
    }
}

} // verus!
