//! Instruction selection: canonical statements are covered with tiles,
//! largest tile first, and each tile becomes a few instructions over
//! temporaries.

use crate::assembly::{instruction_views, Instruction, InstructionView};
use crate::canon::temp_of;
use crate::blocks::label_of;
use crate::frame::{
    argument_register_list,
    MAX_SLOTS,
    R10,
    R11,
    R8,
    R9,
    RAX,
    RCX,
    RDI,
    RDX,
    RSI,
};
use crate::ir::{exp_size, exps_size, BinOp, Exp, List, RelOp, Stm};
use crate::symbol::Strings;
use crate::temp::{is_label_known, label_known, label_text, push_label, Label, Temp, TempSource};
use crate::text::{decimal, push_decimal, push_signed_decimal, signed_decimal};
use vstd::prelude::*;

verus! {

/// Why instruction selection gave up.
#[derive(Clone, Copy, Debug, PartialEq, Eq, Structural)]
pub enum GenError {
    /// The temporaries ran out.
    OutOfTemps,
    /// The labels ran out.
    OutOfLabels,
    /// A label has a name that is not in the table.
    UnknownLabel(Label),
    /// A call has more arguments than a frame has words.
    TooManyArguments,
    /// The statement is not canonical, or moves into something that is
    /// neither a temporary nor memory.
    Malformed,
}

/// What has been selected so far, as a plain value.
pub struct GenState {
    pub instructions: Seq<InstructionView>,
    pub call_sites: Seq<Label>,
    pub next_temp: nat,
    pub next_label: nat,
}

/// The instructions that have been selected so far, and the labels of the
/// call sites among them.
#[derive(Debug)]
pub struct Gen {
    pub instructions: Vec<Instruction>,
    pub call_sites: Vec<Label>,
}

/// The largest displacement and immediate operand of an instruction.
pub const IMMEDIATE_MAX: i64 = 0x7fff_ffff;

/// The smallest displacement and immediate operand of an instruction.
pub const IMMEDIATE_MIN: i64 = -0x8000_0000;

/// Whether a constant fits into an instruction as an immediate operand or
/// a displacement.
pub open spec fn is_immediate(value: i64) -> bool {
    IMMEDIATE_MIN <= value <= IMMEDIATE_MAX
}

/// The move between two temporaries.
pub open spec fn move_of(destination: Temp, source: Temp) -> InstructionView {
    InstructionView::Move { assembly: "mov 'd0, 's0"@, destination, source }
}

/// An instruction that neither jumps nor is a move.
pub open spec fn oper_of(assembly: Seq<char>, destination: Seq<Temp>, source: Seq<Temp>) -> InstructionView {
    InstructionView::Oper { assembly, destination, source, jump: None }
}

/// The state with one more instruction.
pub open spec fn emitted(state: GenState, instruction: InstructionView) -> GenState {
    GenState { instructions: state.instructions.push(instruction), ..state }
}

/// An instruction that computes a value from `source` into a fresh
/// temporary.
pub open spec fn loaded(state: GenState, assembly: Seq<char>, source: Seq<Temp>) -> Result<
    (GenState, Temp),
    GenError,
> {
    if state.next_temp >= usize::MAX {
        Err(GenError::OutOfTemps)
    } else {
        let temp = temp_of(state.next_temp);
        Ok(
            (
                emitted(
                    GenState { next_temp: state.next_temp + 1, ..state },
                    oper_of(assembly, seq![temp], source),
                ),
                temp,
            ),
        )
    }
}

/// A two-address instruction: `left` is copied into a fresh temporary,
/// which the instruction then changes using `others`.
pub open spec fn combined(state: GenState, assembly: Seq<char>, left: Temp, others: Seq<Temp>) -> Result<
    (GenState, Temp),
    GenError,
> {
    if state.next_temp >= usize::MAX {
        Err(GenError::OutOfTemps)
    } else {
        let temp = temp_of(state.next_temp);
        let copied = emitted(
            GenState { next_temp: state.next_temp + 1, ..state },
            move_of(temp, left),
        );
        Ok((emitted(copied, oper_of(assembly, seq![temp], seq![temp] + others)), temp))
    }
}

/// The parts of an address that is a base plus a constant that fits into
/// a displacement.
pub open spec fn displaced(address: Exp) -> Option<(Exp, i64)> {
    match address {
        Exp::BinOp(BinOp::Plus, base, offset) => match *offset {
            Exp::Const(value) => if is_immediate(value) {
                Some((*base, value))
            } else {
                None
            },
            _ => None,
        },
        _ => None,
    }
}

/// The constant that an operand is, if it fits into an instruction.
pub open spec fn immediate(operand: Exp) -> Option<i64> {
    match operand {
        Exp::Const(value) => if is_immediate(value) {
            Some(value)
        } else {
            None
        },
        _ => None,
    }
}

/// The mnemonic of an operation that takes its right operand from any
/// temporary or as an immediate.
pub open spec fn plain_mnemonic(op: BinOp) -> Option<Seq<char>> {
    match op {
        BinOp::Plus => Some("add"@),
        BinOp::Minus => Some("sub"@),
        BinOp::And => Some("and"@),
        BinOp::Or => Some("or"@),
        BinOp::Xor => Some("xor"@),
        _ => None,
    }
}

/// The mnemonic of a shift, which takes its count from `cl`.
pub open spec fn shift_mnemonic(op: BinOp) -> Option<Seq<char>> {
    match op {
        BinOp::ShiftLeft => Some("shl"@),
        BinOp::ShiftRight => Some("shr"@),
        BinOp::ArithmeticShiftRight => Some("sar"@),
        _ => None,
    }
}

/// The instructions for an operation on two temporaries, with the
/// temporary that holds the result. A division goes through `rax` and
/// `rdx`, a shift takes its count from `rcx`.
pub open spec fn operated(state: GenState, op: BinOp, left: Temp, right: Temp) -> Result<
    (GenState, Temp),
    GenError,
> {
    match op {
        BinOp::Mul => combined(state, "imul 'd0, 's1"@, left, seq![right]),
        BinOp::Div => {
            if state.next_temp >= usize::MAX {
                Err(GenError::OutOfTemps)
            } else {
                let temp = temp_of(state.next_temp);
                let rax = Temp { num: RAX };
                let rdx = Temp { num: RDX };
                let state = GenState { next_temp: state.next_temp + 1, ..state };
                let state = emitted(state, move_of(rax, left));
                let state = emitted(state, oper_of("cqo"@, seq![rdx], seq![rax]));
                let state = emitted(
                    state,
                    oper_of("idiv 's2"@, seq![rax, rdx], seq![rax, rdx, right]),
                );
                Ok((emitted(state, move_of(temp, rax)), temp))
            }
        },
        BinOp::ShiftLeft | BinOp::ShiftRight | BinOp::ArithmeticShiftRight => {
            if state.next_temp >= usize::MAX {
                Err(GenError::OutOfTemps)
            } else {
                let temp = temp_of(state.next_temp);
                let rcx = Temp { num: RCX };
                let state = GenState { next_temp: state.next_temp + 1, ..state };
                let state = emitted(state, move_of(temp, left));
                let state = emitted(state, move_of(rcx, right));
                Ok(
                    (
                        emitted(
                            state,
                            oper_of(
                                shift_mnemonic(op)->0 + " 'd0, cl"@,
                                seq![temp],
                                seq![temp, rcx],
                            ),
                        ),
                        temp,
                    ),
                )
            }
        },
        _ => combined(state, plain_mnemonic(op)->0 + " 'd0, 's1"@, left, seq![right]),
    }
}

/// The instructions that compute an expression, with the temporary that
/// holds its value. A constant and a label are loaded into a fresh
/// temporary, a temporary is itself, memory at a base plus a small
/// constant is read in one instruction, and an operation with a small
/// constant on the right takes it as an immediate operand.
pub open spec fn munched_exp(state: GenState, exp: Exp, names: Seq<Seq<char>>) -> Result<
    (GenState, Temp),
    GenError,
>
    decreases exp_size(exp),
{
    match exp {
        Exp::Const(value) => loaded(
            state,
            "mov 'd0, "@ + signed_decimal(value as int),
            Seq::empty(),
        ),
        Exp::Name(label) => if label_known(label, names) {
            loaded(state, "mov 'd0, "@ + label_text(label, names), Seq::empty())
        } else {
            Err(GenError::UnknownLabel(label))
        },
        Exp::Temp(temp) => Ok((state, temp)),
        Exp::Mem(address) => match displaced(*address) {
            Some((base, offset)) => {
                proof {
                    lemma_displaced_smaller(*address);
                }
                match munched_exp(state, base, names) {
                    Ok((state, base)) => loaded(
                        state,
                        "mov 'd0, ['s0 + "@ + signed_decimal(offset as int) + "]"@,
                        seq![base],
                    ),
                    Err(error) => Err(error),
                }
            },
            None => match munched_exp(state, *address, names) {
                Ok((state, address)) => loaded(state, "mov 'd0, ['s0]"@, seq![address]),
                Err(error) => Err(error),
            },
        },
        Exp::BinOp(op, left, right) => match munched_exp(state, *left, names) {
            Ok((state, left)) => {
                if plain_mnemonic(op) is Some && immediate(*right) is Some {
                    combined(
                        state,
                        plain_mnemonic(op)->0 + " 'd0, "@ + signed_decimal(
                            immediate(*right)->0 as int,
                        ),
                        left,
                        Seq::empty(),
                    )
                } else {
                    match munched_exp(state, *right, names) {
                        Ok((state, right)) => operated(state, op, left, right),
                        Err(error) => Err(error),
                    }
                }
            },
            Err(error) => Err(error),
        },
        Exp::Call(_, _) => Err(GenError::Malformed),
        Exp::ESeq(_, _) => Err(GenError::Malformed),
    }
}

/// The base of a displaced address is smaller than the address.
pub proof fn lemma_displaced_smaller(address: Exp)
    ensures
        displaced(address) matches Some((base, offset)) ==> exp_size(base) < exp_size(address)
            && address == Exp::BinOp(BinOp::Plus, Box::new(base), Box::new(Exp::Const(offset))),
{
}

/// Whether what was computed is what the rules give: the value and the
/// state afterwards, or the same error.
pub open spec fn yields<T>(
    result: Result<T, GenError>,
    expected: Result<(GenState, T), GenError>,
    after: GenState,
) -> bool {
    match result {
        Ok(value) => expected == Ok::<(GenState, T), GenError>((after, value)),
        Err(error) => expected == Err::<(GenState, T), GenError>(error),
    }
}

fn one(temp: Temp) -> (temps: Vec<Temp>)
    ensures
        temps@ == seq![temp],
{
    let mut temps: Vec<Temp> = Vec::new();
    temps.push(temp);
    assert(temps@ =~= seq![temp]);
    temps
}

fn two(first: Temp, second: Temp) -> (temps: Vec<Temp>)
    ensures
        temps@ == seq![first, second],
{
    let mut temps: Vec<Temp> = Vec::new();
    temps.push(first);
    temps.push(second);
    assert(temps@ =~= seq![first, second]);
    temps
}

fn three(first: Temp, second: Temp, third: Temp) -> (temps: Vec<Temp>)
    ensures
        temps@ == seq![first, second, third],
{
    let mut temps: Vec<Temp> = Vec::new();
    temps.push(first);
    temps.push(second);
    temps.push(third);
    assert(temps@ =~= seq![first, second, third]);
    temps
}

fn text(literal: &str) -> (result: String)
    ensures
        result@ == literal@,
{
    let mut result = String::new();
    result.append(literal);
    assert(result@ =~= literal@);
    result
}

/// The parts of an address that is a base plus a small constant.
pub fn split_displaced(address: &Exp) -> (result: Option<(&Exp, i64)>)
    ensures
        match result {
            Some((base, offset)) => displaced(*address) == Some((*base, offset)),
            None => displaced(*address) is None,
        },
{
    match address {
        Exp::BinOp(BinOp::Plus, base, offset) => match &**offset {
            Exp::Const(value) => if IMMEDIATE_MIN <= *value && *value <= IMMEDIATE_MAX {
                Some((&**base, *value))
            } else {
                None
            },
            _ => None,
        },
        _ => None,
    }
}

/// The constant that an operand is, if it is small.
pub fn as_immediate(operand: &Exp) -> (result: Option<i64>)
    ensures
        result == immediate(*operand),
{
    match operand {
        Exp::Const(value) => if IMMEDIATE_MIN <= *value && *value <= IMMEDIATE_MAX {
            Some(*value)
        } else {
            None
        },
        _ => None,
    }
}

fn plain_name(op: BinOp) -> (result: Option<&'static str>)
    ensures
        match result {
            Some(name) => plain_mnemonic(op) == Some(name@),
            None => plain_mnemonic(op) is None,
        },
{
    match op {
        BinOp::Plus => Some("add"),
        BinOp::Minus => Some("sub"),
        BinOp::And => Some("and"),
        BinOp::Or => Some("or"),
        BinOp::Xor => Some("xor"),
        _ => None,
    }
}

fn shift_name(op: BinOp) -> (result: Option<&'static str>)
    ensures
        match result {
            Some(name) => shift_mnemonic(op) == Some(name@),
            None => shift_mnemonic(op) is None,
        },
{
    match op {
        BinOp::ShiftLeft => Some("shl"),
        BinOp::ShiftRight => Some("shr"),
        BinOp::ArithmeticShiftRight => Some("sar"),
        _ => None,
    }
}

/// The mnemonic of the jump that is taken when the comparison holds.
pub open spec fn jump_mnemonic(op: RelOp) -> Seq<char> {
    match op {
        RelOp::Equal => "je"@,
        RelOp::NotEqual => "jne"@,
        RelOp::LesserThan => "jl"@,
        RelOp::GreaterThan => "jg"@,
        RelOp::LesserOrEqual => "jle"@,
        RelOp::GreaterOrEqual => "jge"@,
        RelOp::UnsignedLesserThan => "jb"@,
        RelOp::UnsignedLesserOrEqual => "jbe"@,
        RelOp::UnsignedGreaterThan => "ja"@,
        RelOp::UnsignedGreaterOrEqual => "jae"@,
    }
}

/// An instruction that may go to the given labels.
pub open spec fn jump_of(assembly: Seq<char>, source: Seq<Temp>, targets: Seq<Label>) -> InstructionView {
    InstructionView::Oper { assembly, destination: Seq::empty(), source, jump: Some(targets) }
}

/// The definition of a label.
pub open spec fn label_definition(label: Label, names: Seq<Seq<char>>) -> InstructionView {
    InstructionView::Label { assembly: label_text(label, names) + ":"@, label }
}

/// The registers that carry the arguments of a call with `count`
/// arguments.
pub open spec fn used_registers(count: int) -> Seq<Temp> {
    argument_register_list().take(
        if count < 6 {
            count
        } else {
            6
        },
    )
}

/// The registers that a call may overwrite.
pub open spec fn clobbered() -> Seq<Temp> {
    seq![
        Temp { num: RAX },
        Temp { num: RCX },
        Temp { num: RDX },
        Temp { num: RSI },
        Temp { num: RDI },
        Temp { num: R8 },
        Temp { num: R9 },
        Temp { num: R10 },
        Temp { num: R11 },
    ]
}

/// The instructions that compute the arguments of a call, first to last,
/// with the temporaries that hold them.
pub open spec fn munched_args(state: GenState, arguments: List<Exp>, names: Seq<Seq<char>>) -> Result<
    (GenState, Seq<Temp>),
    GenError,
>
    decreases exps_size(arguments),
{
    match arguments {
        List::Nil => Ok((state, Seq::empty())),
        List::Cons(head, tail) => match munched_exp(state, head, names) {
            Ok((state, first)) => match munched_args(state, *tail, names) {
                Ok((state, rest)) => Ok((state, seq![first] + rest)),
                Err(error) => Err(error),
            },
            Err(error) => Err(error),
        },
    }
}

/// The pushes of the arguments from the one before `at` down to the
/// seventh.
pub open spec fn pushed(state: GenState, temps: Seq<Temp>, at: int) -> GenState
    decreases at,
{
    if at <= 6 {
        state
    } else {
        pushed(
            emitted(state, oper_of("push 's0"@, Seq::empty(), seq![temps[at - 1]])),
            temps,
            at - 1,
        )
    }
}

/// The moves of the arguments from `at` up to the sixth into their
/// registers.
pub open spec fn passed(state: GenState, temps: Seq<Temp>, at: int) -> GenState
    decreases 6 - at,
{
    if at < 0 || at >= 6 || at >= temps.len() {
        state
    } else {
        passed(emitted(state, move_of(argument_register_list()[at], temps[at])), temps, at + 1)
    }
}

/// The number of arguments of a call that go on the stack.
pub open spec fn stack_arguments(count: int) -> int {
    if count > 6 {
        count - 6
    } else {
        0
    }
}

/// The instructions of a call once the arguments are in temporaries and
/// the function, if it is no label, in `callee`: a word of padding where
/// an odd number of arguments goes on the stack, the pushes, the moves
/// into registers, a fresh label for the call site, the call, and the
/// stack pointer put back.
pub open spec fn called(
    state: GenState,
    function: Exp,
    callee: Option<Temp>,
    temps: Seq<Temp>,
    names: Seq<Seq<char>>,
) -> Result<GenState, GenError> {
    let extra = stack_arguments(temps.len() as int);
    let state = if extra % 2 == 1 {
        emitted(state, oper_of("sub rsp, 8"@, Seq::empty(), Seq::empty()))
    } else {
        state
    };
    let state = pushed(state, temps, temps.len() as int);
    let state = passed(state, temps, 0);
    if state.next_label >= usize::MAX {
        Err(GenError::OutOfLabels)
    } else {
        let site = label_of(state.next_label);
        let state = GenState {
            next_label: state.next_label + 1,
            call_sites: state.call_sites.push(site),
            ..state
        };
        let state = emitted(state, label_definition(site, names));
        let state = emitted(
            state,
            match callee {
                Some(temp) => oper_of(
                    "call 's0"@,
                    clobbered(),
                    seq![temp] + used_registers(temps.len() as int),
                ),
                None => oper_of(
                    "call "@ + label_text(function->Name_0, names),
                    clobbered(),
                    used_registers(temps.len() as int),
                ),
            },
        );
        Ok(
            if extra > 0 {
                emitted(
                    state,
                    oper_of(
                        "add rsp, "@ + decimal((8 * (extra + extra % 2)) as nat),
                        Seq::empty(),
                        Seq::empty(),
                    ),
                )
            } else {
                state
            },
        )
    }
}

/// The instructions of a call: the arguments are computed first to last,
/// then the function if it is no label, then the call is made.
pub open spec fn munched_call(
    state: GenState,
    function: Exp,
    arguments: List<Exp>,
    names: Seq<Seq<char>>,
) -> Result<GenState, GenError> {
    match munched_args(state, arguments, names) {
        Err(error) => Err(error),
        Ok((state, temps)) => if temps.len() > MAX_SLOTS {
            Err(GenError::TooManyArguments)
        } else {
            match function {
                Exp::Name(label) => if label_known(label, names) {
                    called(state, function, None, temps, names)
                } else {
                    Err(GenError::UnknownLabel(label))
                },
                _ => match munched_exp(state, function, names) {
                    Ok((state, callee)) => called(state, function, Some(callee), temps, names),
                    Err(error) => Err(error),
                },
            }
        },
    }
}

/// The instructions for storing the value of `source` at an address.
pub open spec fn munched_store(state: GenState, address: Exp, source: Exp, names: Seq<Seq<char>>) -> Result<
    GenState,
    GenError,
> {
    match displaced(address) {
        Some((base, offset)) => {
            match munched_exp(state, base, names) {
                Ok((state, base)) => match munched_exp(state, source, names) {
                    Ok((state, value)) => Ok(
                        emitted(
                            state,
                            oper_of(
                                "mov ['s0 + "@ + signed_decimal(offset as int) + "], 's1"@,
                                Seq::empty(),
                                seq![base, value],
                            ),
                        ),
                    ),
                    Err(error) => Err(error),
                },
                Err(error) => Err(error),
            }
        },
        None => match munched_exp(state, address, names) {
            Ok((state, address)) => match munched_exp(state, source, names) {
                Ok((state, value)) => Ok(
                    emitted(
                        state,
                        oper_of("mov ['s0], 's1"@, Seq::empty(), seq![address, value]),
                    ),
                ),
                Err(error) => Err(error),
            },
            Err(error) => Err(error),
        },
    }
}

/// The instructions for a statement. A move into a temporary from a call
/// takes the result from `rax`; a store to a base plus a small constant
/// is one instruction; a jump to a label names the label; a conditional
/// jump is a comparison and a jump to the true label, with the false label
/// as the other way on.
pub open spec fn munched_stm(state: GenState, stm: Stm, names: Seq<Seq<char>>) -> Result<
    GenState,
    GenError,
> {
    match stm {
        Stm::Label(label) => if label_known(label, names) {
            Ok(emitted(state, label_definition(label, names)))
        } else {
            Err(GenError::UnknownLabel(label))
        },
        Stm::Jump(Exp::Name(label), targets) => if label_known(label, names) {
            Ok(emitted(state, jump_of("jmp "@ + label_text(label, names), Seq::empty(), targets@)))
        } else {
            Err(GenError::UnknownLabel(label))
        },
        Stm::Jump(target, targets) => match munched_exp(state, target, names) {
            Ok((state, target)) => Ok(emitted(state, jump_of("jmp 's0"@, seq![target], targets@))),
            Err(error) => Err(error),
        },
        Stm::CJump(op, left, right, if_true, if_false) => match munched_exp(state, left, names) {
            Ok((state, left)) => match munched_exp(state, right, names) {
                Ok((state, right)) => if label_known(if_true, names) {
                    let state = emitted(
                        state,
                        oper_of("cmp 's0, 's1"@, Seq::empty(), seq![left, right]),
                    );
                    Ok(
                        emitted(
                            state,
                            jump_of(
                                jump_mnemonic(op) + " "@ + label_text(if_true, names),
                                Seq::empty(),
                                seq![if_true, if_false],
                            ),
                        ),
                    )
                } else {
                    Err(GenError::UnknownLabel(if_true))
                },
                Err(error) => Err(error),
            },
            Err(error) => Err(error),
        },
        Stm::Move(Exp::Temp(destination), Exp::Call(function, arguments)) => {
            match munched_call(state, *function, *arguments, names) {
                Ok(state) => Ok(emitted(state, move_of(destination, Temp { num: RAX }))),
                Err(error) => Err(error),
            }
        },
        Stm::Move(Exp::Temp(destination), source) => match munched_exp(state, source, names) {
            Ok((state, value)) => Ok(emitted(state, move_of(destination, value))),
            Err(error) => Err(error),
        },
        Stm::Move(Exp::Mem(address), source) => munched_store(state, *address, source, names),
        Stm::Move(_, _) => Err(GenError::Malformed),
        Stm::Exp(Exp::Call(function, arguments)) => munched_call(
            state,
            *function,
            *arguments,
            names,
        ),
        Stm::Exp(exp) => match munched_exp(state, exp, names) {
            Ok((state, _)) => Ok(state),
            Err(error) => Err(error),
        },
        Stm::Sequence(_, _) => Err(GenError::Malformed),
    }
}

/// The instructions for a list of statements, from `at` on.
pub open spec fn munched_from(state: GenState, stms: Seq<Stm>, at: int, names: Seq<Seq<char>>) -> Result<
    GenState,
    GenError,
>
    decreases stms.len() - at,
{
    if at < 0 || at >= stms.len() {
        Ok(state)
    } else {
        match munched_stm(state, stms[at], names) {
            Ok(state) => munched_from(state, stms, at + 1, names),
            Err(error) => Err(error),
        }
    }
}

/// Whether what was done is what the rules give: the state afterwards, or
/// the same error.
pub open spec fn leaves(
    result: Result<(), GenError>,
    expected: Result<GenState, GenError>,
    after: GenState,
) -> bool {
    match result {
        Ok(_) => expected == Ok::<GenState, GenError>(after),
        Err(error) => expected == Err::<GenState, GenError>(error),
    }
}

fn jump_name(op: RelOp) -> (name: &'static str)
    ensures
        name@ == jump_mnemonic(op),
{
    match op {
        RelOp::Equal => "je",
        RelOp::NotEqual => "jne",
        RelOp::LesserThan => "jl",
        RelOp::GreaterThan => "jg",
        RelOp::LesserOrEqual => "jle",
        RelOp::GreaterOrEqual => "jge",
        RelOp::UnsignedLesserThan => "jb",
        RelOp::UnsignedLesserOrEqual => "jbe",
        RelOp::UnsignedGreaterThan => "ja",
        RelOp::UnsignedGreaterOrEqual => "jae",
    }
}

fn labels_of(list: &List<Label>) -> (labels: Vec<Label>)
    ensures
        labels@ == list@,
    decreases list,
{
    match list {
        List::Nil => Vec::new(),
        List::Cons(head, tail) => {
            let mut labels = labels_of(tail);
            labels.insert(0, *head);
            assert(labels@ =~= seq![*head] + tail@);
            labels
        },
    }
}

fn argument_register(index: usize) -> (temp: Temp)
    requires
        index < 6,
    ensures
        temp == argument_register_list()[index as int],
{
    match index {
        0 => Temp { num: RDI },
        1 => Temp { num: RSI },
        2 => Temp { num: RDX },
        3 => Temp { num: RCX },
        4 => Temp { num: R8 },
        _ => Temp { num: R9 },
    }
}

fn registers_used(count: usize) -> (temps: Vec<Temp>)
    ensures
        temps@ == used_registers(count as int),
{
    let mut temps: Vec<Temp> = Vec::new();
    let mut index: usize = 0;
    while index < 6 && index < count
        invariant
            index <= 6,
            index <= count,
            temps@ == argument_register_list().take(index as int),
        decreases 6 - index,
    {
        temps.push(argument_register(index));
        assert(temps@ =~= argument_register_list().take(index + 1));
        index += 1;
    }
    temps
}

fn clobbered_registers() -> (temps: Vec<Temp>)
    ensures
        temps@ == clobbered(),
{
    let mut temps: Vec<Temp> = Vec::new();
    temps.push(Temp { num: RAX });
    temps.push(Temp { num: RCX });
    temps.push(Temp { num: RDX });
    temps.push(Temp { num: RSI });
    temps.push(Temp { num: RDI });
    temps.push(Temp { num: R8 });
    temps.push(Temp { num: R9 });
    temps.push(Temp { num: R10 });
    temps.push(Temp { num: R11 });
    assert(temps@ =~= clobbered());
    temps
}

impl Gen {
    /// What has been selected so far, with the numbers that `source` will
    /// hand out next.
    pub open spec fn state(&self, source: TempSource) -> GenState {
        GenState {
            instructions: instruction_views(self.instructions@),
            call_sites: self.call_sites@,
            next_temp: source.next_temp(),
            next_label: source.next_label(),
        }
    }

    /// A selection without instructions.
    pub fn new() -> (gen: Self)
        ensures
            gen.instructions@.len() == 0,
            gen.call_sites@.len() == 0,
    {
        Gen { instructions: Vec::new(), call_sites: Vec::new() }
    }

    fn emit(&mut self, instruction: Instruction, Ghost(source): Ghost<TempSource>)
        ensures
            final(self).state(source) == emitted(old(self).state(source), instruction@),
    {
        self.instructions.push(instruction);
        assert(instruction_views(self.instructions@) =~= instruction_views(
            old(self).instructions@,
        ).push(instruction@));
    }

    fn emit_move(&mut self, destination: Temp, from: Temp, Ghost(source): Ghost<TempSource>)
        ensures
            final(self).state(source) == emitted(
                old(self).state(source),
                move_of(destination, from),
            ),
    {
        let instruction = Instruction::Move {
            assembly: text("mov 'd0, 's0"),
            destination,
            source: from,
        };
        self.emit(instruction, Ghost(source));
    }

    fn emit_oper(
        &mut self,
        assembly: String,
        destination: Vec<Temp>,
        from: Vec<Temp>,
        Ghost(source): Ghost<TempSource>,
    )
        ensures
            final(self).state(source) == emitted(
                old(self).state(source),
                oper_of(assembly@, destination@, from@),
            ),
    {
        let instruction = Instruction::Oper { assembly, destination, source: from, jump: None };
        self.emit(instruction, Ghost(source));
    }

    fn load(&mut self, assembly: String, from: Vec<Temp>, source: &mut TempSource) -> (result:
        Result<Temp, GenError>)
        ensures
            yields(
                result,
                loaded(old(self).state(*old(source)), assembly@, from@),
                final(self).state(*final(source)),
            ),
    {
        proof {
            source.lemma_in_range();
        }
        match source.fresh_temp() {
            Some(temp) => {
                proof {
                    source.lemma_in_range();
                }
                self.emit_oper(assembly, one(temp), from, Ghost(*source));
                Ok(temp)
            },
            None => Err(GenError::OutOfTemps),
        }
    }

    fn combine(&mut self, assembly: String, left: Temp, others: Vec<Temp>, source: &mut TempSource) -> (result: Result<Temp, GenError>)
        ensures
            yields(
                result,
                combined(old(self).state(*old(source)), assembly@, left, others@),
                final(self).state(*final(source)),
            ),
    {
        proof {
            source.lemma_in_range();
        }
        match source.fresh_temp() {
            Some(temp) => {
                proof {
                    source.lemma_in_range();
                }
                self.emit_move(temp, left, Ghost(*source));
                let mut from = one(temp);
                let mut others = others;
                let ghost rest = others@;
                from.append(&mut others);
                assert(from@ =~= seq![temp] + rest);
                self.emit_oper(assembly, one(temp), from, Ghost(*source));
                Ok(temp)
            },
            None => Err(GenError::OutOfTemps),
        }
    }

    fn operate(&mut self, op: BinOp, left: Temp, right: Temp, source: &mut TempSource) -> (result:
        Result<Temp, GenError>)
        ensures
            yields(
                result,
                operated(old(self).state(*old(source)), op, left, right),
                final(self).state(*final(source)),
            ),
    {
        proof {
            source.lemma_in_range();
        }
        match op {
            BinOp::Mul => self.combine(text("imul 'd0, 's1"), left, one(right), source),
            BinOp::Div => {
                match source.fresh_temp() {
                    Some(temp) => {
                        proof {
                            source.lemma_in_range();
                        }
                        let rax = Temp { num: RAX };
                        let rdx = Temp { num: RDX };
                        self.emit_move(rax, left, Ghost(*source));
                        self.emit_oper(text("cqo"), one(rdx), one(rax), Ghost(*source));
                        self.emit_oper(
                            text("idiv 's2"),
                            two(rax, rdx),
                            three(rax, rdx, right),
                            Ghost(*source),
                        );
                        self.emit_move(temp, rax, Ghost(*source));
                        Ok(temp)
                    },
                    None => Err(GenError::OutOfTemps),
                }
            },
            BinOp::ShiftLeft | BinOp::ShiftRight | BinOp::ArithmeticShiftRight => {
                match source.fresh_temp() {
                    Some(temp) => {
                        proof {
                            source.lemma_in_range();
                        }
                        let rcx = Temp { num: RCX };
                        self.emit_move(temp, left, Ghost(*source));
                        self.emit_move(rcx, right, Ghost(*source));
                        let mut assembly = String::new();
                        match shift_name(op) {
                            Some(name) => {
                                assembly.append(name);
                            },
                            None => {},
                        }
                        assembly.append(" 'd0, cl");
                        assert(assembly@ =~= shift_mnemonic(op)->0 + " 'd0, cl"@);
                        self.emit_oper(assembly, one(temp), two(temp, rcx), Ghost(*source));
                        Ok(temp)
                    },
                    None => Err(GenError::OutOfTemps),
                }
            },
            _ => {
                let mut assembly = String::new();
                match plain_name(op) {
                    Some(name) => {
                        assembly.append(name);
                    },
                    None => {},
                }
                assembly.append(" 'd0, 's1");
                assert(assembly@ =~= plain_mnemonic(op)->0 + " 'd0, 's1"@);
                self.combine(assembly, left, one(right), source)
            },
        }
    }

    /// Selects the instructions that compute an expression and returns the
    /// temporary that holds its value.
    pub fn munch_expression(&mut self, exp: &Exp, source: &mut TempSource, names: &Strings) -> (result:
        Result<Temp, GenError>)
        ensures
            yields(
                result,
                munched_exp(old(self).state(*old(source)), *exp, names@),
                final(self).state(*final(source)),
            ),
        decreases exp_size(*exp),
    {
        match exp {
            Exp::Const(value) => {
                let mut assembly = String::new();
                assembly.append("mov 'd0, ");
                push_signed_decimal(&mut assembly, *value);
                assert(assembly@ =~= "mov 'd0, "@ + signed_decimal(*value as int));
                self.load(assembly, Vec::new(), source)
            },
            Exp::Name(label) => {
                if !is_label_known(*label, names) {
                    return Err(GenError::UnknownLabel(*label));
                }
                let mut assembly = String::new();
                assembly.append("mov 'd0, ");
                push_label(&mut assembly, *label, names);
                assert(assembly@ =~= "mov 'd0, "@ + label_text(*label, names@));
                self.load(assembly, Vec::new(), source)
            },
            Exp::Temp(temp) => Ok(*temp),
            Exp::Mem(address) => {
                match split_displaced(address) {
                    Some((base, offset)) => {
                        proof {
                            lemma_displaced_smaller(**address);
                        }
                        let base = match self.munch_expression(base, source, names) {
                            Ok(temp) => temp,
                            Err(error) => {
                                return Err(error);
                            },
                        };
                        let mut assembly = String::new();
                        assembly.append("mov 'd0, ['s0 + ");
                        push_signed_decimal(&mut assembly, offset);
                        assembly.append("]");
                        assert(assembly@ =~= "mov 'd0, ['s0 + "@ + signed_decimal(offset as int)
                            + "]"@);
                        self.load(assembly, one(base), source)
                    },
                    None => {
                        let address = match self.munch_expression(address, source, names) {
                            Ok(temp) => temp,
                            Err(error) => {
                                return Err(error);
                            },
                        };
                        self.load(text("mov 'd0, ['s0]"), one(address), source)
                    },
                }
            },
            Exp::BinOp(op, left, right) => {
                let left = match self.munch_expression(left, source, names) {
                    Ok(temp) => temp,
                    Err(error) => {
                        return Err(error);
                    },
                };
                match (plain_name(*op), as_immediate(right)) {
                    (Some(name), Some(value)) => {
                        let mut assembly = String::new();
                        assembly.append(name);
                        assembly.append(" 'd0, ");
                        push_signed_decimal(&mut assembly, value);
                        assert(assembly@ =~= plain_mnemonic(*op)->0 + " 'd0, "@ + signed_decimal(
                            value as int,
                        ));
                        self.combine(assembly, left, Vec::new(), source)
                    },
                    _ => {
                        let right = match self.munch_expression(right, source, names) {
                            Ok(temp) => temp,
                            Err(error) => {
                                return Err(error);
                            },
                        };
                        self.operate(*op, left, right, source)
                    },
                }
            },
            Exp::Call(_, _) => Err(GenError::Malformed),
            Exp::ESeq(_, _) => Err(GenError::Malformed),
        }
    }

    fn emit_jump(
        &mut self,
        assembly: String,
        from: Vec<Temp>,
        targets: Vec<Label>,
        Ghost(source): Ghost<TempSource>,
    )
        ensures
            final(self).state(source) == emitted(
                old(self).state(source),
                jump_of(assembly@, from@, targets@),
            ),
    {
        let instruction = Instruction::Oper {
            assembly,
            destination: Vec::new(),
            source: from,
            jump: Some(targets),
        };
        assert(instruction@ == jump_of(assembly@, from@, targets@)) by {
            assert(instruction@.defs() =~= Seq::<Temp>::empty());
        }
        self.emit(instruction, Ghost(source));
    }

    fn emit_label(&mut self, label: Label, names: &Strings, Ghost(source): Ghost<TempSource>)
        requires
            label_known(label, names@),
        ensures
            final(self).state(source) == emitted(
                old(self).state(source),
                label_definition(label, names@),
            ),
    {
        let mut assembly = String::new();
        push_label(&mut assembly, label, names);
        assembly.append(":");
        assert(assembly@ =~= label_text(label, names@) + ":"@);
        self.emit(Instruction::Label { assembly, label }, Ghost(source));
    }

    fn munch_arguments(&mut self, arguments: &List<Exp>, source: &mut TempSource, names: &Strings) -> (result: Result<Vec<Temp>, GenError>)
        ensures
            match result {
                Ok(temps) => munched_args(old(self).state(*old(source)), *arguments, names@) == Ok::<
                    (GenState, Seq<Temp>),
                    GenError,
                >((final(self).state(*final(source)), temps@)),
                Err(error) => munched_args(old(self).state(*old(source)), *arguments, names@)
                    == Err::<(GenState, Seq<Temp>), GenError>(error),
            },
        decreases exps_size(*arguments),
    {
        match arguments {
            List::Nil => Ok(Vec::new()),
            List::Cons(head, tail) => {
                let first = match self.munch_expression(head, source, names) {
                    Ok(temp) => temp,
                    Err(error) => {
                        return Err(error);
                    },
                };
                let mut temps = match self.munch_arguments(tail, source, names) {
                    Ok(temps) => temps,
                    Err(error) => {
                        return Err(error);
                    },
                };
                let ghost rest = temps@;
                temps.insert(0, first);
                assert(temps@ =~= seq![first] + rest);
                Ok(temps)
            },
        }
    }

    fn call(
        &mut self,
        function: &Exp,
        callee: Option<Temp>,
        temps: &Vec<Temp>,
        source: &mut TempSource,
        names: &Strings,
    ) -> (result: Result<(), GenError>)
        requires
            temps@.len() <= MAX_SLOTS,
            callee is None ==> *function is Name && label_known(function->Name_0, names@),
        ensures
            leaves(
                result,
                called(old(self).state(*old(source)), *function, callee, temps@, names@),
                final(self).state(*final(source)),
            ),
    {
        let ghost start = self.state(*source);
        let extra: usize = if temps.len() > 6 {
            temps.len() - 6
        } else {
            0
        };
        if extra % 2 == 1 {
            self.emit_oper(text("sub rsp, 8"), Vec::new(), Vec::new(), Ghost(*source));
        }
        let ghost padded = self.state(*source);
        let mut at = temps.len();
        while at > 6
            invariant
                at <= temps@.len(),
                pushed(self.state(*source), temps@, at as int) == pushed(
                    padded,
                    temps@,
                    temps@.len() as int,
                ),
            decreases at,
        {
            self.emit_oper(text("push 's0"), Vec::new(), one(temps[at - 1]), Ghost(*source));
            at -= 1;
        }
        let ghost stacked = self.state(*source);
        assert(stacked == pushed(padded, temps@, temps@.len() as int));
        let mut index: usize = 0;
        while index < 6 && index < temps.len()
            invariant
                index <= 6,
                index <= temps@.len(),
                passed(self.state(*source), temps@, index as int) == passed(stacked, temps@, 0),
            decreases 6 - index,
        {
            self.emit_move(argument_register(index), temps[index], Ghost(*source));
            index += 1;
        }
        assert(self.state(*source) == passed(stacked, temps@, 0));
        proof {
            source.lemma_in_range();
        }
        let site = match source.fresh_label() {
            Some(label) => label,
            None => {
                return Err(GenError::OutOfLabels);
            },
        };
        proof {
            source.lemma_in_range();
        }
        self.call_sites.push(site);
        self.emit_label(site, names, Ghost(*source));
        match callee {
            Some(temp) => {
                let mut from = one(temp);
                let mut used = registers_used(temps.len());
                from.append(&mut used);
                assert(from@ =~= seq![temp] + used_registers(temps@.len() as int));
                self.emit_oper(text("call 's0"), clobbered_registers(), from, Ghost(*source));
            },
            None => {
                let mut assembly = String::new();
                assembly.append("call ");
                match function {
                    Exp::Name(label) => {
                        push_label(&mut assembly, *label, names);
                    },
                    _ => {},
                }
                assert(assembly@ =~= "call "@ + label_text(function->Name_0, names@));
                self.emit_oper(
                    assembly,
                    clobbered_registers(),
                    registers_used(temps.len()),
                    Ghost(*source),
                );
            },
        }
        if extra > 0 {
            let mut assembly = String::new();
            assembly.append("add rsp, ");
            push_decimal(&mut assembly, 8 * (extra as u64 + (extra % 2) as u64));
            assert(assembly@ =~= "add rsp, "@ + decimal((8 * (extra + extra % 2)) as nat));
            self.emit_oper(assembly, Vec::new(), Vec::new(), Ghost(*source));
        }
        Ok(())
    }

    fn munch_call(
        &mut self,
        function: &Exp,
        arguments: &List<Exp>,
        source: &mut TempSource,
        names: &Strings,
    ) -> (result: Result<(), GenError>)
        ensures
            leaves(
                result,
                munched_call(old(self).state(*old(source)), *function, *arguments, names@),
                final(self).state(*final(source)),
            ),
    {
        let temps = match self.munch_arguments(arguments, source, names) {
            Ok(temps) => temps,
            Err(error) => {
                return Err(error);
            },
        };
        if temps.len() > MAX_SLOTS {
            return Err(GenError::TooManyArguments);
        }
        match function {
            Exp::Name(label) => {
                if !is_label_known(*label, names) {
                    return Err(GenError::UnknownLabel(*label));
                }
                self.call(function, None, &temps, source, names)
            },
            _ => {
                let callee = match self.munch_expression(function, source, names) {
                    Ok(temp) => temp,
                    Err(error) => {
                        return Err(error);
                    },
                };
                self.call(function, Some(callee), &temps, source, names)
            },
        }
    }

    fn munch_store(&mut self, address: &Exp, value: &Exp, source: &mut TempSource, names: &Strings) -> (result: Result<(), GenError>)
        ensures
            leaves(
                result,
                munched_store(old(self).state(*old(source)), *address, *value, names@),
                final(self).state(*final(source)),
            ),
    {
        match split_displaced(address) {
            Some((base, offset)) => {
                let base = match self.munch_expression(base, source, names) {
                    Ok(temp) => temp,
                    Err(error) => {
                        return Err(error);
                    },
                };
                let value = match self.munch_expression(value, source, names) {
                    Ok(temp) => temp,
                    Err(error) => {
                        return Err(error);
                    },
                };
                let mut assembly = String::new();
                assembly.append("mov ['s0 + ");
                push_signed_decimal(&mut assembly, offset);
                assembly.append("], 's1");
                assert(assembly@ =~= "mov ['s0 + "@ + signed_decimal(offset as int) + "], 's1"@);
                self.emit_oper(assembly, Vec::new(), two(base, value), Ghost(*source));
                Ok(())
            },
            None => {
                let address = match self.munch_expression(address, source, names) {
                    Ok(temp) => temp,
                    Err(error) => {
                        return Err(error);
                    },
                };
                let value = match self.munch_expression(value, source, names) {
                    Ok(temp) => temp,
                    Err(error) => {
                        return Err(error);
                    },
                };
                self.emit_oper(
                    text("mov ['s0], 's1"),
                    Vec::new(),
                    two(address, value),
                    Ghost(*source),
                );
                Ok(())
            },
        }
    }

    /// Selects the instructions for a statement.
    pub fn munch_statement(&mut self, stm: &Stm, source: &mut TempSource, names: &Strings) -> (result:
        Result<(), GenError>)
        ensures
            leaves(
                result,
                munched_stm(old(self).state(*old(source)), *stm, names@),
                final(self).state(*final(source)),
            ),
    {
        match stm {
            Stm::Label(label) => {
                if !is_label_known(*label, names) {
                    return Err(GenError::UnknownLabel(*label));
                }
                self.emit_label(*label, names, Ghost(*source));
                Ok(())
            },
            Stm::Jump(Exp::Name(label), targets) => {
                if !is_label_known(*label, names) {
                    return Err(GenError::UnknownLabel(*label));
                }
                let mut assembly = String::new();
                assembly.append("jmp ");
                push_label(&mut assembly, *label, names);
                assert(assembly@ =~= "jmp "@ + label_text(*label, names@));
                self.emit_jump(assembly, Vec::new(), labels_of(targets), Ghost(*source));
                Ok(())
            },
            Stm::Jump(target, targets) => {
                let target = match self.munch_expression(target, source, names) {
                    Ok(temp) => temp,
                    Err(error) => {
                        return Err(error);
                    },
                };
                self.emit_jump(text("jmp 's0"), one(target), labels_of(targets), Ghost(*source));
                Ok(())
            },
            Stm::CJump(op, left, right, if_true, if_false) => {
                let left = match self.munch_expression(left, source, names) {
                    Ok(temp) => temp,
                    Err(error) => {
                        return Err(error);
                    },
                };
                let right = match self.munch_expression(right, source, names) {
                    Ok(temp) => temp,
                    Err(error) => {
                        return Err(error);
                    },
                };
                if !is_label_known(*if_true, names) {
                    return Err(GenError::UnknownLabel(*if_true));
                }
                self.emit_oper(text("cmp 's0, 's1"), Vec::new(), two(left, right), Ghost(*source));
                let mut assembly = String::new();
                assembly.append(jump_name(*op));
                assembly.append(" ");
                push_label(&mut assembly, *if_true, names);
                assert(assembly@ =~= jump_mnemonic(*op) + " "@ + label_text(*if_true, names@));
                let mut targets: Vec<Label> = Vec::new();
                targets.push(*if_true);
                targets.push(*if_false);
                assert(targets@ =~= seq![*if_true, *if_false]);
                self.emit_jump(assembly, Vec::new(), targets, Ghost(*source));
                Ok(())
            },
            Stm::Move(Exp::Temp(destination), Exp::Call(function, arguments)) => {
                match self.munch_call(function, arguments, source, names) {
                    Ok(_) => {},
                    Err(error) => {
                        return Err(error);
                    },
                }
                self.emit_move(*destination, Temp { num: RAX }, Ghost(*source));
                Ok(())
            },
            Stm::Move(Exp::Temp(destination), value) => {
                let value = match self.munch_expression(value, source, names) {
                    Ok(temp) => temp,
                    Err(error) => {
                        return Err(error);
                    },
                };
                self.emit_move(*destination, value, Ghost(*source));
                Ok(())
            },
            Stm::Move(Exp::Mem(address), value) => {
                self.munch_store(address, value, source, names)
            },
            Stm::Move(_, _) => Err(GenError::Malformed),
            Stm::Exp(Exp::Call(function, arguments)) => {
                self.munch_call(function, arguments, source, names)
            },
            Stm::Exp(exp) => {
                match self.munch_expression(exp, source, names) {
                    Ok(_) => Ok(()),
                    Err(error) => Err(error),
                }
            },
            Stm::Sequence(_, _) => Err(GenError::Malformed),
        }
    }

    /// Selects the instructions for a list of statements, one after the
    /// other, and stops at the first that fails.
    pub fn munch_statements(&mut self, stms: &Vec<Stm>, source: &mut TempSource, names: &Strings) -> (result: Result<(), GenError>)
        ensures
            leaves(
                result,
                munched_from(old(self).state(*old(source)), stms@, 0, names@),
                final(self).state(*final(source)),
            ),
    {
        let mut at: usize = 0;
        while at < stms.len()
            invariant
                at <= stms@.len(),
                munched_from(self.state(*source), stms@, at as int, names@) == munched_from(
                    old(self).state(*old(source)),
                    stms@,
                    0,
                    names@,
                ),
            decreases stms.len() - at,
        {
            match self.munch_statement(&stms[at], source, names) {
                Ok(_) => {},
                Err(error) => {
                    return Err(error);
                },
            }
            at += 1;
        }
        Ok(())
    }

    /// The instructions that were selected.
    pub fn get_result(self) -> (instructions: Vec<Instruction>)
        ensures
            instructions == self.instructions,
    {
        self.instructions
    }
}

} // verus!
