//! Canonical form: a tree is rewritten into a list of statements in which
//! no `ESeq` is left and every call stands alone.

use crate::ir::{exp_size, exps_size, stm_size, Exp, List, Stm};
use crate::temp::{Temp, TempSource};
use vstd::prelude::*;

verus! {

/// An expression without `ESeq` and without `Call`.
pub open spec fn is_pure(exp: Exp) -> bool
    decreases exp,
{
    match exp {
        Exp::Const(_) | Exp::Name(_) | Exp::Temp(_) => true,
        Exp::BinOp(_, left, right) => is_pure(*left) && is_pure(*right),
        Exp::Mem(address) => is_pure(*address),
        Exp::Call(_, _) => false,
        Exp::ESeq(_, _) => false,
    }
}

/// A list of pure expressions.
pub open spec fn all_pure(exps: List<Exp>) -> bool
    decreases exps,
{
    match exps {
        List::Nil => true,
        List::Cons(head, tail) => is_pure(head) && all_pure(*tail),
    }
}

/// A call whose function and arguments are pure.
pub open spec fn is_flat_call(exp: Exp) -> bool {
    match exp {
        Exp::Call(function, arguments) => is_pure(*function) && all_pure(*arguments),
        _ => false,
    }
}

/// A canonical statement: no sequence, no `ESeq` anywhere, and a call only
/// as the whole source of a move into a temporary or as the whole of an
/// expression statement.
pub open spec fn is_canonical(stm: Stm) -> bool {
    match stm {
        Stm::Move(destination, source) => is_pure(destination) && (is_pure(source) || (
        destination is Temp && is_flat_call(source))),
        Stm::Exp(exp) => is_pure(exp) || is_flat_call(exp),
        Stm::Jump(target, _) => is_pure(target),
        Stm::CJump(_, left, right, _, _) => is_pure(left) && is_pure(right),
        Stm::Sequence(_, _) => false,
        Stm::Label(_) => true,
    }
}

/// A list of canonical statements.
pub open spec fn all_canonical(stms: Seq<Stm>) -> bool {
    forall|i: int| 0 <= i < stms.len() ==> is_canonical(#[trigger] stms[i])
}

/// The temporary with the given number.
pub open spec fn temp_of(num: nat) -> Temp {
    Temp { num: num as usize }
}

/// Whether the statements may run after the expression has been evaluated
/// instead of before: there are none, or the expression is a constant.
pub open spec fn commutes(stms: Seq<Stm>, exp: Exp) -> bool {
    stms.len() == 0 || exp is Name || exp is Const
}

/// An operand `value` that needs `first`, followed by statements `second`
/// that belong to later operands. Where the two commute the value stays
/// as it is; otherwise it is saved in the temporary numbered `next`
/// before `second` runs.
pub open spec fn joined(first: Seq<Stm>, value: Exp, second: Seq<Stm>, next: nat) -> (
    Seq<Stm>,
    Exp,
    nat,
) {
    if commutes(second, value) {
        (first + second, value, next)
    } else {
        (
            first.push(Stm::Move(Exp::Temp(temp_of(next)), value)) + second,
            Exp::Temp(temp_of(next)),
            next + 1,
        )
    }
}

/// An expression taken apart: the statements that must run first, the
/// expression that then gives the value, and the number of the next unused
/// temporary. The value is pure, or a call whose parts are pure.
pub open spec fn lifted_exp(exp: Exp, next: nat) -> (Seq<Stm>, Exp, nat)
    decreases exp_size(exp), 0nat,
{
    match exp {
        Exp::BinOp(op, left, right) => {
            let (stms, left, right, next) = lifted_pair(*left, *right, next);
            (stms, Exp::BinOp(op, Box::new(left), Box::new(right)), next)
        },
        Exp::Mem(address) => {
            let (stms, address, next) = lifted_operand(*address, next);
            (stms, Exp::Mem(Box::new(address)), next)
        },
        Exp::ESeq(stm, value) => {
            let (first, next) = linear(*stm, next);
            let (second, value, next) = lifted_exp(*value, next);
            (first + second, value, next)
        },
        Exp::Call(function, arguments) => {
            let (stms, function, arguments, next) = lifted_call(*function, *arguments, next);
            (stms, Exp::Call(Box::new(function), Box::new(arguments)), next)
        },
        _ => (Seq::empty(), exp, next),
    }
}

/// An expression taken apart for use as an operand: as `lifted_exp`, but
/// the result of a call is moved into a fresh temporary, so that the value
/// is pure.
pub open spec fn lifted_operand(exp: Exp, next: nat) -> (Seq<Stm>, Exp, nat)
    decreases exp_size(exp), 1nat,
{
    let (stms, value, next) = lifted_exp(exp, next);
    if value is Call {
        (stms.push(Stm::Move(Exp::Temp(temp_of(next)), value)), Exp::Temp(temp_of(next)), next + 1)
    } else {
        (stms, value, next)
    }
}

/// Two operands taken apart, the first evaluated before the second.
pub open spec fn lifted_pair(left: Exp, right: Exp, next: nat) -> (Seq<Stm>, Exp, Exp, nat)
    decreases exp_size(left) + exp_size(right) + 1, 0nat,
{
    let (first, left, next) = lifted_operand(left, next);
    let (second, right, next) = lifted_operand(right, next);
    let (stms, left, next) = joined(first, left, second, next);
    (stms, left, right, next)
}

/// A list of operands taken apart, evaluated first to last.
pub open spec fn lifted_list(exps: List<Exp>, next: nat) -> (Seq<Stm>, List<Exp>, nat)
    decreases exps_size(exps), 0nat,
{
    match exps {
        List::Nil => (Seq::empty(), List::Nil, next),
        List::Cons(head, tail) => {
            let (first, head, next) = lifted_operand(head, next);
            let (second, tail, next) = lifted_list(*tail, next);
            let (stms, head, next) = joined(first, head, second, next);
            (stms, List::Cons(head, Box::new(tail)), next)
        },
    }
}

/// The function and the arguments of a call taken apart, the function
/// evaluated first.
pub open spec fn lifted_call(function: Exp, arguments: List<Exp>, next: nat) -> (
    Seq<Stm>,
    Exp,
    List<Exp>,
    nat,
)
    decreases exp_size(function) + exps_size(arguments) + 1, 0nat,
{
    let (first, function, next) = lifted_operand(function, next);
    let (second, arguments, next) = lifted_list(arguments, next);
    let (stms, function, next) = joined(first, function, second, next);
    (stms, function, arguments, next)
}

/// A statement as a list of canonical statements that does the same, with
/// the number of the next unused temporary. Sequences are flattened, the
/// statements inside expressions come out in front of the statement that
/// held them, and an expression statement that is left with a constant is
/// dropped.
pub open spec fn linear(stm: Stm, next: nat) -> (Seq<Stm>, nat)
    decreases stm_size(stm), 0nat,
{
    match stm {
        Stm::Sequence(first, second) => {
            let (first, next) = linear(*first, next);
            let (second, next) = linear(*second, next);
            (first + second, next)
        },
        Stm::Jump(target, labels) => {
            let (stms, target, next) = lifted_operand(target, next);
            (stms.push(Stm::Jump(target, labels)), next)
        },
        Stm::CJump(op, left, right, if_true, if_false) => {
            let (stms, left, right, next) = lifted_pair(left, right, next);
            (stms.push(Stm::CJump(op, left, right, if_true, if_false)), next)
        },
        Stm::Move(Exp::Temp(temp), source) => {
            let (stms, source, next) = lifted_exp(source, next);
            (stms.push(Stm::Move(Exp::Temp(temp), source)), next)
        },
        Stm::Move(Exp::Mem(address), source) => {
            proof {
                assert(exp_size(Exp::Mem(address)) == 2 + exp_size(*address));
            }
            let (stms, address, source, next) = lifted_pair(*address, source, next);
            (stms.push(Stm::Move(Exp::Mem(Box::new(address)), source)), next)
        },
        Stm::Move(Exp::ESeq(stm, destination), source) => {
            proof {
                assert(exp_size(Exp::ESeq(stm, destination)) == 1 + stm_size(*stm) + exp_size(
                    *destination,
                ));
            }
            let (first, next) = linear(*stm, next);
            let (second, next) = linear(Stm::Move(*destination, source), next);
            (first + second, next)
        },
        Stm::Move(destination, source) => {
            let (stms, destination, source, next) = lifted_pair(destination, source, next);
            (stms.push(Stm::Move(destination, source)), next)
        },
        Stm::Exp(exp) => {
            let (stms, exp, next) = lifted_exp(exp, next);
            if exp is Const {
                (stms, next)
            } else {
                (stms.push(Stm::Exp(exp)), next)
            }
        },
        Stm::Label(label) => (seq![Stm::Label(label)], next),
    }
}

/// What taking an expression apart gives: canonical statements, a value
/// that is pure or a call with pure parts, and no temporary below `next`
/// handed out again.
pub proof fn lemma_lifted_exp(exp: Exp, next: nat)
    ensures
        all_canonical(lifted_exp(exp, next).0),
        is_pure(lifted_exp(exp, next).1) || is_flat_call(lifted_exp(exp, next).1),
        lifted_exp(exp, next).2 >= next,
    decreases exp_size(exp), 0nat,
{
    match exp {
        Exp::BinOp(op, left, right) => {
            lemma_lifted_pair(*left, *right, next);
        },
        Exp::Mem(address) => {
            lemma_lifted_operand(*address, next);
        },
        Exp::ESeq(stm, value) => {
            lemma_linear(*stm, next);
            lemma_lifted_exp(*value, linear(*stm, next).1);
        },
        Exp::Call(function, arguments) => {
            lemma_lifted_call(*function, *arguments, next);
        },
        _ => {},
    }
}

/// What taking an operand apart gives: canonical statements and a pure
/// value.
pub proof fn lemma_lifted_operand(exp: Exp, next: nat)
    ensures
        all_canonical(lifted_operand(exp, next).0),
        is_pure(lifted_operand(exp, next).1),
        lifted_operand(exp, next).2 >= next,
    decreases exp_size(exp), 1nat,
{
    lemma_lifted_exp(exp, next);
}

/// Joining canonical statements around a pure value keeps both.
pub proof fn lemma_joined(first: Seq<Stm>, value: Exp, second: Seq<Stm>, next: nat)
    requires
        all_canonical(first),
        all_canonical(second),
        is_pure(value),
    ensures
        all_canonical(joined(first, value, second, next).0),
        is_pure(joined(first, value, second, next).1),
        joined(first, value, second, next).2 >= next,
{
}

/// What taking two operands apart gives.
pub proof fn lemma_lifted_pair(left: Exp, right: Exp, next: nat)
    ensures
        all_canonical(lifted_pair(left, right, next).0),
        is_pure(lifted_pair(left, right, next).1),
        is_pure(lifted_pair(left, right, next).2),
        lifted_pair(left, right, next).3 >= next,
    decreases exp_size(left) + exp_size(right) + 1, 0nat,
{
    lemma_lifted_operand(left, next);
    let (first, left2, next1) = lifted_operand(left, next);
    lemma_lifted_operand(right, next1);
    let (second, right2, next2) = lifted_operand(right, next1);
    lemma_joined(first, left2, second, next2);
}

/// What taking a list of operands apart gives.
pub proof fn lemma_lifted_list(exps: List<Exp>, next: nat)
    ensures
        all_canonical(lifted_list(exps, next).0),
        all_pure(lifted_list(exps, next).1),
        lifted_list(exps, next).1@.len() == exps@.len(),
        lifted_list(exps, next).2 >= next,
    decreases exps_size(exps), 0nat,
{
    match exps {
        List::Nil => {},
        List::Cons(head, tail) => {
            lemma_lifted_operand(head, next);
            let (first, head2, next1) = lifted_operand(head, next);
            lemma_lifted_list(*tail, next1);
            let (second, tail2, next2) = lifted_list(*tail, next1);
            lemma_joined(first, head2, second, next2);
        },
    }
}

/// What taking a call apart gives.
pub proof fn lemma_lifted_call(function: Exp, arguments: List<Exp>, next: nat)
    ensures
        all_canonical(lifted_call(function, arguments, next).0),
        is_pure(lifted_call(function, arguments, next).1),
        all_pure(lifted_call(function, arguments, next).2),
        lifted_call(function, arguments, next).2@.len() == arguments@.len(),
        lifted_call(function, arguments, next).3 >= next,
    decreases exp_size(function) + exps_size(arguments) + 1, 0nat,
{
    lemma_lifted_operand(function, next);
    let (first, function2, next1) = lifted_operand(function, next);
    lemma_lifted_list(arguments, next1);
    let (second, arguments2, next2) = lifted_list(arguments, next1);
    lemma_joined(first, function2, second, next2);
}

/// After linearising, no `ESeq` is left, no sequence is left, and every
/// call is the whole source of a move into a temporary or the whole of an
/// expression statement. No temporary below `next` is handed out again.
pub proof fn lemma_linear(stm: Stm, next: nat)
    ensures
        all_canonical(linear(stm, next).0),
        linear(stm, next).1 >= next,
    decreases stm_size(stm), 0nat,
{
    match stm {
        Stm::Sequence(first, second) => {
            lemma_linear(*first, next);
            lemma_linear(*second, linear(*first, next).1);
        },
        Stm::Jump(target, labels) => {
            lemma_lifted_operand(target, next);
        },
        Stm::CJump(op, left, right, if_true, if_false) => {
            lemma_lifted_pair(left, right, next);
        },
        Stm::Move(Exp::Temp(temp), source) => {
            lemma_lifted_exp(source, next);
        },
        Stm::Move(Exp::Mem(address), source) => {
            assert(exp_size(Exp::Mem(address)) == 2 + exp_size(*address));
            lemma_lifted_pair(*address, source, next);
        },
        Stm::Move(Exp::ESeq(stm, destination), source) => {
            assert(exp_size(Exp::ESeq(stm, destination)) == 1 + stm_size(*stm) + exp_size(
                *destination,
            ));
            lemma_linear(*stm, next);
            lemma_linear(Stm::Move(*destination, source), linear(*stm, next).1);
        },
        Stm::Move(destination, source) => {
            lemma_lifted_pair(destination, source, next);
        },
        Stm::Exp(exp) => {
            lemma_lifted_exp(exp, next);
        },
        Stm::Label(label) => {},
    }
}

/// Whether what was computed is what taking an expression apart gives; no
/// result stands for temporaries that have run out.
pub open spec fn lift_agrees(
    result: Option<(Vec<Stm>, Exp)>,
    expected: (Seq<Stm>, Exp, nat),
    after: nat,
) -> bool {
    match result {
        Some((stms, value)) => stms@ == expected.0 && value == expected.1 && after == expected.2,
        None => expected.2 > usize::MAX,
    }
}

fn join(first: Vec<Stm>, value: Exp, second: Vec<Stm>, source: &mut TempSource) -> (result: Option<
    (Vec<Stm>, Exp),
>)
    ensures
        final(source).next_label() == old(source).next_label(),
        lift_agrees(
            result,
            joined(first@, value, second@, old(source).next_temp()),
            final(source).next_temp(),
        ),
{
    let mut first = first;
    let mut second = second;
    let commute = match &value {
        Exp::Name(_) => true,
        Exp::Const(_) => true,
        _ => second.len() == 0,
    };
    if commute {
        first.append(&mut second);
        Some((first, value))
    } else {
        match source.fresh_temp() {
            Some(temp) => {
                first.push(Stm::Move(Exp::Temp(temp), value));
                first.append(&mut second);
                Some((first, Exp::Temp(temp)))
            },
            None => None,
        }
    }
}

fn lift_exp(exp: Exp, source: &mut TempSource) -> (result: Option<(Vec<Stm>, Exp)>)
    ensures
        final(source).next_label() == old(source).next_label(),
        lift_agrees(result, lifted_exp(exp, old(source).next_temp()), final(source).next_temp()),
    decreases exp_size(exp), 0nat,
{
    match exp {
        Exp::BinOp(op, left, right) => {
            match lift_pair(*left, *right, source) {
                Some((stms, left, right)) => Some(
                    (stms, Exp::BinOp(op, Box::new(left), Box::new(right))),
                ),
                None => None,
            }
        },
        Exp::Mem(address) => {
            match lift_operand(*address, source) {
                Some((stms, address)) => Some((stms, Exp::Mem(Box::new(address)))),
                None => None,
            }
        },
        Exp::ESeq(stm, value) => {
            let ghost start = source.next_temp();
            let ghost middle = linear(*stm, start).1;
            proof {
                lemma_lifted_exp(*value, middle);
            }
            match linearize(*stm, source) {
                None => None,
                Some(first) => {
                    match lift_exp(*value, source) {
                        None => None,
                        Some((second, value)) => {
                            let mut first = first;
                            let mut second = second;
                            first.append(&mut second);
                            Some((first, value))
                        },
                    }
                },
            }
        },
        Exp::Call(function, arguments) => {
            match lift_call(*function, *arguments, source) {
                Some((stms, function, arguments)) => Some(
                    (stms, Exp::Call(Box::new(function), Box::new(arguments))),
                ),
                None => None,
            }
        },
        other => Some((Vec::new(), other)),
    }
}

fn lift_operand(exp: Exp, source: &mut TempSource) -> (result: Option<(Vec<Stm>, Exp)>)
    ensures
        final(source).next_label() == old(source).next_label(),
        lift_agrees(result, lifted_operand(exp, old(source).next_temp()), final(source).next_temp()),
    decreases exp_size(exp), 1nat,
{
    match lift_exp(exp, source) {
        None => None,
        Some((stms, value)) => {
            match value {
                Exp::Call(function, arguments) => {
                    match source.fresh_temp() {
                        Some(temp) => {
                            let mut stms = stms;
                            stms.push(Stm::Move(Exp::Temp(temp), Exp::Call(function, arguments)));
                            Some((stms, Exp::Temp(temp)))
                        },
                        None => None,
                    }
                },
                other => Some((stms, other)),
            }
        },
    }
}

fn lift_pair(left: Exp, right: Exp, source: &mut TempSource) -> (result: Option<
    (Vec<Stm>, Exp, Exp),
>)
    ensures
        final(source).next_label() == old(source).next_label(),
        match result {
            Some((stms, first, second)) => lifted_pair(left, right, old(source).next_temp()) == (
                stms@,
                first,
                second,
                final(source).next_temp(),
            ),
            None => lifted_pair(left, right, old(source).next_temp()).3 > usize::MAX,
        },
    decreases exp_size(left) + exp_size(right) + 1, 0nat,
{
    let ghost start = source.next_temp();
    let ghost middle = lifted_operand(left, start).2;
    proof {
        lemma_lifted_operand(right, middle);
    }
    match lift_operand(left, source) {
        None => None,
        Some((first, left)) => {
            match lift_operand(right, source) {
                None => None,
                Some((second, right)) => {
                    match join(first, left, second, source) {
                        None => None,
                        Some((stms, left)) => Some((stms, left, right)),
                    }
                },
            }
        },
    }
}

fn lift_list(exps: List<Exp>, source: &mut TempSource) -> (result: Option<(Vec<Stm>, List<Exp>)>)
    ensures
        final(source).next_label() == old(source).next_label(),
        match result {
            Some((stms, values)) => lifted_list(exps, old(source).next_temp()) == (
                stms@,
                values,
                final(source).next_temp(),
            ),
            None => lifted_list(exps, old(source).next_temp()).2 > usize::MAX,
        },
    decreases exps_size(exps), 0nat,
{
    match exps {
        List::Nil => Some((Vec::new(), List::Nil)),
        List::Cons(head, tail) => {
            let ghost start = source.next_temp();
            let ghost middle = lifted_operand(head, start).2;
            proof {
                lemma_lifted_list(*tail, middle);
            }
            match lift_operand(head, source) {
                None => None,
                Some((first, head)) => {
                    match lift_list(*tail, source) {
                        None => None,
                        Some((second, tail)) => {
                            match join(first, head, second, source) {
                                None => None,
                                Some((stms, head)) => Some(
                                    (stms, List::Cons(head, Box::new(tail))),
                                ),
                            }
                        },
                    }
                },
            }
        },
    }
}

fn lift_call(function: Exp, arguments: List<Exp>, source: &mut TempSource) -> (result: Option<
    (Vec<Stm>, Exp, List<Exp>),
>)
    ensures
        final(source).next_label() == old(source).next_label(),
        match result {
            Some((stms, first, rest)) => lifted_call(function, arguments, old(source).next_temp())
                == (stms@, first, rest, final(source).next_temp()),
            None => lifted_call(function, arguments, old(source).next_temp()).3 > usize::MAX,
        },
    decreases exp_size(function) + exps_size(arguments) + 1, 0nat,
{
    let ghost start = source.next_temp();
    let ghost middle = lifted_operand(function, start).2;
    proof {
        lemma_lifted_list(arguments, middle);
    }
    match lift_operand(function, source) {
        None => None,
        Some((first, function)) => {
            match lift_list(arguments, source) {
                None => None,
                Some((second, arguments)) => {
                    match join(first, function, second, source) {
                        None => None,
                        Some((stms, function)) => Some((stms, function, arguments)),
                    }
                },
            }
        },
    }
}

fn finish(stms: Vec<Stm>, last: Stm) -> (result: Option<Vec<Stm>>)
    ensures
        result is Some,
        result->0@ == stms@.push(last),
{
    let mut stms = stms;
    stms.push(last);
    Some(stms)
}

/// Rewrites a statement into a list of canonical statements, taking fresh
/// temporaries from `source`. The result is `None` when the temporaries
/// run out.
pub fn linearize(stm: Stm, source: &mut TempSource) -> (result: Option<Vec<Stm>>)
    ensures
        final(source).next_label() == old(source).next_label(),
        match result {
            Some(stms) => stms@ == linear(stm, old(source).next_temp()).0 && final(source).next_temp() == linear(stm, old(source).next_temp()).1 && all_canonical(stms@),
            None => linear(stm, old(source).next_temp()).1 > usize::MAX,
        },
    decreases stm_size(stm), 0nat,
{
    let ghost start = source.next_temp();
    proof {
        lemma_linear(stm, start);
    }
    match stm {
        Stm::Sequence(first, second) => {
            let ghost middle = linear(*first, start).1;
            proof {
                lemma_linear(*second, middle);
            }
            match linearize(*first, source) {
                None => None,
                Some(first) => {
                    match linearize(*second, source) {
                        None => None,
                        Some(second) => {
                            let mut first = first;
                            let mut second = second;
                            first.append(&mut second);
                            Some(first)
                        },
                    }
                },
            }
        },
        Stm::Jump(target, labels) => {
            match lift_operand(target, source) {
                None => None,
                Some((stms, target)) => finish(stms, Stm::Jump(target, labels)),
            }
        },
        Stm::CJump(op, left, right, if_true, if_false) => {
            match lift_pair(left, right, source) {
                None => None,
                Some((stms, left, right)) => finish(
                    stms,
                    Stm::CJump(op, left, right, if_true, if_false),
                ),
            }
        },
        Stm::Move(Exp::Temp(temp), value) => {
            match lift_exp(value, source) {
                None => None,
                Some((stms, value)) => finish(stms, Stm::Move(Exp::Temp(temp), value)),
            }
        },
        Stm::Move(Exp::Mem(address), value) => {
            assert(exp_size(Exp::Mem(address)) == 2 + exp_size(*address));
            match lift_pair(*address, value, source) {
                None => None,
                Some((stms, address, value)) => finish(
                    stms,
                    Stm::Move(Exp::Mem(Box::new(address)), value),
                ),
            }
        },
        Stm::Move(Exp::ESeq(inner, destination), value) => {
            assert(exp_size(Exp::ESeq(inner, destination)) == 1 + stm_size(*inner) + exp_size(
                *destination,
            ));
            let ghost middle = linear(*inner, start).1;
            proof {
                lemma_linear(Stm::Move(*destination, value), middle);
            }
            match linearize(*inner, source) {
                None => None,
                Some(first) => {
                    match linearize(Stm::Move(*destination, value), source) {
                        None => None,
                        Some(second) => {
                            let mut first = first;
                            let mut second = second;
                            first.append(&mut second);
                            Some(first)
                        },
                    }
                },
            }
        },
        Stm::Move(destination, value) => {
            match lift_pair(destination, value, source) {
                None => None,
                Some((stms, destination, value)) => finish(stms, Stm::Move(destination, value)),
            }
        },
        Stm::Exp(exp) => {
            match lift_exp(exp, source) {
                None => None,
                Some((stms, exp)) => {
                    match exp {
                        Exp::Const(_) => Some(stms),
                        other => finish(stms, Stm::Exp(other)),
                    }
                },
            }
        },
        Stm::Label(label) => {
            let mut stms: Vec<Stm> = Vec::new();
            stms.push(Stm::Label(label));
            assert(stms@ =~= seq![Stm::Label(label)]);
            Some(stms)
        },
    }
}

} // verus!
