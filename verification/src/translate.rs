//! The tree that stands for each construct of the language, once its parts
//! have been checked and translated.

use crate::blocks::{jump_to, label_of};
use crate::canon::temp_of;
use crate::compile::Fragment;
use crate::frame::{sequence, sequence_from, Access, MAX_SLOTS, RAX, RBP};
use crate::ir::{BinOp, Exp, List, RelOp, Stm};
use crate::temp::{Label, Temp, TempSource};
use crate::vectors::reversed;
use vstd::prelude::*;

verus! {

/// The offset of the static link in a frame: it is the first formal and
/// lives in the first word of the frame.
pub const STATIC_LINK_OFFSET: i64 = -8;

/// The word at an offset from an address.
pub open spec fn word_at(base: Exp, offset: i64) -> Exp {
    Exp::Mem(Box::new(Exp::BinOp(BinOp::Plus, Box::new(base), Box::new(Exp::Const(offset)))))
}

/// The frame pointer of the function that lies `hops` levels outside the
/// current one: the frame pointer itself, or what the static link of the
/// level inside points to.
pub open spec fn frame_pointer_at(hops: nat) -> Exp
    decreases hops,
{
    if hops == 0 {
        Exp::Temp(Temp { num: RBP })
    } else {
        word_at(frame_pointer_at((hops - 1) as nat), STATIC_LINK_OFFSET)
    }
}

/// A variable that is read `hops` levels inside the function that declares
/// it: a temporary is itself; a word of a frame is found by following
/// `hops` static links from the frame pointer.
pub open spec fn variable(access: Access, hops: nat) -> Exp {
    match access {
        Access::InReg(temp) => Exp::Temp(temp),
        Access::InFrame(offset) => word_at(frame_pointer_at(hops), offset),
    }
}

fn word(base: Exp, offset: i64) -> (exp: Exp)
    ensures
        exp == word_at(base, offset),
{
    Exp::Mem(Box::new(Exp::BinOp(BinOp::Plus, Box::new(base), Box::new(Exp::Const(offset)))))
}

/// The frame pointer of the function `hops` levels outside the current
/// one; this is also the static link for a call of a function that is
/// declared there.
pub fn static_link(hops: usize) -> (exp: Exp)
    ensures
        exp == frame_pointer_at(hops as nat),
{
    let mut exp = Exp::Temp(Temp { num: RBP });
    let mut done: usize = 0;
    while done < hops
        invariant
            done <= hops,
            exp == frame_pointer_at(done as nat),
        decreases hops - done,
    {
        exp = word(exp, STATIC_LINK_OFFSET);
        done += 1;
    }
    exp
}

/// A variable that is read `hops` levels inside the function that declares
/// it.
pub fn simple_var(access: Access, hops: usize) -> (exp: Exp)
    ensures
        exp == variable(access, hops as nat),
{
    match access {
        Access::InReg(temp) => Exp::Temp(temp),
        Access::InFrame(offset) => word(static_link(hops), offset),
    }
}

/// A field of a record or an object: the word at the offset of the field.
pub fn field_var(base: Exp, offset: i64) -> (exp: Exp)
    ensures
        exp == word_at(base, offset),
{
    word(base, offset)
}

/// The address arithmetic of an element of an array: eight bytes for each
/// element, behind a header of `header` bytes.
pub open spec fn element(base: Exp, index: Exp, header: i64) -> Exp {
    Exp::Mem(
        Box::new(
            Exp::BinOp(
                BinOp::Plus,
                Box::new(base),
                Box::new(
                    Exp::BinOp(
                        BinOp::Plus,
                        Box::new(
                            Exp::BinOp(BinOp::Mul, Box::new(index), Box::new(Exp::Const(8))),
                        ),
                        Box::new(Exp::Const(header)),
                    ),
                ),
            ),
        ),
    )
}

/// An element of an array.
pub fn subscript_var(base: Exp, index: Exp, header: i64) -> (exp: Exp)
    ensures
        exp == element(base, index, header),
{
    Exp::Mem(
        Box::new(
            Exp::BinOp(
                BinOp::Plus,
                Box::new(base),
                Box::new(
                    Exp::BinOp(
                        BinOp::Plus,
                        Box::new(Exp::BinOp(BinOp::Mul, Box::new(index), Box::new(Exp::Const(8)))),
                        Box::new(Exp::Const(header)),
                    ),
                ),
            ),
        ),
    )
}

/// An operation on two integers.
pub fn arithmetic(op: BinOp, left: Exp, right: Exp) -> (exp: Exp)
    ensures
        exp == Exp::BinOp(op, Box::new(left), Box::new(right)),
{
    Exp::BinOp(op, Box::new(left), Box::new(right))
}

/// An assignment to a variable, a field or an element.
pub fn assign(destination: Exp, value: Exp) -> (stm: Stm)
    ensures
        stm == Stm::Move(destination, value),
{
    Stm::Move(destination, value)
}

/// The body of a function that gives a value: the value is moved into the
/// register for results.
pub fn function_body(value: Exp) -> (stm: Stm)
    ensures
        stm == Stm::Move(Exp::Temp(Temp { num: RAX }), value),
{
    Stm::Move(Exp::Temp(Temp { num: RAX }), value)
}

/// The body of a function that gives no value.
pub fn procedure_body(body: Exp) -> (stm: Stm)
    ensures
        stm == Stm::Exp(body),
{
    Stm::Exp(body)
}

/// The call of a function of the program: the static link goes in front of
/// the arguments.
pub fn call_function(name: Label, link: Exp, arguments: List<Exp>) -> (exp: Exp)
    ensures
        exp == Exp::Call(
            Box::new(Exp::Name(name)),
            Box::new(List::Cons(link, Box::new(arguments))),
        ),
{
    Exp::Call(Box::new(Exp::Name(name)), Box::new(List::Cons(link, Box::new(arguments))))
}

/// A statement that gives the value of an expression, as an expression.
pub open spec fn valued(stms: Seq<Stm>, value: Exp) -> Exp {
    Exp::ESeq(Box::new(sequence_from(stms, 0)), Box::new(value))
}

/// The statements that set `result` to one if the comparison holds and to
/// zero if it does not: a conditional jump to `if_true` or `if_false`, and
/// behind each label the move of the value, the first followed by a jump
/// to `done`.
pub open spec fn comparison(
    op: RelOp,
    left: Exp,
    right: Exp,
    result: Temp,
    if_true: Label,
    if_false: Label,
    done: Label,
) -> Seq<Stm> {
    seq![
        Stm::CJump(op, left, right, if_true, if_false),
        Stm::Label(if_true),
        Stm::Move(Exp::Temp(result), Exp::Const(1)),
        jump_to(done),
        Stm::Label(if_false),
        Stm::Move(Exp::Temp(result), Exp::Const(0)),
        Stm::Label(done),
    ]
}

/// A comparison as a value, with the temporary numbered `temp` for the
/// result and the three labels from `label` on.
pub open spec fn compared(op: RelOp, left: Exp, right: Exp, temp: nat, label: nat) -> Exp {
    valued(
        comparison(
            op,
            left,
            right,
            temp_of(temp),
            label_of(label),
            label_of(label + 1),
            label_of(label + 2),
        ),
        Exp::Temp(temp_of(temp)),
    )
}

fn jump(label: Label) -> (stm: Stm)
    ensures
        stm == jump_to(label),
{
    Stm::Jump(Exp::Name(label), List::Cons(label, Box::new(List::Nil)))
}

fn value_of(stms: Vec<Stm>, value: Exp) -> (exp: Exp)
    requires
        stms@.len() > 0,
    ensures
        exp == valued(stms@, value),
{
    Exp::ESeq(Box::new(sequence(stms)), Box::new(value))
}

/// A comparison of two integers, or of two records, arrays or objects, as
/// a value that is one or zero. The result is `None`, and nothing is taken
/// from `source`, when a temporary or three labels cannot be had.
pub fn relational(op: RelOp, left: Exp, right: Exp, source: &mut TempSource) -> (exp: Option<Exp>)
    ensures
        match exp {
            Some(exp) => {
                &&& exp == compared(
                    op,
                    left,
                    right,
                    old(source).next_temp(),
                    old(source).next_label(),
                )
                &&& final(source).next_temp() == old(source).next_temp() + 1
                &&& final(source).next_label() == old(source).next_label() + 3
            },
            None => {
                &&& old(source).next_temp() + 1 > usize::MAX || old(source).next_label() + 3
                    > usize::MAX
                &&& final(source).next_temp() == old(source).next_temp()
                &&& final(source).next_label() == old(source).next_label()
            },
        },
{
    let (temp, label) = match source.reserve(1, 3) {
        Some(first) => first,
        None => {
            return None;
        },
    };
    proof {
        source.lemma_in_range();
    }
    let result = Temp { num: temp };
    let if_true = Label::Num(label);
    let if_false = Label::Num(label + 1);
    let done = Label::Num(label + 2);
    let mut stms: Vec<Stm> = Vec::new();
    stms.push(Stm::CJump(op, left, right, if_true, if_false));
    stms.push(Stm::Label(if_true));
    stms.push(Stm::Move(Exp::Temp(result), Exp::Const(1)));
    stms.push(jump(done));
    stms.push(Stm::Label(if_false));
    stms.push(Stm::Move(Exp::Temp(result), Exp::Const(0)));
    stms.push(Stm::Label(done));
    assert(stms@ =~= comparison(op, left, right, result, if_true, if_false, done));
    Some(value_of(stms, Exp::Temp(result)))
}

/// The call of the function of the runtime that compares two strings.
pub open spec fn strings_compared(compare: Label, left: Exp, right: Exp) -> Exp {
    Exp::Call(
        Box::new(Exp::Name(compare)),
        Box::new(List::Cons(left, Box::new(List::Cons(right, Box::new(List::Nil))))),
    )
}

/// A comparison of two strings: the function of the runtime says how they
/// compare, and its answer is compared with zero.
pub fn string_relational(
    op: RelOp,
    compare: Label,
    left: Exp,
    right: Exp,
    source: &mut TempSource,
) -> (exp: Option<Exp>)
    ensures
        match exp {
            Some(exp) => {
                &&& exp == compared(
                    op,
                    strings_compared(compare, left, right),
                    Exp::Const(0),
                    old(source).next_temp(),
                    old(source).next_label(),
                )
                &&& final(source).next_temp() == old(source).next_temp() + 1
                &&& final(source).next_label() == old(source).next_label() + 3
            },
            None => {
                &&& old(source).next_temp() + 1 > usize::MAX || old(source).next_label() + 3
                    > usize::MAX
                &&& final(source).next_temp() == old(source).next_temp()
                &&& final(source).next_label() == old(source).next_label()
            },
        },
{
    let call = Exp::Call(
        Box::new(Exp::Name(compare)),
        Box::new(List::Cons(left, Box::new(List::Cons(right, Box::new(List::Nil))))),
    );
    relational(op, call, Exp::Const(0), source)
}

/// The statements of a conditional with two branches that give a value:
/// the condition decides between the labels, and each branch moves its
/// value into `result`.
pub open spec fn branches(
    condition: Exp,
    then: Exp,
    otherwise: Exp,
    result: Temp,
    if_true: Label,
    if_false: Label,
    done: Label,
) -> Seq<Stm> {
    seq![
        Stm::CJump(RelOp::NotEqual, condition, Exp::Const(0), if_true, if_false),
        Stm::Label(if_true),
        Stm::Move(Exp::Temp(result), then),
        jump_to(done),
        Stm::Label(if_false),
        Stm::Move(Exp::Temp(result), otherwise),
        Stm::Label(done),
    ]
}

/// A conditional with two branches as a value.
pub open spec fn chosen(condition: Exp, then: Exp, otherwise: Exp, temp: nat, label: nat) -> Exp {
    valued(
        branches(
            condition,
            then,
            otherwise,
            temp_of(temp),
            label_of(label),
            label_of(label + 1),
            label_of(label + 2),
        ),
        Exp::Temp(temp_of(temp)),
    )
}

/// A conditional with two branches. The result is `None`, and nothing is
/// taken from `source`, when a temporary or three labels cannot be had.
pub fn if_then_else(condition: Exp, then: Exp, otherwise: Exp, source: &mut TempSource) -> (exp:
    Option<Exp>)
    ensures
        match exp {
            Some(exp) => {
                &&& exp == chosen(
                    condition,
                    then,
                    otherwise,
                    old(source).next_temp(),
                    old(source).next_label(),
                )
                &&& final(source).next_temp() == old(source).next_temp() + 1
                &&& final(source).next_label() == old(source).next_label() + 3
            },
            None => {
                &&& old(source).next_temp() + 1 > usize::MAX || old(source).next_label() + 3
                    > usize::MAX
                &&& final(source).next_temp() == old(source).next_temp()
                &&& final(source).next_label() == old(source).next_label()
            },
        },
{
    let (temp, label) = match source.reserve(1, 3) {
        Some(first) => first,
        None => {
            return None;
        },
    };
    proof {
        source.lemma_in_range();
    }
    let result = Temp { num: temp };
    let if_true = Label::Num(label);
    let if_false = Label::Num(label + 1);
    let done = Label::Num(label + 2);
    let mut stms: Vec<Stm> = Vec::new();
    stms.push(Stm::CJump(RelOp::NotEqual, condition, Exp::Const(0), if_true, if_false));
    stms.push(Stm::Label(if_true));
    stms.push(Stm::Move(Exp::Temp(result), then));
    stms.push(jump(done));
    stms.push(Stm::Label(if_false));
    stms.push(Stm::Move(Exp::Temp(result), otherwise));
    stms.push(Stm::Label(done));
    assert(stms@ =~= branches(condition, then, otherwise, result, if_true, if_false, done));
    Some(value_of(stms, Exp::Temp(result)))
}

/// The statements of a conditional without an else: the branch runs if the
/// condition is not zero.
pub open spec fn guarded(condition: Exp, then: Exp, if_true: Label, done: Label) -> Seq<Stm> {
    seq![
        Stm::CJump(RelOp::NotEqual, condition, Exp::Const(0), if_true, done),
        Stm::Label(if_true),
        Stm::Exp(then),
        Stm::Label(done),
    ]
}

/// A conditional without an else. It gives no value. The result is `None`,
/// and nothing is taken from `source`, when two labels cannot be had.
pub fn if_then(condition: Exp, then: Exp, source: &mut TempSource) -> (exp: Option<Exp>)
    ensures
        final(source).next_temp() == old(source).next_temp(),
        match exp {
            Some(exp) => {
                &&& exp == valued(
                    guarded(
                        condition,
                        then,
                        label_of(old(source).next_label()),
                        label_of(old(source).next_label() + 1),
                    ),
                    Exp::Const(0),
                )
                &&& final(source).next_label() == old(source).next_label() + 2
            },
            None => {
                &&& old(source).next_label() + 2 > usize::MAX
                &&& final(source).next_label() == old(source).next_label()
            },
        },
{
    proof {
        source.lemma_in_range();
    }
    let (_, label) = match source.reserve(0, 2) {
        Some(first) => first,
        None => {
            return None;
        },
    };
    proof {
        source.lemma_in_range();
    }
    let if_true = Label::Num(label);
    let done = Label::Num(label + 1);
    let mut stms: Vec<Stm> = Vec::new();
    stms.push(Stm::CJump(RelOp::NotEqual, condition, Exp::Const(0), if_true, done));
    stms.push(Stm::Label(if_true));
    stms.push(Stm::Exp(then));
    stms.push(Stm::Label(done));
    assert(stms@ =~= guarded(condition, then, if_true, done));
    Some(value_of(stms, Exp::Const(0)))
}

/// The statements of a loop: the test at the top leaves for `done` when
/// the condition is zero, the body jumps back to the test.
pub open spec fn looped(condition: Exp, body: Exp, test: Label, start: Label, done: Label) -> Seq<
    Stm,
> {
    seq![
        Stm::Label(test),
        Stm::CJump(RelOp::NotEqual, condition, Exp::Const(0), start, done),
        Stm::Label(start),
        Stm::Exp(body),
        jump_to(test),
        Stm::Label(done),
    ]
}

/// A loop. `done` is the label behind the loop, to which a `break` in the
/// body jumps. The result is `None`, and nothing is taken from `source`,
/// when two labels cannot be had.
pub fn while_loop(condition: Exp, body: Exp, done: Label, source: &mut TempSource) -> (exp: Option<
    Exp,
>)
    ensures
        final(source).next_temp() == old(source).next_temp(),
        match exp {
            Some(exp) => {
                &&& exp == valued(
                    looped(
                        condition,
                        body,
                        label_of(old(source).next_label()),
                        label_of(old(source).next_label() + 1),
                        done,
                    ),
                    Exp::Const(0),
                )
                &&& final(source).next_label() == old(source).next_label() + 2
            },
            None => {
                &&& old(source).next_label() + 2 > usize::MAX
                &&& final(source).next_label() == old(source).next_label()
            },
        },
{
    proof {
        source.lemma_in_range();
    }
    let (_, label) = match source.reserve(0, 2) {
        Some(first) => first,
        None => {
            return None;
        },
    };
    proof {
        source.lemma_in_range();
    }
    let test = Label::Num(label);
    let start = Label::Num(label + 1);
    let mut stms: Vec<Stm> = Vec::new();
    stms.push(Stm::Label(test));
    stms.push(Stm::CJump(RelOp::NotEqual, condition, Exp::Const(0), start, done));
    stms.push(Stm::Label(start));
    stms.push(Stm::Exp(body));
    stms.push(jump(test));
    stms.push(Stm::Label(done));
    assert(stms@ =~= looped(condition, body, test, start, done));
    Some(value_of(stms, Exp::Const(0)))
}

/// A `break`: a jump to the label behind the loop.
pub fn break_to(done: Label) -> (exp: Exp)
    ensures
        exp == Exp::ESeq(Box::new(jump_to(done)), Box::new(Exp::Const(0))),
{
    Exp::ESeq(Box::new(jump(done)), Box::new(Exp::Const(0)))
}

/// The statements of a counting loop: the variable starts at the lower
/// bound, the upper bound is kept in `limit`, the body runs while the
/// variable is not above the limit, and the variable is raised only while
/// it is below the limit, so that it never goes past the largest integer.
pub open spec fn counted(
    variable: Access,
    low: Exp,
    high: Exp,
    body: Exp,
    limit: Temp,
    start: Label,
    next: Label,
    done: Label,
) -> Seq<Stm> {
    seq![
        Stm::Move(self::variable(variable, 0), low),
        Stm::Move(Exp::Temp(limit), high),
        Stm::CJump(
            RelOp::LesserOrEqual,
            self::variable(variable, 0),
            Exp::Temp(limit),
            start,
            done,
        ),
        Stm::Label(start),
        Stm::Exp(body),
        Stm::CJump(
            RelOp::LesserThan,
            self::variable(variable, 0),
            Exp::Temp(limit),
            next,
            done,
        ),
        Stm::Label(next),
        Stm::Move(
            self::variable(variable, 0),
            Exp::BinOp(
                BinOp::Plus,
                Box::new(self::variable(variable, 0)),
                Box::new(Exp::Const(1)),
            ),
        ),
        jump_to(start),
        Stm::Label(done),
    ]
}

/// A counting loop over the variable at `variable`, which belongs to the
/// current function. `done` is the label behind the loop. The result is
/// `None`, and nothing is taken from `source`, when a temporary or two
/// labels cannot be had.
pub fn for_loop(
    variable: Access,
    low: Exp,
    high: Exp,
    body: Exp,
    done: Label,
    source: &mut TempSource,
) -> (exp: Option<Exp>)
    ensures
        match exp {
            Some(exp) => {
                &&& exp == valued(
                    counted(
                        variable,
                        low,
                        high,
                        body,
                        temp_of(old(source).next_temp()),
                        label_of(old(source).next_label()),
                        label_of(old(source).next_label() + 1),
                        done,
                    ),
                    Exp::Const(0),
                )
                &&& final(source).next_temp() == old(source).next_temp() + 1
                &&& final(source).next_label() == old(source).next_label() + 2
            },
            None => {
                &&& old(source).next_temp() + 1 > usize::MAX || old(source).next_label() + 2
                    > usize::MAX
                &&& final(source).next_temp() == old(source).next_temp()
                &&& final(source).next_label() == old(source).next_label()
            },
        },
{
    let (temp, label) = match source.reserve(1, 2) {
        Some(first) => first,
        None => {
            return None;
        },
    };
    proof {
        source.lemma_in_range();
    }
    let limit = Temp { num: temp };
    let start = Label::Num(label);
    let next = Label::Num(label + 1);
    let mut stms: Vec<Stm> = Vec::new();
    stms.push(Stm::Move(simple_var(variable, 0), low));
    stms.push(Stm::Move(Exp::Temp(limit), high));
    stms.push(
        Stm::CJump(RelOp::LesserOrEqual, simple_var(variable, 0), Exp::Temp(limit), start, done),
    );
    stms.push(Stm::Label(start));
    stms.push(Stm::Exp(body));
    stms.push(Stm::CJump(RelOp::LesserThan, simple_var(variable, 0), Exp::Temp(limit), next, done));
    stms.push(Stm::Label(next));
    stms.push(
        Stm::Move(
            simple_var(variable, 0),
            Exp::BinOp(BinOp::Plus, Box::new(simple_var(variable, 0)), Box::new(Exp::Const(1))),
        ),
    );
    stms.push(jump(start));
    stms.push(Stm::Label(done));
    assert(stms@ =~= counted(variable, low, high, body, limit, start, next, done));
    Some(value_of(stms, Exp::Const(0)))
}

/// An integer literal.
pub fn int_literal(value: i64) -> (exp: Exp)
    ensures
        exp == Exp::Const(value),
{
    Exp::Const(value)
}

/// `nil`: the pointer that points to nothing.
pub fn nil() -> (exp: Exp)
    ensures
        exp == Exp::Const(0),
{
    Exp::Const(0)
}

/// The value of an expression that has none.
pub fn unit() -> (exp: Exp)
    ensures
        exp == Exp::Const(0),
{
    Exp::Const(0)
}

/// A string literal: the address of its characters.
pub fn string_literal(label: Label) -> (exp: Exp)
    ensures
        exp == Exp::Name(label),
{
    Exp::Name(label)
}

/// The value that a field of a new record starts with, and where the
/// field lies in the record.
#[derive(Debug, PartialEq, Eq)]
pub struct FieldInit {
    pub offset: i64,
    pub value: Exp,
}

/// The statements that fill the fields from `at` on of the record that
/// `base` points to.
pub open spec fn filled_from(fields: Seq<FieldInit>, base: Temp, at: int) -> Seq<Stm>
    decreases fields.len() - at,
{
    if at < 0 || at >= fields.len() {
        Seq::empty()
    } else {
        seq![Stm::Move(word_at(Exp::Temp(base), fields[at].offset), fields[at].value)]
            + filled_from(fields, base, at + 1)
    }
}

/// The creation of a record as a value: the allocator hands back a
/// pointer, every field gets its value, and the pointer is the value.
pub open spec fn created(allocation: Exp, fields: Seq<FieldInit>, temp: nat) -> Exp {
    valued(
        seq![Stm::Move(Exp::Temp(temp_of(temp)), allocation)] + filled_from(
            fields,
            temp_of(temp),
            0,
        ),
        Exp::Temp(temp_of(temp)),
    )
}

/// The creation of a record. `allocation` is the call of the allocator,
/// which knows the layout of the record. The result is `None`, and nothing
/// is taken from `source`, when no temporary can be had.
pub fn record_creation(allocation: Exp, fields: Vec<FieldInit>, source: &mut TempSource) -> (exp:
    Option<Exp>)
    ensures
        final(source).next_label() == old(source).next_label(),
        match exp {
            Some(exp) => exp == created(allocation, fields@, old(source).next_temp())
                && final(source).next_temp() == old(source).next_temp() + 1,
            None => old(source).next_temp() == usize::MAX && final(source).next_temp() == old(source).next_temp(),
        },
{
    let base = match source.fresh_temp() {
        Some(temp) => temp,
        None => {
            return None;
        },
    };
    let ghost length = fields@.len() as int;
    let ghost total = filled_from(fields@, base, 0);
    let mut rest = reversed(fields);
    let mut stms: Vec<Stm> = Vec::new();
    stms.push(Stm::Move(Exp::Temp(base), allocation));
    let ghost first = stms@;
    assert(stms@ =~= seq![Stm::Move(Exp::Temp(base), allocation)]);
    assert(first + total =~= stms@ + filled_from(fields@, base, 0));
    while rest.len() > 0
        invariant
            length == fields@.len(),
            rest@.len() <= length,
            forall|i: int| 0 <= i < rest@.len() ==> rest@[i] == fields@[length - 1 - i],
            first + total == stms@ + filled_from(fields@, base, length - rest@.len()),
        decreases rest.len(),
    {
        let ghost at = length - rest@.len();
        let ghost before = stms@;
        let field = rest.pop().unwrap();
        assert(field == fields@[at]);
        let FieldInit { offset, value } = field;
        stms.push(Stm::Move(word(Exp::Temp(base), offset), value));
        assert(stms@ + filled_from(fields@, base, at + 1) =~= before + (seq![
            Stm::Move(word_at(Exp::Temp(base), fields@[at].offset), fields@[at].value),
        ] + filled_from(fields@, base, at + 1)));
    }
    assert(stms@ + Seq::<Stm>::empty() =~= stms@);
    Some(value_of(stms, Exp::Temp(base)))
}

/// The creation of an array: the allocator of the runtime takes the
/// number of elements and the size of an element.
pub fn array_creation(allocator: Label, length: Exp, element_size: i64) -> (exp: Exp)
    ensures
        exp == Exp::Call(
            Box::new(Exp::Name(allocator)),
            Box::new(
                List::Cons(
                    length,
                    Box::new(List::Cons(Exp::Const(element_size), Box::new(List::Nil))),
                ),
            ),
        ),
{
    Exp::Call(
        Box::new(Exp::Name(allocator)),
        Box::new(
            List::Cons(length, Box::new(List::Cons(Exp::Const(element_size), Box::new(List::Nil)))),
        ),
    )
}

/// The statements that make an array and fill it: the allocator hands back
/// the array, and a counting loop puts a value into each element. The
/// value is computed anew for each element, so that an element that is a
/// record or an array gets one of its own.
pub open spec fn filling(
    allocation: Exp,
    length: Exp,
    value: Exp,
    header: i64,
    array: Temp,
    count: Temp,
    index: Temp,
    start: Label,
    done: Label,
) -> Seq<Stm> {
    seq![
        Stm::Move(Exp::Temp(count), length),
        Stm::Move(Exp::Temp(array), allocation),
        Stm::Move(Exp::Temp(index), Exp::Const(0)),
        Stm::CJump(RelOp::LesserThan, Exp::Temp(index), Exp::Temp(count), start, done),
        Stm::Label(start),
        Stm::Move(element(Exp::Temp(array), Exp::Temp(index), header), value),
        Stm::Move(
            Exp::Temp(index),
            Exp::BinOp(BinOp::Plus, Box::new(Exp::Temp(index)), Box::new(Exp::Const(1))),
        ),
        Stm::CJump(RelOp::LesserThan, Exp::Temp(index), Exp::Temp(count), start, done),
        Stm::Label(done),
    ]
}

/// The call of the allocator for an array of as many elements of eight
/// bytes as the temporary says.
pub open spec fn array_allocation(allocator: Label, count: Temp) -> Exp {
    Exp::Call(
        Box::new(Exp::Name(allocator)),
        Box::new(
            List::Cons(Exp::Temp(count), Box::new(List::Cons(Exp::Const(8), Box::new(List::Nil)))),
        ),
    )
}

/// The creation of an array whose elements start with the value of an
/// expression. The elements lie behind a header of `header` bytes. The
/// result is `None`, and nothing is taken from `source`, when three
/// temporaries or two labels cannot be had.
pub fn array_filled(
    allocator: Label,
    length: Exp,
    value: Exp,
    header: i64,
    source: &mut TempSource,
) -> (exp: Option<Exp>)
    ensures
        match exp {
            Some(exp) => {
                &&& exp == valued(
                    filling(
                        array_allocation(allocator, temp_of(old(source).next_temp() + 1)),
                        length,
                        value,
                        header,
                        temp_of(old(source).next_temp()),
                        temp_of(old(source).next_temp() + 1),
                        temp_of(old(source).next_temp() + 2),
                        label_of(old(source).next_label()),
                        label_of(old(source).next_label() + 1),
                    ),
                    Exp::Temp(temp_of(old(source).next_temp())),
                )
                &&& final(source).next_temp() == old(source).next_temp() + 3
                &&& final(source).next_label() == old(source).next_label() + 2
            },
            None => {
                &&& old(source).next_temp() + 3 > usize::MAX || old(source).next_label() + 2
                    > usize::MAX
                &&& final(source).next_temp() == old(source).next_temp()
                &&& final(source).next_label() == old(source).next_label()
            },
        },
{
    let (temp, label) = match source.reserve(3, 2) {
        Some(first) => first,
        None => {
            return None;
        },
    };
    proof {
        source.lemma_in_range();
    }
    let array = Temp { num: temp };
    let count = Temp { num: temp + 1 };
    let index = Temp { num: temp + 2 };
    let start = Label::Num(label);
    let done = Label::Num(label + 1);
    let allocation = array_creation(allocator, Exp::Temp(count), 8);
    let mut stms: Vec<Stm> = Vec::new();
    stms.push(Stm::Move(Exp::Temp(count), length));
    stms.push(Stm::Move(Exp::Temp(array), allocation));
    stms.push(Stm::Move(Exp::Temp(index), Exp::Const(0)));
    stms.push(Stm::CJump(RelOp::LesserThan, Exp::Temp(index), Exp::Temp(count), start, done));
    stms.push(Stm::Label(start));
    stms.push(Stm::Move(subscript_var(Exp::Temp(array), Exp::Temp(index), header), value));
    stms.push(
        Stm::Move(
            Exp::Temp(index),
            Exp::BinOp(BinOp::Plus, Box::new(Exp::Temp(index)), Box::new(Exp::Const(1))),
        ),
    );
    stms.push(Stm::CJump(RelOp::LesserThan, Exp::Temp(index), Exp::Temp(count), start, done));
    stms.push(Stm::Label(done));
    assert(stms@ =~= filling(allocation, length, value, header, array, count, index, start, done));
    Some(value_of(stms, Exp::Temp(array)))
}

/// The call of a method: the receiver is kept in a temporary; the table of
/// methods is found in the header of the object, at `vtable_offset`; the
/// method stands in the table at its index; and it is called with the
/// static link and the receiver in front of the arguments.
pub open spec fn dispatched(
    receiver: Exp,
    vtable_offset: i64,
    index: nat,
    link: Exp,
    arguments: List<Exp>,
    temp: nat,
) -> Exp {
    Exp::ESeq(
        Box::new(Stm::Move(Exp::Temp(temp_of(temp)), receiver)),
        Box::new(
            Exp::Call(
                Box::new(
                    word_at(
                        word_at(Exp::Temp(temp_of(temp)), vtable_offset),
                        (8 * index) as i64,
                    ),
                ),
                Box::new(
                    List::Cons(
                        link,
                        Box::new(List::Cons(Exp::Temp(temp_of(temp)), Box::new(arguments))),
                    ),
                ),
            ),
        ),
    )
}

/// The call of a method through the table of methods of the receiver. The
/// result is `None`, and nothing is taken from `source`, when the index is
/// larger than a table can be or no temporary can be had.
pub fn method_call(
    receiver: Exp,
    vtable_offset: i64,
    index: usize,
    link: Exp,
    arguments: List<Exp>,
    source: &mut TempSource,
) -> (exp: Option<Exp>)
    ensures
        final(source).next_label() == old(source).next_label(),
        match exp {
            Some(exp) => index <= MAX_SLOTS && exp == dispatched(
                receiver,
                vtable_offset,
                index as nat,
                link,
                arguments,
                old(source).next_temp(),
            ) && final(source).next_temp() == old(source).next_temp() + 1,
            None => (index > MAX_SLOTS || old(source).next_temp() == usize::MAX) && final(source).next_temp() == old(source).next_temp(),
        },
{
    if index > MAX_SLOTS {
        return None;
    }
    let object = match source.fresh_temp() {
        Some(temp) => temp,
        None => {
            return None;
        },
    };
    let slot: i64 = 8 * (index as i64);
    Some(
        Exp::ESeq(
            Box::new(Stm::Move(Exp::Temp(object), receiver)),
            Box::new(
                Exp::Call(
                    Box::new(word(word(Exp::Temp(object), vtable_offset), slot)),
                    Box::new(
                        List::Cons(
                            link,
                            Box::new(List::Cons(Exp::Temp(object), Box::new(arguments))),
                        ),
                    ),
                ),
            ),
        ),
    )
}

/// A string literal of the program and the label of its characters.
pub struct Literal {
    pub text: String,
    pub label: Label,
}

/// The string literals of a program. Literals with the same text share a
/// label.
pub struct Literals {
    entries: Vec<Literal>,
}

/// The label of the first of the literals from `from` on that has the
/// text.
pub open spec fn literal_from(entries: Seq<Literal>, text: Seq<char>, from: int) -> Option<Label>
    decreases entries.len() - from,
{
    if from < 0 || from >= entries.len() {
        None
    } else if entries[from].text@ == text {
        Some(entries[from].label)
    } else {
        literal_from(entries, text, from + 1)
    }
}

/// The fragments of the literals from `at` on.
pub open spec fn literal_fragments(entries: Seq<Literal>, at: int) -> Seq<(Label, Seq<char>)>
    decreases entries.len() - at,
{
    if at < 0 || at >= entries.len() {
        Seq::empty()
    } else {
        seq![(entries[at].label, entries[at].text@)] + literal_fragments(entries, at + 1)
    }
}

/// What a fragment says of a string, if it is one.
pub open spec fn string_of(fragment: Fragment) -> Option<(Label, Seq<char>)> {
    match fragment {
        Fragment::Str(label, text) => Some((label, text@)),
        _ => None,
    }
}

impl View for Literals {
    type V = Seq<Literal>;

    closed spec fn view(&self) -> Seq<Literal> {
        self.entries@
    }
}

impl Literals {
    /// No text stands in the table twice.
    pub open spec fn wf(&self) -> bool {
        forall|i: int, j: int|
            0 <= i < j < self@.len() ==> (#[trigger] self@[i]).text@ != (#[trigger] self@[j]).text@
    }

    /// The label of a text, if it is in the table.
    pub open spec fn label_of(&self, text: Seq<char>) -> Option<Label> {
        literal_from(self@, text, 0)
    }

    /// A table without literals.
    pub fn new() -> (literals: Self)
        ensures
            literals.wf(),
            literals@.len() == 0,
    {
        Literals { entries: Vec::new() }
    }

    /// The label of a literal: the one it has, if its text was seen before,
    /// or a fresh one, under which it is entered. The result is `None` when
    /// the text is new and the labels have run out.
    pub fn label_for(&mut self, text: &str, source: &mut TempSource) -> (label: Option<Label>)
        requires
            old(self).wf(),
        ensures
            final(self).wf(),
            final(source).next_temp() == old(source).next_temp(),
            match old(self).label_of(text@) {
                Some(known) => label == Some(known) && final(self)@ == old(self)@ && final(source).next_label() == old(source).next_label(),
                None => match label {
                    Some(fresh) => {
                        &&& fresh == crate::blocks::label_of(old(source).next_label())
                        &&& final(source).next_label() == old(source).next_label() + 1
                        &&& final(self)@.len() == old(self)@.len() + 1
                        &&& final(self)@.take(old(self)@.len() as int) == old(self)@
                        &&& final(self)@.last().text@ == text@
                        &&& final(self)@.last().label == fresh
                    },
                    None => {
                        &&& old(source).next_label() == usize::MAX
                        &&& final(source).next_label() == old(source).next_label()
                        &&& final(self)@ == old(self)@
                    },
                },
            },
            label matches Some(found) ==> final(self).label_of(text@) == Some(found),
    {
        let owned = text.to_owned();
        let mut index: usize = 0;
        while index < self.entries.len()
            invariant
                index <= self@.len(),
                self@ == old(self)@,
                self.wf(),
                owned@ == text@,
                literal_from(self@, text@, 0) == literal_from(self@, text@, index as int),
                forall|i: int| 0 <= i < index ==> (#[trigger] self@[i]).text@ != text@,
            decreases self.entries.len() - index,
        {
            if self.entries[index].text == owned {
                return Some(self.entries[index].label);
            }
            index += 1;
        }
        proof {
            source.lemma_in_range();
        }
        let label = match source.fresh_label() {
            Some(label) => label,
            None => {
                return None;
            },
        };
        self.entries.push(Literal { text: owned, label });
        proof {
            assert(self@.take(old(self)@.len() as int) =~= old(self)@);
            lemma_literal_found(self@, text@, 0, old(self)@.len() as int);
        }
        Some(label)
    }

    /// The literals as fragments, in the order in which they were first
    /// seen.
    pub fn fragments(&self) -> (fragments: Vec<Fragment>)
        ensures
            fragments@.len() == self@.len(),
            forall|i: int|
                0 <= i < self@.len() ==> string_of(#[trigger] fragments@[i]) == Some(
                    (self@[i].label, self@[i].text@),
                ),
    {
        let mut fragments: Vec<Fragment> = Vec::new();
        let mut index: usize = 0;
        while index < self.entries.len()
            invariant
                index <= self@.len(),
                fragments@.len() == index,
                forall|i: int|
                    0 <= i < index ==> string_of(#[trigger] fragments@[i]) == Some(
                        (self@[i].label, self@[i].text@),
                    ),
            decreases self.entries.len() - index,
        {
            fragments.push(
                Fragment::Str(self.entries[index].label, self.entries[index].text.clone()),
            );
            index += 1;
        }
        fragments
    }
}

/// Where a text stands at a position and nowhere in front of it, looking
/// for it gives the label at that position.
pub proof fn lemma_literal_found(entries: Seq<Literal>, text: Seq<char>, from: int, at: int)
    requires
        0 <= from <= at < entries.len(),
        entries[at].text@ == text,
        forall|i: int| from <= i < at ==> (#[trigger] entries[i]).text@ != text,
    ensures
        literal_from(entries, text, from) == Some(entries[at].label),
    decreases at - from,
{
    if from < at {
        lemma_literal_found(entries, text, from + 1, at);
    }
}

/// Literals with the same text share a label: a text has one label, and
/// asking for it again changes nothing.
pub proof fn lemma_literals_shared(literals: Literals, first: int, second: int)
    requires
        literals.wf(),
        0 <= first < literals@.len(),
        0 <= second < literals@.len(),
        literals@[first].text@ == literals@[second].text@,
    ensures
        first == second,
        literals.label_of(literals@[first].text@) == Some(literals@[first].label),
{
    if first < second {
        assert(literals@[first].text@ != literals@[second].text@);
    } else if second < first {
        assert(literals@[second].text@ != literals@[first].text@);
    }
    lemma_literal_found(literals@, literals@[first].text@, 0, first);
}

} // verus!
