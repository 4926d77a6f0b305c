//! The tree intermediate representation: expressions and statements.

use crate::temp::{Label, Temp};
use vstd::prelude::*;

verus! {

/// A list as a chain of cells, so that a tree that holds lists is a plain
/// value both in code and in contracts.
#[derive(Debug, PartialEq, Eq)]
pub enum List<T> {
    Nil,
    Cons(T, Box<List<T>>),
}

impl<T> List<T> {
    /// The items of the list, first to last.
    pub open spec fn items(self) -> Seq<T>
        decreases self,
    {
        match self {
            List::Nil => Seq::empty(),
            List::Cons(head, tail) => seq![head] + tail.items(),
        }
    }
}

impl<T> View for List<T> {
    type V = Seq<T>;

    open spec fn view(&self) -> Seq<T> {
        self.items()
    }
}

/// An operation on two integers.
#[derive(Clone, Copy, Debug, PartialEq, Eq, Structural)]
pub enum BinOp {
    Plus,
    Minus,
    Mul,
    Div,
    And,
    Or,
    Xor,
    ShiftLeft,
    ShiftRight,
    ArithmeticShiftRight,
}

/// A comparison of two integers, signed or unsigned.
#[derive(Clone, Copy, Debug, PartialEq, Eq, Structural)]
pub enum RelOp {
    Equal,
    NotEqual,
    LesserThan,
    GreaterThan,
    LesserOrEqual,
    GreaterOrEqual,
    UnsignedLesserThan,
    UnsignedLesserOrEqual,
    UnsignedGreaterThan,
    UnsignedGreaterOrEqual,
}

/// An expression: it computes a value.
#[derive(Debug, PartialEq, Eq)]
pub enum Exp {
    /// An integer.
    Const(i64),
    /// The address of a label.
    Name(Label),
    /// The value of a temporary.
    Temp(Temp),
    BinOp(BinOp, Box<Exp>, Box<Exp>),
    /// The word of memory at an address.
    Mem(Box<Exp>),
    /// The call of a function with arguments.
    Call(Box<Exp>, Box<List<Exp>>),
    /// The statement is run, then the expression gives the value.
    ESeq(Box<Stm>, Box<Exp>),
}

/// A statement: it changes temporaries or memory, or hands control on.
#[derive(Debug, PartialEq, Eq)]
pub enum Stm {
    /// The value of the second goes into the temporary or the memory
    /// that the first names.
    Move(Exp, Exp),
    /// The expression is computed and its value forgotten.
    Exp(Exp),
    /// A jump to an address, which is one of the labels.
    Jump(Exp, List<Label>),
    /// A jump to the first label if the comparison holds, to the second
    /// if it does not.
    CJump(RelOp, Exp, Exp, Label, Label),
    /// The first statement, then the second.
    Sequence(Box<Stm>, Box<Stm>),
    /// The definition of a label.
    Label(Label),
}

/// The number of nodes of an expression, weighted so that the operands of
/// a node, taken as a list, are smaller than the node.
pub open spec fn exp_size(exp: Exp) -> nat
    decreases exp,
{
    match exp {
        Exp::Const(_) | Exp::Name(_) | Exp::Temp(_) => 1,
        Exp::BinOp(_, left, right) => 3 + exp_size(*left) + exp_size(*right),
        Exp::Mem(address) => 2 + exp_size(*address),
        Exp::Call(function, arguments) => 2 + exp_size(*function) + exps_size(*arguments),
        Exp::ESeq(stm, value) => 1 + stm_size(*stm) + exp_size(*value),
    }
}

/// The size of a list of expressions.
pub open spec fn exps_size(exps: List<Exp>) -> nat
    decreases exps,
{
    match exps {
        List::Nil => 0,
        List::Cons(head, tail) => 1 + exp_size(head) + exps_size(*tail),
    }
}

/// The size of a statement.
pub open spec fn stm_size(stm: Stm) -> nat
    decreases stm,
{
    match stm {
        Stm::Move(destination, source) => 3 + exp_size(destination) + exp_size(source),
        Stm::Exp(exp) => 2 + exp_size(exp),
        Stm::Jump(target, _) => 2 + exp_size(target),
        Stm::CJump(_, left, right, _, _) => 3 + exp_size(left) + exp_size(right),
        Stm::Sequence(first, second) => 1 + stm_size(*first) + stm_size(*second),
        Stm::Label(_) => 1,
    }
}

} // verus!
