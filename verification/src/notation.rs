//! A written form of the tree: statements and expressions as lists in
//! parentheses, which can be read back.

use crate::ir::{BinOp, Exp, List, RelOp, Stm};
use crate::temp::{Label, Temp};
use vstd::prelude::*;

verus! {

/// A word of the written form.
#[derive(Clone, Copy, Debug, PartialEq, Eq, Structural)]
pub enum Keyword {
    Const,
    Name,
    Temp,
    Mem,
    Call,
    ESeq,
    Move,
    Exp,
    Jump,
    CJump,
    Sequence,
    Label,
    Num,
    Named,
    Plus,
    Minus,
    Mul,
    Div,
    And,
    Or,
    Xor,
    ShiftLeft,
    ShiftRight,
    ArithmeticShiftRight,
    Equal,
    NotEqual,
    LesserThan,
    GreaterThan,
    LesserOrEqual,
    GreaterOrEqual,
    UnsignedLesserThan,
    UnsignedLesserOrEqual,
    UnsignedGreaterThan,
    UnsignedGreaterOrEqual,
}

/// A piece of the written form: a parenthesis, a word or a number.
#[derive(Clone, Copy, Debug, PartialEq, Eq, Structural)]
pub enum Token {
    Open,
    Close,
    Word(Keyword),
    Number { negative: bool, magnitude: u64 },
}

/// The word for an operation.
pub open spec fn binop_word(op: BinOp) -> Keyword {
    match op {
        BinOp::Plus => Keyword::Plus,
        BinOp::Minus => Keyword::Minus,
        BinOp::Mul => Keyword::Mul,
        BinOp::Div => Keyword::Div,
        BinOp::And => Keyword::And,
        BinOp::Or => Keyword::Or,
        BinOp::Xor => Keyword::Xor,
        BinOp::ShiftLeft => Keyword::ShiftLeft,
        BinOp::ShiftRight => Keyword::ShiftRight,
        BinOp::ArithmeticShiftRight => Keyword::ArithmeticShiftRight,
    }
}

/// The operation that a word stands for.
pub open spec fn word_binop(word: Keyword) -> Option<BinOp> {
    match word {
        Keyword::Plus => Some(BinOp::Plus),
        Keyword::Minus => Some(BinOp::Minus),
        Keyword::Mul => Some(BinOp::Mul),
        Keyword::Div => Some(BinOp::Div),
        Keyword::And => Some(BinOp::And),
        Keyword::Or => Some(BinOp::Or),
        Keyword::Xor => Some(BinOp::Xor),
        Keyword::ShiftLeft => Some(BinOp::ShiftLeft),
        Keyword::ShiftRight => Some(BinOp::ShiftRight),
        Keyword::ArithmeticShiftRight => Some(BinOp::ArithmeticShiftRight),
        _ => None,
    }
}

/// The word for a comparison.
pub open spec fn relop_word(op: RelOp) -> Keyword {
    match op {
        RelOp::Equal => Keyword::Equal,
        RelOp::NotEqual => Keyword::NotEqual,
        RelOp::LesserThan => Keyword::LesserThan,
        RelOp::GreaterThan => Keyword::GreaterThan,
        RelOp::LesserOrEqual => Keyword::LesserOrEqual,
        RelOp::GreaterOrEqual => Keyword::GreaterOrEqual,
        RelOp::UnsignedLesserThan => Keyword::UnsignedLesserThan,
        RelOp::UnsignedLesserOrEqual => Keyword::UnsignedLesserOrEqual,
        RelOp::UnsignedGreaterThan => Keyword::UnsignedGreaterThan,
        RelOp::UnsignedGreaterOrEqual => Keyword::UnsignedGreaterOrEqual,
    }
}

/// The comparison that a word stands for.
pub open spec fn word_relop(word: Keyword) -> Option<RelOp> {
    match word {
        Keyword::Equal => Some(RelOp::Equal),
        Keyword::NotEqual => Some(RelOp::NotEqual),
        Keyword::LesserThan => Some(RelOp::LesserThan),
        Keyword::GreaterThan => Some(RelOp::GreaterThan),
        Keyword::LesserOrEqual => Some(RelOp::LesserOrEqual),
        Keyword::GreaterOrEqual => Some(RelOp::GreaterOrEqual),
        Keyword::UnsignedLesserThan => Some(RelOp::UnsignedLesserThan),
        Keyword::UnsignedLesserOrEqual => Some(RelOp::UnsignedLesserOrEqual),
        Keyword::UnsignedGreaterThan => Some(RelOp::UnsignedGreaterThan),
        Keyword::UnsignedGreaterOrEqual => Some(RelOp::UnsignedGreaterOrEqual),
        _ => None,
    }
}

/// A number that counts something.
pub open spec fn count_token(count: usize) -> Token {
    Token::Number { negative: false, magnitude: count as u64 }
}

/// An integer.
pub open spec fn integer_token(value: i64) -> Token {
    if value < 0 {
        Token::Number { negative: true, magnitude: (-value) as u64 }
    } else {
        Token::Number { negative: false, magnitude: value as u64 }
    }
}

/// The count that a token stands for.
pub open spec fn token_count(token: Token) -> Option<usize> {
    match token {
        Token::Number { negative: false, magnitude } => if magnitude <= usize::MAX {
            Some(magnitude as usize)
        } else {
            None
        },
        _ => None,
    }
}

/// The integer that a token stands for.
pub open spec fn token_integer(token: Token) -> Option<i64> {
    match token {
        Token::Number { negative: false, magnitude } => if magnitude <= i64::MAX {
            Some(magnitude as i64)
        } else {
            None
        },
        Token::Number { negative: true, magnitude } => if magnitude <= 0x8000_0000_0000_0000 {
            Some((-(magnitude as int)) as i64)
        } else {
            None
        },
        _ => None,
    }
}

/// A label in writing: `num` or `named`, and the number.
pub open spec fn label_tokens(label: Label) -> Seq<Token> {
    match label {
        Label::Num(num) => seq![Token::Word(Keyword::Num), count_token(num)],
        Label::Named(symbol) => seq![Token::Word(Keyword::Named), count_token(symbol)],
    }
}

/// A list of labels in writing: the labels one after the other.
pub open spec fn labels_tokens(labels: List<Label>) -> Seq<Token>
    decreases labels,
{
    match labels {
        List::Nil => Seq::empty(),
        List::Cons(head, tail) => label_tokens(head) + labels_tokens(*tail),
    }
}

/// An expression in writing: in parentheses, the word for its kind and
/// its parts.
pub open spec fn exp_tokens(exp: Exp) -> Seq<Token>
    decreases exp,
{
    match exp {
        Exp::Const(value) => seq![Token::Open, Token::Word(Keyword::Const), integer_token(value), Token::Close],
        Exp::Name(label) => seq![Token::Open, Token::Word(Keyword::Name)] + label_tokens(label)
            + seq![Token::Close],
        Exp::Temp(temp) => seq![
            Token::Open,
            Token::Word(Keyword::Temp),
            count_token(temp.num),
            Token::Close,
        ],
        Exp::BinOp(op, left, right) => seq![Token::Open, Token::Word(binop_word(op))]
            + exp_tokens(*left) + exp_tokens(*right) + seq![Token::Close],
        Exp::Mem(address) => seq![Token::Open, Token::Word(Keyword::Mem)] + exp_tokens(*address)
            + seq![Token::Close],
        Exp::Call(function, arguments) => seq![Token::Open, Token::Word(Keyword::Call)]
            + exp_tokens(*function) + exps_tokens(*arguments) + seq![Token::Close],
        Exp::ESeq(stm, value) => seq![Token::Open, Token::Word(Keyword::ESeq)] + stm_tokens(*stm)
            + exp_tokens(*value) + seq![Token::Close],
    }
}

/// A list of expressions in writing: the expressions one after the other.
pub open spec fn exps_tokens(exps: List<Exp>) -> Seq<Token>
    decreases exps,
{
    match exps {
        List::Nil => Seq::empty(),
        List::Cons(head, tail) => exp_tokens(head) + exps_tokens(*tail),
    }
}

/// A statement in writing: in parentheses, the word for its kind and its
/// parts.
pub open spec fn stm_tokens(stm: Stm) -> Seq<Token>
    decreases stm,
{
    match stm {
        Stm::Move(destination, source) => seq![Token::Open, Token::Word(Keyword::Move)]
            + exp_tokens(destination) + exp_tokens(source) + seq![Token::Close],
        Stm::Exp(exp) => seq![Token::Open, Token::Word(Keyword::Exp)] + exp_tokens(exp) + seq![
            Token::Close,
        ],
        Stm::Jump(target, labels) => seq![Token::Open, Token::Word(Keyword::Jump)] + exp_tokens(
            target,
        ) + labels_tokens(labels) + seq![Token::Close],
        Stm::CJump(op, left, right, if_true, if_false) => seq![
            Token::Open,
            Token::Word(Keyword::CJump),
            Token::Word(relop_word(op)),
        ] + exp_tokens(left) + exp_tokens(right) + label_tokens(if_true) + label_tokens(if_false)
            + seq![Token::Close],
        Stm::Sequence(first, second) => seq![Token::Open, Token::Word(Keyword::Sequence)]
            + stm_tokens(*first) + stm_tokens(*second) + seq![Token::Close],
        Stm::Label(label) => seq![Token::Open, Token::Word(Keyword::Label)] + label_tokens(label)
            + seq![Token::Close],
    }
}

/// The statements from `at` on in writing, one after the other.
pub open spec fn stms_tokens(stms: Seq<Stm>, at: int) -> Seq<Token>
    decreases stms.len() - at,
{
    if at < 0 || at >= stms.len() {
        Seq::empty()
    } else {
        stm_tokens(stms[at]) + stms_tokens(stms, at + 1)
    }
}

/// The label that stands at a position of the written form, and the
/// position behind it.
pub open spec fn read_label(tokens: Seq<Token>, at: int) -> Option<(Label, int)> {
    if 0 <= at && at + 1 < tokens.len() {
        match (tokens[at], token_count(tokens[at + 1])) {
            (Token::Word(Keyword::Num), Some(num)) => Some((Label::Num(num), at + 2)),
            (Token::Word(Keyword::Named), Some(symbol)) => Some((Label::Named(symbol), at + 2)),
            _ => None,
        }
    } else {
        None
    }
}

/// The labels that stand at a position of the written form up to the
/// closing parenthesis, and the position of the parenthesis.
pub open spec fn read_labels(tokens: Seq<Token>, at: int, fuel: nat) -> Option<(List<Label>, int)>
    decreases fuel,
{
    if 0 <= at < tokens.len() && tokens[at] == Token::Close {
        Some((List::Nil, at))
    } else if fuel == 0 {
        None
    } else {
        match read_label(tokens, at) {
            Some((head, next)) => match read_labels(tokens, next, (fuel - 1) as nat) {
                Some((tail, end)) => Some((List::Cons(head, Box::new(tail)), end)),
                None => None,
            },
            None => None,
        }
    }
}

/// Whether a closing parenthesis stands at a position.
pub open spec fn closes(tokens: Seq<Token>, at: int) -> bool {
    0 <= at < tokens.len() && tokens[at] == Token::Close
}

/// The expression that stands at a position of the written form, and the
/// position behind it. `fuel` bounds how deep the expression may be.
pub open spec fn read_exp(tokens: Seq<Token>, at: int, fuel: nat) -> Option<(Exp, int)>
    decreases fuel, 1nat,
{
    if fuel == 0 || at < 0 || at + 2 >= tokens.len() || tokens[at] != Token::Open {
        None
    } else {
        match tokens[at + 1] {
            Token::Word(Keyword::Const) => match token_integer(tokens[at + 2]) {
                Some(value) => if closes(tokens, at + 3) {
                    Some((Exp::Const(value), at + 4))
                } else {
                    None
                },
                None => None,
            },
            Token::Word(Keyword::Name) => match read_label(tokens, at + 2) {
                Some((label, next)) => if closes(tokens, next) {
                    Some((Exp::Name(label), next + 1))
                } else {
                    None
                },
                None => None,
            },
            Token::Word(Keyword::Temp) => match token_count(tokens[at + 2]) {
                Some(num) => if closes(tokens, at + 3) {
                    Some((Exp::Temp(Temp { num }), at + 4))
                } else {
                    None
                },
                None => None,
            },
            Token::Word(Keyword::Mem) => match read_exp(tokens, at + 2, (fuel - 1) as nat) {
                Some((address, next)) => if closes(tokens, next) {
                    Some((Exp::Mem(Box::new(address)), next + 1))
                } else {
                    None
                },
                None => None,
            },
            Token::Word(Keyword::Call) => match read_exp(tokens, at + 2, (fuel - 1) as nat) {
                Some((function, next)) => match read_exps(tokens, next, (fuel - 1) as nat) {
                    Some((arguments, end)) => Some(
                        (Exp::Call(Box::new(function), Box::new(arguments)), end + 1),
                    ),
                    None => None,
                },
                None => None,
            },
            Token::Word(Keyword::ESeq) => match read_stm(tokens, at + 2, (fuel - 1) as nat) {
                Some((stm, next)) => match read_exp(tokens, next, (fuel - 1) as nat) {
                    Some((value, end)) => if closes(tokens, end) {
                        Some((Exp::ESeq(Box::new(stm), Box::new(value)), end + 1))
                    } else {
                        None
                    },
                    None => None,
                },
                None => None,
            },
            Token::Word(word) => match word_binop(word) {
                Some(op) => match read_exp(tokens, at + 2, (fuel - 1) as nat) {
                    Some((left, next)) => match read_exp(tokens, next, (fuel - 1) as nat) {
                        Some((right, end)) => if closes(tokens, end) {
                            Some((Exp::BinOp(op, Box::new(left), Box::new(right)), end + 1))
                        } else {
                            None
                        },
                        None => None,
                    },
                    None => None,
                },
                None => None,
            },
            _ => None,
        }
    }
}

/// The expressions that stand at a position of the written form up to the
/// closing parenthesis, and the position of the parenthesis.
pub open spec fn read_exps(tokens: Seq<Token>, at: int, fuel: nat) -> Option<(List<Exp>, int)>
    decreases fuel, 2nat,
{
    if closes(tokens, at) {
        Some((List::Nil, at))
    } else if fuel == 0 {
        None
    } else {
        match read_exp(tokens, at, fuel) {
            Some((head, next)) => match read_exps(tokens, next, (fuel - 1) as nat) {
                Some((tail, end)) => Some((List::Cons(head, Box::new(tail)), end)),
                None => None,
            },
            None => None,
        }
    }
}

/// The statement that stands at a position of the written form, and the
/// position behind it. `fuel` bounds how deep the statement may be.
pub open spec fn read_stm(tokens: Seq<Token>, at: int, fuel: nat) -> Option<(Stm, int)>
    decreases fuel, 1nat,
{
    if fuel == 0 || at < 0 || at + 2 >= tokens.len() || tokens[at] != Token::Open {
        None
    } else {
        match tokens[at + 1] {
            Token::Word(Keyword::Move) => match read_exp(tokens, at + 2, (fuel - 1) as nat) {
                Some((destination, next)) => match read_exp(tokens, next, (fuel - 1) as nat) {
                    Some((source, end)) => if closes(tokens, end) {
                        Some((Stm::Move(destination, source), end + 1))
                    } else {
                        None
                    },
                    None => None,
                },
                None => None,
            },
            Token::Word(Keyword::Exp) => match read_exp(tokens, at + 2, (fuel - 1) as nat) {
                Some((exp, next)) => if closes(tokens, next) {
                    Some((Stm::Exp(exp), next + 1))
                } else {
                    None
                },
                None => None,
            },
            Token::Word(Keyword::Jump) => match read_exp(tokens, at + 2, (fuel - 1) as nat) {
                Some((target, next)) => match read_labels(tokens, next, (fuel - 1) as nat) {
                    Some((labels, end)) => Some((Stm::Jump(target, labels), end + 1)),
                    None => None,
                },
                None => None,
            },
            Token::Word(Keyword::CJump) => match tokens[at + 2] {
                Token::Word(word) => match word_relop(word) {
                    Some(op) => match read_exp(tokens, at + 3, (fuel - 1) as nat) {
                        Some((left, next)) => match read_exp(tokens, next, (fuel - 1) as nat) {
                            Some((right, after)) => match read_label(tokens, after) {
                                Some((if_true, then)) => match read_label(tokens, then) {
                                    Some((if_false, end)) => if closes(tokens, end) {
                                        Some(
                                            (
                                                Stm::CJump(op, left, right, if_true, if_false),
                                                end + 1,
                                            ),
                                        )
                                    } else {
                                        None
                                    },
                                    None => None,
                                },
                                None => None,
                            },
                            None => None,
                        },
                        None => None,
                    },
                    None => None,
                },
                _ => None,
            },
            Token::Word(Keyword::Sequence) => match read_stm(tokens, at + 2, (fuel - 1) as nat) {
                Some((first, next)) => match read_stm(tokens, next, (fuel - 1) as nat) {
                    Some((second, end)) => if closes(tokens, end) {
                        Some((Stm::Sequence(Box::new(first), Box::new(second)), end + 1))
                    } else {
                        None
                    },
                    None => None,
                },
                None => None,
            },
            Token::Word(Keyword::Label) => match read_label(tokens, at + 2) {
                Some((label, next)) => if closes(tokens, next) {
                    Some((Stm::Label(label), next + 1))
                } else {
                    None
                },
                None => None,
            },
            _ => None,
        }
    }
}

/// Whether the piece stands in the written form at a position.
pub open spec fn starts_at(tokens: Seq<Token>, at: int, piece: Seq<Token>) -> bool {
    &&& 0 <= at
    &&& at + piece.len() <= tokens.len()
    &&& forall|i: int| 0 <= i < piece.len() ==> tokens[at + i] == #[trigger] piece[i]
}

/// Where two pieces stand one after the other, each of them stands at its
/// place.
pub proof fn lemma_starts_split(tokens: Seq<Token>, at: int, first: Seq<Token>, second: Seq<Token>)
    requires
        starts_at(tokens, at, first + second),
    ensures
        starts_at(tokens, at, first),
        starts_at(tokens, at + first.len(), second),
{
    let both = first + second;
    assert forall|i: int| 0 <= i < first.len() implies tokens[at + i] == #[trigger] first[i] by {
        assert(both[i] == first[i]);
    }
    assert forall|i: int| 0 <= i < second.len() implies tokens[at + first.len() + i]
        == #[trigger] second[i] by {
        assert(both[first.len() + i] == second[i]);
    }
}

/// A label that was written is read back.
pub proof fn lemma_read_label(tokens: Seq<Token>, at: int, label: Label)
    requires
        starts_at(tokens, at, label_tokens(label)),
    ensures
        read_label(tokens, at) == Some((label, at + 2)),
        label_tokens(label).len() == 2,
        !closes(tokens, at),
{
    let piece = label_tokens(label);
    assert(tokens[at] == piece[0]);
    assert(tokens[at + 1] == piece[1]);
}

/// A list of labels that was written in front of a closing parenthesis is
/// read back.
pub proof fn lemma_read_labels(tokens: Seq<Token>, at: int, labels: List<Label>, fuel: nat)
    requires
        starts_at(tokens, at, labels_tokens(labels)),
        closes(tokens, at + labels_tokens(labels).len()),
        fuel >= labels_tokens(labels).len(),
    ensures
        read_labels(tokens, at, fuel) == Some((labels, at + labels_tokens(labels).len())),
    decreases labels,
{
    match labels {
        List::Nil => {},
        List::Cons(head, tail) => {
            lemma_starts_split(tokens, at, label_tokens(head), labels_tokens(*tail));
            lemma_read_label(tokens, at, head);
            lemma_read_labels(tokens, at + 2, *tail, (fuel - 1) as nat);
        },
    }
}

/// What is written of an expression starts with an opening parenthesis and
/// is at least four pieces long.
pub proof fn lemma_exp_tokens(exp: Exp)
    ensures
        exp_tokens(exp).len() >= 4,
        exp_tokens(exp)[0] == Token::Open,
    decreases exp,
{
    match exp {
        Exp::Name(label) => {
            assert(label_tokens(label).len() == 2);
        },
        Exp::BinOp(op, left, right) => {
            lemma_exp_tokens(*left);
        },
        Exp::Mem(address) => {
            lemma_exp_tokens(*address);
        },
        Exp::Call(function, arguments) => {
            lemma_exp_tokens(*function);
        },
        Exp::ESeq(stm, value) => {
            lemma_exp_tokens(*value);
        },
        _ => {},
    }
}

/// What is written of a statement starts with an opening parenthesis and
/// is at least four pieces long.
pub proof fn lemma_stm_tokens(stm: Stm)
    ensures
        stm_tokens(stm).len() >= 4,
        stm_tokens(stm)[0] == Token::Open,
    decreases stm,
{
    match stm {
        Stm::Move(destination, source) => {
            lemma_exp_tokens(destination);
        },
        Stm::Exp(exp) => {
            lemma_exp_tokens(exp);
        },
        Stm::Jump(target, labels) => {
            lemma_exp_tokens(target);
        },
        Stm::CJump(op, left, right, if_true, if_false) => {
            lemma_exp_tokens(left);
        },
        Stm::Sequence(first, second) => {
            lemma_stm_tokens(*first);
        },
        Stm::Label(label) => {
            assert(label_tokens(label).len() == 2);
        },
    }
}

/// An expression that was written is read back.
pub proof fn lemma_read_exp(tokens: Seq<Token>, at: int, exp: Exp, fuel: nat)
    requires
        starts_at(tokens, at, exp_tokens(exp)),
        fuel >= exp_tokens(exp).len(),
    ensures
        read_exp(tokens, at, fuel) == Some((exp, at + exp_tokens(exp).len())),
    decreases exp, 1nat,
{
    let piece = exp_tokens(exp);
    lemma_exp_tokens(exp);
    assert(tokens[at] == piece[0]);
    assert(tokens[at + 1] == piece[1]);
    let head = seq![Token::Open, piece[1]];
    let close = seq![Token::Close];
    match exp {
        Exp::Const(value) => {
            assert(tokens[at + 2] == piece[2]);
            assert(tokens[at + 3] == piece[3]);
        },
        Exp::Name(label) => {
            lemma_starts_split(tokens, at, head + label_tokens(label), close);
            lemma_starts_split(tokens, at, head, label_tokens(label));
            lemma_read_label(tokens, at + 2, label);
            assert(tokens[at + 4] == close[0]);
        },
        Exp::Temp(temp) => {
            assert(tokens[at + 2] == piece[2]);
            assert(tokens[at + 3] == piece[3]);
        },
        Exp::BinOp(op, left, right) => {
            let first = exp_tokens(*left);
            let second = exp_tokens(*right);
            lemma_starts_split(tokens, at, head + first + second, close);
            lemma_starts_split(tokens, at, head + first, second);
            lemma_starts_split(tokens, at, head, first);
            lemma_read_exp(tokens, at + 2, *left, (fuel - 1) as nat);
            lemma_read_exp(tokens, at + 2 + first.len(), *right, (fuel - 1) as nat);
            assert(tokens[at + 2 + first.len() + second.len()] == close[0]);
        },
        Exp::Mem(address) => {
            let first = exp_tokens(*address);
            lemma_starts_split(tokens, at, head + first, close);
            lemma_starts_split(tokens, at, head, first);
            lemma_read_exp(tokens, at + 2, *address, (fuel - 1) as nat);
            assert(tokens[at + 2 + first.len()] == close[0]);
        },
        Exp::Call(function, arguments) => {
            let first = exp_tokens(*function);
            let second = exps_tokens(*arguments);
            lemma_starts_split(tokens, at, head + first + second, close);
            lemma_starts_split(tokens, at, head + first, second);
            lemma_starts_split(tokens, at, head, first);
            lemma_read_exp(tokens, at + 2, *function, (fuel - 1) as nat);
            assert(tokens[at + 2 + first.len() + second.len()] == close[0]);
            lemma_read_exps(tokens, at + 2 + first.len(), *arguments, (fuel - 1) as nat);
        },
        Exp::ESeq(stm, value) => {
            let first = stm_tokens(*stm);
            let second = exp_tokens(*value);
            lemma_starts_split(tokens, at, head + first + second, close);
            lemma_starts_split(tokens, at, head + first, second);
            lemma_starts_split(tokens, at, head, first);
            lemma_read_stm(tokens, at + 2, *stm, (fuel - 1) as nat);
            lemma_read_exp(tokens, at + 2 + first.len(), *value, (fuel - 1) as nat);
            assert(tokens[at + 2 + first.len() + second.len()] == close[0]);
        },
    }
}

/// A list of expressions that was written in front of a closing
/// parenthesis is read back.
pub proof fn lemma_read_exps(tokens: Seq<Token>, at: int, exps: List<Exp>, fuel: nat)
    requires
        starts_at(tokens, at, exps_tokens(exps)),
        closes(tokens, at + exps_tokens(exps).len()),
        fuel >= exps_tokens(exps).len(),
    ensures
        read_exps(tokens, at, fuel) == Some((exps, at + exps_tokens(exps).len())),
    decreases exps, 0nat,
{
    match exps {
        List::Nil => {},
        List::Cons(head, tail) => {
            let first = exp_tokens(head);
            lemma_exp_tokens(head);
            lemma_starts_split(tokens, at, first, exps_tokens(*tail));
            assert(tokens[at] == first[0]);
            lemma_read_exp(tokens, at, head, fuel);
            lemma_read_exps(tokens, at + first.len(), *tail, (fuel - 1) as nat);
        },
    }
}

/// A statement that was written is read back.
pub proof fn lemma_read_stm(tokens: Seq<Token>, at: int, stm: Stm, fuel: nat)
    requires
        starts_at(tokens, at, stm_tokens(stm)),
        fuel >= stm_tokens(stm).len(),
    ensures
        read_stm(tokens, at, fuel) == Some((stm, at + stm_tokens(stm).len())),
    decreases stm, 1nat,
{
    let piece = stm_tokens(stm);
    lemma_stm_tokens(stm);
    assert(tokens[at] == piece[0]);
    assert(tokens[at + 1] == piece[1]);
    let head = seq![Token::Open, piece[1]];
    let close = seq![Token::Close];
    match stm {
        Stm::Move(destination, source) => {
            let first = exp_tokens(destination);
            let second = exp_tokens(source);
            lemma_starts_split(tokens, at, head + first + second, close);
            lemma_starts_split(tokens, at, head + first, second);
            lemma_starts_split(tokens, at, head, first);
            lemma_read_exp(tokens, at + 2, destination, (fuel - 1) as nat);
            lemma_read_exp(tokens, at + 2 + first.len(), source, (fuel - 1) as nat);
            assert(tokens[at + 2 + first.len() + second.len()] == close[0]);
        },
        Stm::Exp(exp) => {
            let first = exp_tokens(exp);
            lemma_starts_split(tokens, at, head + first, close);
            lemma_starts_split(tokens, at, head, first);
            lemma_read_exp(tokens, at + 2, exp, (fuel - 1) as nat);
            assert(tokens[at + 2 + first.len()] == close[0]);
        },
        Stm::Jump(target, labels) => {
            let first = exp_tokens(target);
            let second = labels_tokens(labels);
            lemma_starts_split(tokens, at, head + first + second, close);
            lemma_starts_split(tokens, at, head + first, second);
            lemma_starts_split(tokens, at, head, first);
            lemma_read_exp(tokens, at + 2, target, (fuel - 1) as nat);
            assert(tokens[at + 2 + first.len() + second.len()] == close[0]);
            lemma_read_labels(tokens, at + 2 + first.len(), labels, (fuel - 1) as nat);
        },
        Stm::CJump(op, left, right, if_true, if_false) => {
            let start = seq![Token::Open, Token::Word(Keyword::CJump), Token::Word(relop_word(op))];
            let first = exp_tokens(left);
            let second = exp_tokens(right);
            let third = label_tokens(if_true);
            let fourth = label_tokens(if_false);
            assert(tokens[at + 2] == piece[2]);
            lemma_starts_split(tokens, at, start + first + second + third + fourth, close);
            lemma_starts_split(tokens, at, start + first + second + third, fourth);
            lemma_starts_split(tokens, at, start + first + second, third);
            lemma_starts_split(tokens, at, start + first, second);
            lemma_starts_split(tokens, at, start, first);
            lemma_read_exp(tokens, at + 3, left, (fuel - 1) as nat);
            lemma_read_exp(tokens, at + 3 + first.len(), right, (fuel - 1) as nat);
            lemma_read_label(tokens, at + 3 + first.len() + second.len(), if_true);
            lemma_read_label(tokens, at + 3 + first.len() + second.len() + 2, if_false);
            assert(tokens[at + 3 + first.len() + second.len() + 4] == close[0]);
        },
        Stm::Sequence(first_stm, second_stm) => {
            let first = stm_tokens(*first_stm);
            let second = stm_tokens(*second_stm);
            lemma_starts_split(tokens, at, head + first + second, close);
            lemma_starts_split(tokens, at, head + first, second);
            lemma_starts_split(tokens, at, head, first);
            lemma_read_stm(tokens, at + 2, *first_stm, (fuel - 1) as nat);
            lemma_read_stm(tokens, at + 2 + first.len(), *second_stm, (fuel - 1) as nat);
            assert(tokens[at + 2 + first.len() + second.len()] == close[0]);
        },
        Stm::Label(label) => {
            lemma_starts_split(tokens, at, head + label_tokens(label), close);
            lemma_starts_split(tokens, at, head, label_tokens(label));
            lemma_read_label(tokens, at + 2, label);
            assert(tokens[at + 4] == close[0]);
        },
    }
}

/// The statements that stand in the written form from a position to its
/// end.
pub open spec fn read_stms(tokens: Seq<Token>, at: int, fuel: nat) -> Option<Seq<Stm>>
    decreases fuel,
{
    if at == tokens.len() {
        Some(Seq::empty())
    } else if fuel == 0 {
        None
    } else {
        match read_stm(tokens, at, tokens.len()) {
            Some((stm, next)) => match read_stms(tokens, next, (fuel - 1) as nat) {
                Some(rest) => Some(seq![stm] + rest),
                None => None,
            },
            None => None,
        }
    }
}

/// The statements that a written form stands for, if it is one.
pub open spec fn read(tokens: Seq<Token>) -> Option<Seq<Stm>> {
    read_stms(tokens, 0, tokens.len())
}

/// The statements in writing.
pub open spec fn written(stms: Seq<Stm>) -> Seq<Token> {
    stms_tokens(stms, 0)
}

/// Statements that were written from a position on, up to the end of the
/// written form, are read back.
pub proof fn lemma_read_stms(tokens: Seq<Token>, at: int, stms: Seq<Stm>, from: int, fuel: nat)
    requires
        0 <= from <= stms.len(),
        starts_at(tokens, at, stms_tokens(stms, from)),
        at + stms_tokens(stms, from).len() == tokens.len(),
        fuel >= stms_tokens(stms, from).len(),
    ensures
        read_stms(tokens, at, fuel) == Some(stms.subrange(from, stms.len() as int)),
    decreases stms.len() - from,
{
    if from >= stms.len() {
        assert(stms.subrange(from, stms.len() as int) =~= Seq::<Stm>::empty());
    } else {
        let first = stm_tokens(stms[from]);
        let rest = stms_tokens(stms, from + 1);
        lemma_stm_tokens(stms[from]);
        lemma_starts_split(tokens, at, first, rest);
        lemma_read_stm(tokens, at, stms[from], tokens.len());
        lemma_read_stms(tokens, at + first.len(), stms, from + 1, (fuel - 1) as nat);
        assert(seq![stms[from]] + stms.subrange(from + 1, stms.len() as int) =~= stms.subrange(
            from,
            stms.len() as int,
        ));
    }
}

/// Reading what was written gives the statements back.
pub proof fn lemma_read_written(stms: Seq<Stm>)
    ensures
        read(written(stms)) == Some(stms),
{
    let tokens = written(stms);
    lemma_read_stms(tokens, 0, stms, 0, tokens.len());
    assert(stms.subrange(0, stms.len() as int) =~= stms);
}

/// Whether what was read is what the rules give.
pub open spec fn reads<T>(result: Option<(T, usize)>, expected: Option<(T, int)>) -> bool {
    match (result, expected) {
        (Some((found, next)), Some((wanted, end))) => found == wanted && next == end,
        (None, None) => true,
        _ => false,
    }
}

fn binop_keyword(op: BinOp) -> (word: Keyword)
    ensures
        word == binop_word(op),
{
    match op {
        BinOp::Plus => Keyword::Plus,
        BinOp::Minus => Keyword::Minus,
        BinOp::Mul => Keyword::Mul,
        BinOp::Div => Keyword::Div,
        BinOp::And => Keyword::And,
        BinOp::Or => Keyword::Or,
        BinOp::Xor => Keyword::Xor,
        BinOp::ShiftLeft => Keyword::ShiftLeft,
        BinOp::ShiftRight => Keyword::ShiftRight,
        BinOp::ArithmeticShiftRight => Keyword::ArithmeticShiftRight,
    }
}

fn keyword_binop(word: Keyword) -> (op: Option<BinOp>)
    ensures
        op == word_binop(word),
{
    match word {
        Keyword::Plus => Some(BinOp::Plus),
        Keyword::Minus => Some(BinOp::Minus),
        Keyword::Mul => Some(BinOp::Mul),
        Keyword::Div => Some(BinOp::Div),
        Keyword::And => Some(BinOp::And),
        Keyword::Or => Some(BinOp::Or),
        Keyword::Xor => Some(BinOp::Xor),
        Keyword::ShiftLeft => Some(BinOp::ShiftLeft),
        Keyword::ShiftRight => Some(BinOp::ShiftRight),
        Keyword::ArithmeticShiftRight => Some(BinOp::ArithmeticShiftRight),
        _ => None,
    }
}

fn relop_keyword(op: RelOp) -> (word: Keyword)
    ensures
        word == relop_word(op),
{
    match op {
        RelOp::Equal => Keyword::Equal,
        RelOp::NotEqual => Keyword::NotEqual,
        RelOp::LesserThan => Keyword::LesserThan,
        RelOp::GreaterThan => Keyword::GreaterThan,
        RelOp::LesserOrEqual => Keyword::LesserOrEqual,
        RelOp::GreaterOrEqual => Keyword::GreaterOrEqual,
        RelOp::UnsignedLesserThan => Keyword::UnsignedLesserThan,
        RelOp::UnsignedLesserOrEqual => Keyword::UnsignedLesserOrEqual,
        RelOp::UnsignedGreaterThan => Keyword::UnsignedGreaterThan,
        RelOp::UnsignedGreaterOrEqual => Keyword::UnsignedGreaterOrEqual,
    }
}

fn keyword_relop(word: Keyword) -> (op: Option<RelOp>)
    ensures
        op == word_relop(word),
{
    match word {
        Keyword::Equal => Some(RelOp::Equal),
        Keyword::NotEqual => Some(RelOp::NotEqual),
        Keyword::LesserThan => Some(RelOp::LesserThan),
        Keyword::GreaterThan => Some(RelOp::GreaterThan),
        Keyword::LesserOrEqual => Some(RelOp::LesserOrEqual),
        Keyword::GreaterOrEqual => Some(RelOp::GreaterOrEqual),
        Keyword::UnsignedLesserThan => Some(RelOp::UnsignedLesserThan),
        Keyword::UnsignedLesserOrEqual => Some(RelOp::UnsignedLesserOrEqual),
        Keyword::UnsignedGreaterThan => Some(RelOp::UnsignedGreaterThan),
        Keyword::UnsignedGreaterOrEqual => Some(RelOp::UnsignedGreaterOrEqual),
        _ => None,
    }
}

fn count_of(count: usize) -> (token: Token)
    ensures
        token == count_token(count),
{
    Token::Number { negative: false, magnitude: count as u64 }
}

fn integer_of(value: i64) -> (token: Token)
    ensures
        token == integer_token(value),
{
    if value < 0 {
        Token::Number { negative: true, magnitude: (-(value + 1)) as u64 + 1 }
    } else {
        Token::Number { negative: false, magnitude: value as u64 }
    }
}

fn as_count(token: Token) -> (count: Option<usize>)
    ensures
        count == token_count(token),
{
    match token {
        Token::Number { negative: false, magnitude } => if magnitude <= usize::MAX as u64 {
            Some(magnitude as usize)
        } else {
            None
        },
        _ => None,
    }
}

fn as_integer(token: Token) -> (value: Option<i64>)
    ensures
        value == token_integer(token),
{
    match token {
        Token::Number { negative: false, magnitude } => if magnitude <= i64::MAX as u64 {
            Some(magnitude as i64)
        } else {
            None
        },
        Token::Number { negative: true, magnitude } => if magnitude == 0 {
            Some(0)
        } else if magnitude <= 0x8000_0000_0000_0000 {
            Some(-((magnitude - 1) as i64) - 1)
        } else {
            None
        },
        _ => None,
    }
}

fn write_label(label: Label, out: &mut Vec<Token>)
    ensures
        final(out)@ == old(out)@ + label_tokens(label),
{
    match label {
        Label::Num(num) => {
            out.push(Token::Word(Keyword::Num));
            out.push(count_of(num));
        },
        Label::Named(symbol) => {
            out.push(Token::Word(Keyword::Named));
            out.push(count_of(symbol));
        },
    }
    assert(out@ =~= old(out)@ + label_tokens(label));
}

fn write_labels(labels: &List<Label>, out: &mut Vec<Token>)
    ensures
        final(out)@ == old(out)@ + labels_tokens(*labels),
    decreases labels,
{
    match labels {
        List::Nil => {
            assert(out@ =~= old(out)@ + labels_tokens(*labels));
        },
        List::Cons(head, tail) => {
            write_label(*head, out);
            write_labels(tail, out);
            assert(out@ =~= old(out)@ + labels_tokens(*labels));
        },
    }
}

fn write_exp(exp: &Exp, out: &mut Vec<Token>)
    ensures
        final(out)@ == old(out)@ + exp_tokens(*exp),
    decreases exp,
{
    out.push(Token::Open);
    match exp {
        Exp::Const(value) => {
            out.push(Token::Word(Keyword::Const));
            out.push(integer_of(*value));
        },
        Exp::Name(label) => {
            out.push(Token::Word(Keyword::Name));
            write_label(*label, out);
        },
        Exp::Temp(temp) => {
            out.push(Token::Word(Keyword::Temp));
            out.push(count_of(temp.num));
        },
        Exp::BinOp(op, left, right) => {
            out.push(Token::Word(binop_keyword(*op)));
            write_exp(left, out);
            write_exp(right, out);
        },
        Exp::Mem(address) => {
            out.push(Token::Word(Keyword::Mem));
            write_exp(address, out);
        },
        Exp::Call(function, arguments) => {
            out.push(Token::Word(Keyword::Call));
            write_exp(function, out);
            write_exps(arguments, out);
        },
        Exp::ESeq(stm, value) => {
            out.push(Token::Word(Keyword::ESeq));
            write_stm(stm, out);
            write_exp(value, out);
        },
    }
    out.push(Token::Close);
    assert(out@ =~= old(out)@ + exp_tokens(*exp));
}

fn write_exps(exps: &List<Exp>, out: &mut Vec<Token>)
    ensures
        final(out)@ == old(out)@ + exps_tokens(*exps),
    decreases exps,
{
    match exps {
        List::Nil => {
            assert(out@ =~= old(out)@ + exps_tokens(*exps));
        },
        List::Cons(head, tail) => {
            write_exp(head, out);
            write_exps(tail, out);
            assert(out@ =~= old(out)@ + exps_tokens(*exps));
        },
    }
}

fn write_stm(stm: &Stm, out: &mut Vec<Token>)
    ensures
        final(out)@ == old(out)@ + stm_tokens(*stm),
    decreases stm,
{
    out.push(Token::Open);
    match stm {
        Stm::Move(destination, source) => {
            out.push(Token::Word(Keyword::Move));
            write_exp(destination, out);
            write_exp(source, out);
        },
        Stm::Exp(exp) => {
            out.push(Token::Word(Keyword::Exp));
            write_exp(exp, out);
        },
        Stm::Jump(target, labels) => {
            out.push(Token::Word(Keyword::Jump));
            write_exp(target, out);
            write_labels(labels, out);
        },
        Stm::CJump(op, left, right, if_true, if_false) => {
            out.push(Token::Word(Keyword::CJump));
            out.push(Token::Word(relop_keyword(*op)));
            write_exp(left, out);
            write_exp(right, out);
            write_label(*if_true, out);
            write_label(*if_false, out);
        },
        Stm::Sequence(first, second) => {
            out.push(Token::Word(Keyword::Sequence));
            write_stm(first, out);
            write_stm(second, out);
        },
        Stm::Label(label) => {
            out.push(Token::Word(Keyword::Label));
            write_label(*label, out);
        },
    }
    out.push(Token::Close);
    assert(out@ =~= old(out)@ + stm_tokens(*stm));
}

/// Writes a statement down.
pub fn write_statement(stm: &Stm) -> (tokens: Vec<Token>)
    ensures
        tokens@ == stm_tokens(*stm),
{
    let mut tokens: Vec<Token> = Vec::new();
    write_stm(stm, &mut tokens);
    assert(tokens@ =~= stm_tokens(*stm));
    tokens
}

/// Writes statements down.
pub fn write_statements(stms: &Vec<Stm>) -> (tokens: Vec<Token>)
    ensures
        tokens@ == written(stms@),
{
    let mut tokens: Vec<Token> = Vec::new();
    let mut at: usize = 0;
    assert(tokens@ + stms_tokens(stms@, 0) =~= stms_tokens(stms@, 0));
    while at < stms.len()
        invariant
            at <= stms@.len(),
            written(stms@) == tokens@ + stms_tokens(stms@, at as int),
        decreases stms.len() - at,
    {
        let ghost before = tokens@;
        write_stm(&stms[at], &mut tokens);
        assert(tokens@ + stms_tokens(stms@, at + 1) =~= before + (stm_tokens(stms@[at as int])
            + stms_tokens(stms@, at + 1)));
        at += 1;
    }
    assert(tokens@ + Seq::<Token>::empty() =~= tokens@);
    tokens
}

fn parse_label(tokens: &Vec<Token>, at: usize) -> (result: Option<(Label, usize)>)
    ensures
        reads(result, read_label(tokens@, at as int)),
{
    if at >= tokens.len() || tokens.len() - at < 2 {
        return None;
    }
    match (tokens[at], as_count(tokens[at + 1])) {
        (Token::Word(Keyword::Num), Some(num)) => Some((Label::Num(num), at + 2)),
        (Token::Word(Keyword::Named), Some(symbol)) => Some((Label::Named(symbol), at + 2)),
        _ => None,
    }
}

fn is_close(tokens: &Vec<Token>, at: usize) -> (result: bool)
    ensures
        result == closes(tokens@, at as int),
{
    at < tokens.len() && tokens[at] == Token::Close
}

fn parse_labels(tokens: &Vec<Token>, at: usize, fuel: usize) -> (result: Option<
    (List<Label>, usize),
>)
    ensures
        reads(result, read_labels(tokens@, at as int, fuel as nat)),
        result matches Some((_, end)) ==> end < tokens@.len(),
    decreases fuel,
{
    if is_close(tokens, at) {
        return Some((List::Nil, at));
    }
    if fuel == 0 {
        return None;
    }
    match parse_label(tokens, at) {
        Some((head, next)) => match parse_labels(tokens, next, fuel - 1) {
            Some((tail, end)) => Some((List::Cons(head, Box::new(tail)), end)),
            None => None,
        },
        None => None,
    }
}

fn closed<T>(tokens: &Vec<Token>, value: T, end: usize) -> (result: Option<(T, usize)>)
    ensures
        result == if closes(tokens@, end as int) {
            Some((value, (end + 1) as usize))
        } else {
            None
        },
{
    let length = tokens.len();
    if is_close(tokens, end) {
        Some((value, end + 1))
    } else {
        None
    }
}

fn parse_exp(tokens: &Vec<Token>, at: usize, fuel: usize) -> (result: Option<(Exp, usize)>)
    ensures
        reads(result, read_exp(tokens@, at as int, fuel as nat)),
    decreases fuel, 1nat,
{
    let length = tokens.len();
    if fuel == 0 || at >= tokens.len() || tokens.len() - at <= 2 || tokens[at] != Token::Open {
        return None;
    }
    match tokens[at + 1] {
        Token::Word(Keyword::Const) => match as_integer(tokens[at + 2]) {
            Some(value) => closed(tokens, Exp::Const(value), at + 3),
            None => None,
        },
        Token::Word(Keyword::Name) => match parse_label(tokens, at + 2) {
            Some((label, next)) => closed(tokens, Exp::Name(label), next),
            None => None,
        },
        Token::Word(Keyword::Temp) => match as_count(tokens[at + 2]) {
            Some(num) => closed(tokens, Exp::Temp(Temp { num }), at + 3),
            None => None,
        },
        Token::Word(Keyword::Mem) => match parse_exp(tokens, at + 2, fuel - 1) {
            Some((address, next)) => closed(tokens, Exp::Mem(Box::new(address)), next),
            None => None,
        },
        Token::Word(Keyword::Call) => match parse_exp(tokens, at + 2, fuel - 1) {
            Some((function, next)) => match parse_exps(tokens, next, fuel - 1) {
                Some((arguments, end)) => Some(
                    (Exp::Call(Box::new(function), Box::new(arguments)), end + 1),
                ),
                None => None,
            },
            None => None,
        },
        Token::Word(Keyword::ESeq) => match parse_stm(tokens, at + 2, fuel - 1) {
            Some((stm, next)) => match parse_exp(tokens, next, fuel - 1) {
                Some((value, end)) => closed(
                    tokens,
                    Exp::ESeq(Box::new(stm), Box::new(value)),
                    end,
                ),
                None => None,
            },
            None => None,
        },
        Token::Word(word) => match keyword_binop(word) {
            Some(op) => match parse_exp(tokens, at + 2, fuel - 1) {
                Some((left, next)) => match parse_exp(tokens, next, fuel - 1) {
                    Some((right, end)) => closed(
                        tokens,
                        Exp::BinOp(op, Box::new(left), Box::new(right)),
                        end,
                    ),
                    None => None,
                },
                None => None,
            },
            None => None,
        },
        _ => None,
    }
}

fn parse_exps(tokens: &Vec<Token>, at: usize, fuel: usize) -> (result: Option<(List<Exp>, usize)>)
    ensures
        reads(result, read_exps(tokens@, at as int, fuel as nat)),
        result matches Some((_, end)) ==> end < tokens@.len(),
    decreases fuel, 2nat,
{
    if is_close(tokens, at) {
        return Some((List::Nil, at));
    }
    if fuel == 0 {
        return None;
    }
    match parse_exp(tokens, at, fuel) {
        Some((head, next)) => match parse_exps(tokens, next, fuel - 1) {
            Some((tail, end)) => Some((List::Cons(head, Box::new(tail)), end)),
            None => None,
        },
        None => None,
    }
}

fn parse_stm(tokens: &Vec<Token>, at: usize, fuel: usize) -> (result: Option<(Stm, usize)>)
    ensures
        reads(result, read_stm(tokens@, at as int, fuel as nat)),
    decreases fuel, 1nat,
{
    let length = tokens.len();
    if fuel == 0 || at >= tokens.len() || tokens.len() - at <= 2 || tokens[at] != Token::Open {
        return None;
    }
    match tokens[at + 1] {
        Token::Word(Keyword::Move) => match parse_exp(tokens, at + 2, fuel - 1) {
            Some((destination, next)) => match parse_exp(tokens, next, fuel - 1) {
                Some((source, end)) => closed(tokens, Stm::Move(destination, source), end),
                None => None,
            },
            None => None,
        },
        Token::Word(Keyword::Exp) => match parse_exp(tokens, at + 2, fuel - 1) {
            Some((exp, next)) => closed(tokens, Stm::Exp(exp), next),
            None => None,
        },
        Token::Word(Keyword::Jump) => match parse_exp(tokens, at + 2, fuel - 1) {
            Some((target, next)) => match parse_labels(tokens, next, fuel - 1) {
                Some((labels, end)) => Some((Stm::Jump(target, labels), end + 1)),
                None => None,
            },
            None => None,
        },
        Token::Word(Keyword::CJump) => match tokens[at + 2] {
            Token::Word(word) => match keyword_relop(word) {
                Some(op) => match parse_exp(tokens, at + 3, fuel - 1) {
                    Some((left, next)) => match parse_exp(tokens, next, fuel - 1) {
                        Some((right, after)) => match parse_label(tokens, after) {
                            Some((if_true, then)) => match parse_label(tokens, then) {
                                Some((if_false, end)) => closed(
                                    tokens,
                                    Stm::CJump(op, left, right, if_true, if_false),
                                    end,
                                ),
                                None => None,
                            },
                            None => None,
                        },
                        None => None,
                    },
                    None => None,
                },
                None => None,
            },
            _ => None,
        },
        Token::Word(Keyword::Sequence) => match parse_stm(tokens, at + 2, fuel - 1) {
            Some((first, next)) => match parse_stm(tokens, next, fuel - 1) {
                Some((second, end)) => closed(
                    tokens,
                    Stm::Sequence(Box::new(first), Box::new(second)),
                    end,
                ),
                None => None,
            },
            None => None,
        },
        Token::Word(Keyword::Label) => match parse_label(tokens, at + 2) {
            Some((label, next)) => closed(tokens, Stm::Label(label), next),
            None => None,
        },
        _ => None,
    }
}

/// The statements in front of what is read from a position on.
pub open spec fn behind(front: Seq<Stm>, rest: Option<Seq<Stm>>) -> Option<Seq<Stm>> {
    match rest {
        Some(rest) => Some(front + rest),
        None => None,
    }
}

/// Reads statements that were written down. The result is `None` when the
/// pieces are not the written form of statements.
pub fn read_statements(tokens: &Vec<Token>) -> (result: Option<Vec<Stm>>)
    ensures
        match result {
            Some(stms) => read(tokens@) == Some(stms@),
            None => read(tokens@) is None,
        },
{
    let mut stms: Vec<Stm> = Vec::new();
    let mut at: usize = 0;
    let mut fuel = tokens.len();
    assert(behind(stms@, read_stms(tokens@, 0, fuel as nat)) =~= read(tokens@)) by {
        match read_stms(tokens@, 0, fuel as nat) {
            Some(rest) => {
                assert(stms@ + rest =~= rest);
            },
            None => {},
        }
    }
    while at != tokens.len()
        invariant
            read(tokens@) == behind(stms@, read_stms(tokens@, at as int, fuel as nat)),
        decreases fuel,
    {
        if fuel == 0 {
            return None;
        }
        let ghost before = stms@;
        match parse_stm(tokens, at, tokens.len()) {
            Some((stm, next)) => {
                stms.push(stm);
                proof {
                    match read_stms(tokens@, next as int, (fuel - 1) as nat) {
                        Some(rest) => {
                            assert(stms@ + rest =~= before + (seq![stm] + rest));
                        },
                        None => {},
                    }
                }
                at = next;
                fuel -= 1;
            },
            None => {
                return None;
            },
        }
    }
    assert(stms@ + Seq::<Stm>::empty() =~= stms@);
    Some(stms)
}

} // verus!
