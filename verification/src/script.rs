//! The written form of the tree as text: words and numbers with blanks
//! between them.

use crate::ir::Stm;
use crate::notation::{
    lemma_read_written,
    read,
    read_statements,
    stm_tokens,
    stms_tokens,
    write_statement,
    Keyword,
    Token,
};
use crate::text::{chars_of, decimal, digit_char, push_decimal};
use vstd::prelude::*;

verus! {

/// The number of words.
pub const KEYWORDS: usize = 34;

/// The words, by number.
pub open spec fn keyword_at(index: int) -> Keyword {
    if index == 0 {
        Keyword::Const
    } else if index == 1 {
        Keyword::Name
    } else if index == 2 {
        Keyword::Temp
    } else if index == 3 {
        Keyword::Mem
    } else if index == 4 {
        Keyword::Call
    } else if index == 5 {
        Keyword::ESeq
    } else if index == 6 {
        Keyword::Move
    } else if index == 7 {
        Keyword::Exp
    } else if index == 8 {
        Keyword::Jump
    } else if index == 9 {
        Keyword::CJump
    } else if index == 10 {
        Keyword::Sequence
    } else if index == 11 {
        Keyword::Label
    } else if index == 12 {
        Keyword::Num
    } else if index == 13 {
        Keyword::Named
    } else if index == 14 {
        Keyword::Plus
    } else if index == 15 {
        Keyword::Minus
    } else if index == 16 {
        Keyword::Mul
    } else if index == 17 {
        Keyword::Div
    } else if index == 18 {
        Keyword::And
    } else if index == 19 {
        Keyword::Or
    } else if index == 20 {
        Keyword::Xor
    } else if index == 21 {
        Keyword::ShiftLeft
    } else if index == 22 {
        Keyword::ShiftRight
    } else if index == 23 {
        Keyword::ArithmeticShiftRight
    } else if index == 24 {
        Keyword::Equal
    } else if index == 25 {
        Keyword::NotEqual
    } else if index == 26 {
        Keyword::LesserThan
    } else if index == 27 {
        Keyword::GreaterThan
    } else if index == 28 {
        Keyword::LesserOrEqual
    } else if index == 29 {
        Keyword::GreaterOrEqual
    } else if index == 30 {
        Keyword::UnsignedLesserThan
    } else if index == 31 {
        Keyword::UnsignedLesserOrEqual
    } else if index == 32 {
        Keyword::UnsignedGreaterThan
    } else {
        Keyword::UnsignedGreaterOrEqual
    }
}

/// The number of a word.
pub open spec fn keyword_index(word: Keyword) -> int {
    match word {
        Keyword::Const => 0,
        Keyword::Name => 1,
        Keyword::Temp => 2,
        Keyword::Mem => 3,
        Keyword::Call => 4,
        Keyword::ESeq => 5,
        Keyword::Move => 6,
        Keyword::Exp => 7,
        Keyword::Jump => 8,
        Keyword::CJump => 9,
        Keyword::Sequence => 10,
        Keyword::Label => 11,
        Keyword::Num => 12,
        Keyword::Named => 13,
        Keyword::Plus => 14,
        Keyword::Minus => 15,
        Keyword::Mul => 16,
        Keyword::Div => 17,
        Keyword::And => 18,
        Keyword::Or => 19,
        Keyword::Xor => 20,
        Keyword::ShiftLeft => 21,
        Keyword::ShiftRight => 22,
        Keyword::ArithmeticShiftRight => 23,
        Keyword::Equal => 24,
        Keyword::NotEqual => 25,
        Keyword::LesserThan => 26,
        Keyword::GreaterThan => 27,
        Keyword::LesserOrEqual => 28,
        Keyword::GreaterOrEqual => 29,
        Keyword::UnsignedLesserThan => 30,
        Keyword::UnsignedLesserOrEqual => 31,
        Keyword::UnsignedGreaterThan => 32,
        Keyword::UnsignedGreaterOrEqual => 33,
    }
}

/// How a word is spelled.
pub open spec fn keyword_text(word: Keyword) -> Seq<char> {
    match word {
        Keyword::Const => seq!['c', 'o', 'n', 's', 't'],
        Keyword::Name => seq!['n', 'a', 'm', 'e'],
        Keyword::Temp => seq!['t', 'e', 'm', 'p'],
        Keyword::Mem => seq!['m', 'e', 'm'],
        Keyword::Call => seq!['c', 'a', 'l', 'l'],
        Keyword::ESeq => seq!['e', 's', 'e', 'q'],
        Keyword::Move => seq!['m', 'o', 'v', 'e'],
        Keyword::Exp => seq!['e', 'x', 'p'],
        Keyword::Jump => seq!['j', 'u', 'm', 'p'],
        Keyword::CJump => seq!['c', 'j', 'u', 'm', 'p'],
        Keyword::Sequence => seq!['s', 'e', 'q'],
        Keyword::Label => seq!['l', 'a', 'b', 'e', 'l'],
        Keyword::Num => seq!['n', 'u', 'm'],
        Keyword::Named => seq!['n', 'a', 'm', 'e', 'd'],
        Keyword::Plus => seq!['a', 'd', 'd'],
        Keyword::Minus => seq!['s', 'u', 'b'],
        Keyword::Mul => seq!['m', 'u', 'l'],
        Keyword::Div => seq!['d', 'i', 'v'],
        Keyword::And => seq!['a', 'n', 'd'],
        Keyword::Or => seq!['o', 'r'],
        Keyword::Xor => seq!['x', 'o', 'r'],
        Keyword::ShiftLeft => seq!['s', 'h', 'l'],
        Keyword::ShiftRight => seq!['s', 'h', 'r'],
        Keyword::ArithmeticShiftRight => seq!['s', 'a', 'r'],
        Keyword::Equal => seq!['e', 'q'],
        Keyword::NotEqual => seq!['n', 'e'],
        Keyword::LesserThan => seq!['l', 't'],
        Keyword::GreaterThan => seq!['g', 't'],
        Keyword::LesserOrEqual => seq!['l', 'e'],
        Keyword::GreaterOrEqual => seq!['g', 'e'],
        Keyword::UnsignedLesserThan => seq!['u', 'l', 't'],
        Keyword::UnsignedLesserOrEqual => seq!['u', 'l', 'e'],
        Keyword::UnsignedGreaterThan => seq!['u', 'g', 't'],
        Keyword::UnsignedGreaterOrEqual => seq!['u', 'g', 'e'],
    }
}

/// Whether a character is a small letter.
pub open spec fn is_letter(ch: char) -> bool {
    'a' <= ch <= 'z'
}

/// Whether a character separates words.
pub open spec fn is_blank(ch: char) -> bool {
    ch == ' ' || ch == '\n'
}

/// Whether all characters are small letters.
pub open spec fn all_letters(word: Seq<char>) -> bool {
    forall|i: int| 0 <= i < word.len() ==> is_letter(#[trigger] word[i])
}

/// Whether all characters are digits.
pub open spec fn all_digits(word: Seq<char>) -> bool {
    forall|i: int| 0 <= i < word.len() ==> '0' <= #[trigger] word[i] <= '9'
}

/// A word is spelled with at least two small letters, and every word has a
/// number.
pub proof fn lemma_keyword_text(word: Keyword)
    ensures
        keyword_text(word).len() >= 2,
        all_letters(keyword_text(word)),
        0 <= keyword_index(word) < KEYWORDS,
        keyword_at(keyword_index(word)) == word,
{
}

/// Two words that are spelled the same are the same word.
pub proof fn lemma_keyword_unique(first: Keyword, second: Keyword)
    requires
        keyword_text(first) == keyword_text(second),
    ensures
        first == second,
{
    let a = keyword_text(first);
    let b = keyword_text(second);
    assert(a.len() == b.len());
    assert(a[0] == b[0]);
    assert(a[1] == b[1]);
    if a.len() > 2 {
        assert(a[2] == b[2]);
    }
    if a.len() > 3 {
        assert(a[3] == b[3]);
    }
    if a.len() > 4 {
        assert(a[4] == b[4]);
    }
}

/// The number that digits stand for.
pub open spec fn digits_value(digits: Seq<char>) -> nat
    decreases digits.len(),
{
    if digits.len() == 0 {
        0
    } else {
        (digits_value(digits.drop_last()) * 10 + (digits.last() as nat - 48)) as nat
    }
}

/// The decimal numeral of a number consists of digits and stands for the
/// number.
pub proof fn lemma_decimal(n: nat)
    ensures
        decimal(n).len() >= 1,
        all_digits(decimal(n)),
        digits_value(decimal(n)) == n,
    decreases n,
{
    if n < 10 {
        let digits = seq![digit_char(n)];
        assert(digits.drop_last() =~= Seq::<char>::empty());
        assert(digits.last() == digit_char(n));
        assert(digits_value(digits.drop_last()) == 0);
    } else {
        lemma_decimal(n / 10);
        let front = decimal(n / 10);
        let digits = front.push(digit_char(n % 10));
        assert(digits.drop_last() =~= front);
        assert(digits.last() == digit_char(n % 10));
        assert forall|i: int| 0 <= i < digits.len() implies '0' <= #[trigger] digits[i] <= '9' by {
            if i < front.len() {
                assert(digits[i] == front[i]);
            }
        }
    }
}

/// A number in writing: its decimal numeral, with a minus sign in front if
/// it is marked as negative.
pub open spec fn number_text(negative: bool, magnitude: u64) -> Seq<char> {
    if negative {
        seq!['-'] + decimal(magnitude as nat)
    } else {
        decimal(magnitude as nat)
    }
}

/// A piece of the written form as text.
pub open spec fn token_text(token: Token) -> Seq<char> {
    match token {
        Token::Open => seq!['('],
        Token::Close => seq![')'],
        Token::Word(word) => keyword_text(word),
        Token::Number { negative, magnitude } => number_text(negative, magnitude),
    }
}

/// The first of the words from a number on that is spelled like the text.
pub open spec fn keyword_from(text: Seq<char>, index: int) -> Option<Keyword>
    decreases KEYWORDS - index,
{
    if index < 0 || index >= KEYWORDS {
        None
    } else if keyword_text(keyword_at(index)) == text {
        Some(keyword_at(index))
    } else {
        keyword_from(text, index + 1)
    }
}

/// The number that a text stands for, if it is a numeral that is not too
/// large.
pub open spec fn number_of(text: Seq<char>) -> Option<Token> {
    if text.len() > 0 && text[0] == '-' {
        let digits = text.subrange(1, text.len() as int);
        if digits.len() > 0 && all_digits(digits) && digits_value(digits) <= u64::MAX {
            Some(Token::Number { negative: true, magnitude: digits_value(digits) as u64 })
        } else {
            None
        }
    } else if text.len() > 0 && all_digits(text) && digits_value(text) <= u64::MAX {
        Some(Token::Number { negative: false, magnitude: digits_value(text) as u64 })
    } else {
        None
    }
}

/// The piece that a text stands for: a parenthesis, a word, or a number.
pub open spec fn token_of(text: Seq<char>) -> Option<Token> {
    if text == seq!['('] {
        Some(Token::Open)
    } else if text == seq![')'] {
        Some(Token::Close)
    } else {
        match keyword_from(text, 0) {
            Some(word) => Some(Token::Word(word)),
            None => number_of(text),
        }
    }
}

/// Looking for a word finds it, and finds nothing for a text that starts
/// with no letter.
pub proof fn lemma_keyword_from(text: Seq<char>, index: int)
    requires
        0 <= index <= KEYWORDS,
    ensures
        forall|word: Keyword|
            keyword_text(word) == text && index <= keyword_index(word) ==> keyword_from(
                text,
                index,
            ) == Some(word),
        text.len() > 0 && !is_letter(text[0]) ==> keyword_from(text, index) is None,
    decreases KEYWORDS - index,
{
    if index < KEYWORDS {
        lemma_keyword_from(text, index + 1);
        let here = keyword_at(index);
        lemma_keyword_text(here);
        assert(is_letter(keyword_text(here)[0]));
        assert forall|word: Keyword|
            keyword_text(word) == text && index <= keyword_index(word) implies keyword_from(
            text,
            index,
        ) == Some(word) by {
            lemma_keyword_text(word);
            if keyword_text(here) == text {
                lemma_keyword_unique(here, word);
            } else {
                assert(keyword_index(word) != index);
            }
        }
    } else {
        assert forall|word: Keyword|
            keyword_text(word) == text && index <= keyword_index(word) implies keyword_from(
            text,
            index,
        ) == Some(word) by {
            lemma_keyword_text(word);
        }
    }
}

/// The text of a piece is not empty, holds no blank, and stands for the
/// piece.
pub proof fn lemma_token_text(token: Token)
    ensures
        token_text(token).len() >= 1,
        forall|i: int| 0 <= i < token_text(token).len() ==> !is_blank(#[trigger] token_text(token)[i]),
        token_of(token_text(token)) == Some(token),
{
    let text = token_text(token);
    match token {
        Token::Open => {
            assert(text[0] == '(');
        },
        Token::Close => {
            assert(text[0] == ')');
            assert(text != seq!['(']) by {
                assert(seq!['('][0] == '(');
            }
        },
        Token::Word(word) => {
            lemma_keyword_text(word);
            lemma_keyword_from(text, 0);
            assert(is_letter(text[0]));
            assert(text != seq!['(']) by {
                assert(seq!['('][0] == '(');
            }
            assert(text != seq![')']) by {
                assert(seq![')'][0] == ')');
            }
            assert forall|i: int| 0 <= i < text.len() implies !is_blank(#[trigger] text[i]) by {
                assert(is_letter(text[i]));
            }
        },
        Token::Number { negative, magnitude } => {
            lemma_decimal(magnitude as nat);
            let digits = decimal(magnitude as nat);
            assert('0' <= digits[0] <= '9');
            if negative {
                assert(text[0] == '-');
                assert(text.subrange(1, text.len() as int) =~= digits);
                assert forall|i: int| 0 <= i < text.len() implies !is_blank(#[trigger] text[i]) by {
                    if i > 0 {
                        assert(text[i] == digits[i - 1]);
                    }
                }
            } else {
                assert forall|i: int| 0 <= i < text.len() implies !is_blank(#[trigger] text[i]) by {}
            }
            assert(!is_letter(text[0]));
            lemma_keyword_from(text, 0);
            assert(text != seq!['(']) by {
                assert(seq!['('][0] == '(');
            }
            assert(text != seq![')']) by {
                assert(seq![')'][0] == ')');
            }
        },
    }
}

/// The position of the first blank at or behind a position, or the end of
/// the text.
pub open spec fn word_end(text: Seq<char>, at: int) -> int
    decreases text.len() - at,
{
    if at < 0 || at >= text.len() || is_blank(text[at]) {
        at
    } else {
        word_end(text, at + 1)
    }
}

/// A word ends behind where it starts, and not behind the end of the text.
pub proof fn lemma_word_end(text: Seq<char>, at: int)
    requires
        0 <= at <= text.len(),
    ensures
        at <= word_end(text, at) <= text.len(),
        at < text.len() && !is_blank(text[at]) ==> at < word_end(text, at),
    decreases text.len() - at,
{
    if at < text.len() && !is_blank(text[at]) {
        lemma_word_end(text, at + 1);
    }
}

/// The pieces that a text stands for from a position on: blanks separate
/// words, and each word stands for a piece. There are none if a word
/// stands for no piece.
pub open spec fn lexed(text: Seq<char>, at: int) -> Option<Seq<Token>>
    decreases text.len() - at,
{
    if at < 0 || at >= text.len() {
        Some(Seq::empty())
    } else if is_blank(text[at]) {
        lexed(text, at + 1)
    } else {
        proof {
            lemma_word_end(text, at);
        }
        let end = word_end(text, at);
        match token_of(text.subrange(at, end)) {
            Some(token) => match lexed(text, end) {
                Some(rest) => Some(seq![token] + rest),
                None => None,
            },
            None => None,
        }
    }
}

/// The pieces from `at` on as text, each followed by a blank.
pub open spec fn spaced(tokens: Seq<Token>, at: int) -> Seq<char>
    decreases tokens.len() - at,
{
    if at < 0 || at >= tokens.len() {
        Seq::empty()
    } else {
        token_text(tokens[at]) + seq![' '] + spaced(tokens, at + 1)
    }
}

/// The statements from `at` on as text, each on a line of its own.
pub open spec fn lines(stms: Seq<Stm>, at: int) -> Seq<char>
    decreases stms.len() - at,
{
    if at < 0 || at >= stms.len() {
        Seq::empty()
    } else {
        spaced(stm_tokens(stms[at]), 0) + seq!['\n'] + lines(stms, at + 1)
    }
}

/// Statements as text.
pub open spec fn printed(stms: Seq<Stm>) -> Seq<char> {
    lines(stms, 0)
}

/// The statements that a text stands for, if it is the written form of
/// statements.
pub open spec fn parsed(text: Seq<char>) -> Option<Seq<Stm>> {
    match lexed(text, 0) {
        Some(tokens) => read(tokens),
        None => None,
    }
}

/// Whether the characters stand in the text at a position.
pub open spec fn holds_at(text: Seq<char>, at: int, piece: Seq<char>) -> bool {
    &&& 0 <= at
    &&& at + piece.len() <= text.len()
    &&& forall|i: int| 0 <= i < piece.len() ==> text[at + i] == #[trigger] piece[i]
}

/// Where two pieces of text stand one after the other, each of them stands
/// at its place.
pub proof fn lemma_holds_split(text: Seq<char>, at: int, first: Seq<char>, second: Seq<char>)
    requires
        holds_at(text, at, first + second),
    ensures
        holds_at(text, at, first),
        holds_at(text, at + first.len(), second),
{
    let both = first + second;
    assert forall|i: int| 0 <= i < first.len() implies text[at + i] == #[trigger] first[i] by {
        assert(both[i] == first[i]);
    }
    assert forall|i: int| 0 <= i < second.len() implies text[at + first.len() + i]
        == #[trigger] second[i] by {
        assert(both[first.len() + i] == second[i]);
    }
}

/// A word without blanks that is followed by a blank ends at the blank.
pub proof fn lemma_word_found(text: Seq<char>, at: int, word: Seq<char>, from: int)
    requires
        holds_at(text, at, word),
        0 <= from <= word.len(),
        forall|i: int| 0 <= i < word.len() ==> !is_blank(#[trigger] word[i]),
        at + word.len() < text.len(),
        is_blank(text[at + word.len()]),
    ensures
        word_end(text, at + from) == at + word.len(),
    decreases word.len() - from,
{
    if from < word.len() {
        assert(text[at + from] == word[from]);
        lemma_word_found(text, at, word, from + 1);
    }
}

/// Pieces that were written with blanks behind them are read back, in
/// front of what the rest of the text stands for.
pub proof fn lemma_lexed_spaced(text: Seq<char>, at: int, tokens: Seq<Token>, from: int)
    requires
        0 <= from <= tokens.len(),
        holds_at(text, at, spaced(tokens, from)),
    ensures
        lexed(text, at) == match lexed(text, at + spaced(tokens, from).len()) {
            Some(rest) => Some(tokens.subrange(from, tokens.len() as int) + rest),
            None => None,
        },
    decreases tokens.len() - from,
{
    if from >= tokens.len() {
        assert(tokens.subrange(from, tokens.len() as int) =~= Seq::<Token>::empty());
        match lexed(text, at) {
            Some(rest) => {
                assert(Seq::<Token>::empty() + rest =~= rest);
            },
            None => {},
        }
    } else {
        let word = token_text(tokens[from]);
        let blank = seq![' '];
        let rest = spaced(tokens, from + 1);
        lemma_token_text(tokens[from]);
        lemma_holds_split(text, at, word + blank, rest);
        lemma_holds_split(text, at, word, blank);
        assert(text[at + word.len()] == blank[0]);
        assert(text[at] == word[0]);
        lemma_word_found(text, at, word, 0);
        assert(text.subrange(at, at + word.len()) =~= word);
        let next = at + word.len() + 1;
        lemma_lexed_spaced(text, next, tokens, from + 1);
        assert(lexed(text, at + word.len()) == lexed(text, next));
        match lexed(text, next + rest.len()) {
            Some(tail) => {
                assert(seq![tokens[from]] + (tokens.subrange(from + 1, tokens.len() as int) + tail)
                    =~= tokens.subrange(from, tokens.len() as int) + tail);
            },
            None => {},
        }
    }
}

/// Statements that were printed, each on its line, are read back as their
/// pieces.
pub proof fn lemma_lexed_lines(text: Seq<char>, at: int, stms: Seq<Stm>, from: int)
    requires
        0 <= from <= stms.len(),
        holds_at(text, at, lines(stms, from)),
        at + lines(stms, from).len() == text.len(),
    ensures
        lexed(text, at) == Some(stms_tokens(stms, from)),
    decreases stms.len() - from,
{
    if from < stms.len() {
        let tokens = stm_tokens(stms[from]);
        let line = spaced(tokens, 0);
        let newline = seq!['\n'];
        let rest = lines(stms, from + 1);
        lemma_holds_split(text, at, line + newline, rest);
        lemma_holds_split(text, at, line, newline);
        lemma_lexed_spaced(text, at, tokens, 0);
        assert(text[at + line.len()] == newline[0]);
        lemma_lexed_lines(text, at + line.len() + 1, stms, from + 1);
        assert(tokens.subrange(0, tokens.len() as int) =~= tokens);
    }
}

/// Reading what was printed gives the statements back.
pub proof fn lemma_parsed_printed(stms: Seq<Stm>)
    ensures
        parsed(printed(stms)) == Some(stms),
{
    let text = printed(stms);
    lemma_lexed_lines(text, 0, stms, 0);
    lemma_read_written(stms);
}

/// How a word is spelled.
pub fn keyword_name(word: Keyword) -> (name: &'static str)
    ensures
        name@ == keyword_text(word),
{
    match word {
        Keyword::Const => {
            proof {
                reveal_strlit("const");
            }
            assert("const"@ =~= seq!['c', 'o', 'n', 's', 't']);
            "const"
        },
        Keyword::Name => {
            proof {
                reveal_strlit("name");
            }
            assert("name"@ =~= seq!['n', 'a', 'm', 'e']);
            "name"
        },
        Keyword::Temp => {
            proof {
                reveal_strlit("temp");
            }
            assert("temp"@ =~= seq!['t', 'e', 'm', 'p']);
            "temp"
        },
        Keyword::Mem => {
            proof {
                reveal_strlit("mem");
            }
            assert("mem"@ =~= seq!['m', 'e', 'm']);
            "mem"
        },
        Keyword::Call => {
            proof {
                reveal_strlit("call");
            }
            assert("call"@ =~= seq!['c', 'a', 'l', 'l']);
            "call"
        },
        Keyword::ESeq => {
            proof {
                reveal_strlit("eseq");
            }
            assert("eseq"@ =~= seq!['e', 's', 'e', 'q']);
            "eseq"
        },
        Keyword::Move => {
            proof {
                reveal_strlit("move");
            }
            assert("move"@ =~= seq!['m', 'o', 'v', 'e']);
            "move"
        },
        Keyword::Exp => {
            proof {
                reveal_strlit("exp");
            }
            assert("exp"@ =~= seq!['e', 'x', 'p']);
            "exp"
        },
        Keyword::Jump => {
            proof {
                reveal_strlit("jump");
            }
            assert("jump"@ =~= seq!['j', 'u', 'm', 'p']);
            "jump"
        },
        Keyword::CJump => {
            proof {
                reveal_strlit("cjump");
            }
            assert("cjump"@ =~= seq!['c', 'j', 'u', 'm', 'p']);
            "cjump"
        },
        Keyword::Sequence => {
            proof {
                reveal_strlit("seq");
            }
            assert("seq"@ =~= seq!['s', 'e', 'q']);
            "seq"
        },
        Keyword::Label => {
            proof {
                reveal_strlit("label");
            }
            assert("label"@ =~= seq!['l', 'a', 'b', 'e', 'l']);
            "label"
        },
        Keyword::Num => {
            proof {
                reveal_strlit("num");
            }
            assert("num"@ =~= seq!['n', 'u', 'm']);
            "num"
        },
        Keyword::Named => {
            proof {
                reveal_strlit("named");
            }
            assert("named"@ =~= seq!['n', 'a', 'm', 'e', 'd']);
            "named"
        },
        Keyword::Plus => {
            proof {
                reveal_strlit("add");
            }
            assert("add"@ =~= seq!['a', 'd', 'd']);
            "add"
        },
        Keyword::Minus => {
            proof {
                reveal_strlit("sub");
            }
            assert("sub"@ =~= seq!['s', 'u', 'b']);
            "sub"
        },
        Keyword::Mul => {
            proof {
                reveal_strlit("mul");
            }
            assert("mul"@ =~= seq!['m', 'u', 'l']);
            "mul"
        },
        Keyword::Div => {
            proof {
                reveal_strlit("div");
            }
            assert("div"@ =~= seq!['d', 'i', 'v']);
            "div"
        },
        Keyword::And => {
            proof {
                reveal_strlit("and");
            }
            assert("and"@ =~= seq!['a', 'n', 'd']);
            "and"
        },
        Keyword::Or => {
            proof {
                reveal_strlit("or");
            }
            assert("or"@ =~= seq!['o', 'r']);
            "or"
        },
        Keyword::Xor => {
            proof {
                reveal_strlit("xor");
            }
            assert("xor"@ =~= seq!['x', 'o', 'r']);
            "xor"
        },
        Keyword::ShiftLeft => {
            proof {
                reveal_strlit("shl");
            }
            assert("shl"@ =~= seq!['s', 'h', 'l']);
            "shl"
        },
        Keyword::ShiftRight => {
            proof {
                reveal_strlit("shr");
            }
            assert("shr"@ =~= seq!['s', 'h', 'r']);
            "shr"
        },
        Keyword::ArithmeticShiftRight => {
            proof {
                reveal_strlit("sar");
            }
            assert("sar"@ =~= seq!['s', 'a', 'r']);
            "sar"
        },
        Keyword::Equal => {
            proof {
                reveal_strlit("eq");
            }
            assert("eq"@ =~= seq!['e', 'q']);
            "eq"
        },
        Keyword::NotEqual => {
            proof {
                reveal_strlit("ne");
            }
            assert("ne"@ =~= seq!['n', 'e']);
            "ne"
        },
        Keyword::LesserThan => {
            proof {
                reveal_strlit("lt");
            }
            assert("lt"@ =~= seq!['l', 't']);
            "lt"
        },
        Keyword::GreaterThan => {
            proof {
                reveal_strlit("gt");
            }
            assert("gt"@ =~= seq!['g', 't']);
            "gt"
        },
        Keyword::LesserOrEqual => {
            proof {
                reveal_strlit("le");
            }
            assert("le"@ =~= seq!['l', 'e']);
            "le"
        },
        Keyword::GreaterOrEqual => {
            proof {
                reveal_strlit("ge");
            }
            assert("ge"@ =~= seq!['g', 'e']);
            "ge"
        },
        Keyword::UnsignedLesserThan => {
            proof {
                reveal_strlit("ult");
            }
            assert("ult"@ =~= seq!['u', 'l', 't']);
            "ult"
        },
        Keyword::UnsignedLesserOrEqual => {
            proof {
                reveal_strlit("ule");
            }
            assert("ule"@ =~= seq!['u', 'l', 'e']);
            "ule"
        },
        Keyword::UnsignedGreaterThan => {
            proof {
                reveal_strlit("ugt");
            }
            assert("ugt"@ =~= seq!['u', 'g', 't']);
            "ugt"
        },
        Keyword::UnsignedGreaterOrEqual => {
            proof {
                reveal_strlit("uge");
            }
            assert("uge"@ =~= seq!['u', 'g', 'e']);
            "uge"
        },
    }
}

/// The word with a number.
pub fn keyword_number(index: usize) -> (word: Keyword)
    ensures
        word == keyword_at(index as int),
{
    match index {
        0 => Keyword::Const,
        1 => Keyword::Name,
        2 => Keyword::Temp,
        3 => Keyword::Mem,
        4 => Keyword::Call,
        5 => Keyword::ESeq,
        6 => Keyword::Move,
        7 => Keyword::Exp,
        8 => Keyword::Jump,
        9 => Keyword::CJump,
        10 => Keyword::Sequence,
        11 => Keyword::Label,
        12 => Keyword::Num,
        13 => Keyword::Named,
        14 => Keyword::Plus,
        15 => Keyword::Minus,
        16 => Keyword::Mul,
        17 => Keyword::Div,
        18 => Keyword::And,
        19 => Keyword::Or,
        20 => Keyword::Xor,
        21 => Keyword::ShiftLeft,
        22 => Keyword::ShiftRight,
        23 => Keyword::ArithmeticShiftRight,
        24 => Keyword::Equal,
        25 => Keyword::NotEqual,
        26 => Keyword::LesserThan,
        27 => Keyword::GreaterThan,
        28 => Keyword::LesserOrEqual,
        29 => Keyword::GreaterOrEqual,
        30 => Keyword::UnsignedLesserThan,
        31 => Keyword::UnsignedLesserOrEqual,
        32 => Keyword::UnsignedGreaterThan,
        _ => Keyword::UnsignedGreaterOrEqual,
    }
}

fn same_chars(first: &Vec<char>, second: &Vec<char>) -> (same: bool)
    ensures
        same == (first@ == second@),
{
    if first.len() != second.len() {
        return false;
    }
    let mut index: usize = 0;
    while index < first.len()
        invariant
            index <= first@.len(),
            first@.len() == second@.len(),
            forall|i: int| 0 <= i < index ==> first@[i] == second@[i],
        decreases first.len() - index,
    {
        if first[index] != second[index] {
            return false;
        }
        index += 1;
    }
    assert(first@ =~= second@);
    true
}

/// The word that is spelled like the text.
pub fn find_keyword(text: &Vec<char>) -> (word: Option<Keyword>)
    ensures
        word == keyword_from(text@, 0),
{
    let mut index: usize = 0;
    while index < KEYWORDS
        invariant
            index <= KEYWORDS,
            keyword_from(text@, 0) == keyword_from(text@, index as int),
        decreases KEYWORDS - index,
    {
        let word = keyword_number(index);
        let name = chars_of(keyword_name(word));
        if same_chars(&name, text) {
            return Some(word);
        }
        index += 1;
    }
    None
}

/// The value of the first digits is no larger than the value of all.
pub proof fn lemma_digits_grow(digits: Seq<char>, count: int)
    requires
        all_digits(digits),
        0 <= count <= digits.len(),
    ensures
        digits_value(digits.take(count)) <= digits_value(digits),
    decreases digits.len() - count,
{
    if count < digits.len() {
        lemma_digits_grow(digits, count + 1);
        let longer = digits.take(count + 1);
        assert(longer.drop_last() =~= digits.take(count));
        assert('0' <= digits[count] <= '9');
        assert(longer.last() == digits[count]);
    } else {
        assert(digits.take(count) =~= digits);
    }
}

fn digits_from(text: &Vec<char>, start: usize) -> (value: Option<u64>)
    requires
        start <= text@.len(),
    ensures
        match value {
            Some(value) => all_digits(text@.subrange(start as int, text@.len() as int))
                && digits_value(text@.subrange(start as int, text@.len() as int)) == value,
            None => !(all_digits(text@.subrange(start as int, text@.len() as int))
                && digits_value(text@.subrange(start as int, text@.len() as int)) <= u64::MAX),
        },
{
    let ghost digits = text@.subrange(start as int, text@.len() as int);
    let mut value: u64 = 0;
    let mut index: usize = start;
    assert(digits.take(0) =~= Seq::<char>::empty());
    while index < text.len()
        invariant
            start <= index <= text@.len(),
            digits == text@.subrange(start as int, text@.len() as int),
            all_digits(digits.take(index - start)),
            value == digits_value(digits.take(index - start)),
        decreases text.len() - index,
    {
        let ch = text[index];
        assert(digits[index - start] == ch);
        if ch < '0' || ch > '9' {
            return None;
        }
        let digit = (ch as u32 - 48) as u64;
        let ghost longer = digits.take(index - start + 1);
        proof {
            assert(longer.drop_last() =~= digits.take(index - start));
            assert(longer.last() == ch);
            assert forall|i: int| 0 <= i < longer.len() implies '0' <= #[trigger] longer[i]
                <= '9' by {
                if i < index - start {
                    assert(longer[i] == digits.take(index - start)[i]);
                }
            }
        }
        if value > (u64::MAX - digit) / 10 {
            proof {
                assert(digits_value(longer) > u64::MAX);
                if all_digits(digits) {
                    lemma_digits_grow(digits, index - start + 1);
                }
            }
            return None;
        }
        value = value * 10 + digit;
        index += 1;
    }
    assert(digits.take(index - start) =~= digits);
    Some(value)
}

/// The number that a text stands for.
pub fn parse_number(text: &Vec<char>) -> (token: Option<Token>)
    ensures
        token == number_of(text@),
{
    if text.len() == 0 {
        return None;
    }
    if text[0] == '-' {
        if text.len() == 1 {
            assert(text@.subrange(1, text@.len() as int).len() == 0);
            return None;
        }
        match digits_from(text, 1) {
            Some(magnitude) => Some(Token::Number { negative: true, magnitude }),
            None => None,
        }
    } else {
        assert(text@.subrange(0, text@.len() as int) =~= text@);
        match digits_from(text, 0) {
            Some(magnitude) => Some(Token::Number { negative: false, magnitude }),
            None => None,
        }
    }
}

/// The piece that a text stands for.
pub fn token_from(text: &Vec<char>) -> (token: Option<Token>)
    ensures
        token == token_of(text@),
{
    if text.len() == 1 && text[0] == '(' {
        assert(text@ =~= seq!['(']);
        return Some(Token::Open);
    }
    if text.len() == 1 && text[0] == ')' {
        assert(text@ =~= seq![')']);
        assert(seq!['('][0] == '(');
        return Some(Token::Close);
    }
    assert(text@ != seq!['('] && text@ != seq![')']) by {
        assert(seq!['('][0] == '(' && seq!['('].len() == 1);
        assert(seq![')'][0] == ')' && seq![')'].len() == 1);
    }
    match find_keyword(text) {
        Some(word) => Some(Token::Word(word)),
        None => parse_number(text),
    }
}

/// The pieces in front of what is read from a position on.
pub open spec fn pieces_behind(front: Seq<Token>, rest: Option<Seq<Token>>) -> Option<Seq<Token>> {
    match rest {
        Some(rest) => Some(front + rest),
        None => None,
    }
}

/// Reads the pieces of a text. The result is `None` when a word of the
/// text stands for no piece.
pub fn lex(text: &str) -> (tokens: Option<Vec<Token>>)
    ensures
        match tokens {
            Some(tokens) => lexed(text@, 0) == Some(tokens@),
            None => lexed(text@, 0) is None,
        },
{
    let chars = chars_of(text);
    let mut tokens: Vec<Token> = Vec::new();
    let mut at: usize = 0;
    proof {
        match lexed(text@, 0) {
            Some(rest) => {
                assert(tokens@ + rest =~= rest);
            },
            None => {},
        }
    }
    while at < chars.len()
        invariant
            chars@ == text@,
            at <= chars@.len(),
            lexed(text@, 0) == pieces_behind(tokens@, lexed(text@, at as int)),
        decreases chars.len() - at,
    {
        let ch = chars[at];
        if ch == ' ' || ch == '\n' {
            at += 1;
        } else {
            proof {
                lemma_word_end(text@, at as int);
            }
            let mut end = at;
            let mut word: Vec<char> = Vec::new();
            assert(word@ =~= text@.subrange(at as int, end as int));
            while end < chars.len() && chars[end] != ' ' && chars[end] != '\n'
                invariant
                    chars@ == text@,
                    at <= end <= chars@.len(),
                    word_end(text@, at as int) == word_end(text@, end as int),
                    word@ == text@.subrange(at as int, end as int),
                decreases chars.len() - end,
            {
                word.push(chars[end]);
                end += 1;
                assert(word@ =~= text@.subrange(at as int, end as int));
            }
            let ghost before = tokens@;
            match token_from(&word) {
                Some(token) => {
                    tokens.push(token);
                    proof {
                        match lexed(text@, end as int) {
                            Some(rest) => {
                                assert(tokens@ + rest =~= before + (seq![token] + rest));
                            },
                            None => {},
                        }
                    }
                    at = end;
                },
                None => {
                    return None;
                },
            }
        }
    }
    assert(tokens@ + Seq::<Token>::empty() =~= tokens@);
    Some(tokens)
}

fn push_token(text: &mut String, token: Token)
    ensures
        final(text)@ == old(text)@ + token_text(token),
{
    match token {
        Token::Open => {
            text.push('(');
        },
        Token::Close => {
            text.push(')');
        },
        Token::Word(word) => {
            text.append(keyword_name(word));
        },
        Token::Number { negative, magnitude } => {
            if negative {
                text.push('-');
            }
            push_decimal(text, magnitude);
        },
    }
    assert(text@ =~= old(text)@ + token_text(token));
}

fn push_spaced(text: &mut String, tokens: &Vec<Token>)
    ensures
        final(text)@ == old(text)@ + spaced(tokens@, 0),
{
    let mut at: usize = 0;
    assert(text@ + spaced(tokens@, 0) =~= old(text)@ + spaced(tokens@, 0));
    while at < tokens.len()
        invariant
            at <= tokens@.len(),
            old(text)@ + spaced(tokens@, 0) == text@ + spaced(tokens@, at as int),
        decreases tokens.len() - at,
    {
        let ghost before = text@;
        push_token(text, tokens[at]);
        text.push(' ');
        assert(text@ + spaced(tokens@, at + 1) =~= before + (token_text(tokens@[at as int]) + seq![
            ' ',
        ] + spaced(tokens@, at + 1)));
        at += 1;
    }
    assert(text@ + Seq::<char>::empty() =~= text@);
}

/// Prints statements, each on a line of its own.
pub fn print_statements(stms: &Vec<Stm>) -> (text: String)
    ensures
        text@ == printed(stms@),
{
    let mut text = String::new();
    let mut at: usize = 0;
    assert(text@ + lines(stms@, 0) =~= lines(stms@, 0));
    while at < stms.len()
        invariant
            at <= stms@.len(),
            printed(stms@) == text@ + lines(stms@, at as int),
        decreases stms.len() - at,
    {
        let ghost before = text@;
        let tokens = write_statement(&stms[at]);
        push_spaced(&mut text, &tokens);
        text.push('\n');
        assert(text@ + lines(stms@, at + 1) =~= before + (spaced(stm_tokens(stms@[at as int]), 0)
            + seq!['\n'] + lines(stms@, at + 1)));
        at += 1;
    }
    assert(text@ + Seq::<char>::empty() =~= text@);
    text
}

/// Reads statements that were printed. The result is `None` when the text
/// is not the written form of statements.
pub fn parse_statements(text: &str) -> (stms: Option<Vec<Stm>>)
    ensures
        match stms {
            Some(stms) => parsed(text@) == Some(stms@),
            None => parsed(text@) is None,
        },
{
    match lex(text) {
        Some(tokens) => read_statements(&tokens),
        None => None,
    }
}

} // verus!
