use tiger::canon::linearize;
use tiger::ir::{BinOp, Exp, List, RelOp, Stm};
use tiger::notation::{read_statements, write_statements, Keyword, Token};
use tiger::script::{
    find_keyword, keyword_name, keyword_number, lex, parse_number, parse_statements,
    print_statements, token_from,
};
use tiger::temp::{Label, Temp, TempSource};

fn list<T>(items: Vec<T>) -> List<T> {
    let mut list = List::Nil;
    for item in items.into_iter().rev() {
        list = List::Cons(item, Box::new(list));
    }
    list
}

fn temp(num: usize) -> Exp {
    Exp::Temp(Temp { num })
}

fn sample() -> Vec<Stm> {
    vec![
        Stm::Label(Label::Num(1)),
        Stm::Move(temp(16), Exp::Const(-5)),
        Stm::Move(
            Exp::Mem(Box::new(Exp::BinOp(BinOp::Plus, Box::new(temp(6)), Box::new(Exp::Const(-8))))),
            Exp::Call(Box::new(Exp::Name(Label::Named(3))), Box::new(list(vec![temp(16), Exp::Const(i64::MIN)]))),
        ),
        Stm::Exp(Exp::Call(Box::new(temp(20)), Box::new(List::Nil))),
        Stm::CJump(RelOp::UnsignedLesserOrEqual, temp(16), Exp::Const(i64::MAX), Label::Num(1), Label::Named(0)),
        Stm::Jump(temp(3), list(vec![Label::Num(1), Label::Named(usize::MAX)])),
        Stm::Jump(Exp::Name(Label::Num(2)), List::Nil),
        Stm::Sequence(
            Box::new(Stm::Exp(Exp::ESeq(Box::new(Stm::Label(Label::Num(7))), Box::new(temp(0))))),
            Box::new(Stm::Label(Label::Num(8))),
        ),
    ]
}

#[test]
fn a_statement_in_writing() {
    let stms = vec![Stm::Move(temp(16), Exp::Const(-5))];
    assert_eq!(print_statements(&stms), "( move ( temp 16 ) ( const -5 ) ) \n");
    assert_eq!(
        write_statements(&stms),
        vec![
            Token::Open,
            Token::Word(Keyword::Move),
            Token::Open,
            Token::Word(Keyword::Temp),
            Token::Number { negative: false, magnitude: 16 },
            Token::Close,
            Token::Open,
            Token::Word(Keyword::Const),
            Token::Number { negative: true, magnitude: 5 },
            Token::Close,
            Token::Close,
        ]
    );
}

#[test]
fn statements_in_writing() {
    let stms = vec![
        Stm::Label(Label::Named(2)),
        Stm::CJump(RelOp::LesserThan, temp(1), Exp::Name(Label::Num(4)), Label::Num(5), Label::Num(6)),
        Stm::Jump(Exp::Name(Label::Num(5)), list(vec![Label::Num(5)])),
    ];
    assert_eq!(
        print_statements(&stms),
        "( label named 2 ) \n( cjump lt ( temp 1 ) ( name num 4 ) num 5 num 6 ) \n( jump ( name num 5 ) num 5 ) \n"
    );
}

#[test]
fn what_was_printed_is_read_back() {
    let text = print_statements(&sample());
    assert_eq!(parse_statements(&text), Some(sample()));
    assert_eq!(read_statements(&write_statements(&sample())), Some(sample()));
    assert_eq!(parse_statements(""), Some(vec![]));
    assert_eq!(print_statements(&vec![]), "");
}

#[test]
fn canonical_statements_survive_printing_and_parsing() {
    let mut source = TempSource::new(100);
    let stm = Stm::Move(
        temp(20),
        Exp::BinOp(
            BinOp::Mul,
            Box::new(Exp::Call(Box::new(Exp::Name(Label::Num(1))), Box::new(list(vec![temp(21)])))),
            Box::new(Exp::ESeq(Box::new(Stm::Label(Label::Num(2))), Box::new(Exp::Const(7)))),
        ),
    );
    let canonical = linearize(stm, &mut source).unwrap();
    assert!(canonical.len() > 2);
    let text = print_statements(&canonical);
    let again = parse_statements(&text).unwrap();
    assert_eq!(again, canonical);
    assert_eq!(print_statements(&again), text);
}

#[test]
fn blanks_do_not_matter() {
    let text = "(\n  move\n     ( temp 16 )   ( const 5 ))";
    assert_eq!(parse_statements(text), None);
    let text = "\n ( move\n     ( temp 16 )   ( const 5 ) )\n\n ( label num 3 )";
    assert_eq!(
        parse_statements(text),
        Some(vec![Stm::Move(temp(16), Exp::Const(5)), Stm::Label(Label::Num(3))])
    );
}

#[test]
fn what_is_no_statement_is_refused() {
    for text in [
        "( move ( temp 16 ) )",
        "( move ( temp 16 ) ( const 5 )",
        "( temp 16 )",
        "( label num -3 )",
        "( label 3 )",
        "( exp ( const 9223372036854775808 ) )",
        "( exp ( const -9223372036854775809 ) )",
        "( exp ( temp 99999999999999999999999 ) )",
        "( exp ( add ( const 1 ) ) )",
        "( cjump add ( const 1 ) ( const 2 ) num 1 num 2 )",
        "( jump ( const 1 ) num )",
        "( frob )",
        "move",
        ")",
        "( exp ( const 1x ) )",
        "( exp ( const - ) )",
    ] {
        assert_eq!(parse_statements(text), None, "{}", text);
    }
    assert_eq!(parse_statements("( exp ( const -9223372036854775808 ) )"), Some(vec![Stm::Exp(Exp::Const(i64::MIN))]));
    assert_eq!(parse_statements("( exp ( const -0 ) )"), Some(vec![Stm::Exp(Exp::Const(0))]));
    assert_eq!(parse_statements("( exp ( const 007 ) )"), Some(vec![Stm::Exp(Exp::Const(7))]));
}

#[test]
fn words_and_numbers() {
    let chars = |text: &str| text.chars().collect::<Vec<char>>();
    for index in 0..34 {
        let word = keyword_number(index);
        assert_eq!(find_keyword(&chars(keyword_name(word))), Some(word));
        assert_eq!(token_from(&chars(keyword_name(word))), Some(Token::Word(word)));
    }
    assert_eq!(keyword_name(Keyword::CJump), "cjump");
    assert_eq!(keyword_name(Keyword::ArithmeticShiftRight), "sar");
    assert_eq!(find_keyword(&chars("movee")), None);
    assert_eq!(find_keyword(&chars("")), None);
    assert_eq!(parse_number(&chars("18446744073709551615")), Some(Token::Number { negative: false, magnitude: u64::MAX }));
    assert_eq!(parse_number(&chars("18446744073709551616")), None);
    assert_eq!(parse_number(&chars("-12")), Some(Token::Number { negative: true, magnitude: 12 }));
    assert_eq!(parse_number(&chars("-")), None);
    assert_eq!(parse_number(&chars("")), None);
    assert_eq!(parse_number(&chars("1-2")), None);
    assert_eq!(token_from(&chars("(")), Some(Token::Open));
    assert_eq!(token_from(&chars(")")), Some(Token::Close));
    assert_eq!(token_from(&chars("()")), None);
    assert_eq!(lex("( ) add 3"), Some(vec![Token::Open, Token::Close, Token::Word(Keyword::Plus), Token::Number { negative: false, magnitude: 3 }]));
    assert_eq!(lex("( $ )"), None);
}
