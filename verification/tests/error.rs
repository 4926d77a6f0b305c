use tiger::diagnostic::Position;
use tiger::error::{message, CompilationError, ErrorKind, SemanticError};
use tiger::symbol::Strings;
use tiger::terminal::Terminal;

fn names() -> Strings {
    let mut names = Strings::new();
    names.symbol("x");
    names.symbol("int");
    names.symbol("string");
    names
}

#[test]
fn messages_of_the_analyser() {
    let names = names();
    let text = |error: SemanticError| message(ErrorKind::Semantic(error), &names);
    assert_eq!(text(SemanticError::UndefinedIdentifier(0)), "undefined identifier `x`");
    assert_eq!(text(SemanticError::UndefinedType(1)), "undefined type `int`");
    assert_eq!(text(SemanticError::UndefinedField(0)), "undefined field `x`");
    assert_eq!(
        text(SemanticError::TypeMismatch { expected: 1, actual: 2 }),
        "type mismatch: expected `int`, found `string`"
    );
    assert_eq!(
        text(SemanticError::ArityMismatch { expected: 2, actual: 10 }),
        "wrong number of arguments: expected 2, found 10"
    );
    assert_eq!(text(SemanticError::DuplicateDeclaration(0)), "`x` is declared twice in this scope");
    assert_eq!(text(SemanticError::BreakOutsideLoop), "break outside of a loop");
    assert_eq!(
        text(SemanticError::RecursiveType(0)),
        "type `x` is recursive without a record or an array"
    );
    assert_eq!(text(SemanticError::SelfOutsideClass), "`self` outside of a class");
    assert_eq!(text(SemanticError::NotAClass(0)), "`x` is not a class");
    assert_eq!(text(SemanticError::UndefinedIdentifier(9)), "undefined identifier ``");
}

#[test]
fn messages_of_lexer_and_parser() {
    let names = names();
    assert_eq!(message(ErrorKind::Lexical('?'), &names), "unexpected character `?`");
    assert_eq!(
        message(ErrorKind::Syntactic { found: 0, expected: 1 }, &names),
        "unexpected `x`, expected `int`"
    );
}

#[test]
fn an_error_is_shown_at_its_place() {
    let names = names();
    let error = CompilationError {
        position: Position { line: 2, column: 5 },
        kind: ErrorKind::Semantic(SemanticError::BreakOutsideLoop),
    };
    assert_eq!(
        error.show(&Terminal::with_tty(false), "a.tig", "    break", &names),
        "error: break outside of a loop\n--> a.tig:2:5\n    break\n    ^\n"
    );
}
