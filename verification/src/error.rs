//! What can be wrong with a program, and how it is said.

use crate::diagnostic::{diagnostic_text, show, Position};
use crate::symbol::{Strings, Symbol};
use crate::terminal::Terminal;
use crate::text::{decimal, push_decimal};
use vstd::prelude::*;

verus! {

/// What the analyser found wrong.
#[allow(inconsistent_fields)]
#[derive(Clone, Copy, Debug, PartialEq, Eq, Structural)]
pub enum SemanticError {
    UndefinedIdentifier(Symbol),
    UndefinedType(Symbol),
    UndefinedField(Symbol),
    /// A value of the second type stands where the first is asked for.
    TypeMismatch { expected: Symbol, actual: Symbol },
    ArityMismatch { expected: usize, actual: usize },
    /// The name is declared twice in one scope.
    DuplicateDeclaration(Symbol),
    BreakOutsideLoop,
    /// The type is declared through names alone, none of which is a record
    /// or an array.
    RecursiveType(Symbol),
    /// `self` stands outside a class.
    SelfOutsideClass,
    /// A method is called on something that is no object.
    NotAClass(Symbol),
}

/// The kinds of errors.
#[allow(inconsistent_fields)]
#[derive(Clone, Copy, Debug, PartialEq, Eq, Structural)]
pub enum ErrorKind {
    /// A character that starts no token.
    Lexical(char),
    /// A token where the grammar asks for another; the symbols are the
    /// texts of what was found and what was expected.
    Syntactic { found: Symbol, expected: Symbol },
    Semantic(SemanticError),
}

/// An error at a place of the source.
#[derive(Clone, Copy, Debug, PartialEq, Eq, Structural)]
pub struct CompilationError {
    pub position: Position,
    pub kind: ErrorKind,
}

/// The text of a name, or nothing for a symbol that is not in the table.
pub open spec fn name_text(symbol: Symbol, names: Seq<Seq<char>>) -> Seq<char> {
    if symbol < names.len() {
        names[symbol as int]
    } else {
        Seq::empty()
    }
}

/// What is said of an error of the analyser.
pub open spec fn semantic_text(error: SemanticError, names: Seq<Seq<char>>) -> Seq<char> {
    match error {
        SemanticError::UndefinedIdentifier(name) => "undefined identifier `"@ + name_text(
            name,
            names,
        ) + "`"@,
        SemanticError::UndefinedType(name) => "undefined type `"@ + name_text(name, names) + "`"@,
        SemanticError::UndefinedField(name) => "undefined field `"@ + name_text(name, names)
            + "`"@,
        SemanticError::TypeMismatch { expected, actual } => "type mismatch: expected `"@
            + name_text(expected, names) + "`, found `"@ + name_text(actual, names) + "`"@,
        SemanticError::ArityMismatch { expected, actual } => "wrong number of arguments: expected "@
            + decimal(expected as nat) + ", found "@ + decimal(actual as nat),
        SemanticError::DuplicateDeclaration(name) => "`"@ + name_text(name, names)
            + "` is declared twice in this scope"@,
        SemanticError::BreakOutsideLoop => "break outside of a loop"@,
        SemanticError::RecursiveType(name) => "type `"@ + name_text(name, names)
            + "` is recursive without a record or an array"@,
        SemanticError::SelfOutsideClass => "`self` outside of a class"@,
        SemanticError::NotAClass(name) => "`"@ + name_text(name, names) + "` is not a class"@,
    }
}

/// What is said of an error.
pub open spec fn message_text(kind: ErrorKind, names: Seq<Seq<char>>) -> Seq<char> {
    match kind {
        ErrorKind::Lexical(found) => "unexpected character `"@ + seq![found] + "`"@,
        ErrorKind::Syntactic { found, expected } => "unexpected `"@ + name_text(found, names)
            + "`, expected `"@ + name_text(expected, names) + "`"@,
        ErrorKind::Semantic(error) => semantic_text(error, names),
    }
}

fn push_name(text: &mut String, symbol: Symbol, names: &Strings)
    ensures
        final(text)@ == old(text)@ + name_text(symbol, names@),
{
    match names.name(symbol) {
        Some(name) => {
            text.append(name);
        },
        None => {
            assert(text@ + Seq::<char>::empty() =~= text@);
        },
    }
}

fn quoted(before: &str, symbol: Symbol, after: &str, names: &Strings) -> (text: String)
    ensures
        text@ == before@ + name_text(symbol, names@) + after@,
{
    let mut text = String::new();
    text.append(before);
    push_name(&mut text, symbol, names);
    text.append(after);
    assert(text@ =~= before@ + name_text(symbol, names@) + after@);
    text
}

/// Says what is wrong.
pub fn message(kind: ErrorKind, names: &Strings) -> (text: String)
    ensures
        text@ == message_text(kind, names@),
{
    match kind {
        ErrorKind::Lexical(found) => {
            let mut text = String::new();
            text.append("unexpected character `");
            text.push(found);
            text.append("`");
            assert(text@ =~= "unexpected character `"@ + seq![found] + "`"@);
            text
        },
        ErrorKind::Syntactic { found, expected } => {
            let mut text = quoted("unexpected `", found, "`, expected `", names);
            push_name(&mut text, expected, names);
            text.append("`");
            assert(text@ =~= message_text(kind, names@));
            text
        },
        ErrorKind::Semantic(error) => match error {
            SemanticError::UndefinedIdentifier(name) => quoted(
                "undefined identifier `",
                name,
                "`",
                names,
            ),
            SemanticError::UndefinedType(name) => quoted("undefined type `", name, "`", names),
            SemanticError::UndefinedField(name) => quoted("undefined field `", name, "`", names),
            SemanticError::TypeMismatch { expected, actual } => {
                let mut text = quoted("type mismatch: expected `", expected, "`, found `", names);
                push_name(&mut text, actual, names);
                text.append("`");
                assert(text@ =~= semantic_text(error, names@));
                text
            },
            SemanticError::ArityMismatch { expected, actual } => {
                let mut text = String::new();
                text.append("wrong number of arguments: expected ");
                push_decimal(&mut text, expected as u64);
                text.append(", found ");
                push_decimal(&mut text, actual as u64);
                assert(text@ =~= semantic_text(error, names@));
                text
            },
            SemanticError::DuplicateDeclaration(name) => quoted(
                "`",
                name,
                "` is declared twice in this scope",
                names,
            ),
            SemanticError::BreakOutsideLoop => {
                let mut text = String::new();
                text.append("break outside of a loop");
                assert(text@ =~= semantic_text(error, names@));
                text
            },
            SemanticError::RecursiveType(name) => quoted(
                "type `",
                name,
                "` is recursive without a record or an array",
                names,
            ),
            SemanticError::SelfOutsideClass => {
                let mut text = String::new();
                text.append("`self` outside of a class");
                assert(text@ =~= semantic_text(error, names@));
                text
            },
            SemanticError::NotAClass(name) => quoted("`", name, "` is not a class", names),
        },
    }
}

impl CompilationError {
    /// Writes the diagnostic for the error; `line` is the text of the line
    /// of the source that the error is in.
    pub fn show(&self, terminal: &Terminal, file: &str, line: &str, names: &Strings) -> (text:
        String)
        ensures
            text@ == diagnostic_text(
                *terminal,
                file@,
                self.position,
                line@,
                message_text(self.kind, names@),
            ),
    {
        let message = message(self.kind, names);
        show(terminal, file, self.position, line, message.as_str())
    }
}

} // verus!
