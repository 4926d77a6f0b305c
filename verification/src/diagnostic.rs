//! How an error in a source file is shown: the message, the place, the
//! offending line and a caret under the column.

use crate::emit::repeated;
use crate::terminal::{
    blue_sequence,
    bold_sequence,
    end_bold_sequence,
    red_sequence,
    reset_color_sequence,
    Terminal,
};
use crate::text::{decimal, push_decimal};
use vstd::prelude::*;

verus! {

/// A place in a source file. Lines and columns count from one.
#[derive(Clone, Copy, Debug, PartialEq, Eq, Structural)]
pub struct Position {
    pub line: usize,
    pub column: usize,
}

/// The number of blanks in front of the caret: one for each column in
/// front of the place.
pub open spec fn caret_indent(position: Position) -> nat {
    if position.column >= 1 {
        (position.column - 1) as nat
    } else {
        0
    }
}

/// The first line of a diagnostic: `error:` in bold red, then the message
/// in bold.
pub open spec fn headline(terminal: Terminal, message: Seq<char>) -> Seq<char> {
    terminal.styled(bold_sequence()) + terminal.styled(red_sequence()) + "error: "@
        + terminal.styled(reset_color_sequence()) + message + terminal.styled(
        end_bold_sequence(),
    ) + "\n"@
}

/// The second line of a diagnostic: an arrow in blue, then file, line and
/// column.
pub open spec fn place_line(terminal: Terminal, file: Seq<char>, position: Position) -> Seq<char> {
    terminal.styled(blue_sequence()) + "--> "@ + terminal.styled(reset_color_sequence()) + file
        + ":"@ + decimal(position.line as nat) + ":"@ + decimal(position.column as nat) + "\n"@
}

/// The offending line, and under it a caret in red below the column.
pub open spec fn underlined(terminal: Terminal, position: Position, line: Seq<char>) -> Seq<char> {
    line + "\n"@ + repeated(" "@, caret_indent(position)) + terminal.styled(red_sequence())
        + "^"@ + terminal.styled(reset_color_sequence()) + "\n"@
}

/// The text of a diagnostic.
pub open spec fn diagnostic_text(
    terminal: Terminal,
    file: Seq<char>,
    position: Position,
    line: Seq<char>,
    message: Seq<char>,
) -> Seq<char> {
    headline(terminal, message) + place_line(terminal, file, position) + underlined(
        terminal,
        position,
        line,
    )
}

/// Writes a diagnostic for an error at a place of a source file; `line` is
/// the text of the offending line.
pub fn show(terminal: &Terminal, file: &str, position: Position, line: &str, message: &str) -> (text:
    String)
    ensures
        text@ == diagnostic_text(*terminal, file@, position, line@, message@),
{
    let mut text = String::new();
    text.append(terminal.bold());
    text.append(terminal.red());
    text.append("error: ");
    text.append(terminal.reset_color());
    text.append(message);
    text.append(terminal.end_bold());
    text.append("\n");
    assert(text@ =~= headline(*terminal, message@));
    let ghost first = text@;
    text.append(terminal.blue());
    text.append("--> ");
    text.append(terminal.reset_color());
    text.append(file);
    text.append(":");
    push_decimal(&mut text, position.line as u64);
    text.append(":");
    push_decimal(&mut text, position.column as u64);
    text.append("\n");
    assert(text@ =~= first + place_line(*terminal, file@, position));
    let ghost second = text@;
    text.append(line);
    text.append("\n");
    let indent = if position.column >= 1 {
        position.column - 1
    } else {
        0
    };
    let ghost third = text@;
    let mut done: usize = 0;
    assert(text@ =~= third + repeated(" "@, 0));
    while done < indent
        invariant
            done <= indent,
            text@ == third + repeated(" "@, done as nat),
        decreases indent - done,
    {
        text.append(" ");
        done += 1;
        assert(text@ =~= third + repeated(" "@, done as nat));
    }
    text.append(terminal.red());
    text.append("^");
    text.append(terminal.reset_color());
    text.append("\n");
    assert(text@ =~= second + underlined(*terminal, position, line@));
    text
}

} // verus!
