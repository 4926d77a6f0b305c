//! ANSI escape sequences for diagnostics, switched off when standard error
//! is not a terminal.

use std::io::IsTerminal;
use vstd::prelude::*;

verus! {

const BOLD: &'static str = "\x1b[1m";
const BLUE: &'static str = "\x1b[34m";
const END_BOLD: &'static str = "\x1b[22m";
const RED: &'static str = "\x1b[31m";
const RESET_COLOR: &'static str = "\x1b[39;49m";

/// The escape character followed by `[` and the given parameter text.
pub open spec fn escape_sequence(parameters: Seq<char>) -> Seq<char> {
    seq!['\x1b', '['] + parameters
}

/// The sequence that switches to bold.
pub open spec fn bold_sequence() -> Seq<char> {
    escape_sequence(seq!['1', 'm'])
}

/// The sequence that switches to blue.
pub open spec fn blue_sequence() -> Seq<char> {
    escape_sequence(seq!['3', '4', 'm'])
}

/// The sequence that ends bold.
pub open spec fn end_bold_sequence() -> Seq<char> {
    escape_sequence(seq!['2', '2', 'm'])
}

/// The sequence that switches to red.
pub open spec fn red_sequence() -> Seq<char> {
    escape_sequence(seq!['3', '1', 'm'])
}

/// The sequence that puts the colours back.
pub open spec fn reset_color_sequence() -> Seq<char> {
    escape_sequence(seq!['3', '9', ';', '4', '9', 'm'])
}

/// Whether diagnostics are coloured.
pub struct Terminal {
    is_a_tty: bool,
}

/// Asks the standard library's `IsTerminal::is_terminal` about standard
/// error. The answer depends on how the process was started, so nothing is
/// claimed about it.
#[verifier::external_body]
fn stderr_is_a_tty() -> bool {
    std::io::stderr().is_terminal()
}

impl Terminal {
    /// Whether escape sequences are emitted at all.
    pub closed spec fn is_a_tty(&self) -> bool {
        self.is_a_tty
    }

    /// The text of a sequence for this terminal: the sequence itself on a
    /// terminal, nothing otherwise.
    pub open spec fn styled(&self, sequence: Seq<char>) -> Seq<char> {
        if self.is_a_tty() {
            sequence
        } else {
            Seq::empty()
        }
    }

    /// A terminal that colours exactly when standard error is a terminal.
    pub fn new() -> (terminal: Self) {
        Self::with_tty(stderr_is_a_tty())
    }

    /// A terminal whose colouring is decided by the caller.
    pub fn with_tty(is_a_tty: bool) -> (terminal: Self)
        ensures
            terminal.is_a_tty() == is_a_tty,
    {
        Self { is_a_tty }
    }

    /// Switches to bold.
    pub fn bold(&self) -> (code: &str)
        ensures
            code@ == self.styled(bold_sequence()),
    {
        proof {
            reveal_strlit("\x1b[1m");
            reveal_strlit("");
        }
        if self.is_a_tty {
            assert(BOLD@ =~= escape_sequence(seq!['1', 'm']));
            BOLD
        } else {
            assert(""@ =~= Seq::<char>::empty());
            ""
        }
    }

    /// Switches to blue.
    pub fn blue(&self) -> (code: &str)
        ensures
            code@ == self.styled(blue_sequence()),
    {
        proof {
            reveal_strlit("\x1b[34m");
            reveal_strlit("");
        }
        if self.is_a_tty {
            assert(BLUE@ =~= escape_sequence(seq!['3', '4', 'm']));
            BLUE
        } else {
            assert(""@ =~= Seq::<char>::empty());
            ""
        }
    }

    /// Ends bold.
    pub fn end_bold(&self) -> (code: &str)
        ensures
            code@ == self.styled(end_bold_sequence()),
    {
        proof {
            reveal_strlit("\x1b[22m");
            reveal_strlit("");
        }
        if self.is_a_tty {
            assert(END_BOLD@ =~= escape_sequence(seq!['2', '2', 'm']));
            END_BOLD
        } else {
            assert(""@ =~= Seq::<char>::empty());
            ""
        }
    }

    /// Switches to red.
    pub fn red(&self) -> (code: &str)
        ensures
            code@ == self.styled(red_sequence()),
    {
        proof {
            reveal_strlit("\x1b[31m");
            reveal_strlit("");
        }
        if self.is_a_tty {
            assert(RED@ =~= escape_sequence(seq!['3', '1', 'm']));
            RED
        } else {
            assert(""@ =~= Seq::<char>::empty());
            ""
        }
    }

    /// Puts the colours back.
    pub fn reset_color(&self) -> (code: &str)
        ensures
            code@ == self.styled(reset_color_sequence()),
    {
        proof {
            reveal_strlit("\x1b[39;49m");
            reveal_strlit("");
        }
        if self.is_a_tty {
            assert(RESET_COLOR@ =~= escape_sequence(seq!['3', '9', ';', '4', '9', 'm']));
            RESET_COLOR
        } else {
            assert(""@ =~= Seq::<char>::empty());
            ""
        }
    }
}

} // verus!
