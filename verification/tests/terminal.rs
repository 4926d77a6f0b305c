use tiger::diagnostic::{show, Position};
use tiger::terminal::Terminal;

#[test]
fn escape_sequences_on_a_terminal() {
    let terminal = Terminal::with_tty(true);
    assert_eq!(terminal.bold(), "\x1b[1m");
    assert_eq!(terminal.blue(), "\x1b[34m");
    assert_eq!(terminal.end_bold(), "\x1b[22m");
    assert_eq!(terminal.red(), "\x1b[31m");
    assert_eq!(terminal.reset_color(), "\x1b[39;49m");
}

#[test]
fn no_escape_sequences_without_a_terminal() {
    let terminal = Terminal::with_tty(false);
    assert_eq!(terminal.bold(), "");
    assert_eq!(terminal.blue(), "");
    assert_eq!(terminal.end_bold(), "");
    assert_eq!(terminal.red(), "");
    assert_eq!(terminal.reset_color(), "");
}

#[test]
fn new_terminal_is_one_of_the_two() {
    let terminal = Terminal::new();
    let bold = terminal.bold();
    assert!(bold == "\x1b[1m" || bold == "");
    assert_eq!(bold.is_empty(), terminal.red().is_empty());
}

#[test]
fn diagnostic_without_colours() {
    let terminal = Terminal::with_tty(false);
    let text = show(
        &terminal,
        "tests/hello.tig",
        Position { line: 3, column: 9 },
        "    x + nil",
        "type mismatch",
    );
    assert_eq!(text, "error: type mismatch\n--> tests/hello.tig:3:9\n    x + nil\n        ^\n");
}

#[test]
fn diagnostic_with_colours() {
    let terminal = Terminal::with_tty(true);
    let text = show(&terminal, "a.tig", Position { line: 1, column: 1 }, "?", "unexpected character");
    assert_eq!(
        text,
        "\x1b[1m\x1b[31merror: \x1b[39;49munexpected character\x1b[22m\n\x1b[34m--> \x1b[39;49ma.tig:1:1\n?\n\x1b[31m^\x1b[39;49m\n"
    );
    let text = show(&terminal, "a.tig", Position { line: 1, column: 0 }, "", "end of file");
    assert!(text.ends_with("\n\n\x1b[31m^\x1b[39;49m\n"));
}
