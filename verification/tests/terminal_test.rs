use rneovim_core::terminal::{TerminalState, TermCommand};

#[test]
fn test_terminal_ansi_parsing() {
    let mut term = TerminalState::new();
    let input = "\x1B[31mHi\x1B[0m";
    let commands = term.parse(input);

    assert!(commands.iter().any(|c| matches!(c, TermCommand::SetFG(1))));
    assert!(commands.iter().any(|c| matches!(c, TermCommand::PutChar('H'))));
    assert!(commands.iter().any(|c| matches!(c, TermCommand::ResetAttrs)));
}

#[test]
fn test_terminal_clear_screen() {
    let mut term = TerminalState::new();
    let commands = term.parse("\x1B[2J");
    assert!(commands.iter().any(|c| matches!(c, TermCommand::ClearScreen)));
}
