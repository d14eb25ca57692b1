use rneovim_core::grid::{Grid, Color};
use rneovim_core::window::{Window, WinConfig, Cursor, TabPage};
use rneovim_core::event_loop::{wait_mode, WaitMode, LoopState, RecvOutcome};
use rneovim_core::extmark::ExtmarkManager;
use rneovim_core::error::NvimError;
use rneovim_core::terminal::{TerminalState, TermCommand};

#[test]
fn grid_wide_characters_take_two_cells() {
    let mut g = Grid::new(4, 1);
    g.put_str(0, 0, "日a", Color::Default, Color::Default, false);
    assert_eq!(g.cells[0].c, '日');
    assert_eq!(g.cells[1].c, ' ');
    assert_eq!(g.cells[2].c, 'a');
    assert_eq!(g.flush(), "\x1b[H日 a ");
    g.put_char(0, 3, 'z', Color::Red, Color::Default, true);
    assert_eq!(g.flush(), "\x1b[H日 a\x1b[0;31;49;1mz");
    g.clear();
    assert_eq!(g.flush(), "\x1b[H    ");
}

#[test]
fn color_codes() {
    assert_eq!(Color::Rgb(1, 20, 255).to_fg_code(), "38;2;1;20;255");
    assert_eq!(Color::Blue.to_bg_code(), "44");
    assert_eq!(Color::from_u32(0x0A0B0C), Color::Rgb(10, 11, 12));
}

#[test]
fn window_scrolling_keeps_cursor_in_view() {
    let mut w = Window::new(5, 1);
    assert_eq!(w.id(), 5);
    assert_eq!(w.buffer(), 1);
    assert!(!w.is_floating());
    w.set_height(10);
    w.set_cursor(30, 4);
    assert_eq!(w.cursor(), Cursor { row: 30, col: 4 });
    assert_eq!(w.topline(), 21);
    w.set_cursor(5, 0);
    assert_eq!(w.topline(), 5);
    w.center_cursor();
    assert_eq!(w.topline(), 1);
    w.set_cursor(50, 2);
    w.center_cursor();
    assert_eq!(w.topline(), 45);
    w.cursor_to_bottom();
    assert_eq!(w.topline(), 41);
    w.cursor_to_top();
    assert_eq!(w.topline(), 50);
    w.scroll(-100, Some(60));
    assert_eq!(w.topline(), 1);
    w.scroll(100, Some(60));
    assert_eq!(w.topline(), 60);
    w.scroll(5, None);
    assert_eq!(w.topline(), 65);
    w.set_curswant(usize::MAX);
    w.set_cursor_vertical(60, Some(8));
    assert_eq!(w.cursor(), Cursor { row: 60, col: 7 });
    w.set_curswant(3);
    w.set_cursor_vertical(60, Some(0));
    assert_eq!(w.cursor().col, 0);
    w.set_cursor_vertical(60, None);
    assert_eq!(w.cursor().col, 3);
    let f = Window::new_floating(6, 1, WinConfig { row: 1, col: 2, width: 30, height: 5, focusable: true, external: false });
    assert!(f.is_floating());
    assert_eq!(f.height(), 5);
    let mut f = f;
    f.set_cursor(2, 3);
    assert_eq!(f.config(), Some(&WinConfig { row: 1, col: 2, width: 30, height: 5, focusable: true, external: false }));
    assert!(f.folds.is_empty());
    assert_eq!(w.config(), None);
    let t = TabPage::new(f);
    assert_eq!(t.windows.len(), 1);
    assert_eq!(t.current_win_idx, 0);
}

#[test]
fn event_loop_decisions() {
    assert_eq!(wait_mode(None), WaitMode::Block);
    assert_eq!(wait_mode(Some(0)), WaitMode::Poll);
    assert_eq!(wait_mode(Some(10)), WaitMode::Timeout);
    let mut s = LoopState::new();
    assert!(s.should_wait());
    assert!(s.after_wait(RecvOutcome::TimedOut));
    assert!(!s.after_wait(RecvOutcome::Received));
    assert!(!s.is_closing());
    assert!(!s.after_wait(RecvOutcome::Disconnected));
    assert!(s.is_closing());
    assert!(!s.should_wait());
    let mut t = LoopState::new();
    t.stop();
    assert!(!t.should_wait());
}

#[test]
fn extmarks_by_namespace_and_range() {
    let mut m = ExtmarkManager::new();
    let a = m.set_extmark(1, None, 3, 4, None, None, None, vec![("x".to_string(), "Hl".to_string())], "eol".to_string(), 0);
    let b = m.set_extmark(1, None, 1, 0, Some(2), Some(1), Some("Search".to_string()), Vec::new(), "overlay".to_string(), 5);
    let c = m.set_extmark(2, Some(40), 2, 2, None, None, None, Vec::new(), "eol".to_string(), 0);
    assert_eq!((a, b, c), (1, 2, 40));
    assert_eq!(m.ns_count(), 2);
    assert_eq!(m.total_mark_count(), 3);
    let all = m.get_extmarks_in_range(-1, 1, 0, 3, 10);
    let ids: Vec<i32> = all.iter().map(|e| e.id).collect();
    assert_eq!(ids, vec![2, 40, 1]);
    let ns1 = m.get_extmarks_in_range(1, 1, 1, 3, 3);
    assert!(ns1.is_empty());
    m.on_change(2, 0, 1, 0);
    assert_eq!(m.get_extmark(2, 40).unwrap().row, 3);
    assert_eq!(m.get_extmark(1, 1).unwrap().row, 4);
    assert_eq!(m.get_extmark(1, 2).unwrap().end_row, Some(3));
    m.clear_namespace(1);
    assert_eq!(m.total_mark_count(), 1);
    assert!(m.get_extmark(1, 1).is_none());
    m.clear_namespace(-1);
    assert_eq!(m.ns_count(), 0);
}

#[test]
fn error_messages() {
    assert_eq!(NvimError::ReadOnly.message(), "Error: Buffer is readonly");
    assert_eq!(NvimError::Api("bad".to_string()).message(), "API error: bad");
    let io = std::io::Error::new(std::io::ErrorKind::NotFound, "gone");
    let e: NvimError = io.into();
    assert!(matches!(e, NvimError::Io(_)));
    assert_eq!(e.message(), "I/O error: gone");
}

#[test]
fn terminal_commands_in_order() {
    let mut term = TerminalState::new();
    let cmds = term.parse("a\x1B[1;2Hb\x1B[42m\x1B[35m\x1B[m");
    assert_eq!(cmds, vec![TermCommand::PutChar('a'), TermCommand::PutChar('b'), TermCommand::SetFG(5), TermCommand::ResetAttrs]);
}
