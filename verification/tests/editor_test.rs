use rneovim_core::buffer::Buffer;
use rneovim_core::csi::decode_csi;
use rneovim_core::editor::EditorState;
use rneovim_core::extmark::ExtmarkManager;
use rneovim_core::lsp_reply::lsp_reply_from_bytes;
use rneovim_core::request::{Motion, MouseAction, MouseButton, Operator, Request};
use rneovim_core::spell::SpellChecker;
use rneovim_core::state::{Mode, VisualMode};
use rneovim_core::undo::{Action, UndoTree};
use rneovim_core::window::WinConfig;

#[test]
fn csi_arrow_keys() {
    assert_eq!(decode_csi("A"), Some(Request::OpMotion { op: Operator::Move, motion: Motion::Up, count: 1 }));
    assert_eq!(decode_csi("B"), Some(Request::OpMotion { op: Operator::Move, motion: Motion::Down, count: 1 }));
    assert_eq!(decode_csi("C"), Some(Request::OpMotion { op: Operator::Move, motion: Motion::Right, count: 1 }));
    assert_eq!(decode_csi("D"), Some(Request::OpMotion { op: Operator::Move, motion: Motion::Left, count: 1 }));
    assert_eq!(decode_csi("Z"), None);
    assert_eq!(decode_csi("AB"), None);
    assert_eq!(decode_csi(""), None);
}

#[test]
fn csi_sgr_mouse_reports() {
    assert_eq!(
        decode_csi("<0;10;5M"),
        Some(Request::MouseEvent { button: MouseButton::Left, action: MouseAction::Press, row: 5, col: 10 })
    );
    assert_eq!(
        decode_csi("<0;10;5m"),
        Some(Request::MouseEvent { button: MouseButton::Left, action: MouseAction::Release, row: 5, col: 10 })
    );
    assert_eq!(
        decode_csi("<32;3;4M"),
        Some(Request::MouseEvent { button: MouseButton::Left, action: MouseAction::Drag, row: 4, col: 3 })
    );
    assert_eq!(
        decode_csi("<64;1;1M"),
        Some(Request::MouseEvent { button: MouseButton::WheelUp, action: MouseAction::Press, row: 1, col: 1 })
    );
    assert_eq!(
        decode_csi("<65;1;1M"),
        Some(Request::MouseEvent { button: MouseButton::WheelDown, action: MouseAction::Press, row: 1, col: 1 })
    );
    assert_eq!(
        decode_csi("<2;7;+8M"),
        Some(Request::MouseEvent { button: MouseButton::Right, action: MouseAction::Press, row: 8, col: 7 })
    );
    assert_eq!(
        decode_csi("<x;y;zM"),
        Some(Request::MouseEvent { button: MouseButton::Left, action: MouseAction::Press, row: 0, col: 0 })
    );
    assert_eq!(
        decode_csi("<3;1;1M"),
        Some(Request::MouseEvent { button: MouseButton::NoButton, action: MouseAction::Press, row: 1, col: 1 })
    );
    assert_eq!(decode_csi("<0;1M"), None);
    assert_eq!(decode_csi("<0;1;2;3M"), None);
}

fn editor_with_lines(n: usize) -> EditorState {
    let mut b = Buffer::new(1);
    for i in 0..n {
        b.append_line(&format!("line {}", i + 1)).unwrap();
    }
    EditorState::new(b, 80, 24)
}

#[test]
fn split_and_cycle_windows() {
    let mut e = editor_with_lines(3);
    assert_eq!(e.window_position(), (1, 0));
    e.handle_window_request(Request::SplitWindow { vertical: false }).unwrap();
    assert_eq!(e.window_position(), (2, 1));
    assert_eq!(e.current_window().id(), 2);
    assert_eq!(e.current_window().buffer(), 1);
    e.handle_window_request(Request::NextWindow).unwrap();
    assert_eq!(e.window_position(), (2, 0));
    e.handle_window_request(Request::PrevWindow).unwrap();
    assert_eq!(e.window_position(), (2, 1));
    e.handle_window_request(Request::PrevWindow).unwrap();
    assert_eq!(e.window_position(), (2, 0));
    e.handle_window_request(Request::PrevWindow).unwrap();
    assert_eq!(e.window_position(), (2, 1));
}

#[test]
fn floating_window_opens_on_loaded_buffer_only() {
    let mut e = editor_with_lines(1);
    e.add_buffer(Buffer::new(7));
    e.handle_window_request(Request::OpenFloatWin { buf_id: 9, row: 1, col: 2, width: 30, height: 5 }).unwrap();
    assert_eq!(e.window_position(), (1, 0));
    e.handle_window_request(Request::OpenFloatWin { buf_id: 7, row: 1, col: 2, width: 30, height: 5 }).unwrap();
    assert_eq!(e.window_position(), (2, 1));
    let w = e.current_window();
    assert_eq!(w.buffer(), 7);
    assert!(w.is_floating());
    assert_eq!(w.height(), 5);
    assert_eq!(
        w.config(),
        Some(&WinConfig { row: 1, col: 2, width: 30, height: 5, focusable: true, external: false })
    );
}

#[test]
fn resize_sizes_grid_and_windows() {
    let mut e = editor_with_lines(1);
    e.handle_window_request(Request::SplitWindow { vertical: true }).unwrap();
    e.handle_window_request(Request::Resize { width: 100, height: 40 }).unwrap();
    assert_eq!(e.current_window().height(), 38);
    e.handle_window_request(Request::NextWindow).unwrap();
    assert_eq!(e.current_window().height(), 38);
    e.handle_window_request(Request::Resize { width: 10, height: 1 }).unwrap();
    assert_eq!(e.current_window().height(), 0);
}

#[test]
fn scroll_and_mouse() {
    let mut e = editor_with_lines(50);
    e.handle_window_request(Request::Scroll { lines: 10 }).unwrap();
    assert_eq!(e.current_window().topline(), 11);
    e.handle_window_request(Request::Scroll { lines: 100 }).unwrap();
    assert_eq!(e.current_window().topline(), 50);
    e.handle_window_request(Request::Scroll { lines: -100 }).unwrap();
    assert_eq!(e.current_window().topline(), 1);
    e.handle_window_request(Request::MouseEvent { button: MouseButton::WheelDown, action: MouseAction::Press, row: 1, col: 1 }).unwrap();
    assert_eq!(e.current_window().topline(), 4);
    e.handle_window_request(Request::MouseEvent { button: MouseButton::WheelUp, action: MouseAction::Press, row: 1, col: 1 }).unwrap();
    assert_eq!(e.current_window().topline(), 1);
    e.handle_window_request(Request::MouseEvent { button: MouseButton::Left, action: MouseAction::Press, row: 3, col: 7 }).unwrap();
    let c = e.current_window().cursor();
    assert_eq!((c.row, c.col), (3, 5));
    e.number = true;
    e.handle_window_request(Request::MouseEvent { button: MouseButton::Left, action: MouseAction::Drag, row: 2, col: 3 }).unwrap();
    let c = e.current_window().cursor();
    assert_eq!((c.row, c.col), (2, 0));
    e.handle_window_request(Request::MouseEvent { button: MouseButton::Left, action: MouseAction::Release, row: 9, col: 9 }).unwrap();
    let c = e.current_window().cursor();
    assert_eq!((c.row, c.col), (2, 0));
}

#[test]
fn completion_menu_selection_goes_round() {
    let mut e = editor_with_lines(1);
    e.show_pum(Vec::new());
    assert_eq!(e.pum(), (None, None));
    e.show_pum(vec!["a".to_string(), "b".to_string(), "c".to_string()]);
    assert_eq!(e.pum().1, Some(0));
    e.handle_window_request(Request::SelectPumPrev).unwrap();
    assert_eq!(e.pum().1, Some(2));
    e.handle_window_request(Request::SelectPumNext).unwrap();
    assert_eq!(e.pum().1, Some(0));
    e.handle_window_request(Request::SelectPumNext).unwrap();
    assert_eq!(e.pum().1, Some(1));
    e.handle_window_request(Request::HidePum).unwrap();
    assert_eq!(e.pum(), (None, None));
    e.handle_window_request(Request::SelectPumNext).unwrap();
    assert_eq!(e.pum(), (None, None));
}

#[test]
fn lsp_replies() {
    let r = lsp_reply_from_bytes(br#"{"jsonrpc":"2.0","id":1,"result":{"capabilities":{}}}"#).unwrap();
    assert!(r.1.send_initialized);
    assert!(r.1.definition.is_none());
    let r = lsp_reply_from_bytes(br#"{"id":1}"#).unwrap();
    assert!(!r.1.send_initialized);
    let r = lsp_reply_from_bytes(
        br#"{"id":100,"result":[{"uri":"file:///src/a.rs","range":{"start":{"line":4,"character":2},"end":{"line":4,"character":5}}}]}"#,
    )
    .unwrap();
    assert!(!r.1.send_initialized);
    assert_eq!(r.1.definition, Some(("/src/a.rs".to_string(), 5, 2)));
    let r = lsp_reply_from_bytes(br#"{"id":100,"result":{"uri":"untitled:x","range":{}}}"#).unwrap();
    assert_eq!(r.1.definition, Some(("untitled:x".to_string(), 1, 0)));
    let r = lsp_reply_from_bytes(br#"{"id":100,"result":[]}"#).unwrap();
    assert_eq!(r.1.definition, None);
    let r = lsp_reply_from_bytes(br#"{"id":100,"result":{"uri":3,"range":{}}}"#).unwrap();
    assert_eq!(r.1.definition, None);
    assert!(lsp_reply_from_bytes(b"not json").is_none());
}

#[test]
fn extmark_ids_count_up_from_one() {
    let mut m = ExtmarkManager::new();
    let a = m.set_extmark(3, None, 1, 0, None, None, None, Vec::new(), "eol".to_string(), 0);
    let b = m.set_extmark(3, Some(7), 1, 0, None, None, None, Vec::new(), "eol".to_string(), 0);
    let c = m.set_extmark(4, None, 1, 0, None, None, None, Vec::new(), "eol".to_string(), 0);
    let d = m.set_extmark(3, None, 2, 0, None, None, None, Vec::new(), "eol".to_string(), 0);
    assert_eq!((a, b, c, d), (1, 7, 2, 3));
}

#[test]
fn clear_namespace_updates_counts() {
    let mut m = ExtmarkManager::new();
    m.set_extmark(1, None, 1, 0, None, None, None, Vec::new(), "eol".to_string(), 0);
    m.set_extmark(1, None, 2, 0, None, None, None, Vec::new(), "eol".to_string(), 0);
    m.set_extmark(2, None, 3, 0, None, None, None, Vec::new(), "eol".to_string(), 0);
    assert_eq!((m.ns_count(), m.total_mark_count()), (2, 3));
    m.clear_namespace(5);
    assert_eq!((m.ns_count(), m.total_mark_count()), (2, 3));
    m.clear_namespace(1);
    assert_eq!((m.ns_count(), m.total_mark_count()), (1, 1));
    m.clear_namespace(-1);
    assert_eq!((m.ns_count(), m.total_mark_count()), (0, 0));
}

#[test]
fn column_shift_moves_marks_on_the_line() {
    let mut m = ExtmarkManager::new();
    let a = m.set_extmark(1, None, 4, 6, None, None, None, Vec::new(), "eol".to_string(), 0);
    let b = m.set_extmark(1, None, 4, 2, Some(4), Some(8), None, Vec::new(), "eol".to_string(), 0);
    let c = m.set_extmark(2, None, 5, 6, None, None, None, Vec::new(), "eol".to_string(), 0);
    for i in 0..7 {
        m.on_change(4, i, 0, 1);
    }
    assert_eq!(m.get_extmark(1, a).map(|x| (x.row, x.col)), Some((4, 13)));
    let mb = m.get_extmark(1, b).unwrap();
    assert_eq!((mb.row, mb.col, mb.end_row, mb.end_col), (4, 9, Some(4), Some(15)));
    assert_eq!(m.get_extmark(2, c).map(|x| (x.row, x.col)), Some((5, 6)));
    assert_eq!((m.ns_count(), m.total_mark_count()), (2, 3));
}

#[test]
fn dictionary_of_added_words() {
    let mut s = SpellChecker::new();
    s.add_word("Hello");
    s.add_word("world");
    assert!(!s.is_misspelled("hello"));
    assert!(!s.is_misspelled("WORLD"));
    assert!(s.is_misspelled("word"));
    assert!(!s.is_misspelled("123"));
    assert!(!s.is_misspelled(""));
}

#[test]
fn push_then_undo_then_redo() {
    let mut t = UndoTree::new();
    t.push(Action::InsertLine { lnum: 1, col: 0, text: "x".to_string() });
    let start = t.current_idx;
    let n = t.nodes.len();
    t.push(Action::DeleteLine { lnum: 2, col: 0, text: "y".to_string() });
    let u = t.pop_undo().unwrap();
    assert!(matches!(u, Action::DeleteLine { lnum: 2, .. }));
    assert_eq!(t.current_idx, start);
    assert_eq!(t.nodes.len(), n + 1);
    let r = t.pop_redo().unwrap();
    assert!(matches!(r, Action::DeleteLine { lnum: 2, .. }));
    assert_eq!(t.current_idx, n);
}

#[test]
fn closed_group_is_one_step() {
    let mut t = UndoTree::new();
    t.start_group();
    t.push(Action::InsertLine { lnum: 1, col: 0, text: "a".to_string() });
    t.end_group();
    let u = t.pop_undo().unwrap();
    assert!(matches!(u, Action::InsertLine { lnum: 1, .. }));
    assert_eq!(t.current_idx, 0);
}

#[test]
fn apply_request_undo_redo_and_modes() {
    let mut e = editor_with_lines(3);
    assert_eq!(e.current_buffer().unwrap().line_count(), 3);
    e.apply_request(Request::Undo).unwrap();
    assert_eq!(e.current_buffer().unwrap().line_count(), 2);
    e.apply_request(Request::Redo).unwrap();
    assert_eq!(e.current_buffer().unwrap().line_count(), 3);
    assert_eq!(e.current_buffer().unwrap().get_line(3), Some("line 3"));
    e.apply_request(Request::SetMode(Mode::Insert)).unwrap();
    assert_eq!(e.mode, Mode::Insert);
    e.apply_request(Request::SetMode(Mode::Normal)).unwrap();
    assert_eq!(e.mode, Mode::Normal);
    e.tabstop = 2;
    e.apply_request(Request::CursorMove { row: 1, col: 0 }).unwrap();
    e.apply_request(Request::Indent { forward: true }).unwrap();
    assert_eq!(e.current_buffer().unwrap().get_line(1), Some("  line 1"));
    e.apply_request(Request::Indent { forward: false }).unwrap();
    assert_eq!(e.current_buffer().unwrap().get_line(1), Some("line 1"));
}

#[test]
fn apply_request_cursor_moves() {
    let mut e = editor_with_lines(3);
    e.apply_request(Request::CursorMove { row: 1, col: 4 }).unwrap();
    let c = e.current_window().cursor();
    assert_eq!((c.row, c.col), (1, 4));
    e.apply_request(Request::CursorMove { row: 2, col: 4 }).unwrap();
    let c = e.current_window().cursor();
    assert_eq!((c.row, c.col), (2, 4));
    e.apply_request(Request::CursorMove { row: 2, col: 40 }).unwrap();
    e.apply_request(Request::CursorMove { row: 3, col: 40 }).unwrap();
    let c = e.current_window().cursor();
    assert_eq!((c.row, c.col), (3, 5));
    e.apply_request(Request::CursorMove { row: 9, col: 5 }).unwrap();
    let c = e.current_window().cursor();
    assert_eq!((c.row, c.col), (9, 0));
    e.apply_request(Request::NextWindow).unwrap();
    assert_eq!(e.window_position(), (1, 0));
}

#[test]
fn apply_request_typing_and_new_lines() {
    let mut b = Buffer::new(1);
    b.append_line("  ab").unwrap();
    let mut e = EditorState::new(b, 80, 24);
    e.abbreviations.insert("ab", "about");
    e.apply_request(Request::CursorMove { row: 1, col: 4 }).unwrap();
    e.apply_request(Request::InsertChar(' ')).unwrap();
    assert_eq!(e.current_buffer().unwrap().get_line(1), Some("  about "));
    let c = e.current_window().cursor();
    assert_eq!((c.row, c.col), (1, 8));
    e.apply_request(Request::InsertChar('x')).unwrap();
    assert_eq!(e.current_buffer().unwrap().get_line(1), Some("  about x"));
    e.apply_request(Request::CursorMove { row: 1, col: 5 }).unwrap();
    e.apply_request(Request::NewLine).unwrap();
    assert_eq!(e.current_buffer().unwrap().get_line(1), Some("  abo"));
    assert_eq!(e.current_buffer().unwrap().get_line(2), Some("  ut x"));
    let c = e.current_window().cursor();
    assert_eq!((c.row, c.col), (2, 2));
}

#[test]
fn apply_request_increment_number() {
    let mut b = Buffer::new(1);
    b.append_line("x = 41;").unwrap();
    let mut e = EditorState::new(b, 80, 24);
    e.apply_request(Request::IncrementNumber { offset: 1 }).unwrap();
    assert_eq!(e.current_buffer().unwrap().get_line(1), Some("x = 42;"));
    let c = e.current_window().cursor();
    assert_eq!((c.row, c.col), (1, 5));
    e.apply_request(Request::CursorMove { row: 1, col: 0 }).unwrap();
    e.apply_request(Request::IncrementNumber { offset: -50 }).unwrap();
    assert_eq!(e.current_buffer().unwrap().get_line(1), Some("x = -8;"));
}

#[test]
fn unicode_white_space_is_trimmed() {
    use_trim();
}

fn use_trim() {
    assert_eq!(rneovim_core::excmd::trim_str("\u{3000}\u{85} a\u{2009}b\u{a0}\t"), "a\u{2009}b");
    assert_eq!(rneovim_core::excmd::trim_str("\u{200b}x\u{200b}"), "\u{200b}x\u{200b}");
    assert_eq!(rneovim_core::excmd::trim_str("\u{1680}\u{202f}\u{205f}y\u{2028}\u{2029}"), "y");
}

fn cmdline_text(e: &EditorState) -> (String, usize) {
    let (v, c) = e.cmdline();
    (v.iter().collect(), c)
}

fn type_cmd(e: &mut EditorState, s: &str) {
    for c in s.chars() {
        e.apply_request(Request::CmdLineChar(c)).unwrap();
    }
}

#[test]
fn command_line_editing() {
    let mut e = editor_with_lines(1);
    assert!(e.apply_request(Request::CmdLineChar('x')).is_err());
    assert_eq!(cmdline_text(&e), (String::new(), 0));
    e.apply_request(Request::SetMode(Mode::CommandLine)).unwrap();
    type_cmd(&mut e, "set nu");
    assert_eq!(cmdline_text(&e), ("set nu".to_string(), 6));
    e.apply_request(Request::CmdLineMoveCursorTo { pos: 3 }).unwrap();
    e.apply_request(Request::CmdLineChar('!')).unwrap();
    assert_eq!(cmdline_text(&e), ("set! nu".to_string(), 4));
    e.apply_request(Request::CmdLineBackspace).unwrap();
    assert_eq!(cmdline_text(&e), ("set nu".to_string(), 3));
    e.apply_request(Request::CmdLineMoveCursorTo { pos: 99 }).unwrap();
    assert_eq!(cmdline_text(&e), ("set nu".to_string(), 6));
    e.apply_request(Request::CmdLineDeleteWord).unwrap();
    assert_eq!(cmdline_text(&e), ("set ".to_string(), 4));
    e.apply_request(Request::CmdLineDeleteWord).unwrap();
    assert_eq!(cmdline_text(&e), (String::new(), 0));
    type_cmd(&mut e, "ab  cd  ");
    e.apply_request(Request::CmdLineDeleteWord).unwrap();
    assert_eq!(cmdline_text(&e), ("ab  ".to_string(), 4));
    e.apply_request(Request::CmdLineDeleteLine).unwrap();
    assert_eq!(cmdline_text(&e), (String::new(), 0));
    e.apply_request(Request::CmdLineBackspace).unwrap();
    assert_eq!(e.mode, Mode::Normal);
}

#[test]
fn command_line_tab_and_history() {
    let mut e = editor_with_lines(1);
    e.apply_request(Request::SetMode(Mode::CommandLine)).unwrap();
    type_cmd(&mut e, "La");
    e.apply_request(Request::CmdLineTab).unwrap();
    assert_eq!(cmdline_text(&e), ("Lazy".to_string(), 4));
    assert_eq!(e.take_command(), Some("Lazy".to_string()));
    assert_eq!(e.mode, Mode::Normal);
    assert_eq!(e.take_command(), None);
    e.apply_request(Request::SetMode(Mode::CommandLine)).unwrap();
    type_cmd(&mut e, "w");
    e.apply_request(Request::CmdLineTab).unwrap();
    assert_eq!(cmdline_text(&e), ("w".to_string(), 1));
    assert_eq!(e.take_command(), Some("w".to_string()));
    e.apply_request(Request::SetMode(Mode::CommandLine)).unwrap();
    assert_eq!(e.take_command(), Some(String::new()));
    assert_eq!(e.history().0.len(), 2);
    e.apply_request(Request::SetMode(Mode::CommandLine)).unwrap();
    e.apply_request(Request::CmdLineHistory { forward: false }).unwrap();
    assert_eq!(cmdline_text(&e), ("w".to_string(), 1));
    e.apply_request(Request::CmdLineHistory { forward: false }).unwrap();
    assert_eq!(cmdline_text(&e), ("Lazy".to_string(), 4));
    e.apply_request(Request::CmdLineHistory { forward: false }).unwrap();
    assert_eq!(cmdline_text(&e), ("Lazy".to_string(), 4));
    e.apply_request(Request::CmdLineHistory { forward: true }).unwrap();
    assert_eq!(cmdline_text(&e), ("w".to_string(), 1));
    e.apply_request(Request::CmdLineHistory { forward: true }).unwrap();
    assert_eq!(cmdline_text(&e), (String::new(), 0));
    assert_eq!(e.history().1, None);
}

fn mv(e: &mut EditorState, motion: Motion, count: u32) -> (usize, usize) {
    e.apply_request(Request::OpMotion { op: Operator::Move, motion, count }).unwrap();
    let c = e.current_window().cursor();
    (c.row, c.col)
}

#[test]
fn apply_request_cursor_motions() {
    let mut e = editor_with_lines(3);
    assert_eq!(mv(&mut e, Motion::Right, 3), (1, 3));
    assert_eq!(mv(&mut e, Motion::Left, 5), (1, 0));
    assert_eq!(mv(&mut e, Motion::LineEnd, 1), (1, 5));
    assert_eq!(mv(&mut e, Motion::Right, 1), (1, 5));
    assert_eq!(mv(&mut e, Motion::Down, 1), (2, 5));
    assert_eq!(mv(&mut e, Motion::Down, 5), (3, 5));
    assert_eq!(mv(&mut e, Motion::Up, 9), (1, 5));
    assert_eq!(mv(&mut e, Motion::LineMiddle, 1), (1, 3));
    assert_eq!(mv(&mut e, Motion::BufferEnd, 1), (3, 0));
    assert_eq!(mv(&mut e, Motion::BufferStart, 1), (1, 0));
    assert_eq!(mv(&mut e, Motion::LineStart, 1), (1, 0));
    assert!(e.apply_request(Request::OpMotion { op: Operator::Delete, motion: Motion::LineEnd, count: 1 }).is_err());
    assert_eq!(e.current_buffer().unwrap().get_line(1), Some("line 1"));
    let arrow = decode_csi("B").unwrap();
    e.apply_request(arrow).unwrap();
    assert_eq!(e.current_window().cursor().row, 2);
}

#[test]
fn apply_request_view_scrolls() {
    let mut e = editor_with_lines(50);
    e.apply_request(Request::CursorMove { row: 30, col: 0 }).unwrap();
    e.apply_request(Request::CenterCursor).unwrap();
    assert_eq!(e.current_window().topline(), 18);
    e.apply_request(Request::CursorToTop).unwrap();
    assert_eq!(e.current_window().topline(), 30);
    e.apply_request(Request::CursorToBottom).unwrap();
    assert_eq!(e.current_window().topline(), 7);
}

#[test]
fn apply_request_paragraph_motions() {
    let mut b = Buffer::new(1);
    for l in ["a", "b", "", "c", "", "d"] {
        b.append_line(l).unwrap();
    }
    let mut e = EditorState::new(b, 80, 24);
    assert_eq!(mv(&mut e, Motion::ParagraphForward, 1), (3, 0));
    assert_eq!(mv(&mut e, Motion::BufferStart, 1), (1, 0));
    assert_eq!(mv(&mut e, Motion::ParagraphForward, 2), (5, 0));
    assert_eq!(mv(&mut e, Motion::BufferEnd, 1), (6, 0));
    assert_eq!(mv(&mut e, Motion::ParagraphBackward, 1), (5, 0));
}

#[test]
fn apply_request_word_motions() {
    let mut b = Buffer::new(1);
    b.append_line("foo bar  baz").unwrap();
    b.append_line("qux").unwrap();
    let mut e = EditorState::new(b, 80, 24);
    assert_eq!(mv(&mut e, Motion::WordForward, 1), (1, 4));
    assert_eq!(mv(&mut e, Motion::WordForward, 1), (1, 9));
    assert_eq!(mv(&mut e, Motion::WordBackward, 1), (1, 4));
    assert_eq!(mv(&mut e, Motion::WordForward, 2), (2, 0));
    assert_eq!(mv(&mut e, Motion::WordForward, 1), (2, 2));
    assert_eq!(mv(&mut e, Motion::WordBack, 1), (2, 0));
}

#[test]
fn apply_request_visual_mode_remembers_anchor() {

    let mut e = editor_with_lines(3);
    e.apply_request(Request::CursorMove { row: 2, col: 3 }).unwrap();
    e.apply_request(Request::SetVisualMode(VisualMode::Char)).unwrap();
    assert_eq!(e.mode, Mode::Visual(VisualMode::Char));
    let a = e.visual_anchor().unwrap();
    assert_eq!((a.row, a.col), (2, 3));
    e.apply_request(Request::CursorMove { row: 3, col: 1 }).unwrap();
    e.apply_request(Request::SetVisualMode(VisualMode::Line)).unwrap();
    assert_eq!(e.mode, Mode::Visual(VisualMode::Line));
    let a = e.visual_anchor().unwrap();
    assert_eq!((a.row, a.col), (2, 3));
    e.apply_request(Request::SetMode(Mode::Normal)).unwrap();
    assert_eq!(e.mode, Mode::Normal);
}

#[test]
fn ex_commands_on_tabs_buffers_and_history() {
    let mut e = editor_with_lines(2);
    e.add_buffer(Buffer::new(5));
    e.execute_cmd("  :tabnew ").unwrap();
    assert_eq!(e.tab_position(), (1, 2));
    assert_eq!(e.current_window().buffer(), 1);
    e.execute_cmd("tabn").unwrap();
    assert_eq!(e.tab_position(), (0, 2));
    e.execute_cmd("tabp").unwrap();
    assert_eq!(e.tab_position(), (1, 2));
    e.execute_cmd("tabclose").unwrap();
    assert_eq!(e.tab_position(), (0, 1));
    e.execute_cmd("tabclose").unwrap();
    assert_eq!(e.tab_position(), (0, 1));
    e.execute_cmd("bn").unwrap();
    assert_eq!(e.current_window().buffer(), 5);
    e.execute_cmd("bnext").unwrap();
    assert_eq!(e.current_window().buffer(), 1);
    e.execute_cmd("bp").unwrap();
    assert_eq!(e.current_window().buffer(), 5);
    e.execute_cmd("bd").unwrap();
    assert_eq!(e.current_window().buffer(), 1);
    e.execute_cmd("bd").unwrap();
    assert_eq!(e.current_window().buffer(), 1);
    e.execute_cmd("u").unwrap();
    assert_eq!(e.current_buffer().unwrap().line_count(), 1);
    e.execute_cmd(":redo").unwrap();
    assert_eq!(e.current_buffer().unwrap().line_count(), 2);
    e.execute_cmd("nosuchcommand x").unwrap();
    e.execute_cmd("   ").unwrap();
    assert!(!e.should_quit());
    e.execute_cmd("q").unwrap();
    assert!(e.should_quit());
}
