use rneovim_core::buffer::Buffer;
use rneovim_core::editor::EditorState;
use rneovim_core::error::NvimError;
use rneovim_core::request::{Motion, Operator, Request};
use rneovim_core::state::Mode;

fn editor_with(lines: &[&str]) -> EditorState {
    let mut b = Buffer::new(1);
    for l in lines {
        b.append_line(l).unwrap();
    }
    EditorState::new(b, 80, 24)
}

fn cmdline_of(e: &EditorState) -> String {
    e.cmdline().0.iter().collect()
}

fn line(e: &EditorState, lnum: usize) -> String {
    e.current_buffer().unwrap().get_line(lnum).unwrap().to_string()
}

fn is_refusal(r: Result<(), NvimError>) -> bool {
    matches!(r, Err(NvimError::Api(_)))
}

#[test]
fn test_ex_editing_commands() {
    let mut e = editor_with(&["first", "second"]);
    e.win_set_cursor(0, 1, 0);
    e.apply_request(Request::DeleteCharAtCursor { count: 1 }).unwrap();
    assert_eq!(line(&e, 1), "irst");
    assert_eq!(e.win_get_cursor(0), (1, 0));
    e.execute_cmd("undo").unwrap();
    assert_eq!(line(&e, 1), "first");
    e.execute_cmd("redo").unwrap();
    assert_eq!(line(&e, 1), "irst");
    e.win_set_cursor(0, 1, 0);
    e.execute_cmd("join").unwrap();
    assert_eq!(e.current_buffer().unwrap().line_count(), 1);
    assert_eq!(line(&e, 1), "irst second");
    e.win_set_cursor(0, 1, 0);
    e.execute_cmd("ascii").unwrap();
    assert!(cmdline_of(&e).contains("105"));
}

#[test]
fn test_ex_buffer_management() {
    let mut e = editor_with(&[]);
    let id1 = e.current_window().buffer();
    e.execute_cmd("enew").unwrap();
    assert_eq!(e.buffer_ids().len(), 2);
    let id2 = e.buffer_ids()[1];
    assert_eq!(e.current_window().buffer(), id2);
    e.execute_cmd("ls").unwrap();
    assert!(cmdline_of(&e).contains(&id1.to_string()));
    assert!(cmdline_of(&e).contains(&id2.to_string()));
    e.execute_cmd("bn").unwrap();
    e.execute_cmd("bp").unwrap();
    e.execute_cmd("bd").unwrap();
    assert_eq!(e.buffer_ids().len(), 1);
}

#[test]
fn test_ex_marks_and_jumps() {
    let mut e = editor_with(&["abc"]);
    e.win_set_cursor(0, 1, 1);
    e.apply_request(Request::SetMark('a')).unwrap();
    e.execute_cmd("marks").unwrap();
    assert!(cmdline_of(&e).contains("a"));
    e.execute_cmd("jumps").unwrap();
    assert!(cmdline_of(&e).contains("jump"));
}

#[test]
fn test_cmdline_history_integration() {
    let mut e = editor_with(&[]);
    e.apply_request(Request::ExecuteCommandFromConfig("set number")).unwrap();
    e.apply_request(Request::ExecuteCommandFromConfig("set nonumber")).unwrap();
    e.apply_request(Request::SetMode(Mode::CommandLine)).unwrap();
    e.apply_request(Request::CmdLineHistory { forward: false }).unwrap();
    assert_eq!(cmdline_of(&e), "set nonumber");
    e.apply_request(Request::CmdLineHistory { forward: false }).unwrap();
    assert_eq!(cmdline_of(&e), "set number");
    e.apply_request(Request::CmdLineHistory { forward: true }).unwrap();
    assert_eq!(cmdline_of(&e), "set nonumber");
}

#[test]
fn test_extmark_tracking_complex() {
    let mut e = editor_with(&["first line", "second line", "third line"]);
    let id1 = e.buf_set_extmark(0, 1, 0).unwrap();
    let id2 = e.buf_set_extmark(0, 2, 6).unwrap();
    e.win_set_cursor(0, 1, 0);
    e.apply_request(Request::OpenLine { below: false }).unwrap();
    e.apply_request(Request::SetMode(Mode::Normal)).unwrap();
    let m1 = e.buf_get_extmark(0, id1).unwrap();
    let m2 = e.buf_get_extmark(0, id2).unwrap();
    assert_eq!(m1.row, 3);
    assert_eq!(m2.row, 4);
    e.win_set_cursor(0, 4, 0);
    for c in "prefix ".chars() {
        e.apply_request(Request::InsertChar(c)).unwrap();
    }
    let m2 = e.buf_get_extmark(0, id2).unwrap();
    assert_eq!(m2.row, 4);
    assert_eq!(m2.col, 6 + "prefix ".chars().count());
}

#[test]
fn test_motion_integration() {
    let mut e = editor_with(&["Hello World", "Rust Programming"]);
    let mv = |e: &mut EditorState, motion: Motion| {
        e.apply_request(Request::OpMotion { op: Operator::Move, motion, count: 1 }).unwrap();
        e.win_get_cursor(0)
    };
    assert_eq!(mv(&mut e, Motion::WordForward).1, 6);
    assert_eq!(mv(&mut e, Motion::LineEnd).1, 10);
    assert_eq!(mv(&mut e, Motion::LineStart).1, 0);
    e.apply_request(Request::CursorMove { row: 2, col: 0 }).unwrap();
    assert_eq!(e.win_get_cursor(0).0, 2);
}

#[test]
fn delete_chars_with_a_count_stop_at_the_line_end() {
    let mut e = editor_with(&["abcdef"]);
    e.win_set_cursor(0, 1, 2);
    e.apply_request(Request::DeleteCharAtCursor { count: 2 }).unwrap();
    assert_eq!(line(&e, 1), "abef");
    e.apply_request(Request::DeleteCharAtCursor { count: 10 }).unwrap();
    assert_eq!(line(&e, 1), "ab");
    e.apply_request(Request::DeleteCharAtCursor { count: 3 }).unwrap();
    assert_eq!(line(&e, 1), "ab");
    assert_eq!(e.win_get_cursor(0), (1, 2));
}

#[test]
fn open_line_keeps_the_indent_and_opens_blocks() {
    let mut e = editor_with(&["  fn main() {", "  }"]);
    e.tabstop = 4;
    e.win_set_cursor(0, 1, 0);
    e.apply_request(Request::OpenLine { below: true }).unwrap();
    assert_eq!(e.mode, Mode::Insert);
    assert_eq!(line(&e, 2), "      ");
    assert_eq!(e.win_get_cursor(0), (2, 6));
    e.apply_request(Request::SetMode(Mode::Normal)).unwrap();
    e.win_set_cursor(0, 3, 0);
    e.apply_request(Request::OpenLine { below: false }).unwrap();
    assert_eq!(line(&e, 3), "  ");
    assert_eq!(line(&e, 4), "  }");
    assert_eq!(e.win_get_cursor(0), (3, 2));
}

#[test]
fn marks_are_set_and_jumped_to() {
    let mut e = editor_with(&["one", "two", "three"]);
    e.win_set_cursor(0, 3, 2);
    e.apply_request(Request::SetMark('m')).unwrap();
    e.win_set_cursor(0, 1, 0);
    e.apply_request(Request::JumpToMark('m')).unwrap();
    assert_eq!(e.win_get_cursor(0), (3, 2));
    e.apply_request(Request::JumpToMark('z')).unwrap();
    assert_eq!(e.win_get_cursor(0), (3, 2));
}

#[test]
fn execute_command_runs_the_command_line() {
    let mut e = editor_with(&[]);
    assert!(is_refusal(e.apply_request(Request::ExecuteCommand)));
    e.apply_request(Request::SetMode(Mode::CommandLine)).unwrap();
    for c in "q".chars() {
        e.apply_request(Request::CmdLineChar(c)).unwrap();
    }
    e.apply_request(Request::ExecuteCommand).unwrap();
    assert_eq!(e.mode, Mode::Normal);
    assert!(e.should_quit());
    assert_eq!(e.history().0.len(), 1);
}

#[test]
fn requests_not_carried_out_are_refused() {
    let mut e = editor_with(&["text"]);
    assert!(is_refusal(e.apply_request(Request::Paste)));
    assert!(is_refusal(e.apply_request(Request::OpMotion { op: Operator::Delete, motion: Motion::WordForward, count: 1 })));
    assert!(is_refusal(e.apply_request(Request::CmdLineChar('x'))));
    assert_eq!(line(&e, 1), "text");
    assert!(is_refusal(e.execute_cmd("w")));
}

#[test]
fn buf_lines_are_read_and_replaced() {
    let mut e = editor_with(&["a", "b", "c", "d"]);
    assert_eq!(e.buf_get_lines(0, 1, 3), vec!["b".to_string(), "c".to_string()]);
    assert_eq!(e.buf_get_lines(1, 2, -1), vec!["c".to_string(), "d".to_string()]);
    assert_eq!(e.buf_get_lines(1, 3, 10), vec!["d".to_string()]);
    assert_eq!(e.buf_get_lines(7, 0, -1), Vec::<String>::new());
    assert_eq!(e.buf_line_count(0), 4);
    assert_eq!(e.buf_line_count(7), 1);
    e.buf_set_lines(0, 1, 3, vec!["x".to_string(), "y".to_string(), "z".to_string()]).unwrap();
    assert_eq!(e.buf_get_lines(0, 0, -1), vec!["a", "x", "y", "z", "d"].iter().map(|s| s.to_string()).collect::<Vec<_>>());
    e.buf_set_lines(0, 5, -1, vec!["end".to_string()]).unwrap();
    assert_eq!(e.buf_line_count(0), 6);
    assert_eq!(e.buf_get_lines(0, 5, 6), vec!["end".to_string()]);
    e.buf_set_lines(0, 0, -1, Vec::new()).unwrap();
    assert_eq!(e.buf_line_count(0), 0);
    e.buf_set_lines(0, 3, -1, vec!["far".to_string()]).unwrap();
    assert_eq!(e.buf_line_count(0), 0);
    assert!(matches!(e.buf_set_lines(7, 0, -1, Vec::new()), Err(NvimError::Api(_))));
}

#[test]
fn window_cursor_by_id() {
    let mut e = editor_with(&["a", "b", "c"]);
    let first = e.current_window().id();
    e.apply_request(Request::SplitWindow { vertical: false }).unwrap();
    e.win_set_cursor(first, 3, 1);
    assert_eq!(e.win_get_cursor(first), (3, 1));
    assert_eq!(e.win_get_cursor(0), (1, 0));
    assert_eq!(e.win_get_cursor(12345), (1, 0));
    e.win_set_cursor(12345, 2, 2);
    assert_eq!(e.win_get_cursor(first), (3, 1));
}

#[test]
fn backspace_deletes_before_the_cursor_and_joins_lines() {
    let mut e = editor_with(&["ab", "cd"]);
    e.win_set_cursor(0, 2, 1);
    e.apply_request(Request::Backspace).unwrap();
    assert_eq!(line(&e, 2), "d");
    assert_eq!(e.win_get_cursor(0), (2, 0));
    e.apply_request(Request::Backspace).unwrap();
    assert_eq!(e.current_buffer().unwrap().line_count(), 1);
    assert_eq!(line(&e, 1), "abd");
    assert_eq!(e.win_get_cursor(0), (1, 2));
    e.win_set_cursor(0, 1, 0);
    e.apply_request(Request::Backspace).unwrap();
    assert_eq!(line(&e, 1), "abd");
    assert_eq!(e.win_get_cursor(0), (1, 0));
}

#[test]
fn insert_at_first_column_enters_insert_mode() {
    let mut e = editor_with(&["abc"]);
    e.win_set_cursor(0, 1, 2);
    e.apply_request(Request::InsertAtFirstColumn).unwrap();
    assert_eq!(e.mode, Mode::Insert);
    assert_eq!(e.win_get_cursor(0), (1, 0));
}

#[test]
fn delete_current_lines_with_a_count() {
    let mut e = editor_with(&["a", "b", "c", "d"]);
    e.win_set_cursor(0, 2, 0);
    e.apply_request(Request::DeleteCurrentLine { count: 2 }).unwrap();
    assert_eq!(e.buf_get_lines(0, 0, -1), vec!["a".to_string(), "d".to_string()]);
    assert_eq!(e.win_get_cursor(0), (2, 0));
    e.apply_request(Request::Undo).unwrap();
    assert_eq!(e.buf_line_count(0), 4);
    e.win_set_cursor(0, 4, 0);
    e.apply_request(Request::DeleteCurrentLine { count: 5 }).unwrap();
    assert_eq!(e.buf_line_count(0), 3);
    assert_eq!(e.win_get_cursor(0), (3, 0));
}

#[test]
fn ctrl_u_deletes_to_the_line_start() {
    let mut e = editor_with(&["hello world"]);
    e.win_set_cursor(0, 1, 6);
    e.apply_request(Request::InsertModeDeleteLine).unwrap();
    assert_eq!(line(&e, 1), "world");
    assert_eq!(e.win_get_cursor(0), (1, 0));
}

#[test]
fn replace_char_under_cursor() {
    let mut e = editor_with(&["cat"]);
    e.win_set_cursor(0, 1, 1);
    e.apply_request(Request::ReplaceCharUnderCursor('u')).unwrap();
    assert_eq!(line(&e, 1), "cut");
    assert_eq!(e.win_get_cursor(0), (1, 2));
    e.win_set_cursor(0, 1, 3);
    e.apply_request(Request::ReplaceCharUnderCursor('x')).unwrap();
    assert_eq!(line(&e, 1), "cut");
    assert_eq!(e.win_get_cursor(0), (1, 3));
}
