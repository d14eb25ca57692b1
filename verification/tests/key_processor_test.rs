use rneovim_core::key_processor::{KeyContext, KeyProcessor, KeyState, Step, decode_key_escapes, move_right_of};
use rneovim_core::request::{Motion, Operator, Request, TextObject};
use rneovim_core::state::{Mode, UndoGroupChange, VisualMode, undo_group_change};
use rneovim_core::window::Cursor;

fn ctx() -> KeyContext {
    KeyContext {
        cursor: Cursor { row: 3, col: 4 },
        window_height: 20,
        visual_anchor: None,
        recording_macro: false,
        completion_menu_open: false,
        last_char_search: None,
        register_text: None,
    }
}

/// Feeds the keys one by one and returns the outcome of the last.
fn feed(state: &mut KeyState, c: &KeyContext, keys: &str) -> (Vec<Step>, Option<Request>) {
    let p = KeyProcessor::new();
    let mut last = (Vec::new(), None);
    for k in keys.chars() {
        let out = p.process_key(state, c, k);
        last = (out.steps, out.request);
    }
    last
}

#[test]
fn test_initial_state_is_normal() {
    let s = KeyState::new();
    assert_eq!(s.mode, Mode::Normal);
    assert_eq!(s.pending_key, None);
    assert_eq!(s.pending_op, None);
    assert_eq!(s.pending_count, None);
}

#[test]
fn test_insert_key_asks_for_insert_mode() {
    let mut s = KeyState::new();
    let (steps, req) = feed(&mut s, &ctx(), "i");
    assert!(steps.is_empty());
    assert_eq!(req, Some(Request::SetMode(Mode::Insert)));
}

#[test]
fn test_count_before_motion() {
    let mut s = KeyState::new();
    let (_, req) = feed(&mut s, &ctx(), "3j");
    assert_eq!(req, Some(Request::OpMotion { op: Operator::Move, motion: Motion::Down, count: 3 }));
    assert_eq!(s.pending_count, None);
    let (_, req) = feed(&mut s, &ctx(), "12w");
    assert_eq!(req, Some(Request::OpMotion { op: Operator::Move, motion: Motion::WordForward, count: 12 }));
}

#[test]
fn test_zero_is_line_start_without_count() {
    let mut s = KeyState::new();
    let (_, req) = feed(&mut s, &ctx(), "0");
    assert_eq!(req, Some(Request::OpMotion { op: Operator::Move, motion: Motion::LineStart, count: 1 }));
    let (_, req) = feed(&mut s, &ctx(), "10l");
    assert_eq!(req, Some(Request::OpMotion { op: Operator::Move, motion: Motion::Right, count: 10 }));
}

#[test]
fn test_operator_and_motion() {
    let mut s = KeyState::new();
    let (_, req) = feed(&mut s, &ctx(), "d");
    assert_eq!(req, None);
    assert_eq!(s.pending_op, Some(Operator::Delete));
    let (_, req) = feed(&mut s, &ctx(), "w");
    assert_eq!(req, Some(Request::OpMotion { op: Operator::Delete, motion: Motion::WordForward, count: 1 }));
    assert_eq!(s, KeyState::new());
}

#[test]
fn test_doubled_operator_with_count() {
    let mut s = KeyState::new();
    let (_, req) = feed(&mut s, &ctx(), "dd");
    assert_eq!(req, Some(Request::DeleteCurrentLine { count: 1 }));
    let (_, req) = feed(&mut s, &ctx(), "d3d");
    assert_eq!(req, Some(Request::DeleteCurrentLine { count: 3 }));
    let (_, req) = feed(&mut s, &ctx(), "yy");
    assert_eq!(req, Some(Request::YankCurrentLine { count: 1 }));
    let (_, req) = feed(&mut s, &ctx(), ">>");
    assert_eq!(req, Some(Request::Indent { forward: true }));
}

#[test]
fn test_operator_with_text_object() {
    let mut s = KeyState::new();
    s.pending_op = Some(Operator::Delete);
    s.pending_key = Some('i');
    let (_, req) = feed(&mut s, &ctx(), "w");
    assert_eq!(req, Some(Request::OpTextObject { op: Operator::Delete, inner: true, obj: TextObject::Word, count: 1 }));
    assert_eq!(s, KeyState::new());
    s.pending_op = Some(Operator::Change);
    s.pending_key = Some('a');
    let (_, req) = feed(&mut s, &ctx(), "\"");
    assert_eq!(req, Some(Request::OpTextObject { op: Operator::Change, inner: false, obj: TextObject::DoubleQuote, count: 1 }));
}

#[test]
fn test_i_after_operator_is_not_a_prefix() {
    let mut s = KeyState::new();
    let (_, req) = feed(&mut s, &ctx(), "di");
    assert_eq!(req, None);
    assert_eq!(s.pending_op, Some(Operator::Delete));
    assert_eq!(s.pending_key, None);
    let (_, req) = feed(&mut s, &ctx(), "w");
    assert_eq!(req, Some(Request::OpMotion { op: Operator::Delete, motion: Motion::WordForward, count: 1 }));
}

#[test]
fn test_unknown_motion_keeps_operator() {
    let mut s = KeyState::new();
    let (_, req) = feed(&mut s, &ctx(), "dq");
    assert_eq!(req, None);
    assert_eq!(s.pending_op, Some(Operator::Delete));
}

#[test]
fn test_prefix_commands() {
    let mut s = KeyState::new();
    assert_eq!(feed(&mut s, &ctx(), "gg").1,
        Some(Request::OpMotion { op: Operator::Move, motion: Motion::BufferStart, count: 1 }));
    assert_eq!(feed(&mut s, &ctx(), "zz").1, Some(Request::CenterCursor));
    assert_eq!(feed(&mut s, &ctx(), "fx").1, Some(Request::FindChar { forward: true, char: 'x', is_till: false }));
    assert_eq!(feed(&mut s, &ctx(), "Ty").1, Some(Request::FindChar { forward: false, char: 'y', is_till: true }));
    assert_eq!(feed(&mut s, &ctx(), "]]").1,
        Some(Request::OpMotion { op: Operator::Move, motion: Motion::SectionForward, count: 1 }));
    assert_eq!(feed(&mut s, &ctx(), "ZZ").1, Some(Request::ExecuteCommandFromConfig("x")));
    assert_eq!(feed(&mut s, &ctx(), "\x17v").1, Some(Request::SplitWindow { vertical: true }));
    assert_eq!(feed(&mut s, &ctx(), "ma").1, Some(Request::SetMark('a')));
    assert_eq!(feed(&mut s, &ctx(), "'a").1, Some(Request::JumpToMark('a')));
}

#[test]
fn test_g_operator_waits_for_motion() {
    let mut s = KeyState::new();
    let (_, req) = feed(&mut s, &ctx(), "gU");
    assert_eq!(req, None);
    assert_eq!(s.pending_op, Some(Operator::ToUpper));
    let (_, req) = feed(&mut s, &ctx(), "w");
    assert_eq!(req, Some(Request::OpMotion { op: Operator::ToUpper, motion: Motion::WordForward, count: 1 }));
}

#[test]
fn test_register_prefix() {
    let mut s = KeyState::new();
    let (_, req) = feed(&mut s, &ctx(), "\"a");
    assert_eq!(req, None);
    assert_eq!(s.pending_register, Some('a'));
    assert_eq!(s.pending_key, None);
    assert_eq!(feed(&mut s, &ctx(), "p").1, Some(Request::Paste));
}

#[test]
fn test_reverse_char_search() {
    let mut s = KeyState::new();
    let mut c = ctx();
    assert_eq!(feed(&mut s, &c, ",").1, None);
    c.last_char_search = Some(Request::FindChar { forward: true, char: 'x', is_till: false });
    assert_eq!(feed(&mut s, &c, ",").1, Some(Request::FindChar { forward: false, char: 'x', is_till: false }));
}

#[test]
fn test_append_steps() {
    let mut s = KeyState::new();
    let (steps, req) = feed(&mut s, &ctx(), "A");
    assert_eq!(steps, vec![
        Step::Apply(Request::OpMotion { op: Operator::Move, motion: Motion::LineEnd, count: 1 }),
        Step::MoveRightOfCursor,
    ]);
    assert_eq!(req, Some(Request::SetMode(Mode::Insert)));
    assert_eq!(move_right_of(Cursor { row: 2, col: 7 }), Request::CursorMove { row: 2, col: 8 });
}

#[test]
fn test_substitute_line_steps() {
    let mut s = KeyState::new();
    let (steps, req) = feed(&mut s, &ctx(), "S");
    assert_eq!(steps, vec![
        Step::Apply(Request::DeleteCurrentLine { count: 1 }),
        Step::Apply(Request::OpenLine { below: false }),
    ]);
    assert_eq!(req, Some(Request::SetMode(Mode::Insert)));
}

#[test]
fn test_replace_char() {
    let mut s = KeyState::new();
    let (steps, req) = feed(&mut s, &ctx(), "r");
    assert_eq!(steps, vec![Step::SetMode(Mode::WaitReplaceChar)]);
    assert_eq!(req, None);
    assert_eq!(s.mode, Mode::WaitReplaceChar);
    let (steps, req) = feed(&mut s, &ctx(), "x");
    assert_eq!(steps, vec![Step::SetMode(Mode::Normal)]);
    assert_eq!(req, Some(Request::ReplaceChar('x')));
    assert_eq!(s.mode, Mode::Normal);
}

#[test]
fn test_page_scrolls() {
    let mut s = KeyState::new();
    assert_eq!(feed(&mut s, &ctx(), "2\x06").1, Some(Request::Scroll { lines: 40 }));
    assert_eq!(feed(&mut s, &ctx(), "\x15").1, Some(Request::Scroll { lines: -10 }));
    assert_eq!(feed(&mut s, &ctx(), "3\x19").1, Some(Request::Scroll { lines: -3 }));
    assert_eq!(feed(&mut s, &ctx(), "5\x18").1, Some(Request::IncrementNumber { offset: -5 }));
}

#[test]
fn test_macro_keys() {
    let mut s = KeyState::new();
    let mut c = ctx();
    assert_eq!(feed(&mut s, &c, "qa").1, Some(Request::StartMacroRecord('a')));
    c.recording_macro = true;
    assert_eq!(feed(&mut s, &c, "q").1, Some(Request::StopMacroRecord));
    let (steps, _) = feed(&mut s, &c, "@");
    assert_eq!(steps, vec![Step::SetMode(Mode::WaitMacroReg)]);
    assert_eq!(feed(&mut s, &c, "a").1, Some(Request::PlayMacro('a')));
    assert_eq!(s.mode, Mode::Normal);
}

#[test]
fn test_insert_mode_keys() {
    let mut s = KeyState::new();
    s.mode = Mode::Insert;
    let mut c = ctx();
    assert_eq!(feed(&mut s, &c, "a").1, Some(Request::InsertChar('a')));
    assert_eq!(feed(&mut s, &c, "\r").1, Some(Request::NewLine));
    c.completion_menu_open = true;
    assert_eq!(feed(&mut s, &c, "\r").1, Some(Request::CommitCompletion));
    assert_eq!(feed(&mut s, &c, "\x0E").1, Some(Request::SelectPumNext));
    assert_eq!(feed(&mut s, &c, "\x1B").1, Some(Request::SetMode(Mode::Normal)));
}

#[test]
fn test_insert_register_contents() {
    let mut s = KeyState::new();
    s.mode = Mode::Insert;
    let mut c = ctx();
    let (steps, _) = feed(&mut s, &c, "\x12");
    assert_eq!(steps, vec![Step::SetMode(Mode::InsertWaitRegister)]);
    c.register_text = Some("hi".to_string());
    let (steps, req) = feed(&mut s, &c, "a");
    assert_eq!(steps, vec![
        Step::SetMode(Mode::Insert),
        Step::Apply(Request::InsertChar('h')),
        Step::Apply(Request::InsertChar('i')),
    ]);
    assert_eq!(req, None);
    assert_eq!(s.mode, Mode::Insert);
}

#[test]
fn test_insert_literal_and_digraph() {
    let mut s = KeyState::new();
    s.mode = Mode::Insert;
    let (_, req) = feed(&mut s, &ctx(), "\x16\x1B");
    assert_eq!(req, Some(Request::InsertChar('\x1B')));
    assert_eq!(s.mode, Mode::Insert);
    let (_, req) = feed(&mut s, &ctx(), "\x0Bab");
    assert_eq!(req, Some(Request::InsertChar('?')));
    assert_eq!(s.mode, Mode::Insert);
}

#[test]
fn test_insert_once_runs_one_normal_command() {
    let mut s = KeyState::new();
    s.mode = Mode::Insert;
    let (steps, req) = feed(&mut s, &ctx(), "\x0fu");
    assert_eq!(req, Some(Request::Undo));
    assert_eq!(steps, vec![Step::SetMode(Mode::Insert)]);
    assert_eq!(s.mode, Mode::Insert);
}

#[test]
fn test_replace_mode_backspace() {
    let mut s = KeyState::new();
    s.mode = Mode::Replace;
    let mut c = ctx();
    assert_eq!(feed(&mut s, &c, "\x7F").1, Some(Request::CursorMove { row: 3, col: 3 }));
    c.cursor = Cursor { row: 3, col: 0 };
    assert_eq!(feed(&mut s, &c, "\x7F").1, None);
    assert_eq!(feed(&mut s, &c, "z").1, Some(Request::ReplaceCharUnderCursor('z')));
}

#[test]
fn test_visual_mode_keys() {
    let mut s = KeyState::new();
    s.mode = Mode::Visual(VisualMode::Char);
    let mut c = ctx();
    assert_eq!(feed(&mut s, &c, "j").1, Some(Request::CursorMove { row: 4, col: 4 }));
    assert_eq!(feed(&mut s, &c, "d").1, Some(Request::OpVisualSelection(Operator::Delete)));
    assert_eq!(feed(&mut s, &c, "iw").1,
        Some(Request::OpTextObject { op: Operator::Move, inner: true, obj: TextObject::Word, count: 1 }));
    c.visual_anchor = Some(Cursor { row: 1, col: 0 });
    let (steps, req) = feed(&mut s, &c, "o");
    assert_eq!(steps, vec![
        Step::SetVisualAnchor(Some(Cursor { row: 3, col: 4 })),
        Step::SetCursor(Cursor { row: 1, col: 0 }),
    ]);
    assert_eq!(req, None);
    let (steps, req) = feed(&mut s, &c, "\x1B");
    assert_eq!(steps, vec![Step::SetVisualAnchor(None)]);
    assert_eq!(req, Some(Request::SetMode(Mode::Normal)));
}

#[test]
fn test_visual_k_stops_at_first_line() {
    let mut s = KeyState::new();
    s.mode = Mode::Visual(VisualMode::Line);
    let mut c = ctx();
    c.cursor = Cursor { row: 1, col: 0 };
    assert_eq!(feed(&mut s, &c, "k").1, Some(Request::CursorMove { row: 1, col: 0 }));
    assert_eq!(feed(&mut s, &c, "h").1, Some(Request::CursorMove { row: 1, col: 0 }));
}

#[test]
fn test_cmdline_enter() {
    let mut s = KeyState::new();
    s.mode = Mode::CommandLine;
    assert_eq!(feed(&mut s, &ctx(), "w").1, Some(Request::CmdLineChar('w')));
    assert_eq!(feed(&mut s, &ctx(), "\r").1, Some(Request::ExecuteCommand));
    s.mode = Mode::Search;
    assert_eq!(feed(&mut s, &ctx(), "\n").1, Some(Request::ExecuteSearch));
    assert_eq!(feed(&mut s, &ctx(), "\x05").1, Some(Request::CmdLineMoveCursorTo { pos: 9999 }));
}

#[test]
fn test_ctrl_backslash_ctrl_n_from_insert() {
    let mut s = KeyState::new();
    s.mode = Mode::Insert;
    let (_, req) = feed(&mut s, &ctx(), "\x1C");
    assert_eq!(req, None);
    assert_eq!(s.pending_key, Some('\x1C'));
    let (_, req) = feed(&mut s, &ctx(), "\x0E");
    assert_eq!(req, Some(Request::SetMode(Mode::Normal)));
    assert_eq!(s.pending_key, None);
}

#[test]
fn test_block_insert_escape() {
    let mut s = KeyState::new();
    s.mode = Mode::BlockInsert { append: false, anchor: Cursor { row: 1, col: 0 }, cursor: Cursor { row: 2, col: 0 } };
    assert_eq!(feed(&mut s, &ctx(), "x").1, Some(Request::InsertChar('x')));
    let (steps, req) = feed(&mut s, &ctx(), "\x1B");
    assert_eq!(steps, vec![Step::SetMode(Mode::Normal)]);
    assert_eq!(req, None);
    assert_eq!(s.mode, Mode::Normal);
}

#[test]
fn test_undo_groups_follow_mode_changes() {
    assert_eq!(undo_group_change(Mode::Normal, Mode::Insert), UndoGroupChange::Start);
    assert_eq!(undo_group_change(Mode::Normal, Mode::Visual(VisualMode::Block)), UndoGroupChange::Start);
    assert_eq!(undo_group_change(Mode::Insert, Mode::Normal), UndoGroupChange::End);
    assert_eq!(undo_group_change(Mode::Visual(VisualMode::Char), Mode::Normal), UndoGroupChange::End);
    assert_eq!(undo_group_change(Mode::Normal, Mode::CommandLine), UndoGroupChange::Keep);
    assert_eq!(undo_group_change(Mode::Insert, Mode::Replace), UndoGroupChange::Keep);
}

#[test]
fn test_decode_key_escapes() {
    assert_eq!(decode_key_escapes("\\x41b"), "Ab");
    assert_eq!(decode_key_escapes("a\\nb\\r"), "a\nb\r");
    assert_eq!(decode_key_escapes("i\\x1b"), "i\x1b");
    assert_eq!(decode_key_escapes("\\xzzq"), "q");
    assert_eq!(decode_key_escapes("\\x+f"), "\x0f");
    assert_eq!(decode_key_escapes("\\x7"), "\x07");
    assert_eq!(decode_key_escapes("\\q\\"), "\\q\\");
    assert_eq!(decode_key_escapes("\\xe9"), "\u{e9}");
    assert_eq!(decode_key_escapes(""), "");
}
