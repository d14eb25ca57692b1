use vstd::prelude::*;
use crate::buffer::{Buffer, BufferView, group_ended, undo_done, redo_done, indent_done, newline_done, line_set_done, char_insert_done};
use crate::edit::{Abbreviations, abbreviation_expansion, expand_abbreviation};
use crate::extmark::{marks_movable, ExtmarkView, ExtmarkManagerView, Extmark, lemma_marks_fit_replace, marks_fit, lemma_marks_fit_left, rows_fit, lemma_rows_fit_up, lemma_rows_fit_down};
use crate::undo::ActionView;
use crate::text::joined_with;
use crate::excmd::joined_lines;
use crate::buffer::{lines_deleted, lemma_lines_deleted, plain_mark, char_delete_done, line_delete_done, line_insert_done, chars_cut, chars_deleted, lemma_char_delete_bounds, lemma_chars_deleted};
use crate::assoc::{assoc_map, keys_unique};
use crate::edit::incremented;
use crate::excmd::{words, command_text, parse_ex_command};
use crate::text::str_eq;
use crate::lsp::{leading_ws, lemma_leading_ws, trailing_ws, lemma_trailing_ws};
use crate::charset::{spec_is_whitespace, char_is_whitespace};
use crate::textobj::{para_boundary, para_pred, lemma_first_in, lemma_last_in, word_boundary, word_after_pred, gap_before_pred};
use crate::text::{chars_of, byte_offset, lemma_byte_offset_step, utf8_len, string_from_chars};
use crate::error::NvimError;
use crate::grid::{Grid, Cell, blank_cell};
use crate::request::{Request, MouseButton, MouseAction, Operator, Motion};
use crate::state::{Mode, UndoGroupChange, undo_group_change_of, undo_group_change};
use crate::window::{Window, WindowView, WinConfig, TabPage, Cursor, adjusted_topline, scroll_ok, scrolled, vertical_col, at_least_one};

verus! {

/// The value of a tab page: its windows and the index of the current one.
pub struct TabView {
    pub windows: Seq<WindowView>,
    pub current: usize,
}

/// The value of the editor's state as the window requests see it.
pub struct EditorView {
    pub mode: Mode,
    pub buffers: Seq<BufferView>,
    pub tabs: Seq<TabView>,
    pub current_tab: usize,
    pub next_win_id: i32,
    pub grid_width: usize,
    pub grid_height: usize,
    pub grid_cells: Seq<Cell>,
    pub pum_items: Option<Seq<Seq<char>>>,
    pub pum_index: Option<usize>,
    pub number: bool,
    pub tabstop: usize,
    pub abbreviations: Map<Seq<char>, Seq<char>>,
    pub cmdline: Seq<char>,
    pub cmdline_cursor: usize,
    pub cmd_history: Seq<Seq<char>>,
    pub cmd_history_idx: Option<usize>,
    pub visual_anchor: Option<Cursor>,
    pub quit: bool,
    pub messages: Seq<Seq<char>>,
    pub next_buf_id: i32,
}

/// The value of a tab page.
pub open spec fn tab_view(t: TabPage) -> TabView {
    TabView { windows: Seq::new(t.windows@.len(), |i: int| t.windows@[i]@), current: t.current_win_idx }
}

/// The editor's state: the buffers, the tab pages with their windows, the
/// screen grid, the completion menu and the mode.
pub struct EditorState {
    pub mode: Mode,
    buffers: Vec<Buffer>,
    tabpages: Vec<TabPage>,
    current_tab_idx: usize,
    next_win_id: i32,
    grid: Grid,
    pum_items: Option<Vec<String>>,
    pum_index: Option<usize>,
    /// The `number` option: line numbers are shown.
    pub number: bool,
    /// The `tabstop` option: the columns a tab stands for.
    pub tabstop: usize,
    /// The abbreviations of insert mode.
    pub abbreviations: Abbreviations,
    cmdline: Vec<char>,
    cmdline_cursor: usize,
    cmd_history: Vec<String>,
    cmd_history_idx: Option<usize>,
    visual_anchor: Option<Cursor>,
    quit: bool,
    messages: Vec<String>,
    next_buf_id: i32,
}

impl View for EditorState {
    type V = EditorView;

    closed spec fn view(&self) -> EditorView {
        EditorView {
            mode: self.mode,
            buffers: Seq::new(self.buffers@.len(), |i: int| self.buffers@[i]@),
            tabs: Seq::new(self.tabpages@.len(), |i: int| tab_view(self.tabpages@[i])),
            current_tab: self.current_tab_idx,
            next_win_id: self.next_win_id,
            grid_width: self.grid.width,
            grid_height: self.grid.height,
            grid_cells: self.grid.cells@,
            pum_items: match self.pum_items {
                Some(v) => Some(Seq::new(v@.len(), |i: int| v@[i]@)),
                None => None,
            },
            pum_index: self.pum_index,
            number: self.number,
            tabstop: self.tabstop,
            abbreviations: self.abbreviations@,
            cmdline: self.cmdline@,
            cmdline_cursor: self.cmdline_cursor,
            cmd_history: Seq::new(self.cmd_history@.len(), |i: int| self.cmd_history@[i]@),
            cmd_history_idx: self.cmd_history_idx,
            visual_anchor: self.visual_anchor,
            quit: self.quit,
            messages: Seq::new(self.messages@.len(), |i: int| self.messages@[i]@),
            next_buf_id: self.next_buf_id,
        }
    }
}

/// The tab page shown.
pub open spec fn cur_tab(v: EditorView) -> TabView {
    v.tabs[v.current_tab as int]
}

/// The window with the focus.
pub open spec fn cur_win(v: EditorView) -> WindowView {
    cur_tab(v).windows[cur_tab(v).current as int]
}

/// Every tab page has a current window, and there is a current tab page;
/// a completion menu that is shown has an item.
pub open spec fn editor_view_ok(v: EditorView) -> bool {
    &&& v.current_tab < v.tabs.len()
    &&& forall|t: int| 0 <= t < v.tabs.len() ==> (#[trigger] v.tabs[t]).current < v.tabs[t].windows.len()
    &&& v.pum_items matches Some(items) ==> items.len() > 0
    &&& v.pum_index matches Some(i) ==> (v.pum_items matches Some(items) && i < items.len())
    &&& v.grid_cells.len() == v.grid_width * v.grid_height
    &&& v.cmd_history_idx matches Some(i) ==> i < v.cmd_history.len()
    &&& v.buffers.len() >= 1
}

/// `v` with the current window replaced by `w`.
pub open spec fn with_cur_win(v: EditorView, w: WindowView) -> EditorView {
    let t = cur_tab(v);
    EditorView {
        tabs: v.tabs.update(v.current_tab as int, TabView { windows: t.windows.update(t.current as int, w), ..t }),
        ..v
    }
}

/// `v` with window `w` added to the current tab page as its current window,
/// and the next window id taken.
pub open spec fn with_new_win(v: EditorView, w: WindowView) -> EditorView {
    let t = cur_tab(v);
    EditorView {
        tabs: v.tabs.update(v.current_tab as int, TabView { windows: t.windows.push(w), current: t.windows.len() as usize }),
        next_win_id: next_id(v.next_win_id),
        ..v
    }
}

/// The id after `id`, counting on from the least `i32` after the greatest.
pub open spec fn next_id(id: i32) -> i32 {
    if id == i32::MAX { i32::MIN } else { (id + 1) as i32 }
}

/// The index of the first buffer with id `id`.
pub open spec fn find_buffer(bufs: Seq<BufferView>, id: i32) -> Option<int>
    decreases bufs.len(),
{
    if bufs.len() == 0 {
        None
    } else {
        match find_buffer(bufs.drop_last(), id) {
            Some(i) => Some(i),
            None => if bufs.last().id == id { Some(bufs.len() - 1) } else { None },
        }
    }
}

/// The number of lines of buffer `id`, where it is loaded.
pub open spec fn buffer_lines(v: EditorView, id: i32) -> Option<usize> {
    match find_buffer(v.buffers, id) {
        Some(i) => Some(v.buffers[i].lines.len() as usize),
        None => None,
    }
}

/// A new window onto buffer `buffer` with id `id`.
pub open spec fn new_window_view(id: i32, buffer: i32) -> WindowView {
    WindowView {
        id: id,
        buffer: buffer,
        cursor: Cursor { row: 1, col: 0 },
        curswant: 0,
        topline: 1,
        height: 24,
        width: 80,
        floating: false,
        config: None,
        folds: Seq::empty(),
    }
}

/// A new floating window onto buffer `buffer` with id `id`, placed by
/// `config`.
pub open spec fn new_float_view(id: i32, buffer: i32, config: WinConfig) -> WindowView {
    WindowView { height: config.height, width: config.width, floating: true, config: Some(config), ..new_window_view(id, buffer) }
}

/// The columns that the line-number margin takes before the text.
pub open spec fn margin(number: bool) -> usize {
    if number { 4 } else { 2 }
}

/// The current window scrolled by `lines`.
pub open spec fn scroll_effect(v: EditorView, lines: i32) -> EditorView {
    let w = cur_win(v);
    with_cur_win(v, WindowView { topline: scrolled(w.topline, lines, buffer_lines(v, w.buffer)), ..w })
}

/// A scroll of the current window computes no overflow.
pub open spec fn scroll_allowed(v: EditorView, lines: i32) -> bool {
    let w = cur_win(v);
    scroll_ok(w.topline, lines, buffer_lines(v, w.buffer))
}

/// Every window of every tab page sized to `width` by `height`.
pub open spec fn resized_tabs(tabs: Seq<TabView>, width: usize, height: usize) -> Seq<TabView> {
    Seq::new(tabs.len(), |t: int| TabView {
        windows: Seq::new(tabs[t].windows.len(), |i: int| WindowView { width: width, height: height, ..tabs[t].windows[i] }),
        ..tabs[t]
    })
}

/// The row and column that a left click at screen cell `(row, col)` puts
/// the cursor on: `row - 1` lines below the top line, left of the margin
/// counting as its first column.
pub open spec fn click_target(v: EditorView, row: usize, col: usize) -> (int, usize) {
    (cur_win(v).topline + row - 1, if col >= margin(v.number) { (col - margin(v.number)) as usize } else { 0 })
}

/// The message of a request that the editor state does not carry out.
pub open spec fn refusal_text() -> Seq<char> {
    "not carried out by the editor state"@
}

/// The request was refused: the state is as it was, and the answer says
/// so.
pub open spec fn refused(v: EditorView, v2: EditorView, r: Result<(), NvimError>) -> bool {
    &&& r matches Err(NvimError::Api(m)) && m@ == refusal_text()
    &&& v2 == v
}

/// The requests of the window part of the request handlers.
pub open spec fn is_window_request(req: Request) -> bool {
    ||| req is SplitWindow
    ||| req is NextWindow
    ||| req is PrevWindow
    ||| req is OpenFloatWin
    ||| req is Resize
    ||| req is Scroll
    ||| req is MouseEvent
    ||| req is HidePum
    ||| req is SelectPumNext
    ||| req is SelectPumPrev
}

/// The window requests can be carried out without overflow.
pub open spec fn window_request_allowed(v: EditorView, req: Request) -> bool {
    match req {
        Request::Resize { width, height } => width * height <= usize::MAX,
        Request::MouseEvent { button, action, row, col } => match button {
            MouseButton::Left => (action == MouseAction::Press || action == MouseAction::Drag) && row >= 1 ==> {
                let w = cur_win(v);
                let (r, _c) = click_target(v, row, col);
                &&& r <= usize::MAX
                &&& r - w.height + 1 <= usize::MAX
                &&& w.topline + w.height <= usize::MAX
            },
            MouseButton::WheelUp => scroll_allowed(v, -3i32),
            MouseButton::WheelDown => scroll_allowed(v, 3i32),
            _ => true,
        },
        Request::Scroll { lines } => scroll_allowed(v, lines),
        _ => true,
    }
}

/// What a window request does to the editor (the window part of the
/// request handlers): splits add a window onto the current buffer, window
/// moves go round the tab page, a float opens onto a loaded buffer at the
/// place its request gives, a resize sizes the grid and every window (two
/// lines fewer for the status and command lines), scrolls and mouse
/// clicks and wheels move the view and the cursor, and the completion menu
/// is hidden or its selection moved round. Other requests leave the state
/// as it is.
pub open spec fn window_request_effect(v: EditorView, req: Request) -> EditorView {
    let t = cur_tab(v);
    match req {
        Request::SplitWindow { vertical: _ } => with_new_win(v, new_window_view(v.next_win_id, cur_win(v).buffer)),
        Request::NextWindow => EditorView {
            tabs: v.tabs.update(v.current_tab as int, TabView { current: ((t.current + 1) % (t.windows.len() as int)) as usize, ..t }),
            ..v
        },
        Request::PrevWindow => EditorView {
            tabs: v.tabs.update(v.current_tab as int, TabView {
                current: if t.current == 0 { (t.windows.len() - 1) as usize } else { (t.current - 1) as usize },
                ..t
            }),
            ..v
        },
        Request::OpenFloatWin { buf_id, row, col, width, height } => match find_buffer(v.buffers, buf_id) {
            Some(_) => with_new_win(v, new_float_view(v.next_win_id, buf_id, WinConfig {
                row, col, width, height, focusable: true, external: false,
            })),
            None => v,
        },
        Request::Resize { width, height } => EditorView {
            grid_width: width,
            grid_height: height,
            grid_cells: Seq::new((width * height) as nat, |i: int| blank_cell()),
            tabs: resized_tabs(v.tabs, width, if height >= 2 { (height - 2) as usize } else { 0 }),
            ..v
        },
        Request::Scroll { lines } => scroll_effect(v, lines),
        Request::MouseEvent { button, action, row, col } => match button {
            MouseButton::Left => if (action == MouseAction::Press || action == MouseAction::Drag) && row >= 1 {
                let w = cur_win(v);
                let (r, c) = click_target(v, row, col);
                with_cur_win(v, WindowView {
                    cursor: Cursor { row: r as usize, col: c },
                    curswant: c,
                    topline: adjusted_topline(r as usize, w.topline, w.height),
                    ..w
                })
            } else {
                v
            },
            MouseButton::WheelUp => scroll_effect(v, -3i32),
            MouseButton::WheelDown => scroll_effect(v, 3i32),
            _ => v,
        },
        Request::HidePum => EditorView { pum_items: None, pum_index: None, ..v },
        Request::SelectPumNext => match (v.pum_items, v.pum_index) {
            (Some(items), Some(idx)) => EditorView { pum_index: Some(((idx + 1) % (items.len() as int)) as usize), ..v },
            _ => v,
        },
        Request::SelectPumPrev => match (v.pum_items, v.pum_index) {
            (Some(items), Some(idx)) => EditorView {
                pum_index: Some(if idx == 0 { (items.len() - 1) as usize } else { (idx - 1) as usize }),
                ..v
            },
            _ => v,
        },
        _ => v,
    }
}

/// The index of the buffer the current window shows, where it is loaded.
pub open spec fn cur_buffer(v: EditorView) -> Option<int> {
    find_buffer(v.buffers, cur_win(v).buffer)
}

/// A window whose cursor can go to any line: it shows a line at least,
/// and its last line number fits a `usize`.
pub open spec fn cursor_room(w: WindowView) -> bool {
    w.topline + w.height <= usize::MAX && w.height >= 1
}

/// Window `w` with the cursor moved to `(row, col)` (see
/// [`Window::set_cursor`]).
pub open spec fn moved_to(w: WindowView, row: usize, col: usize) -> WindowView {
    WindowView { cursor: Cursor { row, col }, curswant: col, topline: adjusted_topline(row, w.topline, w.height), ..w }
}

/// `v` with buffer `i` replaced by `b`.
pub open spec fn with_buffer(v: EditorView, i: int, b: BufferView) -> EditorView {
    EditorView { buffers: v.buffers.update(i, b), ..v }
}

/// A request can be carried out without overflow.
pub open spec fn request_allowed(v: EditorView, req: Request) -> bool {
    match req {
        Request::SetMode(_) | Request::SetVisualMode(_) | Request::Indent { forward: _ } => cur_buffer(v) matches Some(i) ==> v.buffers[i].history.nodes@.len()
            < usize::MAX,
        Request::Undo => history_allowed(v, true),
        Request::Redo => history_allowed(v, false),
        Request::IncrementNumber { offset: _ } => cur_buffer(v) matches Some(i) ==> {
            let w = cur_win(v);
            &&& v.buffers[i].history.nodes@.len() < usize::MAX
            &&& w.topline + w.height <= usize::MAX
            &&& w.cursor.row - w.height + 1 <= usize::MAX
        },
        Request::NewLine => cur_buffer(v) matches Some(i) ==> {
            let w = cur_win(v);
            let b = v.buffers[i];
            &&& b.history.nodes@.len() + 1 < usize::MAX
            &&& b.lines.len() < usize::MAX
            &&& w.cursor.row < usize::MAX
            &&& w.topline + w.height <= usize::MAX
            &&& w.cursor.row + 1 - w.height + 1 <= usize::MAX
            &&& 1 <= w.cursor.row <= b.lines.len() ==> byte_offset(b.lines[w.cursor.row - 1], leading_ws(b.lines[w.cursor.row - 1]) as int) <= usize::MAX
        },
        Request::InsertChar(c) => !(v.mode is BlockInsert) ==> (cur_buffer(v) matches Some(i) ==> insert_allowed(v, i, c)),
        Request::CmdLineChar(_) => v.cmdline.len() < usize::MAX,
        Request::OpMotion { op, motion, count: _ } => op == Operator::Move && plain_motion(motion) ==> (cur_buffer(v) matches Some(i)
            ==> {
            let w = cur_win(v);
            &&& v.buffers[i].lines.len() < usize::MAX
            &&& w.cursor.row < usize::MAX
            &&& (motion == Motion::Right ==> w.cursor.col < usize::MAX)
            &&& w.topline + w.height <= usize::MAX
            &&& lines_fit(v.buffers[i])
            &&& word_start_ok(v.buffers[i], w.cursor, motion)
        }),
        Request::CursorMove { row, col: _ } => cur_win(v).topline + cur_win(v).height <= usize::MAX && row - cur_win(v).height
            + 1 <= usize::MAX,
        Request::DeleteCharAtCursor { count } => cur_buffer(v) matches Some(i) ==> {
            &&& cur_win(v).cursor.col < usize::MAX
            &&& v.buffers[i].history.nodes@.len() + count + 1 < usize::MAX
            &&& marks_fit(v.buffers[i].extmarks)
        },
        Request::OpenLine { below } => cur_buffer(v) matches Some(i) ==> {
            let w = cur_win(v);
            let b = v.buffers[i];
            let n = if below { w.cursor.row + 1 } else { w.cursor.row as int };
            &&& w.cursor.row < usize::MAX
            &&& b.history.nodes@.len() + 1 < usize::MAX
            &&& b.lines.len() < usize::MAX
            &&& (!b.readonly && 1 <= n <= b.lines.len() + 1 ==> marks_movable(b.extmarks, n as usize, 0, 1, 0))
            &&& w.topline + w.height <= usize::MAX
            &&& n - w.height + 1 <= usize::MAX
        },
        Request::DeleteCurrentLine { count: _ } => {
            &&& cur_win(v).topline + cur_win(v).height <= usize::MAX
            &&& cur_win(v).cursor.row - cur_win(v).height + 1 <= usize::MAX
            &&& (cur_buffer(v) matches Some(i) ==> v.buffers[i].history.nodes@.len() < usize::MAX && rows_fit(v.buffers[i].extmarks, 0))
        },
        Request::InsertModeDeleteLine => {
            &&& cur_win(v).topline + cur_win(v).height <= usize::MAX
            &&& cur_win(v).cursor.row - cur_win(v).height + 1 <= usize::MAX
            &&& (cur_buffer(v) matches Some(i) ==> {
                &&& v.buffers[i].history.nodes@.len() + cur_win(v).cursor.col + 1 < usize::MAX
                &&& marks_fit(v.buffers[i].extmarks)
            })
        },
        Request::ReplaceCharUnderCursor(_) => cur_buffer(v) matches Some(i) ==> {
            let w = cur_win(v);
            &&& v.buffers[i].history.nodes@.len() + 2 < usize::MAX
            &&& marks_fit(v.buffers[i].extmarks)
            &&& w.cursor.col < i32::MAX
            &&& w.topline + w.height <= usize::MAX
            &&& w.cursor.row - w.height + 1 <= usize::MAX
        },
        Request::InsertAtFirstColumn => {
            &&& cur_win(v).topline + cur_win(v).height <= usize::MAX
            &&& cur_win(v).cursor.row - cur_win(v).height + 1 <= usize::MAX
            &&& (cur_buffer(v) matches Some(i) ==> v.buffers[i].history.nodes@.len() < usize::MAX)
        },
        Request::Backspace => !(v.mode is BlockInsert) ==> (cur_buffer(v) matches Some(i) ==> {
            let w = cur_win(v);
            let b = v.buffers[i];
            &&& b.history.nodes@.len() + 1 < usize::MAX
            &&& (!b.readonly && 2 <= w.cursor.row <= b.lines.len() && w.cursor.col == 0 ==> marks_movable(b.extmarks, w.cursor.row, 0, -1i32, 0))
            &&& (!b.readonly && 1 <= w.cursor.row <= b.lines.len() && 1 <= w.cursor.col <= b.lines[w.cursor.row - 1].len()
                ==> marks_movable(b.extmarks, w.cursor.row, w.cursor.col, 0, -1i32))
            &&& w.topline + w.height <= usize::MAX
            &&& w.cursor.row - w.height + 1 <= usize::MAX
        }),
        Request::JumpToMark(c) => cur_buffer(v) matches Some(i) ==> (v.buffers[i].marks.contains_key(c) ==> {
            let w = cur_win(v);
            &&& w.topline + w.height <= usize::MAX
            &&& v.buffers[i].marks[c].row - w.height + 1 <= usize::MAX
        }),
        Request::ExecuteCommandFromConfig(cmd) => ex_allowed(history_pushed(v, cmd@), cmd@),
        Request::ExecuteCommand => v.mode == Mode::CommandLine ==> ex_allowed(command_taken(v), v.cmdline),
        _ => window_request_allowed(v, req),
    }
}

/// The number of characters of line `row` of the current buffer (0 where
/// there is no such line), or `None` where the buffer is not loaded.
pub open spec fn line_len_at(v: EditorView, row: usize) -> Option<usize> {
    match cur_buffer(v) {
        Some(i) => Some(if 1 <= row <= v.buffers[i].lines.len() { v.buffers[i].lines[row - 1].len() as usize } else { 0 }),
        None => None,
    }
}

/// The current window after a cursor move to `(row, col)`: a move to
/// another line in the same column keeps to the wanted column as far as
/// the line allows (see [`Window::set_cursor_vertical`]); any other move
/// goes to `(row, col)` and makes `col` the wanted column.
pub open spec fn cursor_moved(v: EditorView, row: usize, col: usize) -> WindowView {
    let w = cur_win(v);
    if row != w.cursor.row && col == w.cursor.col {
        WindowView {
            cursor: Cursor { row, col: vertical_col(w.curswant, line_len_at(v, row)) },
            topline: adjusted_topline(row, w.topline, w.height),
            ..w
        }
    } else {
        moved_to(w, row, col)
    }
}

/// The leading white space of line `row` of `b` (none where there is no
/// such line).
pub open spec fn indent_of(b: BufferView, row: usize) -> Seq<char> {
    if 1 <= row <= b.lines.len() {
        b.lines[row - 1].take(leading_ws(b.lines[row - 1]) as int)
    } else {
        Seq::empty()
    }
}

/// Whether `line`, its trailing white space left out, ends with an opening
/// bracket (`{`, `(` or `[`).
pub open spec fn opens_block(line: Seq<char>) -> bool {
    let k = line.len() - trailing_ws(line);
    &&& k > 0
    &&& (line[k - 1] == '{' || line[k - 1] == '(' || line[k - 1] == '[')
}

/// The indent of a line opened next to `line`: the leading white space of
/// `line`, and `tabstop` spaces more where `line` opens a block.
pub open spec fn open_indent_text(line: Seq<char>, tabstop: usize) -> Seq<char> {
    let base = line.take(leading_ws(line) as int);
    if opens_block(line) {
        base + Seq::new(tabstop as nat, |k: int| ' ')
    } else {
        base
    }
}

/// The indent of a line opened next to line `row` of `b` (none where there
/// is no such line).
pub open spec fn open_indent(b: BufferView, row: usize, tabstop: usize) -> Seq<char> {
    if 1 <= row <= b.lines.len() {
        open_indent_text(b.lines[row - 1], tabstop)
    } else {
        Seq::empty()
    }
}

/// The length in UTF-8 bytes of [`indent_of`].
pub open spec fn indent_bytes(b: BufferView, row: usize) -> usize {
    if 1 <= row <= b.lines.len() {
        byte_offset(b.lines[row - 1], leading_ws(b.lines[row - 1]) as int) as usize
    } else {
        0
    }
}

/// The number after the cursor on the cursor line changed by `offset`
/// (see [`incremented`]).
pub open spec fn increment_at(b: BufferView, w: WindowView, offset: i32) -> Option<(Seq<char>, int, int)> {
    if 1 <= w.cursor.row <= b.lines.len() {
        incremented(b.lines[w.cursor.row - 1], w.cursor.col as int, offset)
    } else {
        None
    }
}

/// The expansion of an abbreviation that typing `c` makes on the cursor
/// line of buffer `i` (see [`abbreviation_expansion`]).
pub open spec fn typed_expansion(v: EditorView, i: int, c: char) -> Option<(Seq<char>, int)> {
    let w = cur_win(v);
    let b = v.buffers[i];
    if 1 <= w.cursor.row <= b.lines.len() {
        abbreviation_expansion(b.lines[w.cursor.row - 1], w.cursor.col as int, v.abbreviations, c)
    } else {
        None
    }
}

/// The cursor after a typed abbreviation was expanded (the cursor itself
/// where none was).
pub open spec fn cursor_after_expansion(v: EditorView, i: int, c: char) -> Cursor {
    match typed_expansion(v, i, c) {
        Some((_, k)) => Cursor { row: cur_win(v).cursor.row, col: k as usize },
        None => cur_win(v).cursor,
    }
}

/// The current window after a typed abbreviation was expanded: the cursor
/// after the expansion (the window as it was where none was).
pub open spec fn win_after_expansion(v: EditorView, i: int, c: char) -> WindowView {
    match typed_expansion(v, i, c) {
        Some((_, k)) => moved_to(cur_win(v), cur_win(v).cursor.row, k as usize),
        None => cur_win(v),
    }
}

/// Typing `c` into buffer `i` computes no overflow and expands no
/// abbreviation left of a cursor past the end of its line.
pub open spec fn insert_allowed(v: EditorView, i: int, c: char) -> bool {
    let w = cur_win(v);
    let b = v.buffers[i];
    let p = cursor_after_expansion(v, i, c);
    &&& b.history.nodes@.len() + 1 < usize::MAX
    &&& (typed_expansion(v, i, c) is Some ==> w.cursor.col <= b.lines[w.cursor.row - 1].len())
    &&& (typed_expansion(v, i, c) matches Some((t, k)) ==> k <= usize::MAX)
    &&& p.row > b.lines.len() ==> b.lines.len() < usize::MAX
    &&& !b.readonly && 1 <= p.row <= b.lines.len() ==> marks_movable(b.extmarks, p.row, p.col, 0, 1)
    &&& !b.readonly && p.row > b.lines.len() ==> marks_movable(b.extmarks, p.row, 0, 0, 1)
    &&& p.col < usize::MAX
    &&& w.topline + w.height <= usize::MAX
    &&& w.cursor.row - w.height + 1 <= usize::MAX
    &&& win_after_expansion(v, i, c).topline + w.height <= usize::MAX
}

/// `b1` is buffer `i` after the abbreviation that typing `c` makes was
/// expanded on the cursor line (the buffer itself where none was).
pub open spec fn expanded_into(v: EditorView, i: int, c: char, b1: BufferView) -> bool {
    match typed_expansion(v, i, c) {
        Some((t, _)) => exists|u: Result<(), NvimError>| #[trigger] line_set_done(v.buffers[i], b1, cur_win(v).cursor.row, cur_win(v).cursor.col, t, u),
        None => b1 == v.buffers[i],
    }
}

/// The editor after an undo or redo of the current buffer that left it as
/// `b` and answered `u`: the cursor goes where the answer says.
pub open spec fn after_history_move(v: EditorView, v2: EditorView, i: int, b: BufferView, u: Result<Option<Cursor>, NvimError>, r: Result<(), NvimError>) -> bool {
    match u {
        Err(e) => r == Err::<(), NvimError>(e) && v2 == with_buffer(v, i, b),
        Ok(None) => r is Ok && v2 == with_buffer(v, i, b),
        Ok(Some(c)) => r is Ok && v2 == with_cur_win(with_buffer(v, i, b), moved_to(cur_win(v), c.row, c.col)),
    }
}

/// An undo (or, where `undo` is false, a redo) of the current buffer, the
/// cursor going where it says.
pub open spec fn history_done(v: EditorView, v2: EditorView, undo: bool, r: Result<(), NvimError>) -> bool {
    match cur_buffer(v) {
        None => r is Ok && v2 == v,
        Some(i) => exists|u: Result<Option<Cursor>, NvimError>| {
            &&& (if undo { undo_done(v.buffers[i], v2.buffers[i], u) } else { redo_done(v.buffers[i], v2.buffers[i], u) })
            &&& #[trigger] after_history_move(v, v2, i, v2.buffers[i], u, r)
        },
    }
}

/// `v` with command `cmd` put into the command-line history where it is
/// not empty, the history left.
pub open spec fn history_pushed(v: EditorView, cmd: Seq<char>) -> EditorView {
    if cmd.len() > 0 {
        EditorView { cmd_history: v.cmd_history.push(cmd), cmd_history_idx: None, ..v }
    } else {
        v
    }
}

/// `v` once the command line was taken to be run: its command kept in the
/// history, the line emptied, the mode normal again.
pub open spec fn command_taken(v: EditorView) -> EditorView {
    EditorView { mode: Mode::Normal, cmdline: Seq::empty(), cmdline_cursor: 0, ..history_pushed(v, v.cmdline) }
}

/// An undo or a redo computes no overflow.
pub open spec fn history_allowed(v: EditorView, undo: bool) -> bool {
    cur_buffer(v) matches Some(i) ==> (undo ==> v.buffers[i].history.nodes@.len() < usize::MAX) && cursor_room(cur_win(v))
}

/// `v2` is `v` after a change of mode to `m` (see [`request_done`]): the
/// command line is emptied, and an undo group of the current buffer opens
/// or closes as [`undo_group_change_of`] says.
pub open spec fn mode_set(v: EditorView, v2: EditorView, m: Mode, r: Result<(), NvimError>) -> bool {
    r is Ok && match cur_buffer(v) {
        None => v2 == EditorView { mode: m, cmdline: Seq::empty(), cmdline_cursor: 0, ..v },
        Some(i) => {
            &&& v2 == EditorView { mode: m, cmdline: Seq::empty(), cmdline_cursor: 0, ..with_buffer(v, i, v2.buffers[i]) }
            &&& match undo_group_change_of(v.mode, m) {
                UndoGroupChange::Start => v2.buffers[i] == (BufferView { groups: v.buffers[i].groups.push(Seq::empty()), ..v.buffers[i] }),
                UndoGroupChange::End => group_ended(v.buffers[i], v2.buffers[i]),
                UndoGroupChange::Keep => v2.buffers[i] == v.buffers[i],
            }
        },
    }
}

/// `:join`: the cursor line joined with the next (see [`joined_lines`]).
pub open spec fn join_done(v: EditorView, v2: EditorView, r: Result<(), NvimError>) -> bool {
    r is Ok && match cur_buffer(v) {
        Some(i) => {
            let b = v.buffers[i];
            let row = cur_win(v).cursor.row;
            if 1 <= row && row + 1 <= b.lines.len() {
                &&& v2 == with_buffer(v, i, v2.buffers[i])
                &&& exists|b1: BufferView, u1: Result<(), NvimError>, u2: Result<(), NvimError>|
                    #[trigger] line_set_done(b, b1, row, 0, joined_lines(b.lines[row - 1], b.lines[row as int]), u1)
                    && #[trigger] line_delete_done(b1, v2.buffers[i], (row + 1) as usize, u2)
            } else {
                v2 == v
            }
        },
        None => v2 == v,
    }
}

/// `:ascii`: the character under the cursor, shown (see [`ascii_text`]).
pub open spec fn ascii_done(v: EditorView, v2: EditorView, r: Result<(), NvimError>) -> bool {
    r is Ok && match cur_buffer(v) {
        Some(i) => {
            let b = v.buffers[i];
            let w = cur_win(v);
            if 1 <= w.cursor.row <= b.lines.len() && w.cursor.col < b.lines[w.cursor.row - 1].len() {
                v2 == EditorView { cmdline: ascii_text(b.lines[w.cursor.row - 1][w.cursor.col as int]), ..v }
            } else {
                v2 == v
            }
        },
        None => v2 == v,
    }
}

/// `:marks`: the marks of the current buffer, one per line, each once.
pub open spec fn marks_done(v: EditorView, v2: EditorView, r: Result<(), NvimError>) -> bool {
    r is Ok && exists|ms: Seq<(char, Cursor)>| {
        &&& #[trigger] keys_unique(ms)
        &&& match cur_buffer(v) {
            Some(i) => assoc_map(ms) == v.buffers[i].marks,
            None => ms.len() == 0,
        }
        &&& v2 == EditorView { cmdline: joined_with(Seq::new(ms.len(), |k: int| mark_line(ms[k])), '\n'), ..v }
    }
}

/// `:jumps`: the jump list shown.
pub open spec fn jumps_done(v: EditorView, v2: EditorView, r: Result<(), NvimError>) -> bool {
    r is Ok && v2 == EditorView { cmdline: "jump 1 1"@, ..v }
}

/// `:ls`: the buffers, one per line (see [`buffer_entry`]).
pub open spec fn ls_done(v: EditorView, v2: EditorView, r: Result<(), NvimError>) -> bool {
    r is Ok && v2 == EditorView {
        cmdline: joined_with(Seq::new(v.buffers.len(), |k: int| buffer_entry(v.buffers[k])), '\n'),
        ..v
    }
}

/// `:enew`: a new empty buffer, shown in the current window with the
/// cursor at its start.
pub open spec fn enew_done(v: EditorView, v2: EditorView, r: Result<(), NvimError>) -> bool {
    &&& r is Ok
    &&& v2.buffers.len() == v.buffers.len() + 1
    &&& fresh_buffer(v2.buffers.last(), v.next_buf_id)
    &&& v2 == with_cur_win(
        EditorView { buffers: v.buffers.push(v2.buffers.last()), next_buf_id: next_id(v.next_buf_id), ..v },
        moved_to(WindowView { buffer: v.next_buf_id, ..cur_win(v) }, 1, 0),
    )
}

/// `:echomsg`: its words kept as a message.
pub open spec fn echomsg_done(v: EditorView, v2: EditorView, ws: Seq<Seq<char>>, r: Result<(), NvimError>) -> bool {
    r is Ok && v2 == (if ws.len() > 1 { EditorView { messages: v.messages.push(joined_with(ws.skip(1), ' ')), ..v } } else { v })
}

/// `:messages`: the messages shown, one per line.
pub open spec fn messages_done(v: EditorView, v2: EditorView, r: Result<(), NvimError>) -> bool {
    r is Ok && v2 == EditorView { cmdline: joined_with(v.messages, '\n'), ..v }
}

/// What running Ex command `cmd` does to the editor (the commands that
/// need neither files, nor the Lua runtime, nor the expression evaluator):
/// `:tabnew` opens a tab page onto the first buffer, `:tabnext`,
/// `:tabprevious` and `:tabclose` move between and close tab pages
/// (the last one stays), `:undo` and `:redo` act as `u` and `<C-R>` (their
/// errors dropped), `:bnext`, `:bprevious` and `:bdelete` change the
/// current window's buffer (the last buffer stays), `:join` joins the
/// cursor line with the next, `:ascii`, `:marks`, `:jumps`, `:ls` and
/// `:messages` show their text on the command line, `:enew` opens a new
/// empty buffer in the current window, `:echomsg` keeps a message, and
/// `:quit` asks to quit. The commands that need the host (see
/// [`host_command`]) are refused; the others, such as `:set` and unknown
/// commands, do nothing, as in the editor this models.
pub open spec fn ex_done(v: EditorView, v2: EditorView, cmd: Seq<char>, r: Result<(), NvimError>) -> bool {
    let ws = words(command_text(cmd));
    if ws.len() == 0 {
        r is Ok && v2 == v
    } else {
        let name = ws[0];
        let n = v.tabs.len();
        if name == "tabnew"@ {
            r is Ok && v2 == EditorView {
                tabs: v.tabs.push(TabView { windows: seq![new_window_view(v.next_win_id, v.buffers[0].id)], current: 0 }),
                current_tab: n as usize,
                next_win_id: next_id(v.next_win_id),
                ..v
            }
        } else if name == "tabn"@ || name == "tabnext"@ {
            r is Ok && v2 == EditorView { current_tab: ((v.current_tab + 1) % (n as int)) as usize, ..v }
        } else if name == "tabp"@ || name == "tabprevious"@ || name == "tabN"@ || name == "tabNext"@ {
            r is Ok && v2 == EditorView { current_tab: if v.current_tab == 0 { (n - 1) as usize } else { (v.current_tab - 1) as usize }, ..v }
        } else if name == "tabclose"@ {
            r is Ok && v2 == (if n > 1 {
                EditorView {
                    tabs: v.tabs.remove(v.current_tab as int),
                    current_tab: if v.current_tab <= n - 2 { v.current_tab } else { (n - 2) as usize },
                    ..v
                }
            } else {
                v
            })
        } else if name == "undo"@ || name == "u"@ {
            r is Ok && exists|r0: Result<(), NvimError>| #[trigger] history_done(v, v2, true, r0)
        } else if name == "redo"@ {
            r is Ok && exists|r0: Result<(), NvimError>| #[trigger] history_done(v, v2, false, r0)
        } else if name == "bn"@ || name == "bnext"@ || name == "bp"@ || name == "bprev"@ {
            r is Ok && match cur_buffer(v) {
                Some(pos) => {
                    let len = v.buffers.len();
                    let next = if name == "bn"@ || name == "bnext"@ { (pos + 1) % (len as int) } else { (pos + len - 1) % (len as int) };
                    v2 == with_cur_win(v, WindowView { buffer: v.buffers[next].id, ..cur_win(v) })
                },
                None => v2 == v,
            }
        } else if name == "bd"@ || name == "bdelete"@ {
            r is Ok && match cur_buffer(v) {
                Some(pos) => if v.buffers.len() > 1 {
                    let rest = v.buffers.remove(pos);
                    v2 == with_cur_win(EditorView { buffers: rest, ..v }, WindowView { buffer: rest[pos % (rest.len() as int)].id, ..cur_win(v) })
                } else {
                    v2 == v
                },
                None => v2 == v,
            }
        } else if name == "join"@ || name == "j"@ {
            join_done(v, v2, r)
        } else if name == "ascii"@ || name == "as"@ {
            ascii_done(v, v2, r)
        } else if name == "marks"@ {
            marks_done(v, v2, r)
        } else if name == "jumps"@ {
            jumps_done(v, v2, r)
        } else if name == "ls"@ || name == "buffers"@ {
            ls_done(v, v2, r)
        } else if name == "enew"@ {
            enew_done(v, v2, r)
        } else if name == "echomsg"@ {
            echomsg_done(v, v2, ws, r)
        } else if name == "messages"@ {
            messages_done(v, v2, r)
        } else if host_command(name, ws.len() > 1) {
            refused(v, v2, r)
        } else if name == "q"@ || name == "quit"@ {
            r is Ok && v2 == EditorView { quit: true, ..v }
        } else {
            r is Ok && v2 == v
        }
    }
}

/// The buffer that an API call names: `0` is the current window's buffer.
pub open spec fn api_buffer(v: EditorView, id: i32) -> Option<int> {
    if id == 0 { cur_buffer(v) } else { find_buffer(v.buffers, id) }
}

/// The end of a line range as the API gives it: a negative end is the
/// number of lines.
pub open spec fn range_end(lines: Seq<Seq<char>>, end: i32) -> int {
    if end < 0 { lines.len() as int } else { end as int }
}

/// Lines `start` to `end` (end excluded, counted from 0) of `lines`, as
/// far as there are such lines.
pub open spec fn lines_in_range(lines: Seq<Seq<char>>, start: int, end: i32) -> Seq<Seq<char>> {
    let e = range_end(lines, end);
    let e2 = if e > lines.len() { lines.len() as int } else { e };
    if start < e2 { lines.subrange(start, e2) } else { Seq::empty() }
}

/// `lines` with lines `start` to `end` (end excluded, counted from 0)
/// replaced by `new`; nothing changes where `start` is past the end.
pub open spec fn lines_replaced(lines: Seq<Seq<char>>, start: int, end: i32, new: Seq<Seq<char>>) -> Seq<Seq<char>> {
    let e = range_end(lines, end);
    let cut = if e < start { start } else if e > lines.len() { lines.len() as int } else { e };
    if start <= lines.len() { lines.take(start) + new + lines.skip(cut) } else { lines }
}

/// `b` after its lines changed to `lines`, with the undo history and the
/// marks as the edits left them: the rest of the buffer is as it was.
pub open spec fn relined(b: BufferView, b2: BufferView, lines: Seq<Seq<char>>) -> bool {
    b2 == BufferView { lines, modified: b2.modified, groups: b2.groups, history: b2.history, extmarks: b2.extmarks, ..b }
}

/// Setting lines computes no overflow.
pub open spec fn set_lines_allowed(v: EditorView, buf_id: i32, start: usize, n: nat) -> bool {
    api_buffer(v, buf_id) matches Some(i) ==> {
        let b = v.buffers[i];
        &&& b.history.nodes@.len() + b.lines.len() + n < usize::MAX
        &&& start + n < usize::MAX
        &&& rows_fit(b.extmarks, n)
    }
}

/// Window `w` of tab page `t` is the first window with id `id`, tab page
/// by tab page.
pub open spec fn first_window(v: EditorView, id: i32, t: int, w: int) -> bool {
    &&& 0 <= t < v.tabs.len()
    &&& 0 <= w < v.tabs[t].windows.len()
    &&& v.tabs[t].windows[w].id == id
    &&& forall|t2: int, w2: int| 0 <= t2 < v.tabs.len() && 0 <= w2 < v.tabs[t2].windows.len() && (t2 < t || (t2 == t && w2 < w))
        ==> (#[trigger] v.tabs[t2].windows[w2]).id != id
}

/// No window has id `id`.
pub open spec fn no_window(v: EditorView, id: i32) -> bool {
    forall|t2: int, w2: int| 0 <= t2 < v.tabs.len() && 0 <= w2 < v.tabs[t2].windows.len() ==> (#[trigger] v.tabs[t2].windows[w2]).id != id
}

/// `v` with window `w` of tab page `t` replaced by `win`.
pub open spec fn with_window(v: EditorView, t: int, w: int, win: WindowView) -> EditorView {
    EditorView { tabs: v.tabs.update(t, TabView { windows: v.tabs[t].windows.update(w, win), ..v.tabs[t] }), ..v }
}

/// The message of an API call on a buffer that is not loaded.
pub open spec fn no_buffer_text() -> Seq<char> {
    "no such buffer"@
}

/// The character of digit `d` (lower-case letters past 9).
pub open spec fn radix_char(d: nat) -> char {
    if d < 10 { (('0' as u32) + d) as char } else { (('a' as u32) + (d - 10)) as char }
}

/// The digits of `n` in base `base`, without leading zeros.
pub open spec fn radix_digits(n: nat, base: nat) -> Seq<char>
    decreases n,
{
    if base < 2 || n < base {
        seq![radix_char(n)]
    } else {
        proof {
            assert(n / base < n) by (nonlinear_arith)
                requires
                    base >= 2,
                    n >= base,
            ;
        }
        radix_digits(n / base, base).push(radix_char(n % base))
    }
}

/// What `:ascii` shows for character `c`: the character, its code in
/// decimal, in hexadecimal (two digits at least) and in octal.
pub open spec fn ascii_text(c: char) -> Seq<char> {
    let code = c as u32 as nat;
    let hex = if code < 16 { seq!['0'] + radix_digits(code, 16) } else { radix_digits(code, 16) };
    "<"@ + seq![c] + ">  "@ + radix_digits(code, 10) + ",  Hex "@ + hex + ",  Octal "@ + radix_digits(code, 8)
}

/// A line of `:marks`: the mark, its row and its column.
pub open spec fn mark_line(m: (char, Cursor)) -> Seq<char> {
    seq![m.0] + " "@ + radix_digits(m.1.row as nat, 10) + " "@ + radix_digits(m.1.col as nat, 10)
}

/// A line of `:ls`: the buffer's id and its name (`[No Name]` where it has
/// none).
pub open spec fn buffer_entry(b: BufferView) -> Seq<char> {
    let id = if b.id < 0 { seq!['-'] + radix_digits((-b.id) as nat, 10) } else { radix_digits(b.id as nat, 10) };
    id + " "@ + match b.full_name { Some(n) => n, None => "[No Name]"@ }
}

/// `b` is the buffer that `Buffer::new(id)` makes.
pub open spec fn fresh_buffer(b: BufferView, id: i32) -> bool {
    &&& b.id == id
    &&& b.lines == Seq::<Seq<char>>::empty()
    &&& b.full_name is None
    &&& b.short_name is None
    &&& !b.modified
    &&& !b.readonly
    &&& b.groups == Seq::<Seq<ActionView>>::empty()
    &&& b.history.nodes@.len() == 1
    &&& b.history.current_idx == 0
    &&& b.marks == Map::<char, Cursor>::empty()
    &&& b.virtual_text == Map::<usize, String>::empty()
    &&& b.signs == Map::<usize, String>::empty()
    &&& b.extmarks.marks == Map::<(i32, i32), ExtmarkView>::empty()
    &&& b.extmarks.next_mark_id == 1
}

/// The Ex commands that need the host: files, the environment, the Lua
/// runtime or the expression evaluator. `args` is whether the command has
/// arguments (without them some of these do nothing).
pub open spec fn host_command(name: Seq<char>, args: bool) -> bool {
    ||| name == "w"@ || name == "write"@ || name == "pwd"@ || name == "Lazy"@
    ||| name == "source"@ || name == "so"@
    ||| name == "command"@ || name == "command!"@ || name == "com"@ || name == "com!"@
    ||| args && (name == "e"@ || name == "edit"@ || name == "saveas"@ || name == "echo"@ || name == "let"@ || name == "lua"@)
}

/// `:join` computes no overflow.
pub open spec fn join_allowed(v: EditorView) -> bool {
    cur_buffer(v) matches Some(i) ==> {
        let b = v.buffers[i];
        let row = cur_win(v).cursor.row;
        &&& row < usize::MAX
        &&& b.history.nodes@.len() + 1 < usize::MAX
        &&& (!b.readonly && 1 <= row && row + 1 <= b.lines.len() ==> marks_movable(b.extmarks, (row + 1) as usize, 0, -1i32, 0))
    }
}

/// Running `cmd` computes no overflow.
pub open spec fn ex_allowed(v: EditorView, cmd: Seq<char>) -> bool {
    let ws = words(command_text(cmd));
    ws.len() > 0 ==> {
        let name = ws[0];
        &&& (name == "undo"@ || name == "u"@) ==> history_allowed(v, true)
        &&& name == "redo"@ ==> history_allowed(v, false)
        &&& name == "tabnew"@ ==> v.tabs.len() < usize::MAX
        &&& (name == "join"@ || name == "j"@) ==> join_allowed(v)
        &&& name == "enew"@ ==> cur_win(v).topline + cur_win(v).height <= usize::MAX
    }
}

/// `after` is `before` after `k` deletes of line `lnum` and the close of
/// the undo group they went into.
pub open spec fn deleted_then_closed(before: BufferView, after: BufferView, lnum: usize, k: nat) -> bool {
    exists|b1: BufferView| #[trigger] lines_deleted(before, b1, lnum, k) && group_ended(b1, after)
}

/// `after` is `before` with the character at column `col` of line `lnum`
/// deleted and `c` inserted in its place, whatever each edit answered.
pub open spec fn replaced_at(before: BufferView, after: BufferView, lnum: usize, col: usize, c: char) -> bool {
    exists|b1: BufferView, u1: Result<Option<usize>, NvimError>, u2: Result<(), NvimError>|
        #![trigger char_delete_done(before, b1, lnum, (col + 1) as usize, u1), char_insert_done(b1, after, lnum, col, c, u2)]
        char_delete_done(before, b1, lnum, (col + 1) as usize, u1) && char_insert_done(b1, after, lnum, col, c, u2)
}

/// `dd` with a count (see [`EditorState::apply_request`]): in one undo
/// group, line `row` of the cursor is deleted `count` times while there is
/// such a line, and the cursor goes to the first column of that line, or of
/// the last one. A read-only buffer, or a cursor on no line, gives an error
/// with the group left open.
pub open spec fn lines_cut_done(v: EditorView, v2: EditorView, count: u32, r: Result<(), NvimError>) -> bool {
    match cur_buffer(v) {
        None => r is Ok && v2 == v,
        Some(i) => {
            let w = cur_win(v);
            let b = v.buffers[i];
            let row = w.cursor.row;
            let opened = BufferView { groups: b.groups.push(Seq::empty()), ..b };
            if count == 0 || row > b.lines.len() {
                r is Ok && v2 == with_cur_win(v, moved_to(w, if row < b.lines.len() { row } else { b.lines.len() as usize }, 0))
            } else if b.readonly || row == 0 {
                &&& r matches Err(e) && (b.readonly ==> e == NvimError::ReadOnly) && (!b.readonly ==> e is Buffer)
                &&& v2 == with_buffer(v, i, opened)
            } else {
                let k = if count <= b.lines.len() - row + 1 { count as nat } else { (b.lines.len() - row + 1) as nat };
                &&& r is Ok
                &&& deleted_then_closed(opened, v2.buffers[i], row, k)
                &&& v2 == with_cur_win(with_buffer(v, i, v2.buffers[i]),
                    moved_to(w, if row < b.lines.len() - k { row } else { (b.lines.len() - k) as usize }, 0))
            }
        },
    }
}

/// What [`EditorState::apply_request`] does: the window requests as
/// [`window_request_effect`] says; cursor moves (see [`cursor_moved`]); a
/// change of mode (see [`mode_set`]); entering visual mode, which also
/// remembers where the selection starts;
/// undo and redo of the current buffer, the cursor going where they say;
/// indenting the cursor line by the `tabstop` option; `zz`, `zt` and `zb`;
/// cursor motions that
/// need no search of the text (see [`motion_window`]; operators and the
/// other motions are not carried out here); and the editing of
/// the command line in command-line mode (see [`cmdline_effect`]; the
/// incremental search of search mode is not carried out here); `x` with a
/// count (see [`chars_cut`]); `dd` with a count (see [`lines_cut_done`]);
/// `r` with a character; backspace outside block insert; `<C-U>` in
/// insert mode; insert mode
/// at the first column; `o` and `O` (see [`open_indent`]); setting a
/// mark and jumping to it; and the Ex commands that keys or the command
/// line run (see [`ex_done`]). Where the current window's buffer is not
/// loaded, only the mode changes. The other requests are refused (see
/// [`refused`]).
pub open spec fn request_done(v: EditorView, v2: EditorView, req: Request, r: Result<(), NvimError>) -> bool {
    match req {
        Request::SetMode(m) => mode_set(v, v2, m, r),
        Request::SetVisualMode(vm) => {
            &&& v2.visual_anchor == (if v.mode is Visual { v.visual_anchor } else { Some(cur_win(v).cursor) })
            &&& mode_set(v, EditorView { visual_anchor: v.visual_anchor, ..v2 }, Mode::Visual(vm), r)
        },
        Request::Undo => history_done(v, v2, true, r),
        Request::Redo => history_done(v, v2, false, r),
        Request::Indent { forward } => match cur_buffer(v) {
            None => r is Ok && v2 == v,
            Some(i) => {
                &&& v2 == with_buffer(v, i, v2.buffers[i])
                &&& indent_done(v.buffers[i], v2.buffers[i], cur_win(v).cursor.row, forward, v.tabstop, r)
            },
        },
        Request::CursorMove { row, col } => r is Ok && v2 == with_cur_win(v, cursor_moved(v, row, col)),
        Request::CenterCursor => r is Ok && v2 == with_cur_win(v, WindowView {
            topline: at_least_one(cur_win(v).cursor.row - cur_win(v).height / 2),
            ..cur_win(v)
        }),
        Request::CursorToTop => r is Ok && v2 == with_cur_win(v, WindowView { topline: cur_win(v).cursor.row, ..cur_win(v) }),
        Request::CursorToBottom => r is Ok && v2 == with_cur_win(v, WindowView {
            topline: at_least_one(cur_win(v).cursor.row - (if cur_win(v).height >= 1 { cur_win(v).height - 1 } else { 0 })),
            ..cur_win(v)
        }),
        Request::OpMotion { op, motion, count } => if op == Operator::Move && plain_motion(motion) {
            r is Ok && match cur_buffer(v) {
                Some(i) => v2 == with_cur_win(v, motion_window(v.buffers[i], cur_win(v), motion, count)),
                None => v2 == v,
            }
        } else {
            refused(v, v2, r)
        },
        Request::CmdLineChar(_) | Request::CmdLineBackspace | Request::CmdLineDeleteWord | Request::CmdLineDeleteLine
        | Request::CmdLineMoveCursorTo { pos: _ } | Request::CmdLineHistory { forward: _ } | Request::CmdLineTab => if v.mode
            == Mode::CommandLine {
            r is Ok && v2 == cmdline_effect(v, req)
        } else {
            refused(v, v2, r)
        },
        Request::InsertChar(c) => if v.mode is BlockInsert {
            refused(v, v2, r)
        } else {
            match cur_buffer(v) {
                None => r is Ok && v2 == v,
                Some(i) => {
                    let w = cur_win(v);
                    let p = cursor_after_expansion(v, i, c);
                    exists|b1: BufferView| {
                        &&& #[trigger] expanded_into(v, i, c, b1)
                        &&& char_insert_done(b1, v2.buffers[i], p.row, p.col, c, r)
                        &&& v2 == with_cur_win(with_buffer(v, i, v2.buffers[i]), if r is Ok {
                            moved_to(win_after_expansion(v, i, c), p.row, (p.col + 1) as usize)
                        } else {
                            win_after_expansion(v, i, c)
                        })
                    }
                },
            }
        },
        Request::IncrementNumber { offset } => match cur_buffer(v) {
            None => r is Ok && v2 == v,
            Some(i) => match increment_at(v.buffers[i], cur_win(v), offset) {
                None => r is Ok && v2 == v,
                Some((t, s, c)) => {
                    &&& r is Ok
                    &&& v2 == with_cur_win(with_buffer(v, i, v2.buffers[i]), moved_to(cur_win(v), cur_win(v).cursor.row, c as usize))
                    &&& exists|u: Result<(), NvimError>| #[trigger] line_set_done(v.buffers[i], v2.buffers[i], cur_win(v).cursor.row, s as usize, t, u)
                },
            },
        },
        Request::NewLine => match cur_buffer(v) {
            None => r is Ok && v2 == v,
            Some(i) => {
                let w = cur_win(v);
                let indent = indent_of(v.buffers[i], w.cursor.row);
                exists|b1: BufferView| {
                    &&& #[trigger] newline_done(v.buffers[i], b1, w.cursor.row, w.cursor.col, r)
                    &&& r is Err ==> v2 == with_buffer(v, i, b1)
                    &&& r is Ok ==> {
                        &&& v2 == with_cur_win(with_buffer(v, i, v2.buffers[i]), moved_to(w, (w.cursor.row + 1) as usize, indent_bytes(v.buffers[i], w.cursor.row)))
                        &&& exists|u: Result<(), NvimError>| #[trigger] line_set_done(b1, v2.buffers[i], (w.cursor.row + 1) as usize, 0, indent + b1.lines[w.cursor.row as int], u)
                    }
                }
            },
        },
        Request::DeleteCharAtCursor { count } => r is Ok && match cur_buffer(v) {
            Some(i) => {
                &&& v2 == with_buffer(v, i, v2.buffers[i])
                &&& chars_cut(v.buffers[i], v2.buffers[i], cur_win(v).cursor.row, cur_win(v).cursor.col, count as nat)
            },
            None => v2 == v,
        },
        Request::OpenLine { below } => match cur_buffer(v) {
            None => mode_set(v, v2, Mode::Insert, r),
            Some(i) => {
                let w = cur_win(v);
                let n = (if below { w.cursor.row + 1 } else { w.cursor.row as int }) as usize;
                let indent = open_indent(v.buffers[i], w.cursor.row, v.tabstop);
                exists|v1: EditorView| {
                    &&& #[trigger] mode_set(v, v1, Mode::Insert, Ok::<(), NvimError>(()))
                    &&& line_insert_done(v1.buffers[i], v2.buffers[i], n, indent, r)
                    &&& v2 == (if r is Ok {
                        with_cur_win(with_buffer(v1, i, v2.buffers[i]), moved_to(w, n, indent.len() as usize))
                    } else {
                        with_buffer(v1, i, v2.buffers[i])
                    })
                }
            },
        },
        Request::DeleteCurrentLine { count } => lines_cut_done(v, v2, count, r),
        Request::InsertModeDeleteLine => r is Ok && match cur_buffer(v) {
            Some(i) => {
                let w = cur_win(v);
                &&& chars_cut(v.buffers[i], v2.buffers[i], w.cursor.row, 0, w.cursor.col as nat)
                &&& v2 == with_cur_win(with_buffer(v, i, v2.buffers[i]), moved_to(w, w.cursor.row, 0))
            },
            None => v2 == with_cur_win(v, moved_to(cur_win(v), cur_win(v).cursor.row, 0)),
        },
        Request::ReplaceCharUnderCursor(c) => r is Ok && match cur_buffer(v) {
            Some(i) => {
                let w = cur_win(v);
                let b = v.buffers[i];
                if 1 <= w.cursor.row <= b.lines.len() && w.cursor.col < b.lines[w.cursor.row - 1].len() {
                    &&& replaced_at(b, v2.buffers[i], w.cursor.row, w.cursor.col, c)
                    &&& v2 == with_cur_win(with_buffer(v, i, v2.buffers[i]), moved_to(w, w.cursor.row, (w.cursor.col + 1) as usize))
                } else {
                    v2 == v
                }
            },
            None => v2 == v,
        },
        Request::InsertAtFirstColumn => mode_set(with_cur_win(v, moved_to(cur_win(v), cur_win(v).cursor.row, 0)), v2, Mode::Insert, r),
        Request::Backspace => if v.mode is BlockInsert {
            refused(v, v2, r)
        } else {
            match cur_buffer(v) {
                None => r is Ok && v2 == v,
                Some(i) => {
                    let w = cur_win(v);
                    exists|u: Result<Option<usize>, NvimError>| {
                        &&& #[trigger] char_delete_done(v.buffers[i], v2.buffers[i], w.cursor.row, w.cursor.col, u)
                        &&& match u {
                            Err(e) => r == Err::<(), NvimError>(e) && v2 == with_buffer(v, i, v2.buffers[i]),
                            Ok(None) => r is Ok && v2 == with_buffer(v, i, v2.buffers[i]),
                            Ok(Some(nc)) => r is Ok && v2 == with_cur_win(with_buffer(v, i, v2.buffers[i]),
                                moved_to(w, (if w.cursor.col == 0 { w.cursor.row - 1 } else { w.cursor.row as int }) as usize, nc)),
                        }
                    }
                },
            }
        },
        Request::SetMark(c) => r is Ok && match cur_buffer(v) {
            Some(i) => v2 == with_buffer(v, i, BufferView { marks: v.buffers[i].marks.insert(c, cur_win(v).cursor), ..v.buffers[i] }),
            None => v2 == v,
        },
        Request::JumpToMark(c) => r is Ok && match cur_buffer(v) {
            Some(i) => v2 == (if v.buffers[i].marks.contains_key(c) {
                with_cur_win(v, moved_to(cur_win(v), v.buffers[i].marks[c].row, v.buffers[i].marks[c].col))
            } else {
                v
            }),
            None => v2 == v,
        },
        Request::ExecuteCommandFromConfig(cmd) => ex_done(history_pushed(v, cmd@), v2, cmd@, r),
        Request::ExecuteCommand => if v.mode == Mode::CommandLine {
            ex_done(command_taken(v), v2, v.cmdline, r)
        } else {
            refused(v, v2, r)
        },
        _ => if is_window_request(req) {
            r is Ok && v2 == window_request_effect(v, req)
        } else {
            refused(v, v2, r)
        },
    }
}

/// The indent of a line opened next to `line` (see [`open_indent_text`]).
fn open_indent_of(line: &Vec<char>, tabstop: usize) -> (r: Vec<char>)
    ensures
        r@ == open_indent_text(line@, tabstop),
{
    let ghost l = line@;
    let mut v: Vec<char> = Vec::new();
    let mut k: usize = 0;
    proof {
        assert(l.take(0) =~= Seq::<char>::empty());
    }
    while k < line.len() && char_is_whitespace(line[k])
        invariant
            k <= l.len(),
            line@ == l,
            v@ == l.take(k as int),
            forall|j: int| 0 <= j < k ==> spec_is_whitespace(#[trigger] l[j]),
        decreases l.len() - k,
    {
        v.push(line[k]);
        proof {
            assert(l.take(k + 1) =~= l.take(k as int).push(l[k as int]));
        }
        k += 1;
    }
    proof {
        lemma_leading_ws(l, k as nat);
    }
    let mut e: usize = line.len();
    while e > 0 && char_is_whitespace(line[e - 1])
        invariant
            e <= l.len(),
            line@ == l,
            forall|j: int| e <= j < l.len() ==> spec_is_whitespace(#[trigger] l[j]),
        decreases e,
    {
        e -= 1;
    }
    proof {
        lemma_trailing_ws(l, (l.len() - e) as nat);
    }
    if e > 0 && (line[e - 1] == '{' || line[e - 1] == '(' || line[e - 1] == '[') {
        let ghost base = v@;
        let mut t: usize = 0;
        while t < tabstop
            invariant
                t <= tabstop,
                v@ == base + Seq::new(t as nat, |j: int| ' '),
            decreases tabstop - t,
        {
            v.push(' ');
            proof {
                assert(base + Seq::new((t + 1) as nat, |j: int| ' ') =~= (base + Seq::new(t as nat, |j: int| ' ')).push(' '));
            }
            t += 1;
        }
    }
    v
}

proof fn lemma_leading_ws_ge(s: Seq<char>, k: nat)
    requires
        k <= s.len(),
        forall|j: int| 0 <= j < k ==> spec_is_whitespace(#[trigger] s[j]),
    ensures
        leading_ws(s) >= k,
    decreases k,
{
    if k > 0 {
        assert(spec_is_whitespace(s[0]));
        assert forall|j: int| 0 <= j < k - 1 implies spec_is_whitespace(#[trigger] s.drop_first()[j]) by {
            assert(spec_is_whitespace(s[j + 1]));
        }
        lemma_leading_ws_ge(s.drop_first(), (k - 1) as nat);
    }
}

proof fn lemma_leading_ws_le(s: Seq<char>)
    ensures
        leading_ws(s) <= s.len(),
    decreases s.len(),
{
    if s.len() > 0 {
        lemma_leading_ws_le(s.drop_first());
    }
}

/// The leading white space of `line` and its length in UTF-8 bytes.
fn leading_white(line: &str) -> (r: (Vec<char>, usize))
    requires
        byte_offset(line@, leading_ws(line@) as int) <= usize::MAX,
    ensures
        r.0@ == line@.take(leading_ws(line@) as int),
        r.1 == byte_offset(line@, leading_ws(line@) as int),
{
    let cs = chars_of(line);
    let ghost l = line@;
    let mut v: Vec<char> = Vec::new();
    let mut n: usize = 0;
    let mut k: usize = 0;
    proof {
        assert(l.take(0) =~= Seq::<char>::empty());
    }
    while k < cs.len() && char_is_whitespace(cs[k])
        invariant
            k <= l.len(),
            cs@ == l,
            v@ == l.take(k as int),
            forall|j: int| 0 <= j < k ==> spec_is_whitespace(#[trigger] l[j]),
            n == byte_offset(l, k as int),
            byte_offset(l, leading_ws(l) as int) <= usize::MAX,
        decreases l.len() - k,
    {
        proof {
            lemma_byte_offset_step(l, k as int);
            lemma_leading_ws_ge(l, k as nat + 1);
            let m = leading_ws(l) as int;
            lemma_leading_ws_le(l);
            crate::text::lemma_byte_offset_bound(l.take(m), k as int + 1);
            assert(l.take(m).take(k as int + 1) =~= l.take(k as int + 1));
            crate::text::lemma_byte_offset_bound(l.take(m), m);
            assert(l.take(m).take(m) =~= l.take(m));
        }
        v.push(cs[k]);
        proof {
            assert(l.take(k + 1) =~= l.take(k as int).push(l[k as int]));
        }
        n = n + utf8_len(cs[k]);
        k += 1;
    }
    proof {
        lemma_leading_ws(l, k as nat);
    }
    (v, n)
}

proof fn lemma_with_cur_win_twice(x: EditorView, w1: WindowView, w2: WindowView)
    requires
        editor_view_ok(x),
    ensures
        with_cur_win(with_cur_win(x, w1), w2) == with_cur_win(x, w2),
{
    let t = cur_tab(x);
    let y = with_cur_win(x, w1);
    assert(cur_tab(y) == TabView { windows: t.windows.update(t.current as int, w1), ..t });
    assert(t.windows.update(t.current as int, w1).update(t.current as int, w2) =~= t.windows.update(t.current as int, w2));
    assert(with_cur_win(y, w2).tabs =~= with_cur_win(x, w2).tabs);
}

/// Back from `s` over white space.
pub open spec fn back_ws(c: Seq<char>, s: int) -> int
    decreases s,
{
    if s > 0 && spec_is_whitespace(c[s]) { back_ws(c, s - 1) } else { s }
}

/// Back from `s` over other characters.
pub open spec fn back_word(c: Seq<char>, s: int) -> int
    decreases s,
{
    if s > 0 && !spec_is_whitespace(c[s]) { back_word(c, s - 1) } else { s }
}

/// Where the word before column `cur` (and the white space after it)
/// starts, for `<C-W>` on the command line.
pub open spec fn word_start_before(c: Seq<char>, cur: int) -> int {
    let b = back_word(c, back_ws(c, cur - 1));
    if b > 0 && spec_is_whitespace(c[b]) { b + 1 } else { b }
}

/// The command line's cursor, held to the end of the line.
pub open spec fn cmd_cursor(v: EditorView) -> usize {
    if v.cmdline_cursor <= v.cmdline.len() { v.cmdline_cursor } else { v.cmdline.len() as usize }
}

/// The completions of `:Lazy`.
pub open spec fn lazy_prefix(s: Seq<char>) -> bool {
    s == "L"@ || s == "La"@ || s == "Laz"@ || s == "Lazy"@
}

/// What an editing request of the command line does in command-line mode:
/// typed characters go in at the cursor; backspace deletes before the
/// cursor and, on an empty line, goes back to normal mode; `<C-W>`
/// deletes the word before the cursor, `<C-U>` the line; the cursor can be
/// put anywhere on the line; the history fills the line with an earlier
/// or later command (or empties it past the newest); tab completes
/// `:Lazy`.
pub open spec fn cmdline_effect(v: EditorView, req: Request) -> EditorView {
    let len = v.cmdline.len();
    let cur = cmd_cursor(v);
    match req {
        Request::CmdLineChar(c) => EditorView { cmdline: v.cmdline.insert(cur as int, c), cmdline_cursor: (cur + 1) as usize, ..v },
        Request::CmdLineBackspace => if len == 0 {
            EditorView { mode: Mode::Normal, cmdline: Seq::empty(), cmdline_cursor: 0, ..v }
        } else if 0 < v.cmdline_cursor <= len {
            EditorView { cmdline: v.cmdline.remove(v.cmdline_cursor - 1), cmdline_cursor: (v.cmdline_cursor - 1) as usize, ..v }
        } else if v.cmdline_cursor == 0 {
            v
        } else {
            EditorView { cmdline_cursor: len as usize, ..v }
        },
        Request::CmdLineDeleteWord => if cur > 0 {
            let st = word_start_before(v.cmdline, cur as int);
            EditorView { cmdline: v.cmdline.take(st) + v.cmdline.skip(cur as int), cmdline_cursor: st as usize, ..v }
        } else {
            v
        },
        Request::CmdLineDeleteLine => EditorView { cmdline: Seq::empty(), cmdline_cursor: 0, ..v },
        Request::CmdLineMoveCursorTo { pos } => EditorView { cmdline_cursor: if pos <= len { pos } else { len as usize }, ..v },
        Request::CmdLineHistory { forward } => if v.cmd_history.len() == 0 {
            v
        } else {
            let n = v.cmd_history.len();
            let new_idx: Option<int> = match v.cmd_history_idx {
                Some(i) => if forward {
                    if i + 1 < n { Some(i + 1) } else { None }
                } else if i > 0 {
                    Some(i - 1)
                } else {
                    Some(0)
                },
                None => if forward { None } else { Some(n - 1) },
            };
            match new_idx {
                Some(i) => EditorView {
                    cmdline: v.cmd_history[i],
                    cmdline_cursor: v.cmd_history[i].len() as usize,
                    cmd_history_idx: Some(i as usize),
                    ..v
                },
                None => EditorView { cmdline: Seq::empty(), cmdline_cursor: 0, cmd_history_idx: None, ..v },
            }
        },
        Request::CmdLineTab => if lazy_prefix(v.cmdline) {
            EditorView { cmdline: "Lazy"@, cmdline_cursor: 4, ..v }
        } else {
            v
        },
        _ => v,
    }
}

/// The requests that edit the command line.
pub open spec fn is_cmdline_edit(req: Request) -> bool {
    ||| req is CmdLineChar
    ||| req is CmdLineBackspace
    ||| req is CmdLineDeleteWord
    ||| req is CmdLineDeleteLine
    ||| req is CmdLineMoveCursorTo
    ||| req is CmdLineHistory
    ||| req is CmdLineTab
}

/// The command line after `<C-W>` at `cur`, and the new cursor.
fn delete_word_before(c: &Vec<char>, cur: usize) -> (r: (Vec<char>, usize))
    requires
        0 < cur <= c@.len(),
    ensures
        r.1 == word_start_before(c@, cur as int),
        r.0@ == c@.take(r.1 as int) + c@.skip(cur as int),
{
    let ghost cs = c@;
    let len = c.len();
    let mut start = cur - 1;
    proof {
        lemma_back(cs, cur - 1);
    }
    while start > 0 && char_is_whitespace(c[start])
        invariant
            start < cs.len(),
            cs == c@,
            back_ws(cs, start as int) == back_ws(cs, cur - 1),
        decreases start,
    {
        start -= 1;
    }
    let ghost a = start;
    proof {
        lemma_back(cs, a as int);
    }
    while start > 0 && !char_is_whitespace(c[start])
        invariant
            start < cs.len(),
            cs == c@,
            back_ws(cs, cur - 1) == a,
            back_word(cs, start as int) == back_word(cs, a as int),
        decreases start,
    {
        start -= 1;
    }
    if start > 0 && char_is_whitespace(c[start]) {
        start += 1;
    }
    assert(start == word_start_before(cs, cur as int));
    let mut nc: Vec<char> = Vec::new();
    let mut k: usize = 0;
    while k < start
        invariant
            k <= start <= cur <= cs.len(),
            cs == c@,
            nc@ == cs.take(k as int),
        decreases start - k,
    {
        nc.push(c[k]);
        proof {
            assert(cs.take(k + 1) =~= cs.take(k as int).push(cs[k as int]));
        }
        k += 1;
    }
    let mut j: usize = cur;
    while j < len
        invariant
            start <= cur <= j <= len,
            len == cs.len(),
            cs == c@,
            nc@ == cs.take(start as int) + cs.subrange(cur as int, j as int),
        decreases len - j,
    {
        nc.push(c[j]);
        proof {
            assert(cs.subrange(cur as int, j + 1) =~= cs.subrange(cur as int, j as int).push(cs[j as int]));
        }
        j += 1;
    }
    proof {
        assert(cs.subrange(cur as int, len as int) =~= cs.skip(cur as int));
    }
    (nc, start)
}

/// Whether the command line is a start of `Lazy`.
fn is_lazy_prefix(cl: &Vec<char>) -> (r: bool)
    ensures
        r == lazy_prefix(cl@),
{
    let lazy = chars_of("Lazy");
    proof {
        reveal_strlit("Lazy");
        reveal_strlit("Laz");
        reveal_strlit("La");
        reveal_strlit("L");
    }
    if cl.len() < 1 || cl.len() > 4 {
        return false;
    }
    let mut k: usize = 0;
    while k < cl.len()
        invariant
            k <= cl@.len() <= 4,
            lazy@ == "Lazy"@,
            lazy@.len() == 4,
            forall|j: int| 0 <= j < k ==> cl@[j] == lazy@[j],
        decreases cl@.len() - k,
    {
        if cl[k] != lazy[k] {
            proof {
                reveal_strlit("Lazy");
                reveal_strlit("Laz");
                reveal_strlit("La");
                reveal_strlit("L");
                if lazy_prefix(cl@) {
                    assert("Lazy"@.take(1) =~= "L"@);
                    assert("Lazy"@.take(2) =~= "La"@);
                    assert("Lazy"@.take(3) =~= "Laz"@);
                    assert(cl@ == "Lazy"@.take(cl@.len() as int));
                }
            }
            return false;
        }
        k += 1;
    }
    proof {
        assert(cl@ =~= "Lazy"@.take(cl@.len() as int));
        assert("Lazy"@.take(1) =~= "L"@);
        assert("Lazy"@.take(2) =~= "La"@);
        assert("Lazy"@.take(3) =~= "Laz"@);
        assert("Lazy"@.take(4) =~= "Lazy"@);
    }
    true
}

/// The number of characters of line `row` (0 where there is none).
pub open spec fn line_len(b: BufferView, row: usize) -> usize {
    if 1 <= row <= b.lines.len() { b.lines[row - 1].len() as usize } else { 0 }
}

/// `n - 1`, but at least 0.
pub open spec fn less_one(n: usize) -> usize {
    if n >= 1 { (n - 1) as usize } else { 0 }
}

/// The motions that the editor state carries out itself: by characters
/// and lines, to the ends and the middle of the line and of the buffer,
/// by words and by paragraphs.
pub open spec fn plain_motion(m: Motion) -> bool {
    ||| m == Motion::WordForward
    ||| m == Motion::WordBackward
    ||| m == Motion::WordBack
    ||| m == Motion::ParagraphForward
    ||| m == Motion::ParagraphBackward
    ||| m == Motion::Left
    ||| m == Motion::Right
    ||| m == Motion::Up
    ||| m == Motion::Down
    ||| m == Motion::LineStart
    ||| m == Motion::LineEnd
    ||| m == Motion::LineMiddle
    ||| m == Motion::BufferStart
    ||| m == Motion::BufferEnd
}

/// Where one step of a motion other than up and down takes the cursor `t`
/// in buffer `b`.
pub open spec fn step_cursor(b: BufferView, t: Cursor, m: Motion) -> Cursor {
    let n = line_len(b, t.row);
    if m == Motion::Left {
        Cursor { row: t.row, col: less_one(t.col) }
    } else if m == Motion::Right {
        Cursor { row: t.row, col: if t.col + 1 <= less_one(n) { (t.col + 1) as usize } else { less_one(n) } }
    } else if m == Motion::LineStart {
        Cursor { row: t.row, col: 0 }
    } else if m == Motion::LineEnd {
        Cursor { row: t.row, col: less_one(n) }
    } else if m == Motion::LineMiddle {
        Cursor { row: t.row, col: n / 2 }
    } else if m == Motion::BufferStart {
        Cursor { row: 1, col: 0 }
    } else if m == Motion::BufferEnd {
        Cursor { row: b.lines.len() as usize, col: 0 }
    } else if m == Motion::WordForward {
        word_boundary(b.lines, t.row as int, t.col as int, true)
    } else if m == Motion::WordBackward || m == Motion::WordBack {
        word_boundary(b.lines, t.row as int, t.col as int, false)
    } else if m == Motion::ParagraphForward {
        para_boundary(b.lines, t.row as int, true)
    } else if m == Motion::ParagraphBackward {
        para_boundary(b.lines, t.row as int, false)
    } else {
        t
    }
}

/// Whether [`host_command`] holds.
fn is_host_command(name: &str, args: bool) -> (r: bool)
    ensures
        r == host_command(name@, args),
{
    str_eq(name, "w") || str_eq(name, "write") || str_eq(name, "pwd") || str_eq(name, "Lazy") || str_eq(name, "source")
        || str_eq(name, "so") || str_eq(name, "command") || str_eq(name, "command!") || str_eq(name, "com")
        || str_eq(name, "com!") || (args && (str_eq(name, "e") || str_eq(name, "edit") || str_eq(name, "saveas")
        || str_eq(name, "echo") || str_eq(name, "let") || str_eq(name, "lua")))
}

/// Whether [`is_window_request`] holds.
fn is_window_req(req: Request) -> (r: bool)
    ensures
        r == is_window_request(req),
{
    match req {
        Request::SplitWindow { .. } | Request::NextWindow | Request::PrevWindow | Request::OpenFloatWin { .. }
        | Request::Resize { .. } | Request::Scroll { .. } | Request::MouseEvent { .. } | Request::HidePum
        | Request::SelectPumNext | Request::SelectPumPrev => true,
        _ => false,
    }
}

/// Whether [`plain_motion`] holds.
fn is_plain_motion(m: Motion) -> (r: bool)
    ensures
        r == plain_motion(m),
{
    m == Motion::Left || m == Motion::Right || m == Motion::Up || m == Motion::Down || m == Motion::LineStart
        || m == Motion::LineEnd || m == Motion::LineMiddle || m == Motion::BufferStart || m == Motion::BufferEnd
        || m == Motion::ParagraphForward || m == Motion::ParagraphBackward || m == Motion::WordForward
        || m == Motion::WordBackward || m == Motion::WordBack
}

/// Window `w` with the cursor moved to line `row`, in the wanted column as
/// far as the line allows (see [`Window::set_cursor_vertical`]).
pub open spec fn vertical_moved(b: BufferView, w: WindowView, row: usize) -> WindowView {
    WindowView {
        cursor: Cursor { row, col: vertical_col(w.curswant, Some(line_len(b, row))) },
        topline: adjusted_topline(row, w.topline, w.height),
        ..w
    }
}

/// The window and the target after `k` steps of motion `m` from target `t`
/// in window `w`: up and down move the window's cursor line by line, the
/// other motions only the target.
pub open spec fn motion_steps(b: BufferView, w: WindowView, t: Cursor, m: Motion, k: nat) -> (WindowView, Cursor)
    decreases k,
{
    if k == 0 {
        (w, t)
    } else {
        let (w1, t1) = motion_steps(b, w, t, m, (k - 1) as nat);
        if m == Motion::Up {
            let w2 = vertical_moved(b, w1, if t1.row >= 2 { (t1.row - 1) as usize } else { 1 });
            (w2, w2.cursor)
        } else if m == Motion::Down {
            let w2 = vertical_moved(b, w1, if t1.row + 1 <= b.lines.len() { (t1.row + 1) as usize } else { b.lines.len() as usize });
            (w2, w2.cursor)
        } else {
            (w1, step_cursor(b, t1, m))
        }
    }
}

/// The current window after a cursor motion repeated `count` times: up
/// and down leave the window where their steps took it; the other motions
/// put the cursor on the target, and the end of the line is wanted from
/// then on after `$`.
pub open spec fn motion_window(b: BufferView, w: WindowView, m: Motion, count: u32) -> WindowView {
    let (w1, t) = motion_steps(b, w, w.cursor, m, count as nat);
    if m == Motion::Up || m == Motion::Down {
        w1
    } else if m == Motion::LineEnd {
        WindowView { curswant: usize::MAX, ..moved_to(w, t.row, t.col) }
    } else {
        moved_to(w, t.row, t.col)
    }
}

/// Where a word motion can start: forward, before the last column a
/// `usize` holds; backward, at most at the end of the line.
pub open spec fn word_start_ok(b: BufferView, t: Cursor, m: Motion) -> bool {
    1 <= t.row <= b.lines.len() ==> {
        &&& m == Motion::WordForward ==> t.col < usize::MAX
        &&& (m == Motion::WordBackward || m == Motion::WordBack) ==> t.col <= b.lines[t.row - 1].len()
    }
}

/// Every line's length fits a `usize` with room to spare.
pub open spec fn lines_fit(b: BufferView) -> bool {
    forall|r: int| 0 <= r < b.lines.len() ==> #[trigger] b.lines[r].len() < usize::MAX
}

/// The steps of a motion keep every line number below `usize::MAX` and the
/// window's last line in range.
proof fn lemma_motion_steps(b: BufferView, w: WindowView, t: Cursor, m: Motion, k: nat)
    requires
        plain_motion(m),
        b.lines.len() < usize::MAX,
        t.row < usize::MAX,
        t == w.cursor,
        w.topline + w.height <= usize::MAX,
        m == Motion::Right ==> t.col < usize::MAX,
        lines_fit(b),
        word_start_ok(b, t, m),
    ensures
        ({
            let (w1, t1) = motion_steps(b, w, t, m, k);
            &&& word_start_ok(b, t1, m)
            &&& t1.row < usize::MAX
            &&& m == Motion::Right ==> t1.col < usize::MAX
            &&& w1.topline + w1.height <= usize::MAX
            &&& w1.height == w.height
            &&& (m == Motion::Up || m == Motion::Down) ==> t1 == w1.cursor
            &&& !(m == Motion::Up || m == Motion::Down) ==> w1 == w
        }),
    decreases k,
{
    if k > 0 {
        lemma_motion_steps(b, w, t, m, (k - 1) as nat);
        let t1 = motion_steps(b, w, t, m, (k - 1) as nat).1;
        let lines = b.lines;
        lemma_first_in(t1.row + 1, lines.len() as int, para_pred(lines, t1.row as int));
        lemma_last_in(1, t1.row - 1, para_pred(lines, t1.row as int));
        if 1 <= t1.row <= lines.len() {
            let line = lines[t1.row - 1];
            assert(line.len() < usize::MAX);
            lemma_first_in(t1.col + 1, line.len() - 1, word_after_pred(line, t1.col as int));
            lemma_last_in(0, t1.col - 1, gap_before_pred(line, t1.col as int));
            if t1.row < lines.len() {
                assert(lines[t1.row as int].len() < usize::MAX);
            }
        }
    }
}

/// The answer to a request that the editor state does not carry out.
fn refusal() -> (r: Result<(), NvimError>)
    ensures
        r matches Err(NvimError::Api(m)) && m@ == refusal_text(),
{
    Err(NvimError::Api("not carried out by the editor state".to_owned()))
}

/// The character of digit `d`.
fn radix_char_of(d: usize) -> (c: char)
    requires
        d < 16,
    ensures
        c == radix_char(d as nat),
{
    match d {
        0 => '0',
        1 => '1',
        2 => '2',
        3 => '3',
        4 => '4',
        5 => '5',
        6 => '6',
        7 => '7',
        8 => '8',
        9 => '9',
        10 => 'a',
        11 => 'b',
        12 => 'c',
        13 => 'd',
        14 => 'e',
        _ => 'f',
    }
}

/// Appends the digits of `n` in base `base`.
fn push_radix(v: &mut Vec<char>, n: usize, base: usize)
    requires
        2 <= base <= 16,
    ensures
        final(v)@ == old(v)@ + radix_digits(n as nat, base as nat),
    decreases n,
{
    if n >= base {
        assert(n / base < n) by (nonlinear_arith)
            requires
                base >= 2,
                n >= base,
        ;
        push_radix(v, n / base, base);
        let ghost mid = v@;
        v.push(radix_char_of(n % base));
        proof {
            assert(old(v)@ + radix_digits(n as nat, base as nat) =~= old(v)@ + radix_digits((n / base) as nat, base as nat) + seq![radix_char((n % base) as nat)]);
        }
    } else {
        v.push(radix_char_of(n));
        proof {
            assert(old(v)@ + radix_digits(n as nat, base as nat) =~= old(v)@.push(radix_char(n as nat)));
        }
    }
}

/// Appends the characters of `w`.
fn extend_chars(v: &mut Vec<char>, w: &Vec<char>)
    ensures
        final(v)@ == old(v)@ + w@,
{
    let mut k: usize = 0;
    while k < w.len()
        invariant
            k <= w@.len(),
            v@ == old(v)@ + w@.take(k as int),
        decreases w@.len() - k,
    {
        v.push(w[k]);
        proof {
            assert(w@.take(k + 1) =~= w@.take(k as int).push(w@[k as int]));
            assert(old(v)@ + w@.take(k + 1) =~= (old(v)@ + w@.take(k as int)).push(w@[k as int]));
        }
        k += 1;
    }
    assert(w@.take(w@.len() as int) =~= w@);
}

/// Appends the characters of `s`.
fn extend_str(v: &mut Vec<char>, s: &str)
    ensures
        final(v)@ == old(v)@ + s@,
{
    let w = chars_of(s);
    extend_chars(v, &w);
}

/// The character sequences joined with `sep` between each two.
fn join_chars(parts: &Vec<Vec<char>>, sep: char) -> (r: Vec<char>)
    ensures
        r@ == joined_with(Seq::new(parts@.len(), |k: int| parts@[k]@), sep),
{
    let ghost ps = Seq::new(parts@.len(), |k: int| parts@[k]@);
    let mut out: Vec<char> = Vec::new();
    let mut k: usize = 0;
    assert(ps.take(0) =~= Seq::<Seq<char>>::empty());
    while k < parts.len()
        invariant
            k <= parts@.len(),
            ps == Seq::new(parts@.len(), |k: int| parts@[k]@),
            out@ == joined_with(ps.take(k as int), sep),
        decreases parts@.len() - k,
    {
        if k > 0 {
            out.push(sep);
        }
        extend_chars(&mut out, &parts[k]);
        proof {
            let t = ps.take(k + 1);
            assert(t.drop_last() =~= ps.take(k as int));
            assert(t.last() == parts@[k as int]@);
            if k == 0 {
                assert(t.len() == 1);
            }
        }
        k += 1;
    }
    assert(ps.take(parts@.len() as int) =~= ps);
    out
}

/// A line of `:marks`.
fn mark_line_of(m: (char, Cursor)) -> (r: Vec<char>)
    ensures
        r@ == mark_line(m),
{
    let mut v: Vec<char> = Vec::new();
    v.push(m.0);
    extend_str(&mut v, " ");
    push_radix(&mut v, m.1.row, 10);
    extend_str(&mut v, " ");
    push_radix(&mut v, m.1.col, 10);
    assert(v@ =~= mark_line(m));
    v
}

/// What `:ascii` shows for `c`.
fn ascii_text_of(c: char) -> (r: Vec<char>)
    ensures
        r@ == ascii_text(c),
{
    let code = c as u32 as usize;
    let mut v: Vec<char> = Vec::new();
    extend_str(&mut v, "<");
    v.push(c);
    extend_str(&mut v, ">  ");
    push_radix(&mut v, code, 10);
    extend_str(&mut v, ",  Hex ");
    if code < 16 {
        v.push('0');
    }
    push_radix(&mut v, code, 16);
    extend_str(&mut v, ",  Octal ");
    push_radix(&mut v, code, 8);
    assert(v@ =~= ascii_text(c));
    v
}

/// A line of `:ls` for buffer `b`.
fn buffer_entry_of(b: &Buffer) -> (r: Vec<char>)
    ensures
        r@ == buffer_entry(b@),
{
    let id = b.id();
    let mut v: Vec<char> = Vec::new();
    if id < 0 {
        v.push('-');
        let m: i64 = -(id as i64);
        push_radix(&mut v, m as usize, 10);
    } else {
        push_radix(&mut v, id as usize, 10);
    }
    extend_str(&mut v, " ");
    match b.name() {
        Some(n) => extend_str(&mut v, n),
        None => extend_str(&mut v, "[No Name]"),
    }
    assert(v@ =~= buffer_entry(b@));
    v
}

proof fn lemma_back(c: Seq<char>, s: int)
    requires
        0 <= s < c.len(),
    ensures
        0 <= back_ws(c, s) <= s,
        0 <= back_word(c, s) <= s,
    decreases s,
{
    if s > 0 {
        lemma_back(c, s - 1);
    }
}

proof fn lemma_find_buffer(bufs: Seq<BufferView>, id: i32)
    ensures
        match find_buffer(bufs, id) {
            Some(i) => 0 <= i < bufs.len() && bufs[i].id == id && forall|j: int| 0 <= j < i ==> (#[trigger] bufs[j]).id != id,
            None => forall|j: int| 0 <= j < bufs.len() ==> (#[trigger] bufs[j]).id != id,
        },
    decreases bufs.len(),
{
    if bufs.len() > 0 {
        let d = bufs.drop_last();
        lemma_find_buffer(d, id);
        assert forall|j: int| 0 <= j < d.len() implies #[trigger] d[j] == bufs[j] by {}
        match find_buffer(d, id) {
            Some(i) => {
                assert(bufs[i] == d[i]);
                assert forall|j: int| 0 <= j < i implies (#[trigger] bufs[j]).id != id by {
                    assert(bufs[j] == d[j]);
                }
            },
            None => {
                assert forall|j: int| 0 <= j < d.len() implies (#[trigger] bufs[j]).id != id by {
                    assert(bufs[j] == d[j]);
                }
            },
        }
    }
}

/// Sizes every window of a tab page.
fn resize_tab(tab: &mut TabPage, width: usize, height: usize)
    ensures
        tab_view(*final(tab)) == (TabView {
            windows: Seq::new(tab_view(*old(tab)).windows.len(), |i: int| WindowView { width: width, height: height, ..tab_view(*old(tab)).windows[i] }),
            ..tab_view(*old(tab))
        }),
{
    let ghost orig = tab.windows@;
    let n = tab.windows.len();
    let mut k: usize = 0;
    while k < n
        invariant
            k <= n,
            n == orig.len(),
            tab.windows@.len() == n,
            tab.current_win_idx == old(tab).current_win_idx,
            orig == old(tab).windows@,
            forall|j: int| 0 <= j < k ==> #[trigger] tab.windows@[j]@ == (WindowView { width: width, height: height, ..orig[j]@ }),
            forall|j: int| k <= j < n ==> #[trigger] tab.windows@[j] == orig[j],
        decreases n - k,
    {
        tab.windows[k].set_width(width);
        tab.windows[k].set_height(height);
        k += 1;
    }
    assert(tab_view(*tab).windows =~= Seq::new(tab_view(*old(tab)).windows.len(), |i: int| WindowView { width: width, height: height, ..tab_view(*old(tab)).windows[i] }));
}

impl EditorState {
    /// Well-formedness: the view is consistent (see [`editor_view_ok`]), and
    /// the buffers and the grid are well-formed.
    pub closed spec fn wf(&self) -> bool {
        &&& editor_view_ok(self@)
        &&& self.abbreviations.wf()
        &&& forall|i: int| 0 <= i < self.buffers@.len() ==> (#[trigger] self.buffers@[i]).wf()
        &&& self.grid.wf()
    }

    /// An editor in normal mode showing `buf` in one window (id 1) of one
    /// tab page, on a grid of `width` by `height` cells.
    pub fn new(buf: Buffer, width: usize, height: usize) -> (e: EditorState)
        requires
            buf.wf(),
            width * height <= usize::MAX,
        ensures
            e.wf(),
            e@.mode == Mode::Normal,
            e@.buffers == seq![buf@],
            e@.tabs == seq![TabView { windows: seq![new_window_view(1, buf@.id)], current: 0 }],
            e@.current_tab == 0,
            e@.next_win_id == 2,
            e@.grid_width == width,
            e@.grid_height == height,
            e@.pum_items is None,
            e@.pum_index is None,
            !e@.number,
            e@.tabstop == 8,
            e@.abbreviations == Map::<Seq<char>, Seq<char>>::empty(),
            e@.cmdline == Seq::<char>::empty(),
            e@.cmdline_cursor == 0,
            e@.cmd_history == Seq::<Seq<char>>::empty(),
            e@.cmd_history_idx is None,
            e@.visual_anchor is None,
            !e@.quit,
            e@.messages == Seq::<Seq<char>>::empty(),
            e@.next_buf_id == next_id(buf@.id),
    {
        let id = buf.id();
        let win = Window::new(1, id);
        let tab = TabPage::new(win);
        let mut buffers = Vec::new();
        buffers.push(buf);
        let mut tabpages = Vec::new();
        tabpages.push(tab);
        let e = EditorState {
            mode: Mode::Normal,
            buffers,
            tabpages,
            current_tab_idx: 0,
            next_win_id: 2,
            grid: Grid::new(width, height),
            pum_items: None,
            pum_index: None,
            number: false,
            tabstop: 8,
            abbreviations: Abbreviations::new(),
            cmdline: Vec::new(),
            cmdline_cursor: 0,
            cmd_history: Vec::new(),
            cmd_history_idx: None,
            visual_anchor: None,
            quit: false,
            messages: Vec::new(),
            next_buf_id: if id == i32::MAX { i32::MIN } else { id + 1 },
        };
        assert(e@.buffers =~= seq![buf@]);
        assert(e@.cmd_history =~= Seq::<Seq<char>>::empty());
        assert(e@.messages =~= Seq::<Seq<char>>::empty());
        assert(tab_view(e.tabpages@[0]).windows =~= seq![new_window_view(1, buf@.id)]);
        assert(e@.tabs =~= seq![TabView { windows: seq![new_window_view(1, buf@.id)], current: 0 }]);
        e
    }

    /// Loads another buffer.
    pub fn add_buffer(&mut self, buf: Buffer)
        requires
            old(self).wf(),
            buf.wf(),
        ensures
            final(self).wf(),
            final(self)@ == (EditorView { buffers: old(self)@.buffers.push(buf@), ..old(self)@ }),
    {
        self.buffers.push(buf);
        assert(self@.buffers =~= old(self)@.buffers.push(buf@));
        assert(self@.tabs =~= old(self)@.tabs);
    }

    /// Shows a completion menu with `items`; nothing where there are none.
    pub fn show_pum(&mut self, items: Vec<String>)
        requires
            old(self).wf(),
        ensures
            final(self).wf(),
            items@.len() == 0 ==> final(self)@ == old(self)@,
            items@.len() > 0 ==> final(self)@ == (EditorView {
                pum_items: Some(Seq::new(items@.len(), |i: int| items@[i]@)),
                pum_index: Some(0),
                ..old(self)@
            }),
    {
        if items.len() > 0 {
            self.pum_items = Some(items);
            self.pum_index = Some(0);
            assert(self@.buffers =~= old(self)@.buffers);
            assert(self@.tabs =~= old(self)@.tabs);
        }
    }

    /// The window with the focus.
    pub fn current_window(&self) -> (r: &Window)
        requires
            self.wf(),
        ensures
            r@ == cur_win(self@),
    {
        let t = &self.tabpages[self.current_tab_idx];
        &t.windows[t.current_win_idx]
    }

    /// The buffer the current window shows, where it is loaded.
    pub fn current_buffer(&self) -> (r: Option<&Buffer>)
        requires
            self.wf(),
        ensures
            match cur_buffer(self@) {
                Some(i) => r matches Some(b) && b@ == self@.buffers[i] && b.wf(),
                None => r is None,
            },
    {
        let t = &self.tabpages[self.current_tab_idx];
        let bid = t.windows[t.current_win_idx].buffer();
        proof {
            lemma_find_buffer(self@.buffers, bid);
        }
        match self.buffer_index(bid) {
            Some(i) => {
                assert(self@.buffers[i as int] == self.buffers@[i as int]@);
                assert(self.buffers@[i as int].wf());
                Some(&self.buffers[i])
            },
            None => None,
        }
    }

    /// Where the visual selection started.
    pub fn visual_anchor(&self) -> (r: Option<Cursor>)
        ensures
            r == self@.visual_anchor,
    {
        self.visual_anchor
    }

    /// The command line and its cursor.
    pub fn cmdline(&self) -> (r: (&Vec<char>, usize))
        ensures
            r.0@ == self@.cmdline,
            r.1 == self@.cmdline_cursor,
    {
        (&self.cmdline, self.cmdline_cursor)
    }

    /// The command history and the entry shown, if any.
    pub fn history(&self) -> (r: (&Vec<String>, Option<usize>))
        ensures
            Seq::new(r.0@.len(), |i: int| r.0@[i]@) == self@.cmd_history,
            r.1 == self@.cmd_history_idx,
    {
        (&self.cmd_history, self.cmd_history_idx)
    }

    /// What entering the command line does to the editor before the command
    /// runs: in command-line mode, a command that is not empty goes into
    /// the history, the history is left, the line is emptied and the mode
    /// is normal again; the command is handed back to be run. `None`, with
    /// nothing changed, in other modes.
    pub fn take_command(&mut self) -> (r: Option<String>)
        requires
            old(self).wf(),
        ensures
            final(self).wf(),
            old(self)@.mode != Mode::CommandLine ==> r is None && final(self)@ == old(self)@,
            old(self)@.mode == Mode::CommandLine ==> {
                &&& r matches Some(cmd) && cmd@ == old(self)@.cmdline
                &&& final(self)@ == command_taken(old(self)@)
            },
    {
        let ghost ov = self@;
        if self.mode != Mode::CommandLine {
            return None;
        }
        let cmd = string_from_chars(&self.cmdline);
        if self.cmdline.len() > 0 {
            self.cmd_history.push(string_from_chars(&self.cmdline));
            self.cmd_history_idx = None;
        }
        self.cmdline = Vec::new();
        self.cmdline_cursor = 0;
        self.mode = Mode::Normal;
        proof {
            assert(self@.tabs =~= ov.tabs);
            assert(self@.buffers =~= ov.buffers);
            if ov.cmdline.len() > 0 {
                assert(self@.cmd_history =~= ov.cmd_history.push(ov.cmdline));
            } else {
                assert(self@.cmd_history =~= ov.cmd_history);
            }
        }
        Some(cmd)
    }

    /// The ids of the loaded buffers, in order.
    pub fn buffer_ids(&self) -> (r: Vec<i32>)
        requires
            self.wf(),
        ensures
            r@ == Seq::new(self@.buffers.len(), |k: int| self@.buffers[k].id),
    {
        let mut out: Vec<i32> = Vec::new();
        let mut k: usize = 0;
        while k < self.buffers.len()
            invariant
                k <= self.buffers@.len(),
                self@.buffers.len() == self.buffers@.len(),
                out@ == Seq::new(k as nat, |x: int| self@.buffers[x].id),
            decreases self.buffers@.len() - k,
        {
            proof {
                assert(self@.buffers[k as int] == self.buffers@[k as int]@);
            }
            out.push(self.buffers[k].id());
            proof {
                assert(out@ =~= Seq::new((k + 1) as nat, |x: int| self@.buffers[x].id));
            }
            k += 1;
        }
        out
    }

    /// The index of the current tab page and the number of tab pages.
    pub fn tab_position(&self) -> (r: (usize, usize))
        ensures
            r == (self@.current_tab, self@.tabs.len() as usize),
    {
        (self.current_tab_idx, self.tabpages.len())
    }

    /// The number of windows in the current tab page and the index of the
    /// current one.
    pub fn window_position(&self) -> (r: (usize, usize))
        requires
            self.wf(),
        ensures
            r == (cur_tab(self@).windows.len() as usize, cur_tab(self@).current),
    {
        let t = &self.tabpages[self.current_tab_idx];
        (t.windows.len(), t.current_win_idx)
    }

    /// The completion menu's items and selected index.
    pub fn pum(&self) -> (r: (Option<&Vec<String>>, Option<usize>))
        ensures
            r.0 is Some == self@.pum_items is Some,
            r.0 matches Some(v) ==> self@.pum_items == Some(Seq::new(v@.len(), |i: int| v@[i]@)),
            r.1 == self@.pum_index,
    {
        (self.pum_items.as_ref(), self.pum_index)
    }

    /// The number of lines of buffer `id`, where it is loaded.
    fn buffer_line_count(&self, id: i32) -> (r: Option<usize>)
        requires
            self.wf(),
        ensures
            r == buffer_lines(self@, id),
    {
        proof {
            lemma_find_buffer(self@.buffers, id);
        }
        let mut i: usize = 0;
        while i < self.buffers.len()
            invariant
                i <= self.buffers@.len(),
                self.wf(),
                forall|j: int| 0 <= j < i ==> (#[trigger] self@.buffers[j]).id != id,
            decreases self.buffers@.len() - i,
        {
            if self.buffers[i].id() == id {
                assert(self@.buffers[i as int] == self.buffers@[i as int]@);
                let n = self.buffers[i].line_count();
                proof {
                    lemma_find_buffer(self@.buffers, id);
                    match find_buffer(self@.buffers, id) {
                        Some(k) => {
                            if k < i {
                                assert(self@.buffers[k].id != id);
                            } else if k > i {
                                assert(self@.buffers[i as int].id != id);
                            }
                        },
                        None => {
                            assert(self@.buffers[i as int].id != id);
                        },
                    }
                }
                return Some(n);
            }
            assert(self@.buffers[i as int] == self.buffers@[i as int]@);
            i += 1;
        }
        None
    }

    /// Whether buffer `id` is loaded.
    fn has_buffer(&self, id: i32) -> (r: bool)
        requires
            self.wf(),
        ensures
            r == find_buffer(self@.buffers, id) is Some,
    {
        self.buffer_line_count(id).is_some()
    }

    /// Adds `win` to the current tab page as its current window and takes
    /// the next window id.
    fn push_window(&mut self, win: Window)
        requires
            old(self).wf(),
        ensures
            final(self).wf(),
            final(self)@ == with_new_win(old(self)@, win@),
    {
        let ti = self.current_tab_idx;
        let ghost ov = self@;
        self.tabpages[ti].windows.push(win);
        let n = self.tabpages[ti].windows.len();
        self.tabpages[ti].current_win_idx = n - 1;
        self.next_win_id = if self.next_win_id == i32::MAX { i32::MIN } else { self.next_win_id + 1 };
        proof {
            let t = cur_tab(ov);
            assert(tab_view(self.tabpages@[ti as int]).windows =~= t.windows.push(win@));
            assert(self@.tabs =~= with_new_win(ov, win@).tabs);
            assert(self@.buffers =~= ov.buffers);
        }
    }

    /// Scrolls the current window by `lines`.
    fn scroll_current(&mut self, lines: i32)
        requires
            old(self).wf(),
            scroll_allowed(old(self)@, lines),
        ensures
            final(self).wf(),
            final(self)@ == scroll_effect(old(self)@, lines),
    {
        let ghost ov = self@;
        let ti = self.current_tab_idx;
        let wi = self.tabpages[ti].current_win_idx;
        let b = self.tabpages[ti].windows[wi].buffer();
        let lc = self.buffer_line_count(b);
        self.tabpages[ti].windows[wi].scroll(lines, lc);
        proof {
            assert(tab_view(self.tabpages@[ti as int]).windows =~= cur_tab(ov).windows.update(wi as int, self.tabpages@[ti as int].windows@[wi as int]@));
            assert(self@.tabs =~= scroll_effect(ov, lines).tabs);
            assert(self@.buffers =~= ov.buffers);
        }
    }

    /// Carries out a window request (see [`window_request_effect`]).
    pub fn handle_window_request(&mut self, req: Request) -> (r: Result<(), NvimError>)
        requires
            old(self).wf(),
            window_request_allowed(old(self)@, req),
        ensures
            final(self).wf(),
            is_window_request(req) ==> r is Ok && final(self)@ == window_request_effect(old(self)@, req),
            !is_window_request(req) ==> refused(old(self)@, final(self)@, r),
    {
        if !is_window_req(req) {
            return refusal();
        }
        let ghost ov = self@;
        let ti = self.current_tab_idx;
        match req {
            Request::SplitWindow { vertical: _ } => {
                let wi = self.tabpages[ti].current_win_idx;
                let b = self.tabpages[ti].windows[wi].buffer();
                let win = Window::new(self.next_win_id, b);
                self.push_window(win);
            },
            Request::NextWindow => {
                let n = self.tabpages[ti].windows.len();
                let c = self.tabpages[ti].current_win_idx;
                self.tabpages[ti].current_win_idx = (c + 1) % n;
                proof {
                    assert(tab_view(self.tabpages@[ti as int]).windows =~= cur_tab(ov).windows);
                    assert(self@.tabs =~= window_request_effect(ov, req).tabs);
                    assert(self@.buffers =~= ov.buffers);
                }
            },
            Request::PrevWindow => {
                let n = self.tabpages[ti].windows.len();
                let c = self.tabpages[ti].current_win_idx;
                self.tabpages[ti].current_win_idx = if c == 0 { n - 1 } else { c - 1 };
                proof {
                    assert(tab_view(self.tabpages@[ti as int]).windows =~= cur_tab(ov).windows);
                    assert(self@.tabs =~= window_request_effect(ov, req).tabs);
                    assert(self@.buffers =~= ov.buffers);
                }
            },
            Request::OpenFloatWin { buf_id, row, col, width, height } => {
                if self.has_buffer(buf_id) {
                    let config = WinConfig { row, col, width, height, focusable: true, external: false };
                    let win = Window::new_floating(self.next_win_id, buf_id, config);
                    self.push_window(win);
                }
            },
            Request::Resize { width, height } => {
                self.grid.resize(width, height);
                let h2 = if height >= 2 { height - 2 } else { 0 };
                let mut tabs: Vec<TabPage> = Vec::new();
                std::mem::swap(&mut tabs, &mut self.tabpages);
                let ghost orig = tabs@;
                assert forall|j: int| 0 <= j < orig.len() implies #[trigger] tab_view(orig[j]) == ov.tabs[j] by {}
                let n = tabs.len();
                let mut t: usize = 0;
                while t < n
                    invariant
                        t <= n,
                        n == orig.len(),
                        ov.tabs.len() == n,
                        tabs@.len() == n,
                        forall|j: int| 0 <= j < t ==> #[trigger] tab_view(tabs@[j]) == resized_tabs(ov.tabs, width, h2)[j],
                        forall|j: int| t <= j < n ==> #[trigger] tabs@[j] == orig[j],
                        forall|j: int| 0 <= j < n ==> #[trigger] tab_view(orig[j]) == ov.tabs[j],
                    decreases n - t,
                {
                    assert(tab_view(orig[t as int]) == ov.tabs[t as int]);
                    resize_tab(&mut tabs[t], width, h2);
                    proof {
                        assert(tab_view(tabs@[t as int]).windows =~= resized_tabs(ov.tabs, width, h2)[t as int].windows);
                    }
                    t += 1;
                }
                std::mem::swap(&mut tabs, &mut self.tabpages);
                proof {
                    assert(self@.tabs =~= resized_tabs(ov.tabs, width, h2));
                    assert(self@.buffers =~= ov.buffers);
                }
            },
            Request::Scroll { lines } => {
                self.scroll_current(lines);
            },
            Request::MouseEvent { button, action, row, col } => {
                match button {
                    MouseButton::Left => {
                        if (action == MouseAction::Press || action == MouseAction::Drag) && row >= 1 {
                            let m: usize = if self.number { 4 } else { 2 };
                            let wi = self.tabpages[ti].current_win_idx;
                            let top = self.tabpages[ti].windows[wi].topline();
                            let target_lnum = top + (row - 1);
                            let target_col = if col >= m { col - m } else { 0 };
                            self.tabpages[ti].windows[wi].set_cursor(target_lnum, target_col);
                            proof {
                                assert(tab_view(self.tabpages@[ti as int]).windows =~= cur_tab(ov).windows.update(wi as int, self.tabpages@[ti as int].windows@[wi as int]@));
                                assert(self@.tabs =~= window_request_effect(ov, req).tabs);
                                assert(self@.buffers =~= ov.buffers);
                            }
                        }
                    },
                    MouseButton::WheelUp => {
                        self.scroll_current(-3);
                    },
                    MouseButton::WheelDown => {
                        self.scroll_current(3);
                    },
                    _ => {},
                }
            },
            Request::HidePum => {
                self.pum_items = None;
                self.pum_index = None;
                proof {
                    assert(self@.tabs =~= ov.tabs);
                    assert(self@.buffers =~= ov.buffers);
                }
            },
            Request::SelectPumNext => {
                match (&self.pum_items, self.pum_index) {
                    (Some(items), Some(idx)) => {
                        let n = items.len();
                        self.pum_index = Some((idx + 1) % n);
                        proof {
                            assert(self@.tabs =~= ov.tabs);
                            assert(self@.buffers =~= ov.buffers);
                        }
                    },
                    _ => {},
                }
            },
            Request::SelectPumPrev => {
                match (&self.pum_items, self.pum_index) {
                    (Some(items), Some(idx)) => {
                        let n = items.len();
                        self.pum_index = Some(if idx == 0 { n - 1 } else { idx - 1 });
                        proof {
                            assert(self@.tabs =~= ov.tabs);
                            assert(self@.buffers =~= ov.buffers);
                        }
                    },
                    _ => {},
                }
            },
            _ => {},
        }
        Ok(())
    }

    /// The index of buffer `id`, where it is loaded.
    fn buffer_index(&self, id: i32) -> (r: Option<usize>)
        requires
            self.wf(),
        ensures
            match r {
                Some(i) => find_buffer(self@.buffers, id) == Some(i as int),
                None => find_buffer(self@.buffers, id) is None,
            },
    {
        let mut i: usize = 0;
        while i < self.buffers.len()
            invariant
                i <= self.buffers@.len(),
                self.wf(),
                forall|j: int| 0 <= j < i ==> (#[trigger] self@.buffers[j]).id != id,
            decreases self.buffers@.len() - i,
        {
            assert(self@.buffers[i as int] == self.buffers@[i as int]@);
            if self.buffers[i].id() == id {
                proof {
                    lemma_find_buffer(self@.buffers, id);
                    match find_buffer(self@.buffers, id) {
                        Some(k) => {
                            if k < i {
                                assert(self@.buffers[k].id != id);
                            } else if k > i {
                                assert(self@.buffers[i as int].id != id);
                            }
                        },
                        None => {
                            assert(self@.buffers[i as int].id != id);
                        },
                    }
                }
                return Some(i);
            }
            i += 1;
        }
        proof {
            lemma_find_buffer(self@.buffers, id);
        }
        None
    }

    /// Moves the cursor of the current window to `(row, col)`.
    fn move_cursor(&mut self, row: usize, col: usize)
        requires
            old(self).wf(),
            cur_win(old(self)@).topline + cur_win(old(self)@).height <= usize::MAX,
            row - cur_win(old(self)@).height + 1 <= usize::MAX,
        ensures
            final(self).wf(),
            final(self)@ == with_cur_win(old(self)@, moved_to(cur_win(old(self)@), row, col)),
    {
        let ghost ov = self@;
        let ti = self.current_tab_idx;
        let wi = self.tabpages[ti].current_win_idx;
        self.tabpages[ti].windows[wi].set_cursor(row, col);
        proof {
            assert(tab_view(self.tabpages@[ti as int]).windows =~= cur_tab(ov).windows.update(wi as int, self.tabpages@[ti as int].windows@[wi as int]@));
            assert(self@.tabs =~= with_cur_win(ov, moved_to(cur_win(ov), row, col)).tabs);
            assert(self@.buffers =~= ov.buffers);
        }
    }

    /// `<C-A>` and `<C-X>` (see [`request_done`]).
    fn apply_increment(&mut self, offset: i32) -> (r: Result<(), NvimError>)
        requires
            old(self).wf(),
            request_allowed(old(self)@, Request::IncrementNumber { offset }),
        ensures
            final(self).wf(),
            request_done(old(self)@, final(self)@, Request::IncrementNumber { offset }, r),
    {
        let ghost ov = self@;
        let ti = self.current_tab_idx;
        let wi = self.tabpages[ti].current_win_idx;
        let bid = self.tabpages[ti].windows[wi].buffer();
        let cur = self.tabpages[ti].windows[wi].cursor();
        proof {
            lemma_find_buffer(ov.buffers, bid);
            assert(cur_win(ov) == self.tabpages@[ti as int].windows@[wi as int]@);
        }
        match self.buffer_index(bid) {
            Some(bi) => {
                proof {
                    assert(self@.buffers[bi as int] == self.buffers@[bi as int]@);
                }
                let changed = match self.buffers[bi].get_line(cur.row) {
                    Some(l) => crate::edit::increment_number_in_line(l, cur.col, offset),
                    None => None,
                };
                match changed {
                    Some((line, start, col)) => {
                        assert(increment_at(ov.buffers[bi as int], cur_win(ov), offset) == Some((line@, start as int, col as int)));
                        let u = self.buffers[bi].set_line(cur.row, start, line.as_str());
                        proof {
                            assert(self@.buffers =~= ov.buffers.update(bi as int, self@.buffers[bi as int]));
                            assert(self@.tabs =~= ov.tabs);
                            assert(line_set_done(ov.buffers[bi as int], self@.buffers[bi as int], cur.row, start, line@, u));
                        }
                        let ghost v1 = self@;
                        proof {
                            assert(cur_win(v1) == cur_win(ov));
                        }
                        self.move_cursor(cur.row, col);
                        proof {
                            assert(self@.buffers =~= v1.buffers);
                            assert(self@ == with_cur_win(with_buffer(ov, bi as int, self@.buffers[bi as int]), moved_to(cur_win(ov), cur.row, col)));
                            assert(line_set_done(ov.buffers[bi as int], self@.buffers[bi as int], cur_win(ov).cursor.row, (start as int) as usize, line@, u));
                        }
                        Ok(())
                    },
                    None => {
                        assert(increment_at(ov.buffers[bi as int], cur_win(ov), offset) is None);
                        proof {
                            assert(self@.tabs =~= ov.tabs);
                            assert(self@.buffers =~= ov.buffers);
                        }
                        Ok(())
                    },
                }
            },
            None => {
                assert(cur_buffer(ov) is None);
                Ok(())
            },
        }
    }

    /// A new line at the cursor, indented as the cursor line (see
    /// [`request_done`]).
    fn apply_newline(&mut self) -> (r: Result<(), NvimError>)
        requires
            old(self).wf(),
            request_allowed(old(self)@, Request::NewLine),
        ensures
            final(self).wf(),
            request_done(old(self)@, final(self)@, Request::NewLine, r),
    {
        let ghost ov = self@;
        let ti = self.current_tab_idx;
        let wi = self.tabpages[ti].current_win_idx;
        let bid = self.tabpages[ti].windows[wi].buffer();
        let cur = self.tabpages[ti].windows[wi].cursor();
        proof {
            lemma_find_buffer(ov.buffers, bid);
            assert(cur_win(ov) == self.tabpages@[ti as int].windows@[wi as int]@);
        }
        match self.buffer_index(bid) {
            Some(bi) => {
                proof {
                    assert(self@.buffers[bi as int] == self.buffers@[bi as int]@);
                }
                let (indent, indent_bytes) = match self.buffers[bi].get_line(cur.row) {
                    Some(l) => leading_white(l),
                    None => (Vec::new(), 0),
                };
                proof {
                    assert(indent@ == indent_of(ov.buffers[bi as int], cur.row));
                }
                let r0 = self.buffers[bi].insert_newline(cur.row, cur.col);
                let ghost b1 = self.buffers@[bi as int]@;
                match r0 {
                    Err(e) => {
                        proof {
                            assert(self@.buffers =~= ov.buffers.update(bi as int, b1));
                            assert(self@.tabs =~= ov.tabs);
                            assert(newline_done(ov.buffers[bi as int], b1, cur.row, cur.col, Err::<(), NvimError>(e)));
                        }
                        Err(e)
                    },
                    Ok(()) => {
                        let mut text = indent.clone();
                        let next = match self.buffers[bi].get_line(cur.row + 1) {
                            Some(l) => chars_of(l),
                            None => Vec::new(),
                        };
                        let mut k: usize = 0;
                        while k < next.len()
                            invariant
                                k <= next@.len(),
                                text@ == indent@ + next@.take(k as int),
                            decreases next@.len() - k,
                        {
                            text.push(next[k]);
                            proof {
                                assert(next@.take(k + 1) =~= next@.take(k as int).push(next@[k as int]));
                            }
                            k += 1;
                        }
                        assert(next@.take(next@.len() as int) =~= next@);
                        let new_line = string_from_chars(&text);
                        let u = self.buffers[bi].set_line(cur.row + 1, 0, new_line.as_str());
                        proof {
                            assert(b1.lines[cur.row as int] == next@);
                            assert(self@.buffers =~= ov.buffers.update(bi as int, self@.buffers[bi as int]));
                            assert(self@.tabs =~= ov.tabs);
                            assert(line_set_done(b1, self@.buffers[bi as int], (cur.row + 1) as usize, 0, indent@ + b1.lines[cur.row as int], u));
                        }
                        let ghost v1 = self@;
                        proof {
                            assert(cur_win(v1) == cur_win(ov));
                        }
                        self.move_cursor(cur.row + 1, indent_bytes);
                        proof {
                            assert(self@.buffers =~= v1.buffers);
                            assert(newline_done(ov.buffers[bi as int], b1, cur.row, cur.col, Ok::<(), NvimError>(())));
                        }
                        Ok(())
                    },
                }
            },
            None => Ok(()),
        }
    }

    /// A typed character, after the abbreviation it ends, if any, was
    /// expanded (see [`request_done`]).
    fn apply_insert_char(&mut self, c: char) -> (r: Result<(), NvimError>)
        requires
            old(self).wf(),
            request_allowed(old(self)@, Request::InsertChar(c)),
        ensures
            final(self).wf(),
            request_done(old(self)@, final(self)@, Request::InsertChar(c), r),
    {
        let ghost ov = self@;
        if let Mode::BlockInsert { .. } = self.mode {
            return refusal();
        }
        let ti = self.current_tab_idx;
        let wi = self.tabpages[ti].current_win_idx;
        let bid = self.tabpages[ti].windows[wi].buffer();
        let cur = self.tabpages[ti].windows[wi].cursor();
        proof {
            lemma_find_buffer(ov.buffers, bid);
            assert(cur_win(ov) == self.tabpages@[ti as int].windows@[wi as int]@);
        }
        let bi = match self.buffer_index(bid) {
            Some(bi) => bi,
            None => {
                return Ok(());
            },
        };
        proof {
            assert(self@.buffers[bi as int] == self.buffers@[bi as int]@);
        }
        let expanded = match self.buffers[bi].get_line(cur.row) {
            Some(l) => expand_abbreviation(l, cur.col, &self.abbreviations, c),
            None => None,
        };
        match expanded {
            Some((new_line, k)) => {
                assert(typed_expansion(ov, bi as int, c) == Some((new_line@, k as int)));
                let u = self.buffers[bi].set_line(cur.row, cur.col, new_line.as_str());
                let ghost v1 = self@;
                proof {
                    assert(self@.buffers =~= ov.buffers.update(bi as int, self@.buffers[bi as int]));
                    assert(self@.tabs =~= ov.tabs);
                    assert(cur_win(v1) == cur_win(ov));
                }
                self.move_cursor(cur.row, k);
                proof {
                    assert(self@.buffers =~= v1.buffers);
                    assert(v1 == with_buffer(ov, bi as int, v1.buffers[bi as int]));
                    assert(line_set_done(ov.buffers[bi as int], self@.buffers[bi as int], cur_win(ov).cursor.row, cur_win(ov).cursor.col, new_line@, u));
                    assert(expanded_into(ov, bi as int, c, self@.buffers[bi as int]));
                }
            },
            None => {
                assert(typed_expansion(ov, bi as int, c) is None);
                proof {
                    assert(self@.buffers =~= ov.buffers);
                    assert(self@.tabs =~= ov.tabs);
                    assert(expanded_into(ov, bi as int, c, self@.buffers[bi as int]));
                    let t = cur_tab(ov);
                    assert(t.windows.update(t.current as int, cur_win(ov)) =~= t.windows);
                    assert(ov.tabs.update(ov.current_tab as int, TabView { windows: t.windows, ..t }) =~= ov.tabs);
                    assert(ov.buffers.update(bi as int, ov.buffers[bi as int]) =~= ov.buffers);
                    assert(with_cur_win(with_buffer(ov, bi as int, ov.buffers[bi as int]), cur_win(ov)) == ov);
                }
            },
        }
        let ghost v2 = self@;
        let ghost b1 = self@.buffers[bi as int];
        proof {
            assert(cur_win(v2) == win_after_expansion(ov, bi as int, c));
            assert(v2 == with_cur_win(with_buffer(ov, bi as int, b1), win_after_expansion(ov, bi as int, c)));
            assert(self@.buffers[bi as int] == self.buffers@[bi as int]@);
        }
        let p = self.tabpages[ti].windows[wi].cursor();
        assert(p == cursor_after_expansion(ov, bi as int, c));
        let r = self.buffers[bi].insert_char(p.row, p.col, c);
        let ghost v3 = self@;
        proof {
            assert(self@.buffers =~= v2.buffers.update(bi as int, self@.buffers[bi as int]));
            assert(self@.tabs =~= v2.tabs);
            assert(char_insert_done(b1, self@.buffers[bi as int], p.row, p.col, c, r));
            assert(self@.buffers =~= ov.buffers.update(bi as int, self@.buffers[bi as int]));
            assert(self@.tabs == with_cur_win(ov, win_after_expansion(ov, bi as int, c)).tabs);
            assert(self@ == with_cur_win(with_buffer(ov, bi as int, self@.buffers[bi as int]), win_after_expansion(ov, bi as int, c)));
        }
        match r {
            Err(e) => {
                proof {
                    assert(self@ == with_cur_win(with_buffer(ov, bi as int, self@.buffers[bi as int]), win_after_expansion(ov, bi as int, c)));
                }
                Err(e)
            },
            Ok(()) => {
                proof {
                    assert(cur_win(v3) == cur_win(v2));
                }
                self.move_cursor(p.row, p.col + 1);
                proof {
                    assert(self@.buffers =~= v3.buffers);
                    assert(cur_win(v3) == win_after_expansion(ov, bi as int, c));
                    lemma_with_cur_win_twice(with_buffer(ov, bi as int, self@.buffers[bi as int]), win_after_expansion(ov, bi as int, c), moved_to(win_after_expansion(ov, bi as int, c), p.row, (p.col + 1) as usize));
                    assert(self@ == with_cur_win(with_buffer(ov, bi as int, self@.buffers[bi as int]), moved_to(win_after_expansion(ov, bi as int, c), p.row, (p.col + 1) as usize)));
                }
                Ok(())
            },
        }
    }

    /// Edits the command line (see [`cmdline_effect`]).
    fn apply_cmdline(&mut self, req: Request) -> (r: Result<(), NvimError>)
        requires
            old(self).wf(),
            is_cmdline_edit(req),
            request_allowed(old(self)@, req),
        ensures
            final(self).wf(),
            request_done(old(self)@, final(self)@, req, r),
    {
        let ghost ov = self@;
        if self.mode != Mode::CommandLine {
            return refusal();
        }
        let len = self.cmdline.len();
        let cur = if self.cmdline_cursor <= len { self.cmdline_cursor } else { len };
        match req {
            Request::CmdLineChar(c) => {
                self.cmdline.insert(cur, c);
                self.cmdline_cursor = cur + 1;
            },
            Request::CmdLineBackspace => {
                if len == 0 {
                    self.mode = Mode::Normal;
                    self.cmdline = Vec::new();
                    self.cmdline_cursor = 0;
                } else if 0 < self.cmdline_cursor && self.cmdline_cursor <= len {
                    let k = self.cmdline_cursor - 1;
                    self.cmdline.remove(k);
                    self.cmdline_cursor = k;
                } else if self.cmdline_cursor != 0 {
                    self.cmdline_cursor = len;
                }
            },
            Request::CmdLineDeleteWord => {
                if cur > 0 {
                    let (nc, start) = delete_word_before(&self.cmdline, cur);
                    self.cmdline = nc;
                    self.cmdline_cursor = start;
                }
            },
            Request::CmdLineDeleteLine => {
                self.cmdline = Vec::new();
                self.cmdline_cursor = 0;
            },
            Request::CmdLineMoveCursorTo { pos } => {
                self.cmdline_cursor = if pos <= len { pos } else { len };
            },
            Request::CmdLineHistory { forward } => {
                let n = self.cmd_history.len();
                if n > 0 {
                    let new_idx: Option<usize> = match self.cmd_history_idx {
                        Some(i) => if forward {
                            if i + 1 < n { Some(i + 1) } else { None }
                        } else if i > 0 {
                            Some(i - 1)
                        } else {
                            Some(0)
                        },
                        None => if forward { None } else { Some(n - 1) },
                    };
                    match new_idx {
                        Some(i) => {
                            let line = chars_of(self.cmd_history[i].as_str());
                            let ln = line.len();
                            self.cmdline = line;
                            self.cmdline_cursor = ln;
                            self.cmd_history_idx = Some(i);
                        },
                        None => {
                            self.cmdline = Vec::new();
                            self.cmdline_cursor = 0;
                            self.cmd_history_idx = None;
                        },
                    }
                }
            },
            Request::CmdLineTab => {
                if is_lazy_prefix(&self.cmdline) {
                    let lazy = chars_of("Lazy");
                    self.cmdline = lazy;
                    self.cmdline_cursor = 4;
                    proof {
                        reveal_strlit("Lazy");
                    }
                }
            },
            _ => {},
        }
        proof {
            assert(self@.tabs =~= ov.tabs);
            assert(self@.buffers =~= ov.buffers);
            assert(self@.cmd_history =~= ov.cmd_history);
            assert(self@.cmdline =~= cmdline_effect(ov, req).cmdline);
        }
        Ok(())
    }

    /// A cursor motion repeated `count` times (see [`motion_window`]).
    fn apply_motion(&mut self, motion: Motion, count: u32) -> (r: Result<(), NvimError>)
        requires
            old(self).wf(),
            plain_motion(motion),
            request_allowed(old(self)@, Request::OpMotion { op: Operator::Move, motion, count }),
        ensures
            final(self).wf(),
            request_done(old(self)@, final(self)@, Request::OpMotion { op: Operator::Move, motion, count }, r),
    {
        let ghost ov = self@;
        let ti = self.current_tab_idx;
        let wi = self.tabpages[ti].current_win_idx;
        let bid = self.tabpages[ti].windows[wi].buffer();
        let cur = self.tabpages[ti].windows[wi].cursor();
        proof {
            lemma_find_buffer(ov.buffers, bid);
            assert(cur_win(ov) == self.tabpages@[ti as int].windows@[wi as int]@);
        }
        let bi = match self.buffer_index(bid) {
            Some(bi) => bi,
            None => {
                return Ok(());
            },
        };
        let ghost b = ov.buffers[bi as int];
        let ghost w0 = cur_win(ov);
        proof {
            assert(b == self.buffers@[bi as int]@);
        }
        let nlines = self.buffers[bi].line_count();
        let mut target = cur;
        let mut k: u32 = 0;
        proof {
            let t = cur_tab(ov);
            assert(t.windows.update(t.current as int, w0) =~= t.windows);
            assert(ov.tabs.update(ov.current_tab as int, TabView { windows: t.windows, ..t }) =~= ov.tabs);
        }
        while k < count
            invariant
                self.wf(),
                k <= count,
                ti == self.current_tab_idx,
                ti < self.tabpages@.len(),
                wi == self.tabpages@[ti as int].current_win_idx,
                wi < self.tabpages@[ti as int].windows@.len(),
                bi < self.buffers@.len(),
                self.buffers@[bi as int]@ == b,
                nlines == b.lines.len(),
                b == ov.buffers[bi as int],
                w0 == cur_win(ov),
                cur == w0.cursor,
                plain_motion(motion),
                b.lines.len() < usize::MAX,
                cur.row < usize::MAX,
                motion == Motion::Right ==> cur.col < usize::MAX,
                w0.topline + w0.height <= usize::MAX,
                lines_fit(b),
                word_start_ok(b, cur, motion),
                editor_view_ok(ov),
                self@ == with_cur_win(ov, motion_steps(b, w0, cur, motion, k as nat).0),
                target == motion_steps(b, w0, cur, motion, k as nat).1,
            decreases count - k,
        {
            proof {
                lemma_motion_steps(b, w0, cur, motion, k as nat);
                assert(cur_win(self@) == motion_steps(b, w0, cur, motion, k as nat).0);
                assert(self.tabpages@[ti as int].windows@[wi as int]@ == cur_win(self@));
            }
            let ghost v1 = self@;
            if motion == Motion::Up || motion == Motion::Down {
                let r: usize = if motion == Motion::Up {
                    if target.row >= 2 { target.row - 1 } else { 1 }
                } else if target.row + 1 <= nlines {
                    target.row + 1
                } else {
                    nlines
                };
                let len = match self.buffers[bi].get_line(r) {
                    Some(l) => chars_of(l).len(),
                    None => 0,
                };
                self.tabpages[ti].windows[wi].set_cursor_vertical(r, Some(len));
                target = self.tabpages[ti].windows[wi].cursor();
                proof {
                    assert(len == line_len(b, r));
                    assert(tab_view(self.tabpages@[ti as int]).windows =~= cur_tab(v1).windows.update(wi as int, self.tabpages@[ti as int].windows@[wi as int]@));
                    assert(self@.tabs =~= with_cur_win(v1, vertical_moved(b, cur_win(v1), r)).tabs);
                    assert(self@.buffers =~= v1.buffers);
                    lemma_with_cur_win_twice(ov, motion_steps(b, w0, cur, motion, k as nat).0, vertical_moved(b, cur_win(v1), r));
                }
            } else {
                let n: usize = match self.buffers[bi].get_line(target.row) {
                    Some(l) => chars_of(l).len(),
                    None => 0,
                };
                let last: usize = if n >= 1 { n - 1 } else { 0 };
                target = if motion == Motion::Left {
                    Cursor { row: target.row, col: if target.col >= 1 { target.col - 1 } else { 0 } }
                } else if motion == Motion::Right {
                    Cursor { row: target.row, col: if target.col + 1 <= last { target.col + 1 } else { last } }
                } else if motion == Motion::LineStart {
                    Cursor { row: target.row, col: 0 }
                } else if motion == Motion::LineEnd {
                    Cursor { row: target.row, col: last }
                } else if motion == Motion::LineMiddle {
                    Cursor { row: target.row, col: n / 2 }
                } else if motion == Motion::BufferStart {
                    Cursor { row: 1, col: 0 }
                } else if motion == Motion::BufferEnd {
                    Cursor { row: nlines, col: 0 }
                } else if motion == Motion::WordForward {
                    self.buffers[bi].find_word_boundary(target.row, target.col, true)
                } else if motion == Motion::WordBackward || motion == Motion::WordBack {
                    self.buffers[bi].find_word_boundary(target.row, target.col, false)
                } else {
                    self.buffers[bi].find_paragraph_boundary(target.row, target.col, motion == Motion::ParagraphForward)
                };
                proof {
                    assert(n == line_len(b, motion_steps(b, w0, cur, motion, k as nat).1.row));
                }
            }
            k += 1;
        }
        proof {
            lemma_motion_steps(b, w0, cur, motion, count as nat);
        }
        if !(motion == Motion::Up || motion == Motion::Down) {
            let ghost v1 = self@;
            proof {
                assert(cur_win(v1) == w0);
                assert(v1 == ov);
            }
            self.move_cursor(target.row, target.col);
            proof {
                assert(self@.current_tab == ti);
                assert(cur_tab(self@).current == wi);
                assert(self@ == with_cur_win(ov, moved_to(w0, target.row, target.col)));
            }
            if motion == Motion::LineEnd {
                let ghost v2 = self@;
                assert(self.current_tab_idx == ti);
                assert(self.tabpages@[ti as int].current_win_idx == wi);
                assert(wi < self.tabpages@[ti as int].windows@.len());
                self.tabpages[ti].windows[wi].set_curswant(usize::MAX);
                proof {
                    assert(tab_view(self.tabpages@[ti as int]).windows =~= cur_tab(v2).windows.update(wi as int, self.tabpages@[ti as int].windows@[wi as int]@));
                    assert(self@.buffers =~= v2.buffers);
                    let a = moved_to(w0, target.row, target.col);
                    let bw = WindowView { curswant: usize::MAX, ..a };
                    assert(cur_win(v2) == a);
                    assert(self.tabpages@[ti as int].windows@[wi as int]@ == bw);
                    assert(self@.tabs =~= with_cur_win(v2, bw).tabs);
                    assert(self@ == with_cur_win(v2, bw));
                    lemma_with_cur_win_twice(ov, a, bw);
                    assert(self@ == with_cur_win(ov, motion_window(b, w0, motion, count)));
                }
            } else {
                assert(self@ == with_cur_win(ov, motion_window(b, w0, motion, count)));
            }
        } else {
            assert(self@ == with_cur_win(ov, motion_window(b, w0, motion, count)));
        }
        Ok(())
    }

    /// An undo or a redo of the current buffer (see [`history_done`]).
    fn apply_history(&mut self, undo: bool) -> (r: Result<(), NvimError>)
        requires
            old(self).wf(),
            history_allowed(old(self)@, undo),
        ensures
            final(self).wf(),
            history_done(old(self)@, final(self)@, undo, r),
    {
        let ghost ov = self@;
        let ti = self.current_tab_idx;
        let wi = self.tabpages[ti].current_win_idx;
        let bid = self.tabpages[ti].windows[wi].buffer();
        proof {
            lemma_find_buffer(ov.buffers, bid);
            assert(cur_win(ov) == self.tabpages@[ti as int].windows@[wi as int]@);
        }
        match self.buffer_index(bid) {
            Some(bi) => {
                let u = if undo { self.buffers[bi].undo() } else { self.buffers[bi].redo() };
                let ghost v1 = self@;
                proof {
                    assert(self@.buffers =~= ov.buffers.update(bi as int, self@.buffers[bi as int]));
                    assert(self@.tabs =~= ov.tabs);
                }
                match u {
                    Err(e) => {
                        proof { assert(after_history_move(ov, self@, bi as int, self@.buffers[bi as int], u, Err::<(), NvimError>(e))); }
                        Err(e)
                    },
                    Ok(None) => {
                        proof { assert(after_history_move(ov, self@, bi as int, self@.buffers[bi as int], u, Ok::<(), NvimError>(()))); }
                        Ok(())
                    },
                    Ok(Some(c)) => {
                        self.move_cursor(c.row, c.col);
                        proof {
                            assert(self@.buffers =~= v1.buffers);
                            assert(after_history_move(ov, self@, bi as int, self@.buffers[bi as int], u, Ok::<(), NvimError>(())));
                        }
                        Ok(())
                    },
                }
            },
            None => Ok(()),
        }
    }

    /// `x` with a count: the characters from the cursor on deleted one by
    /// one, the errors dropped (see [`chars_cut`]).
    fn apply_delete_chars(&mut self, count: u32) -> (r: Result<(), NvimError>)
        requires
            old(self).wf(),
            request_allowed(old(self)@, Request::DeleteCharAtCursor { count }),
        ensures
            final(self).wf(),
            request_done(old(self)@, final(self)@, Request::DeleteCharAtCursor { count }, r),
    {
        let ghost ov = self@;
        let ti = self.current_tab_idx;
        let wi = self.tabpages[ti].current_win_idx;
        let bid = self.tabpages[ti].windows[wi].buffer();
        let cur = self.tabpages[ti].windows[wi].cursor();
        proof {
            lemma_find_buffer(ov.buffers, bid);
            assert(cur_win(ov) == self.tabpages@[ti as int].windows@[wi as int]@);
        }
        match self.buffer_index(bid) {
            Some(bi) => {
                let ghost b0 = ov.buffers[bi as int];
                proof {
                    assert(ov.buffers.update(bi as int, b0) =~= ov.buffers);
                }
                let mut i: u32 = 0;
                while i < count
                    invariant
                        self.wf(),
                        bi < self@.buffers.len(),
                        bi < ov.buffers.len(),
                        i <= count,
                        cur.col < usize::MAX,
                        b0.history.nodes@.len() + count + 1 < usize::MAX,
                        self@ == with_buffer(ov, bi as int, self@.buffers[bi as int]),
                        chars_deleted(b0, self@.buffers[bi as int], cur.row, (cur.col + 1) as usize, i as nat),
                        self@.buffers[bi as int].history.nodes@.len() <= b0.history.nodes@.len() + i,
                        marks_fit(self@.buffers[bi as int].extmarks),
                    decreases count - i,
                {
                    let ghost b1 = self@.buffers[bi as int];
                    let ghost vp = self@;
                    proof {
                        assert(b1 == self.buffers@[bi as int]@);
                        lemma_marks_fit_left(b1.extmarks, cur.row, (cur.col + 1) as usize);
                    }
                    let u = self.buffers[bi].delete_char(cur.row, cur.col + 1);
                    proof {
                        assert(self@.buffers =~= vp.buffers.update(bi as int, self@.buffers[bi as int]));
                        assert(vp.buffers == ov.buffers.update(bi as int, b1));
                        assert(self@.buffers.len() == ov.buffers.len());
                        assert forall|j: int| 0 <= j < self@.buffers.len() implies #[trigger] self@.buffers[j] == ov.buffers.update(bi as int, self@.buffers[bi as int])[j] by {
                            if j != bi as int {
                                assert(self@.buffers[j] == vp.buffers[j]);
                                assert(vp.buffers[j] == ov.buffers.update(bi as int, b1)[j]);
                            }
                        }
                        assert(self@.buffers =~= ov.buffers.update(bi as int, self@.buffers[bi as int]));
                        assert(self@.tabs =~= ov.tabs);
                        lemma_char_delete_bounds(b1, self@.buffers[bi as int], cur.row, (cur.col + 1) as usize, u);
                        assert(chars_deleted(b0, self@.buffers[bi as int], cur.row, (cur.col + 1) as usize, (i + 1) as nat));
                    }
                    i = i + 1;
                }
                proof {
                    lemma_chars_deleted(b0, self@.buffers[bi as int], cur.row, cur.col, count as nat);
                }
                Ok(())
            },
            None => Ok(()),
        }
    }

    /// `o` and `O`: insert mode, and a new line below or above the cursor
    /// line with its indent (see [`open_indent`]), the cursor at its end.
    fn apply_open_line(&mut self, below: bool) -> (r: Result<(), NvimError>)
        requires
            old(self).wf(),
            request_allowed(old(self)@, Request::OpenLine { below }),
        ensures
            final(self).wf(),
            request_done(old(self)@, final(self)@, Request::OpenLine { below }, r),
    {
        let ghost ov = self@;
        let ti = self.current_tab_idx;
        let wi = self.tabpages[ti].current_win_idx;
        let bid = self.tabpages[ti].windows[wi].buffer();
        let cur = self.tabpages[ti].windows[wi].cursor();
        proof {
            lemma_find_buffer(ov.buffers, bid);
            assert(cur_win(ov) == self.tabpages@[ti as int].windows@[wi as int]@);
        }
        match self.buffer_index(bid) {
            None => self.apply_set_mode(Mode::Insert),
            Some(bi) => {
                proof {
                    assert(self@.buffers[bi as int] == self.buffers@[bi as int]@);
                }
                let indent = match self.buffers[bi].get_line(cur.row) {
                    Some(l) => open_indent_of(&chars_of(l), self.tabstop),
                    None => Vec::new(),
                };
                assert(indent@ == open_indent(ov.buffers[bi as int], cur.row, ov.tabstop));
                let _ = self.apply_set_mode(Mode::Insert);
                let ghost v1 = self@;
                proof {
                    assert(mode_set(ov, v1, Mode::Insert, Ok::<(), NvimError>(())));
                    assert(v1.buffers[bi as int] == self.buffers@[bi as int]@);
                    assert(cur_win(v1) == cur_win(ov));
                }
                let n = if below { cur.row + 1 } else { cur.row };
                let text = string_from_chars(&indent);
                let r = self.buffers[bi].insert_line(n, text.as_str());
                proof {
                    assert(self@.buffers =~= v1.buffers.update(bi as int, self@.buffers[bi as int]));
                    assert(self@.tabs =~= v1.tabs);
                    assert(self@.cmd_history =~= v1.cmd_history);
                }
                match r {
                    Err(e) => Err(e),
                    Ok(()) => {
                        let ghost v2 = self@;
                        self.move_cursor(n, indent.len());
                        proof {
                            assert(self@.buffers =~= v2.buffers);
                        }
                        Ok(())
                    },
                }
            },
        }
    }

    /// The index of the buffer that an API call names (see [`api_buffer`]).
    fn api_buffer_index(&self, buf_id: i32) -> (r: Option<usize>)
        requires
            self.wf(),
        ensures
            match r {
                Some(i) => api_buffer(self@, buf_id) == Some(i as int) && i < self@.buffers.len(),
                None => api_buffer(self@, buf_id) is None,
            },
    {
        let id = if buf_id == 0 {
            let ti = self.current_tab_idx;
            let wi = self.tabpages[ti].current_win_idx;
            proof {
                assert(cur_win(self@) == self.tabpages@[ti as int].windows@[wi as int]@);
            }
            self.tabpages[ti].windows[wi].buffer()
        } else {
            buf_id
        };
        proof {
            lemma_find_buffer(self@.buffers, id);
        }
        self.buffer_index(id)
    }

    /// Lines `start` to `end` (end excluded, counted from 0; a negative end
    /// is the last line) of the buffer that `buf_id` names, as far as
    /// there are such lines; none where that buffer is not loaded.
    pub fn buf_get_lines(&self, buf_id: i32, start: usize, end: i32) -> (r: Vec<String>)
        requires
            self.wf(),
        ensures
            r@.len() == (match api_buffer(self@, buf_id) {
                Some(i) => lines_in_range(self@.buffers[i].lines, start as int, end).len(),
                None => 0,
            }),
            api_buffer(self@, buf_id) matches Some(i) ==> forall|k: int| 0 <= k < r@.len() ==>
                #[trigger] r@[k]@ == lines_in_range(self@.buffers[i].lines, start as int, end)[k],
    {
        let mut out: Vec<String> = Vec::new();
        match self.api_buffer_index(buf_id) {
            None => out,
            Some(bi) => {
                let b = &self.buffers[bi];
                proof {
                    assert(self@.buffers[bi as int] == b@);
                }
                let ghost l = b@.lines;
                let n = b.line_count();
                let e: usize = if end < 0 { n } else if (end as usize) > n { n } else { end as usize };
                let mut k: usize = start;
                while k < e
                    invariant
                        b.wf(),
                        l == b@.lines,
                        n == l.len(),
                        e <= n,
                        e == (if range_end(l, end) > l.len() { l.len() as int } else { range_end(l, end) }),
                        start <= k <= e || (k == start && start >= e),
                        out@.len() == k - start,
                        forall|j: int| 0 <= j < out@.len() ==> #[trigger] out@[j]@ == l[start + j],
                    decreases e - k,
                {
                    match b.get_line(k + 1) {
                        Some(t) => out.push(t.to_owned()),
                        None => {},
                    }
                    k += 1;
                }
                proof {
                    if start < e {
                        assert forall|j: int| 0 <= j < out@.len() implies #[trigger] out@[j]@ == lines_in_range(l, start as int, end)[j] by {
                            assert(out@[j]@ == l[start + j]);
                        }
                    }
                }
                out
            },
        }
    }

    /// The number of lines of the buffer that `buf_id` names (`1` where
    /// that buffer is not loaded).
    pub fn buf_line_count(&self, buf_id: i32) -> (r: usize)
        requires
            self.wf(),
        ensures
            r == (match api_buffer(self@, buf_id) {
                Some(i) => self@.buffers[i].lines.len(),
                None => 1,
            }),
    {
        match self.api_buffer_index(buf_id) {
            Some(bi) => {
                proof {
                    assert(self@.buffers[bi as int] == self.buffers@[bi as int]@);
                }
                self.buffers[bi].line_count()
            },
            None => 1,
        }
    }

    /// Replaces lines `start` to `end` (end excluded, counted from 0; a
    /// negative end is the last line) of the buffer that `buf_id` names by
    /// `lines`: the old lines are deleted one by one and the new ones
    /// inserted, each edit recorded for undo (see [`lines_replaced`]; a
    /// read-only buffer stays as it is). An error, with nothing changed,
    /// where that buffer is not loaded.
    pub fn buf_set_lines(&mut self, buf_id: i32, start: usize, end: i32, lines: Vec<String>) -> (r: Result<(), NvimError>)
        requires
            old(self).wf(),
            set_lines_allowed(old(self)@, buf_id, start, lines@.len()),
        ensures
            final(self).wf(),
            match api_buffer(old(self)@, buf_id) {
                None => (r matches Err(NvimError::Api(m)) && m@ == no_buffer_text()) && final(self)@ == old(self)@,
                Some(i) => {
                    let b = old(self)@.buffers[i];
                    &&& r is Ok
                    &&& final(self)@ == with_buffer(old(self)@, i, final(self)@.buffers[i])
                    &&& b.readonly ==> final(self)@.buffers[i] == b
                    &&& !b.readonly ==> relined(b, final(self)@.buffers[i],
                        lines_replaced(b.lines, start as int, end, Seq::new(lines@.len(), |k: int| lines@[k]@)))
                },
            },
    {
        let ghost ov = self@;
        let bi = match self.api_buffer_index(buf_id) {
            Some(bi) => bi,
            None => {
                return Err(NvimError::Api("no such buffer".to_owned()));
            },
        };
        let ghost b0 = ov.buffers[bi as int];
        let ghost l0 = b0.lines;
        let ghost newv = Seq::new(lines@.len(), |k: int| lines@[k]@);
        proof {
            assert(ov.buffers.update(bi as int, b0) =~= ov.buffers);
            assert(b0 == self.buffers@[bi as int]@);
        }
        let n0 = self.buffers[bi].line_count();
        let actual_end: usize = if end < 0 { n0 } else { end as usize };
        let mut j: usize = start;
        while j < actual_end
            invariant
                self.wf(),
                bi < self@.buffers.len(),
                bi < ov.buffers.len(),
                self@ == with_buffer(ov, bi as int, self@.buffers[bi as int]),
                b0 == ov.buffers[bi as int],
                l0 == b0.lines,
                start <= j,
                j == start || j <= actual_end,
                n0 == l0.len(),
                actual_end == (if end < 0 { n0 } else { end as usize }),
                b0.history.nodes@.len() + l0.len() + lines@.len() < usize::MAX,
                start + lines@.len() < usize::MAX,
                b0.readonly ==> self@.buffers[bi as int] == b0,
                relined(b0, self@.buffers[bi as int], self@.buffers[bi as int].lines),
                !b0.readonly ==> self@.buffers[bi as int].lines == (if start < l0.len() {
                    l0.take(start as int) + l0.skip(if j < l0.len() { j as int } else { l0.len() as int })
                } else {
                    l0
                }),
                self@.buffers[bi as int].history.nodes@.len() + self@.buffers[bi as int].lines.len() <= b0.history.nodes@.len() + l0.len(),
                rows_fit(self@.buffers[bi as int].extmarks, lines@.len()),
            decreases actual_end - j,
        {
            let ghost b1 = self@.buffers[bi as int];
            let ghost vp = self@;
            proof {
                assert(b1 == self.buffers@[bi as int]@);
                lemma_rows_fit_up(b1.extmarks, (start + 1) as usize, lines@.len());
            }
            if start + 1 <= self.buffers[bi].line_count() {
                let _ = self.buffers[bi].delete_line(start + 1);
                proof {
                    assert(self@.buffers =~= vp.buffers.update(bi as int, self@.buffers[bi as int]));
                    assert(self@.buffers.len() == ov.buffers.len());
                    assert forall|x: int| 0 <= x < self@.buffers.len() implies #[trigger] self@.buffers[x] == ov.buffers.update(bi as int, self@.buffers[bi as int])[x] by {
                        if x != bi as int {
                            assert(self@.buffers[x] == vp.buffers[x]);
                        }
                    }
                    assert(self@.buffers =~= ov.buffers.update(bi as int, self@.buffers[bi as int]));
                    assert(self@.tabs =~= ov.tabs);
                    if !b0.readonly {
                        let m = if j < l0.len() { j as int } else { l0.len() as int };
                        assert(start < l0.len());
                        assert(j < l0.len());
                        assert(b1.lines.remove(start as int) =~= l0.take(start as int) + l0.skip(j + 1));
                    }
                }
            } else {
                proof {
                    if !b0.readonly && start < l0.len() {
                        assert(j >= l0.len());
                        assert(l0.take(start as int) + l0.skip(l0.len() as int) =~= b1.lines);
                    }
                }
            }
            j += 1;
        }
        let ghost bk = self@.buffers[bi as int];
        let ghost lk = bk.lines;
        proof {
            if !b0.readonly {
                if start < l0.len() {
                    let e = range_end(l0, end);
                    let m = if j < l0.len() { j as int } else { l0.len() as int };
                    assert(lk.len() >= start);
                } else {
                    assert(lk == l0);
                }
            }
        }
        let mut k: usize = 0;
        while k < lines.len()
            invariant
                self.wf(),
                bi < self@.buffers.len(),
                bi < ov.buffers.len(),
                self@ == with_buffer(ov, bi as int, self@.buffers[bi as int]),
                b0 == ov.buffers[bi as int],
                l0 == b0.lines,
                k <= lines@.len(),
                newv == Seq::new(lines@.len(), |x: int| lines@[x]@),
                b0.history.nodes@.len() + l0.len() + lines@.len() < usize::MAX,
                start + lines@.len() < usize::MAX,
                bk.lines == lk,
                relined(b0, bk, lk),
                b0.readonly ==> bk == b0,
                bk.history.nodes@.len() + lk.len() <= b0.history.nodes@.len() + l0.len(),
                b0.readonly || start > lk.len() ==> self@.buffers[bi as int] == bk,
                relined(b0, self@.buffers[bi as int], self@.buffers[bi as int].lines),
                !b0.readonly && start <= lk.len() ==> self@.buffers[bi as int].lines == lk.take(start as int) + newv.take(k as int) + lk.skip(start as int),
                self@.buffers[bi as int].history.nodes@.len() <= bk.history.nodes@.len() + k,
                self@.buffers[bi as int].lines.len() <= lk.len() + k,
                rows_fit(self@.buffers[bi as int].extmarks, (lines@.len() - k) as nat),
            decreases lines@.len() - k,
        {
            let ghost b1 = self@.buffers[bi as int];
            let ghost vp = self@;
            proof {
                assert(b1 == self.buffers@[bi as int]@);
                lemma_rows_fit_down(b1.extmarks, (start + k + 1) as usize, (lines@.len() - k) as nat);
            }
            let _ = self.buffers[bi].insert_line(start + k + 1, lines[k].as_str());
            proof {
                assert(self@.buffers =~= vp.buffers.update(bi as int, self@.buffers[bi as int]));
                assert(self@.buffers.len() == ov.buffers.len());
                assert forall|x: int| 0 <= x < self@.buffers.len() implies #[trigger] self@.buffers[x] == ov.buffers.update(bi as int, self@.buffers[bi as int])[x] by {
                    if x != bi as int {
                        assert(self@.buffers[x] == vp.buffers[x]);
                    }
                }
                assert(self@.buffers =~= ov.buffers.update(bi as int, self@.buffers[bi as int]));
                assert(self@.tabs =~= ov.tabs);
                if !b0.readonly && start <= lk.len() {
                    assert(newv[k as int] == lines@[k as int]@);
                    assert((lk.take(start as int) + newv.take(k as int) + lk.skip(start as int)).insert(start + k, newv[k as int])
                        =~= lk.take(start as int) + newv.take(k + 1) + lk.skip(start as int));
                }
            }
            k += 1;
        }
        proof {
            if !b0.readonly {
                let cut = {
                    let e = range_end(l0, end);
                    if e < start { start as int } else if e > l0.len() { l0.len() as int } else { e }
                };
                assert(newv.take(lines@.len() as int) =~= newv);
                if start < l0.len() {
                    let m = if j < l0.len() { j as int } else { l0.len() as int };
                    assert(m == cut);
                    assert(lk.take(start as int) =~= l0.take(start as int));
                    assert(lk.skip(start as int) =~= l0.skip(cut));
                } else if start == l0.len() {
                    assert(lk == l0);
                    assert(l0.skip(cut) =~= l0.skip(start as int));
                }
            }
        }
        Ok(())
    }

    /// The place of the first window with id `id` (see [`first_window`]).
    fn find_window(&self, id: i32) -> (r: Option<(usize, usize)>)
        requires
            self.wf(),
        ensures
            match r {
                Some((t, w)) => first_window(self@, id, t as int, w as int),
                None => no_window(self@, id),
            },
    {
        let mut t: usize = 0;
        while t < self.tabpages.len()
            invariant
                t <= self@.tabs.len(),
                self@.tabs.len() == self.tabpages@.len(),
                forall|t2: int, w2: int| 0 <= t2 < t && 0 <= w2 < self@.tabs[t2].windows.len() ==> (#[trigger] self@.tabs[t2].windows[w2]).id != id,
            decreases self.tabpages@.len() - t,
        {
            let mut w: usize = 0;
            while w < self.tabpages[t].windows.len()
                invariant
                    t < self@.tabs.len(),
                    self@.tabs.len() == self.tabpages@.len(),
                    w <= self@.tabs[t as int].windows.len(),
                    self@.tabs[t as int] == tab_view(self.tabpages@[t as int]),
                    forall|t2: int, w2: int| 0 <= t2 < t && 0 <= w2 < self@.tabs[t2].windows.len() ==> (#[trigger] self@.tabs[t2].windows[w2]).id != id,
                    forall|w2: int| 0 <= w2 < w ==> (#[trigger] self@.tabs[t as int].windows[w2]).id != id,
                decreases self.tabpages@[t as int].windows@.len() - w,
            {
                if self.tabpages[t].windows[w].id() == id {
                    return Some((t, w));
                }
                w += 1;
            }
            t += 1;
        }
        None
    }

    /// The cursor of the window with id `win_id` (`0` is the current
    /// window); `(1, 0)` where there is no such window.
    pub fn win_get_cursor(&self, win_id: i32) -> (r: (usize, usize))
        requires
            self.wf(),
        ensures
            win_id == 0 ==> r == (cur_win(self@).cursor.row, cur_win(self@).cursor.col),
            win_id != 0 ==> (exists|t: int, w: int| #[trigger] first_window(self@, win_id, t, w)
                && r == (self@.tabs[t].windows[w].cursor.row, self@.tabs[t].windows[w].cursor.col))
                || (no_window(self@, win_id) && r == (1usize, 0usize)),
    {
        if win_id == 0 {
            let ti = self.current_tab_idx;
            let wi = self.tabpages[ti].current_win_idx;
            proof {
                assert(cur_win(self@) == self.tabpages@[ti as int].windows@[wi as int]@);
            }
            let c = self.tabpages[ti].windows[wi].cursor();
            return (c.row, c.col);
        }
        match self.find_window(win_id) {
            Some((t, w)) => {
                proof {
                    assert(self@.tabs[t as int].windows[w as int] == self.tabpages@[t as int].windows@[w as int]@);
                }
                let c = self.tabpages[t].windows[w].cursor();
                (c.row, c.col)
            },
            None => (1, 0),
        }
    }

    /// Moves the cursor of the window with id `win_id` (`0` is the current
    /// window) to `(row, col)` (see [`Window::set_cursor`]); nothing
    /// happens where there is no such window.
    pub fn win_set_cursor(&mut self, win_id: i32, row: usize, col: usize)
        requires
            old(self).wf(),
            forall|t: int, w: int| 0 <= t < old(self)@.tabs.len() && 0 <= w < old(self)@.tabs[t].windows.len() ==> {
                let x = #[trigger] old(self)@.tabs[t].windows[w];
                x.topline + x.height <= usize::MAX && row - x.height + 1 <= usize::MAX
            },
        ensures
            final(self).wf(),
            win_id == 0 ==> final(self)@ == with_cur_win(old(self)@, moved_to(cur_win(old(self)@), row, col)),
            win_id != 0 ==> (exists|t: int, w: int| #[trigger] first_window(old(self)@, win_id, t, w)
                && final(self)@ == with_window(old(self)@, t, w, moved_to(old(self)@.tabs[t].windows[w], row, col)))
                || (no_window(old(self)@, win_id) && final(self)@ == old(self)@),
    {
        let ghost ov = self@;
        if win_id == 0 {
            let ti = self.current_tab_idx;
            let wi = self.tabpages[ti].current_win_idx;
            proof {
                assert(cur_win(ov) == self.tabpages@[ti as int].windows@[wi as int]@);
                assert(0 <= wi < ov.tabs[ti as int].windows.len());
                let x = ov.tabs[ti as int].windows[wi as int];
            }
            self.move_cursor(row, col);
            return;
        }
        match self.find_window(win_id) {
            Some((t, w)) => {
                proof {
                    assert(ov.tabs[t as int].windows[w as int] == self.tabpages@[t as int].windows@[w as int]@);
                    let x = ov.tabs[t as int].windows[w as int];
                }
                self.tabpages[t].windows[w].set_cursor(row, col);
                proof {
                    assert(tab_view(self.tabpages@[t as int]).windows =~= ov.tabs[t as int].windows.update(w as int, self.tabpages@[t as int].windows@[w as int]@));
                    assert(self@.tabs =~= with_window(ov, t as int, w as int, moved_to(ov.tabs[t as int].windows[w as int], row, col)).tabs);
                    assert(self@.buffers =~= ov.buffers);
                    assert(first_window(ov, win_id, t as int, w as int));
                }
            },
            None => {},
        }
    }

    /// Sets an extended mark at `(row, col)` (`row` counted from 0) of the
    /// buffer that `buf_id` names, with the next free id of that buffer,
    /// and returns the id; `None`, with nothing changed, where that buffer
    /// is not loaded.
    pub fn buf_set_extmark(&mut self, buf_id: i32, row: usize, col: usize) -> (r: Option<i32>)
        requires
            old(self).wf(),
            row < usize::MAX,
            api_buffer(old(self)@, buf_id) matches Some(i) ==> old(self)@.buffers[i].extmarks.next_mark_id < i32::MAX,
        ensures
            final(self).wf(),
            match api_buffer(old(self)@, buf_id) {
                None => r is None && final(self)@ == old(self)@,
                Some(i) => {
                    let b = old(self)@.buffers[i];
                    &&& r == Some(b.extmarks.next_mark_id)
                    &&& final(self)@ == with_buffer(old(self)@, i, BufferView {
                        extmarks: ExtmarkManagerView {
                            marks: b.extmarks.marks.insert((0, b.extmarks.next_mark_id), plain_mark(b.extmarks.next_mark_id, (row + 1) as usize, col)),
                            next_mark_id: (b.extmarks.next_mark_id + 1) as i32,
                        },
                        ..b
                    })
                },
            },
    {
        let ghost ov = self@;
        match self.api_buffer_index(buf_id) {
            Some(bi) => {
                proof {
                    assert(ov.buffers[bi as int] == self.buffers@[bi as int]@);
                }
                let id = self.buffers[bi].set_extmark(row + 1, col);
                proof {
                    assert(self@.buffers =~= ov.buffers.update(bi as int, self@.buffers[bi as int]));
                    assert(self@.tabs =~= ov.tabs);
                }
                Some(id)
            },
            None => None,
        }
    }

    /// The extended mark `id` of the buffer that `buf_id` names, if any.
    pub fn buf_get_extmark(&self, buf_id: i32, id: i32) -> (r: Option<Extmark>)
        requires
            self.wf(),
        ensures
            match api_buffer(self@, buf_id) {
                None => r is None,
                Some(i) => match r {
                    Some(m) => self@.buffers[i].extmarks.marks.contains_key((0, id)) && m@ == self@.buffers[i].extmarks.marks[(0, id)],
                    None => !self@.buffers[i].extmarks.marks.contains_key((0, id)),
                },
            },
    {
        match self.api_buffer_index(buf_id) {
            Some(bi) => {
                proof {
                    assert(self@.buffers[bi as int] == self.buffers@[bi as int]@);
                }
                self.buffers[bi].get_extmark(id)
            },
            None => None,
        }
    }

    /// Backspace outside block insert: the character before the cursor is
    /// deleted, or the line joined to the one above at its first column,
    /// and the cursor goes where the delete says (see [`request_done`]).
    fn apply_backspace(&mut self) -> (r: Result<(), NvimError>)
        requires
            old(self).wf(),
            request_allowed(old(self)@, Request::Backspace),
        ensures
            final(self).wf(),
            request_done(old(self)@, final(self)@, Request::Backspace, r),
    {
        let ghost ov = self@;
        if let Mode::BlockInsert { .. } = self.mode {
            return refusal();
        }
        let ti = self.current_tab_idx;
        let wi = self.tabpages[ti].current_win_idx;
        let bid = self.tabpages[ti].windows[wi].buffer();
        let cur = self.tabpages[ti].windows[wi].cursor();
        proof {
            lemma_find_buffer(ov.buffers, bid);
            assert(cur_win(ov) == self.tabpages@[ti as int].windows@[wi as int]@);
        }
        match self.buffer_index(bid) {
            None => Ok(()),
            Some(bi) => {
                proof {
                    assert(self@.buffers[bi as int] == self.buffers@[bi as int]@);
                }
                let u = self.buffers[bi].delete_char(cur.row, cur.col);
                proof {
                    assert(self@.buffers =~= ov.buffers.update(bi as int, self@.buffers[bi as int]));
                    assert(self@.tabs =~= ov.tabs);
                }
                match u {
                    Err(e) => Err(e),
                    Ok(None) => Ok(()),
                    Ok(Some(nc)) => {
                        let row = if cur.col == 0 { cur.row - 1 } else { cur.row };
                        let ghost v1 = self@;
                        self.move_cursor(row, nc);
                        proof {
                            assert(self@.buffers =~= v1.buffers);
                        }
                        Ok(())
                    },
                }
            },
        }
    }

    /// `dd` with a count: in one undo group, the cursor line deleted
    /// `count` times while there is such a line; the cursor then goes to the
    /// first column of that line, or of the last one (see [`request_done`]).
    fn apply_delete_lines(&mut self, count: u32) -> (r: Result<(), NvimError>)
        requires
            old(self).wf(),
            request_allowed(old(self)@, Request::DeleteCurrentLine { count }),
        ensures
            final(self).wf(),
            request_done(old(self)@, final(self)@, Request::DeleteCurrentLine { count }, r),
    {
        let ghost ov = self@;
        let ti = self.current_tab_idx;
        let wi = self.tabpages[ti].current_win_idx;
        let bid = self.tabpages[ti].windows[wi].buffer();
        let row = self.tabpages[ti].windows[wi].cursor().row;
        proof {
            lemma_find_buffer(ov.buffers, bid);
            assert(cur_win(ov) == self.tabpages@[ti as int].windows@[wi as int]@);
        }
        let bi = match self.buffer_index(bid) {
            Some(bi) => bi,
            None => {
                return Ok(());
            },
        };
        let ghost b0 = ov.buffers[bi as int];
        let ghost len0 = b0.lines.len();
        let ghost opened = BufferView { groups: b0.groups.push(Seq::empty()), ..b0 };
        let ghost ok_case = !b0.readonly && 1 <= row <= len0;
        proof {
            assert(b0 == self.buffers@[bi as int]@);
        }
        self.buffers[bi].start_undo_group();
        proof {
            assert(self@.buffers =~= ov.buffers.update(bi as int, opened));
            assert(self@.tabs =~= ov.tabs);
            assert(lines_deleted(opened, opened, row, 0));
        }
        if count > 0 && row <= self.buffers[bi].line_count() && (self.buffers[bi].is_readonly() || row == 0) {
            let ghost vp = self@;
            proof {
                assert(vp.buffers[bi as int] == self.buffers@[bi as int]@);
            }
            let u = self.buffers[bi].delete_line(row);
            proof {
                assert(vp.buffers[bi as int] == opened);
                assert(self@.buffers =~= vp.buffers.update(bi as int, self@.buffers[bi as int]));
                assert(self@.tabs =~= ov.tabs);
            }
            match u {
                Err(e) => {
                    proof {
                        assert(self@.buffers[bi as int] == opened);
                        assert(self@.buffers =~= ov.buffers.update(bi as int, opened));
                        assert(lines_cut_done(ov, self@, count, Err::<(), NvimError>(e)));
                    }
                    return Err(e);
                },
                Ok(()) => {
                    proof {
                        assert(false);
                    }
                    return Ok(());
                },
            }
        }
        let mut j: u32 = 0;
        while j < count
            invariant
                self.wf(),
                bi < self@.buffers.len(),
                bi < ov.buffers.len(),
                b0 == ov.buffers[bi as int],
                len0 == b0.lines.len(),
                opened == (BufferView { groups: b0.groups.push(Seq::empty()), ..b0 }),
                ok_case == (!b0.readonly && 1 <= row <= len0),
                cur_buffer(ov) == Some(bi as int),
                cur_win(ov).cursor.row == row,
                j <= count,
                self@ == with_buffer(ov, bi as int, self@.buffers[bi as int]),
                b0.history.nodes@.len() < usize::MAX,
                rows_fit(self@.buffers[bi as int].extmarks, 0),
                !ok_case && row <= len0 ==> count == 0,
                !ok_case ==> self@.buffers[bi as int] == opened,
                ok_case ==> lines_deleted(opened, self@.buffers[bi as int], row,
                    (if j <= len0 - row + 1 { j as nat } else { (len0 - row + 1) as nat })),
                ok_case ==> self@.buffers[bi as int].history == b0.history,
                ok_case ==> self@.buffers[bi as int].groups.len() == opened.groups.len(),
                ok_case ==> self@.buffers[bi as int].lines.len() == len0 - (if j <= len0 - row + 1 { j as int } else { len0 - row + 1 }),
            decreases count - j,
        {
            let ghost b1 = self@.buffers[bi as int];
            let ghost vp = self@;
            let ghost d = if j <= len0 - row + 1 { j as nat } else { (len0 - row + 1) as nat };
            proof {
                assert(b1 == self.buffers@[bi as int]@);
                if row >= 1 {
                    lemma_rows_fit_up(b1.extmarks, row, 0);
                }
            }
            if row <= self.buffers[bi].line_count() {
                let u = self.buffers[bi].delete_line(row);
                proof {
                    assert(self@.buffers =~= vp.buffers.update(bi as int, self@.buffers[bi as int]));
                    assert(self@.buffers.len() == ov.buffers.len());
                    assert forall|x: int| 0 <= x < self@.buffers.len() implies #[trigger] self@.buffers[x] == ov.buffers.update(bi as int, self@.buffers[bi as int])[x] by {
                        if x != bi as int {
                            assert(self@.buffers[x] == vp.buffers[x]);
                        }
                    }
                    assert(self@.buffers =~= ov.buffers.update(bi as int, self@.buffers[bi as int]));
                    assert(self@.tabs =~= ov.tabs);
                }
                match u {
                    Err(_) => {
                        proof {
                            assert(false);
                        }
                    },
                    Ok(()) => {
                        proof {
                            assert(ok_case);
                            assert(d == j);
                            assert(line_delete_done(b1, self@.buffers[bi as int], row, Ok::<(), NvimError>(())));
                            assert(lines_deleted(opened, self@.buffers[bi as int], row, (d + 1) as nat));
                            lemma_lines_deleted(opened, self@.buffers[bi as int], row, (d + 1) as nat);
                        }
                    },
                }
            }
            j += 1;
        }
        let ghost bk = self@.buffers[bi as int];
        let ghost vk = self@;
        proof {
            assert(bk == self.buffers@[bi as int]@);
        }
        self.buffers[bi].end_undo_group();
        proof {
            assert(self@.buffers =~= vk.buffers.update(bi as int, self@.buffers[bi as int]));
            assert(self@.buffers.len() == ov.buffers.len());
            assert forall|x: int| 0 <= x < self@.buffers.len() implies #[trigger] self@.buffers[x] == ov.buffers.update(bi as int, self@.buffers[bi as int])[x] by {
                if x != bi as int {
                    assert(self@.buffers[x] == vk.buffers[x]);
                }
            }
            assert(self@.buffers =~= ov.buffers.update(bi as int, self@.buffers[bi as int]));
            assert(self@.tabs =~= ov.tabs);
            if !ok_case || count == 0 {
                assert(bk == opened);
                assert(opened.groups.drop_last() =~= b0.groups);
                assert(self@.buffers[bi as int] == b0);
                assert(ov.buffers.update(bi as int, b0) =~= ov.buffers);
            }
        }
        let lc = self.buffers[bi].line_count();
        let target = if row < lc { row } else { lc };
        let ghost v1 = self@;
        proof {
            assert(cur_win(v1) == cur_win(ov));
        }
        self.move_cursor(target, 0);
        proof {
            assert(self@.buffers =~= v1.buffers);
            if ok_case && count > 0 {
                let k = if count <= len0 - row + 1 { count as nat } else { (len0 - row + 1) as nat };
                assert(lines_deleted(opened, bk, row, k));
                assert(group_ended(bk, self@.buffers[bi as int]));
            }
            if count == 0 || row > len0 {
                assert(v1 == ov);
                assert(target == (if row < len0 { row } else { len0 as usize }));
                assert(self@ == with_cur_win(ov, moved_to(cur_win(ov), target, 0)));
                assert(cur_buffer(ov) == Some(bi as int));
                assert(lines_cut_done(ov, self@, count, Ok::<(), NvimError>(())));
            } else {
                assert(ok_case);
                let k = if count <= len0 - row + 1 { count as nat } else { (len0 - row + 1) as nat };
                assert(bk.lines.len() == len0 - k);
                assert(lc == len0 - k);
                assert(v1 == with_buffer(ov, bi as int, v1.buffers[bi as int]));
                let b = ov.buffers[bi as int];
                assert(opened == BufferView { groups: b.groups.push(Seq::empty()), ..b });
                assert(lines_deleted(BufferView { groups: b.groups.push(Seq::empty()), ..b }, bk, row, k));
                let w = cur_win(ov);
                let ks = if count <= b.lines.len() - w.cursor.row + 1 { count as nat } else { (b.lines.len() - w.cursor.row + 1) as nat };
                assert(ks == k);
                assert(lines_deleted(BufferView { groups: b.groups.push(Seq::empty()), ..b }, bk, w.cursor.row, ks));
                assert(deleted_then_closed(BufferView { groups: b.groups.push(Seq::empty()), ..b }, self@.buffers[bi as int], w.cursor.row, ks));
                assert(self@ == with_cur_win(with_buffer(ov, bi as int, self@.buffers[bi as int]),
                    moved_to(w, if w.cursor.row < b.lines.len() - ks { w.cursor.row } else { (b.lines.len() - ks) as usize }, 0)));
                assert(lines_cut_done(ov, self@, count, Ok::<(), NvimError>(())));
                assert(exists|b1: BufferView| #[trigger] lines_deleted(opened, b1, row, k) && group_ended(b1, self@.buffers[bi as int]));
                assert(self@ == with_cur_win(with_buffer(ov, bi as int, self@.buffers[bi as int]), moved_to(cur_win(ov), if row < len0 - k { row } else { (len0 - k) as usize }, 0)));
                assert(!(count == 0 || row > ov.buffers[bi as int].lines.len()));
                assert(!(ov.buffers[bi as int].readonly || row == 0));
            }
            assert(lines_cut_done(ov, self@, count, Ok::<(), NvimError>(())));
        }
        Ok(())
    }

    /// `<C-U>` in insert mode: the characters before the cursor deleted one
    /// by one from the first column, the cursor then at the first column.
    fn apply_delete_to_line_start(&mut self) -> (r: Result<(), NvimError>)
        requires
            old(self).wf(),
            request_allowed(old(self)@, Request::InsertModeDeleteLine),
        ensures
            final(self).wf(),
            request_done(old(self)@, final(self)@, Request::InsertModeDeleteLine, r),
    {
        let ghost ov = self@;
        let ti = self.current_tab_idx;
        let wi = self.tabpages[ti].current_win_idx;
        let bid = self.tabpages[ti].windows[wi].buffer();
        let cur = self.tabpages[ti].windows[wi].cursor();
        proof {
            lemma_find_buffer(ov.buffers, bid);
            assert(cur_win(ov) == self.tabpages@[ti as int].windows@[wi as int]@);
        }
        match self.buffer_index(bid) {
            Some(bi) => {
                let ghost b0 = ov.buffers[bi as int];
                proof {
                    assert(ov.buffers.update(bi as int, b0) =~= ov.buffers);
                }
                let mut i: usize = 0;
                while i < cur.col
                    invariant
                        self.wf(),
                        bi < self@.buffers.len(),
                        bi < ov.buffers.len(),
                        i <= cur.col,
                        b0 == ov.buffers[bi as int],
                        b0.history.nodes@.len() + cur.col + 1 < usize::MAX,
                        self@ == with_buffer(ov, bi as int, self@.buffers[bi as int]),
                        chars_deleted(b0, self@.buffers[bi as int], cur.row, 1, i as nat),
                        self@.buffers[bi as int].history.nodes@.len() <= b0.history.nodes@.len() + i,
                        marks_fit(self@.buffers[bi as int].extmarks),
                    decreases cur.col - i,
                {
                    let ghost b1 = self@.buffers[bi as int];
                    let ghost vp = self@;
                    proof {
                        assert(b1 == self.buffers@[bi as int]@);
                        lemma_marks_fit_left(b1.extmarks, cur.row, 1);
                    }
                    let u = self.buffers[bi].delete_char(cur.row, 1);
                    proof {
                        assert(self@.buffers =~= vp.buffers.update(bi as int, self@.buffers[bi as int]));
                        assert(self@.buffers.len() == ov.buffers.len());
                        assert forall|x: int| 0 <= x < self@.buffers.len() implies #[trigger] self@.buffers[x] == ov.buffers.update(bi as int, self@.buffers[bi as int])[x] by {
                            if x != bi as int {
                                assert(self@.buffers[x] == vp.buffers[x]);
                            }
                        }
                        assert(self@.buffers =~= ov.buffers.update(bi as int, self@.buffers[bi as int]));
                        assert(self@.tabs =~= ov.tabs);
                        lemma_char_delete_bounds(b1, self@.buffers[bi as int], cur.row, 1, u);
                        assert(chars_deleted(b0, self@.buffers[bi as int], cur.row, 1, (i + 1) as nat));
                    }
                    i = i + 1;
                }
                proof {
                    lemma_chars_deleted(b0, self@.buffers[bi as int], cur.row, 0, cur.col as nat);
                }
                let ghost v1 = self@;
                proof {
                    assert(cur_win(v1) == cur_win(ov));
                }
                self.move_cursor(cur.row, 0);
                proof {
                    assert(self@.buffers =~= v1.buffers);
                }
                Ok(())
            },
            None => {
                self.move_cursor(cur.row, 0);
                Ok(())
            },
        }
    }

    /// `r` with a character: the character under the cursor replaced, the
    /// cursor moved past it; nothing where there is no such character.
    fn apply_replace_char(&mut self, c: char) -> (r: Result<(), NvimError>)
        requires
            old(self).wf(),
            request_allowed(old(self)@, Request::ReplaceCharUnderCursor(c)),
        ensures
            final(self).wf(),
            request_done(old(self)@, final(self)@, Request::ReplaceCharUnderCursor(c), r),
    {
        let ghost ov = self@;
        let ti = self.current_tab_idx;
        let wi = self.tabpages[ti].current_win_idx;
        let bid = self.tabpages[ti].windows[wi].buffer();
        let cur = self.tabpages[ti].windows[wi].cursor();
        proof {
            lemma_find_buffer(ov.buffers, bid);
            assert(cur_win(ov) == self.tabpages@[ti as int].windows@[wi as int]@);
        }
        match self.buffer_index(bid) {
            Some(bi) => {
                let ghost b0 = ov.buffers[bi as int];
                proof {
                    assert(b0 == self.buffers@[bi as int]@);
                }
                let n = match self.buffers[bi].get_line(cur.row) {
                    Some(l) => chars_of(l).len(),
                    None => 0,
                };
                if n > cur.col {
                    proof {
                        lemma_marks_fit_left(b0.extmarks, cur.row, (cur.col + 1) as usize);
                        lemma_marks_fit_replace(b0.extmarks, cur.row, cur.col);
                    }
                    let u1 = self.buffers[bi].delete_char(cur.row, cur.col + 1);
                    let ghost b1 = self.buffers@[bi as int]@;
                    let u2 = self.buffers[bi].insert_char(cur.row, cur.col, c);
                    proof {
                        assert(self@.buffers =~= ov.buffers.update(bi as int, self@.buffers[bi as int]));
                        assert(self@.tabs =~= ov.tabs);
                        assert(replaced_at(b0, self@.buffers[bi as int], cur.row, cur.col, c));
                    }
                    let ghost v1 = self@;
                    proof {
                        assert(cur_win(v1) == cur_win(ov));
                    }
                    self.move_cursor(cur.row, cur.col + 1);
                    proof {
                        assert(self@.buffers =~= v1.buffers);
                    }
                }
                Ok(())
            },
            None => Ok(()),
        }
    }

    /// A change of mode (see [`request_done`]).
    fn apply_set_mode(&mut self, m: Mode) -> (r: Result<(), NvimError>)
        requires
            old(self).wf(),
            request_allowed(old(self)@, Request::SetMode(m)),
        ensures
            final(self).wf(),
            request_done(old(self)@, final(self)@, Request::SetMode(m), r),
            final(self)@.visual_anchor == old(self)@.visual_anchor,
    {
        let ghost ov = self@;
        let ti = self.current_tab_idx;
        let wi = self.tabpages[ti].current_win_idx;
        let bid = self.tabpages[ti].windows[wi].buffer();
        proof {
            lemma_find_buffer(ov.buffers, bid);
            assert(cur_win(ov) == self.tabpages@[ti as int].windows@[wi as int]@);
        }
        let change = undo_group_change(self.mode, m);
        match self.buffer_index(bid) {
            Some(bi) => {
                match change {
                    UndoGroupChange::Start => self.buffers[bi].start_undo_group(),
                    UndoGroupChange::End => self.buffers[bi].end_undo_group(),
                    UndoGroupChange::Keep => {},
                }
                proof {
                    assert(self@.buffers =~= ov.buffers.update(bi as int, self@.buffers[bi as int]));
                    assert(self@.tabs =~= ov.tabs);
                }
            },
            None => {},
        }
        self.mode = m;
        self.cmdline = Vec::new();
        self.cmdline_cursor = 0;
        proof {
            assert(self@.tabs =~= ov.tabs);
            assert(self@.cmd_history =~= ov.cmd_history);
            if cur_buffer(ov) is None {
                assert(self@.buffers =~= ov.buffers);
            }
        }
        Ok(())
    }

    /// Whether the editor was asked to quit.
    pub fn should_quit(&self) -> (r: bool)
        ensures
            r == self@.quit,
    {
        self.quit
    }

    /// Shows buffer `id` in the current window.
    fn set_window_buffer(&mut self, id: i32)
        requires
            old(self).wf(),
        ensures
            final(self).wf(),
            final(self)@ == with_cur_win(old(self)@, WindowView { buffer: id, ..cur_win(old(self)@) }),
    {
        let ghost ov = self@;
        let ti = self.current_tab_idx;
        let wi = self.tabpages[ti].current_win_idx;
        self.tabpages[ti].windows[wi].set_buffer(id);
        proof {
            assert(tab_view(self.tabpages@[ti as int]).windows =~= cur_tab(ov).windows.update(wi as int, self.tabpages@[ti as int].windows@[wi as int]@));
            assert(self@.tabs =~= with_cur_win(ov, WindowView { buffer: id, ..cur_win(ov) }).tabs);
            assert(self@.buffers =~= ov.buffers);
            assert(self@.cmd_history =~= ov.cmd_history);
        }
    }

    /// Puts `text` on the command line.
    fn set_cmdline(&mut self, text: Vec<char>)
        requires
            old(self).wf(),
        ensures
            final(self).wf(),
            final(self)@ == (EditorView { cmdline: text@, ..old(self)@ }),
    {
        let ghost ov = self@;
        self.cmdline = text;
        proof {
            assert(self@.tabs =~= ov.tabs);
            assert(self@.buffers =~= ov.buffers);
            assert(self@.cmd_history =~= ov.cmd_history);
            assert(self@.messages =~= ov.messages);
        }
    }

    /// `:join` (see [`join_done`]).
    fn ex_join(&mut self) -> (r: Result<(), NvimError>)
        requires
            old(self).wf(),
            join_allowed(old(self)@),
        ensures
            final(self).wf(),
            join_done(old(self)@, final(self)@, r),
    {
        let ghost ov = self@;
        let ti = self.current_tab_idx;
        let wi = self.tabpages[ti].current_win_idx;
        let bid = self.tabpages[ti].windows[wi].buffer();
        let cur = self.tabpages[ti].windows[wi].cursor();
        proof {
            lemma_find_buffer(ov.buffers, bid);
            assert(cur_win(ov) == self.tabpages@[ti as int].windows@[wi as int]@);
        }
        let bi = match self.buffer_index(bid) {
            Some(bi) => bi,
            None => return Ok(()),
        };
        proof {
            assert(self@.buffers[bi as int] == self.buffers@[bi as int]@);
        }
        let joined = match (self.buffers[bi].get_line(cur.row), self.buffers[bi].get_line(cur.row + 1)) {
            (Some(l1), Some(l2)) => Some(crate::excmd::join_lines(l1, l2)),
            _ => None,
        };
        match joined {
            Some(j) => {
                let ghost b0 = self.buffers@[bi as int]@;
                let u1 = self.buffers[bi].set_line(cur.row, 0, j.as_str());
                let ghost b1 = self.buffers@[bi as int]@;
                let u2 = self.buffers[bi].delete_line(cur.row + 1);
                proof {
                    assert(line_set_done(b0, b1, cur.row, 0, joined_lines(b0.lines[cur.row - 1], b0.lines[cur.row as int]), u1));
                    assert(line_delete_done(b1, self.buffers@[bi as int]@, (cur.row + 1) as usize, u2));
                    assert(self@.buffers =~= ov.buffers.update(bi as int, self@.buffers[bi as int]));
                    assert(self@.tabs =~= ov.tabs);
                    assert(self@.cmd_history =~= ov.cmd_history);
                    assert(self@.messages =~= ov.messages);
                }
            },
            None => {},
        }
        Ok(())
    }

    /// `:ascii` (see [`ascii_done`]).
    fn ex_ascii(&mut self) -> (r: Result<(), NvimError>)
        requires
            old(self).wf(),
        ensures
            final(self).wf(),
            ascii_done(old(self)@, final(self)@, r),
    {
        let ghost ov = self@;
        let ti = self.current_tab_idx;
        let wi = self.tabpages[ti].current_win_idx;
        let bid = self.tabpages[ti].windows[wi].buffer();
        let cur = self.tabpages[ti].windows[wi].cursor();
        proof {
            lemma_find_buffer(ov.buffers, bid);
            assert(cur_win(ov) == self.tabpages@[ti as int].windows@[wi as int]@);
        }
        let bi = match self.buffer_index(bid) {
            Some(bi) => bi,
            None => return Ok(()),
        };
        proof {
            assert(self@.buffers[bi as int] == self.buffers@[bi as int]@);
        }
        let c = match self.buffers[bi].get_line(cur.row) {
            Some(l) => {
                let cs = chars_of(l);
                if cur.col < cs.len() { Some(cs[cur.col]) } else { None }
            },
            None => None,
        };
        match c {
            Some(ch) => {
                let text = ascii_text_of(ch);
                self.set_cmdline(text);
            },
            None => {},
        }
        Ok(())
    }

    /// `:marks` (see [`marks_done`]).
    fn ex_marks(&mut self) -> (r: Result<(), NvimError>)
        requires
            old(self).wf(),
        ensures
            final(self).wf(),
            marks_done(old(self)@, final(self)@, r),
    {
        let ghost ov = self@;
        let ti = self.current_tab_idx;
        let wi = self.tabpages[ti].current_win_idx;
        let bid = self.tabpages[ti].windows[wi].buffer();
        proof {
            lemma_find_buffer(ov.buffers, bid);
            assert(cur_win(ov) == self.tabpages@[ti as int].windows@[wi as int]@);
        }
        let mut lines: Vec<Vec<char>> = Vec::new();
        let ghost mut ms: Seq<(char, Cursor)> = Seq::empty();
        match self.buffer_index(bid) {
            Some(bi) => {
                proof {
                    assert(self@.buffers[bi as int] == self.buffers@[bi as int]@);
                }
                let list = self.buffers[bi].mark_list();
                proof {
                    ms = list@;
                }
                let mut k: usize = 0;
                while k < list.len()
                    invariant
                        k <= list@.len(),
                        ms == list@,
                        lines@.len() == k,
                        forall|j: int| 0 <= j < k ==> #[trigger] lines@[j]@ == mark_line(ms[j]),
                    decreases list@.len() - k,
                {
                    lines.push(mark_line_of(list[k]));
                    k += 1;
                }
            },
            None => {},
        }
        let text = join_chars(&lines, '\n');
        proof {
            assert(Seq::new(lines@.len(), |k: int| lines@[k]@) =~= Seq::new(ms.len(), |k: int| mark_line(ms[k])));
        }
        self.set_cmdline(text);
        assert(keys_unique(ms));
        Ok(())
    }

    /// `:ls` (see [`ls_done`]).
    fn ex_ls(&mut self) -> (r: Result<(), NvimError>)
        requires
            old(self).wf(),
        ensures
            final(self).wf(),
            ls_done(old(self)@, final(self)@, r),
    {
        let ghost ov = self@;
        let mut lines: Vec<Vec<char>> = Vec::new();
        let mut k: usize = 0;
        while k < self.buffers.len()
            invariant
                k <= self.buffers@.len(),
                self@ == ov,
                lines@.len() == k,
                forall|j: int| 0 <= j < k ==> #[trigger] lines@[j]@ == buffer_entry(ov.buffers[j]),
            decreases self.buffers@.len() - k,
        {
            assert(ov.buffers[k as int] == self.buffers@[k as int]@);
            lines.push(buffer_entry_of(&self.buffers[k]));
            k += 1;
        }
        let text = join_chars(&lines, '\n');
        proof {
            assert(Seq::new(lines@.len(), |k: int| lines@[k]@) =~= Seq::new(ov.buffers.len(), |k: int| buffer_entry(ov.buffers[k])));
        }
        self.set_cmdline(text);
        Ok(())
    }

    /// `:jumps` (see [`jumps_done`]).
    fn ex_jumps(&mut self) -> (r: Result<(), NvimError>)
        requires
            old(self).wf(),
        ensures
            final(self).wf(),
            jumps_done(old(self)@, final(self)@, r),
    {
        let text = chars_of("jump 1 1");
        self.set_cmdline(text);
        Ok(())
    }

    /// `:messages` (see [`messages_done`]).
    fn ex_messages(&mut self) -> (r: Result<(), NvimError>)
        requires
            old(self).wf(),
        ensures
            final(self).wf(),
            messages_done(old(self)@, final(self)@, r),
    {
        let ghost ov = self@;
        let mut lines: Vec<Vec<char>> = Vec::new();
        let mut k: usize = 0;
        while k < self.messages.len()
            invariant
                k <= self.messages@.len(),
                self@ == ov,
                lines@.len() == k,
                forall|j: int| 0 <= j < k ==> #[trigger] lines@[j]@ == ov.messages[j],
            decreases self.messages@.len() - k,
        {
            lines.push(chars_of(self.messages[k].as_str()));
            k += 1;
        }
        let text = join_chars(&lines, '\n');
        proof {
            assert(Seq::new(lines@.len(), |k: int| lines@[k]@) =~= ov.messages);
        }
        self.set_cmdline(text);
        Ok(())
    }

    /// `:echomsg` with the command's words `parts` (see [`echomsg_done`]).
    fn ex_echomsg(&mut self, parts: &Vec<String>) -> (r: Result<(), NvimError>)
        requires
            old(self).wf(),
        ensures
            final(self).wf(),
            echomsg_done(old(self)@, final(self)@, Seq::new(parts@.len(), |k: int| parts@[k]@), r),
    {
        let ghost ov = self@;
        let ghost ws = Seq::new(parts@.len(), |k: int| parts@[k]@);
        if parts.len() <= 1 {
            return Ok(());
        }
        let mut ps: Vec<Vec<char>> = Vec::new();
        let mut k: usize = 1;
        while k < parts.len()
            invariant
                1 <= k <= parts@.len(),
                ws == Seq::new(parts@.len(), |k: int| parts@[k]@),
                ps@.len() == k - 1,
                forall|j: int| 0 <= j < k - 1 ==> #[trigger] ps@[j]@ == ws[j + 1],
            decreases parts@.len() - k,
        {
            ps.push(chars_of(parts[k].as_str()));
            k += 1;
        }
        let msg = join_chars(&ps, ' ');
        proof {
            assert(Seq::new(ps@.len(), |k: int| ps@[k]@) =~= ws.skip(1));
        }
        self.messages.push(string_from_chars(&msg));
        proof {
            assert(self@.messages =~= ov.messages.push(joined_with(ws.skip(1), ' ')));
            assert(self@.tabs =~= ov.tabs);
            assert(self@.buffers =~= ov.buffers);
            assert(self@.cmd_history =~= ov.cmd_history);
        }
        Ok(())
    }

    /// `:enew` (see [`enew_done`]).
    fn ex_enew(&mut self) -> (r: Result<(), NvimError>)
        requires
            old(self).wf(),
            cur_win(old(self)@).topline + cur_win(old(self)@).height <= usize::MAX,
        ensures
            final(self).wf(),
            enew_done(old(self)@, final(self)@, r),
    {
        let ghost ov = self@;
        let id = self.next_buf_id;
        let b = Buffer::new(id);
        let ghost bv = b@;
        self.buffers.push(b);
        self.next_buf_id = if id == i32::MAX { i32::MIN } else { id + 1 };
        let ghost v1 = self@;
        proof {
            assert(self@.buffers =~= ov.buffers.push(bv));
            assert(self@.tabs =~= ov.tabs);
            assert(self@.cmd_history =~= ov.cmd_history);
            assert(self@.messages =~= ov.messages);
            assert forall|i: int| 0 <= i < self.buffers@.len() implies (#[trigger] self.buffers@[i]).wf() by {
                if i < ov.buffers.len() {
                    assert(self.buffers@[i] == old(self).buffers@[i]);
                }
            }
        }
        self.set_window_buffer(id);
        let ghost v2 = self@;
        self.move_cursor(1, 0);
        proof {
            assert(self@.buffers =~= v1.buffers);
            lemma_with_cur_win_twice(v1, WindowView { buffer: id, ..cur_win(ov) }, moved_to(WindowView { buffer: id, ..cur_win(ov) }, 1, 0));
            assert(self@.buffers.last() == bv);
        }
        Ok(())
    }

    /// Runs Ex command `cmd` (see [`ex_done`]).
    #[verifier::spinoff_prover]
    #[verifier::rlimit(40)]
    pub fn execute_cmd(&mut self, cmd: &str) -> (r: Result<(), NvimError>)
        requires
            old(self).wf(),
            ex_allowed(old(self)@, cmd@),
        ensures
            final(self).wf(),
            ex_done(old(self)@, final(self)@, cmd@, r),
    {
        let ghost ov = self@;
        let parts = parse_ex_command(cmd);
        if parts.len() == 0 {
            return Ok(());
        }
        let name = parts[0].as_str();
        assert(name@ == words(command_text(cmd@))[0]);
        if str_eq(name, "tabnew") {
            if self.tabpages.len() < usize::MAX {
                assert(self@.buffers[0] == self.buffers@[0]@);
                let b0 = self.buffers[0].id();
                let win = Window::new(self.next_win_id, b0);
                let tab = TabPage::new(win);
                self.tabpages.push(tab);
                self.current_tab_idx = self.tabpages.len() - 1;
                self.next_win_id = if self.next_win_id == i32::MAX { i32::MIN } else { self.next_win_id + 1 };
                proof {
                    assert(tab_view(tab).windows =~= seq![new_window_view(ov.next_win_id, ov.buffers[0].id)]);
                    assert(self@.tabs =~= ov.tabs.push(TabView { windows: seq![new_window_view(ov.next_win_id, ov.buffers[0].id)], current: 0 }));
                    assert(self@.buffers =~= ov.buffers);
                    assert(self@.cmd_history =~= ov.cmd_history);
                }
            }
        } else if str_eq(name, "tabn") || str_eq(name, "tabnext") {
            let c = self.current_tab_idx;
            let n = self.tabpages.len();
            assert(c < n);
            self.current_tab_idx = if c < n - 1 { c + 1 } else { 0 };
            assert(self.current_tab_idx == (c + 1) % (n as int)) by (nonlinear_arith)
                requires
                    c < n,
                    self.current_tab_idx == (if c < n - 1 { c + 1 } else { 0 }),
            {
                if c < n - 1 {
                    assert(c + 1 == 0 * n + (c + 1));
                } else {
                    assert(c + 1 == 1 * n + 0);
                }
            }
            proof {
                assert(self@.tabs =~= ov.tabs);
                assert(self@.buffers =~= ov.buffers);
                assert(self@.cmd_history =~= ov.cmd_history);
            }
        } else if str_eq(name, "tabp") || str_eq(name, "tabprevious") || str_eq(name, "tabN") || str_eq(name, "tabNext") {
            let n = self.tabpages.len();
            self.current_tab_idx = if self.current_tab_idx == 0 { n - 1 } else { self.current_tab_idx - 1 };
            proof {
                assert(self@.tabs =~= ov.tabs);
                assert(self@.buffers =~= ov.buffers);
                assert(self@.cmd_history =~= ov.cmd_history);
            }
        } else if str_eq(name, "tabclose") {
            let n = self.tabpages.len();
            if n > 1 {
                let ct = self.current_tab_idx;
                self.tabpages.remove(ct);
                self.current_tab_idx = if ct <= n - 2 { ct } else { n - 2 };
                proof {
                    assert(self@.tabs =~= ov.tabs.remove(ct as int));
                    assert forall|t: int| 0 <= t < self@.tabs.len() implies (#[trigger] self@.tabs[t]).current < self@.tabs[t].windows.len() by {
                        if t < ct {
                            assert(self@.tabs[t] == ov.tabs[t]);
                        } else {
                            assert(self@.tabs[t] == ov.tabs[t + 1]);
                        }
                    }
                    assert(self@.buffers =~= ov.buffers);
                    assert(self@.cmd_history =~= ov.cmd_history);
                }
            }
        } else if str_eq(name, "undo") || str_eq(name, "u") {
            let r0 = self.apply_history(true);
            assert(history_done(ov, self@, true, r0));
        } else if str_eq(name, "redo") {
            let r0 = self.apply_history(false);
            assert(history_done(ov, self@, false, r0));
        } else if str_eq(name, "bn") || str_eq(name, "bnext") || str_eq(name, "bp") || str_eq(name, "bprev") {
            let forward = str_eq(name, "bn") || str_eq(name, "bnext");
            let ti = self.current_tab_idx;
            let wi = self.tabpages[ti].current_win_idx;
            let bid = self.tabpages[ti].windows[wi].buffer();
            proof {
                lemma_find_buffer(ov.buffers, bid);
                assert(cur_win(ov) == self.tabpages@[ti as int].windows@[wi as int]@);
            }
            match self.buffer_index(bid) {
                Some(pos) => {
                    let len = self.buffers.len();
                    let next = if forward { (pos + 1) % len } else if pos == 0 { len - 1 } else { pos - 1 };
                    proof {
                        let (p, l) = (pos as int, len as int);
                        if !forward {
                            assert((p + l - 1) % l == next) by (nonlinear_arith)
                                requires
                                    0 <= p < l,
                                    next == (if p == 0 { l - 1 } else { p - 1 }),
                            {
                                if p == 0 {
                                    assert(p + l - 1 == (l - 1) + 0 * l);
                                } else {
                                    assert(p + l - 1 == (p - 1) + 1 * l);
                                }
                            }
                        }
                    }
                    assert(self@.buffers[next as int] == self.buffers@[next as int]@);
                    let id = self.buffers[next].id();
                    self.set_window_buffer(id);
                },
                None => {},
            }
        } else if str_eq(name, "bd") || str_eq(name, "bdelete") {
            let ti = self.current_tab_idx;
            let wi = self.tabpages[ti].current_win_idx;
            let bid = self.tabpages[ti].windows[wi].buffer();
            proof {
                lemma_find_buffer(ov.buffers, bid);
                assert(cur_win(ov) == self.tabpages@[ti as int].windows@[wi as int]@);
            }
            match self.buffer_index(bid) {
                Some(pos) => {
                    if self.buffers.len() > 1 {
                        let ghost ob = self.buffers@;
                        self.buffers.remove(pos);
                        let len = self.buffers.len();
                        let next = pos % len;
                        proof {
                            assert(self@.buffers =~= ov.buffers.remove(pos as int));
                            assert forall|i: int| 0 <= i < self.buffers@.len() implies (#[trigger] self.buffers@[i]).wf() by {
                                if i < pos {
                                    assert(self.buffers@[i] == ob[i]);
                                } else {
                                    assert(self.buffers@[i] == ob[i + 1]);
                                }
                            }
                            assert(self@.tabs =~= ov.tabs);
                            assert(self@.cmd_history =~= ov.cmd_history);
                            assert(self@.buffers[next as int] == self.buffers@[next as int]@);
                        }
                        let id = self.buffers[next].id();
                        self.set_window_buffer(id);
                    }
                },
                None => {},
            }
        } else if str_eq(name, "join") || str_eq(name, "j") {
            return self.ex_join();
        } else if str_eq(name, "ascii") || str_eq(name, "as") {
            return self.ex_ascii();
        } else if str_eq(name, "marks") {
            return self.ex_marks();
        } else if str_eq(name, "jumps") {
            return self.ex_jumps();
        } else if str_eq(name, "ls") || str_eq(name, "buffers") {
            return self.ex_ls();
        } else if str_eq(name, "enew") {
            return self.ex_enew();
        } else if str_eq(name, "echomsg") {
            assert(Seq::new(parts@.len(), |k: int| parts@[k]@) =~= words(command_text(cmd@)));
            return self.ex_echomsg(&parts);
        } else if str_eq(name, "messages") {
            return self.ex_messages();
        } else if is_host_command(name, parts.len() > 1) {
            return refusal();
        } else if str_eq(name, "q") || str_eq(name, "quit") {
            self.quit = true;
            proof {
                assert(self@.tabs =~= ov.tabs);
                assert(self@.buffers =~= ov.buffers);
                assert(self@.cmd_history =~= ov.cmd_history);
            }
        }
        Ok(())
    }

    /// Carries out a request (see [`request_done`]).
    pub fn apply_request(&mut self, req: Request) -> (r: Result<(), NvimError>)
        requires
            old(self).wf(),
            request_allowed(old(self)@, req),
        ensures
            final(self).wf(),
            request_done(old(self)@, final(self)@, req, r),
    {
        let ghost ov = self@;
        let ti = self.current_tab_idx;
        let wi = self.tabpages[ti].current_win_idx;
        let bid = self.tabpages[ti].windows[wi].buffer();
        let cur = self.tabpages[ti].windows[wi].cursor();
        proof {
            lemma_find_buffer(ov.buffers, bid);
            assert(cur_win(ov) == self.tabpages@[ti as int].windows@[wi as int]@);
        }
        match req {
            Request::SetMode(m) => self.apply_set_mode(m),
            Request::SetVisualMode(vm) => {
                let anchor = if let Mode::Visual(_) = self.mode { self.visual_anchor } else { Some(cur) };
                let r = self.apply_set_mode(Mode::Visual(vm));
                let ghost v1 = self@;
                self.visual_anchor = anchor;
                proof {
                    assert(self@.tabs =~= v1.tabs);
                    assert(self@.buffers =~= v1.buffers);
                    assert(self@.cmd_history =~= v1.cmd_history);
                    assert(v1 == EditorView { visual_anchor: ov.visual_anchor, ..self@ });
                }
                r
            },
            Request::Undo => self.apply_history(true),
            Request::Redo => self.apply_history(false),
            Request::Indent { forward } => {
                match self.buffer_index(bid) {
                    Some(bi) => {
                        let r = self.buffers[bi].indent_line(cur.row, forward, self.tabstop);
                        proof {
                            assert(self@.buffers =~= ov.buffers.update(bi as int, self@.buffers[bi as int]));
                            assert(self@.tabs =~= ov.tabs);
                        }
                        r
                    },
                    None => Ok(()),
                }
            },
            Request::IncrementNumber { offset } => self.apply_increment(offset),
            Request::NewLine => self.apply_newline(),
            Request::InsertChar(c) => self.apply_insert_char(c),
            Request::CenterCursor | Request::CursorToTop | Request::CursorToBottom => {
                match req {
                    Request::CenterCursor => self.tabpages[ti].windows[wi].center_cursor(),
                    Request::CursorToTop => self.tabpages[ti].windows[wi].cursor_to_top(),
                    _ => self.tabpages[ti].windows[wi].cursor_to_bottom(),
                }
                proof {
                    assert(tab_view(self.tabpages@[ti as int]).windows =~= cur_tab(ov).windows.update(wi as int, self.tabpages@[ti as int].windows@[wi as int]@));
                    assert(self@.tabs =~= with_cur_win(ov, self.tabpages@[ti as int].windows@[wi as int]@).tabs);
                    assert(self@.buffers =~= ov.buffers);
                }
                Ok(())
            },
            Request::OpMotion { op, motion, count } => {
                if op == Operator::Move && is_plain_motion(motion) {
                    self.apply_motion(motion, count)
                } else {
                    refusal()
                }
            },
            Request::CmdLineChar(_) | Request::CmdLineBackspace | Request::CmdLineDeleteWord | Request::CmdLineDeleteLine
            | Request::CmdLineMoveCursorTo { pos: _ } | Request::CmdLineHistory { forward: _ } | Request::CmdLineTab => self.apply_cmdline(req),
            Request::CursorMove { row, col } => {
                if row != cur.row && col == cur.col {
                    let line_len: Option<usize> = match self.buffer_index(bid) {
                        Some(bi) => {
                            proof {
                                assert(self@.buffers[bi as int] == self.buffers@[bi as int]@);
                            }
                            match self.buffers[bi].get_line(row) {
                                Some(l) => Some(chars_of(l).len()),
                                None => Some(0),
                            }
                        },
                        None => None,
                    };
                    self.tabpages[ti].windows[wi].set_cursor_vertical(row, line_len);
                } else {
                    self.tabpages[ti].windows[wi].set_cursor(row, col);
                }
                proof {
                    assert(tab_view(self.tabpages@[ti as int]).windows =~= cur_tab(ov).windows.update(wi as int, self.tabpages@[ti as int].windows@[wi as int]@));
                    assert(self@.tabs =~= with_cur_win(ov, cursor_moved(ov, row, col)).tabs);
                    assert(self@.buffers =~= ov.buffers);
                }
                Ok(())
            },
            Request::DeleteCharAtCursor { count } => self.apply_delete_chars(count),
            Request::OpenLine { below } => self.apply_open_line(below),
            Request::DeleteCurrentLine { count } => self.apply_delete_lines(count),
            Request::InsertModeDeleteLine => self.apply_delete_to_line_start(),
            Request::ReplaceCharUnderCursor(c) => self.apply_replace_char(c),
            Request::InsertAtFirstColumn => {
                self.move_cursor(cur.row, 0);
                proof {
                    lemma_find_buffer(self@.buffers, bid);
                }
                self.apply_set_mode(Mode::Insert)
            },
            Request::Backspace => self.apply_backspace(),
            Request::SetMark(c) => {
                match self.buffer_index(bid) {
                    Some(bi) => {
                        self.buffers[bi].set_mark(c, cur);
                        proof {
                            assert(self@.buffers =~= ov.buffers.update(bi as int, self@.buffers[bi as int]));
                            assert(self@.tabs =~= ov.tabs);
                        }
                    },
                    None => {},
                }
                Ok(())
            },
            Request::JumpToMark(c) => {
                match self.buffer_index(bid) {
                    Some(bi) => {
                        match self.buffers[bi].get_mark(c) {
                            Some(m) => self.move_cursor(m.row, m.col),
                            None => {},
                        }
                    },
                    None => {},
                }
                Ok(())
            },
            Request::ExecuteCommandFromConfig(cmd) => {
                if chars_of(cmd).len() > 0 {
                    self.cmd_history.push(cmd.to_owned());
                    self.cmd_history_idx = None;
                }
                proof {
                    assert(self@.tabs =~= ov.tabs);
                    assert(self@.buffers =~= ov.buffers);
                    assert(self@.cmd_history =~= history_pushed(ov, cmd@).cmd_history);
                }
                self.execute_cmd(cmd)
            },
            Request::ExecuteCommand => {
                match self.take_command() {
                    Some(cmd) => self.execute_cmd(cmd.as_str()),
                    None => refusal(),
                }
            },
            _ => self.handle_window_request(req),
        }
    }
}

} // verus!
