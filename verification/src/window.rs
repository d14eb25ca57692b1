use vstd::prelude::*;

verus! {

/// A position in a buffer: row counted from 1, column from 0.
#[derive(Debug, Clone, Copy, PartialEq, Eq, Structural)]
pub struct Cursor {
    pub row: usize,
    pub col: usize,
}

/// Where a floating window stands and how large it is.
#[derive(Debug, Clone, Copy, PartialEq, Eq, Structural)]
pub struct WinConfig {
    pub row: usize,
    pub col: usize,
    pub width: usize,
    pub height: usize,
    pub focusable: bool,
    pub external: bool,
}

/// The top line that keeps row `row` in a view of `height` lines that
/// starts at `topline`: unchanged where the row is in view, else the least
/// change that brings it in.
pub open spec fn adjusted_topline(row: usize, topline: usize, height: usize) -> usize {
    if row < topline {
        row
    } else if row >= topline + height {
        (row - height + 1) as usize
    } else {
        topline
    }
}

/// The value of a [`Window`].
pub struct WindowView {
    pub id: i32,
    pub buffer: i32,
    pub cursor: Cursor,
    pub curswant: usize,
    pub topline: usize,
    pub height: usize,
    pub width: usize,
    pub floating: bool,
    /// Where a floating window stands; `None` for an ordinary window.
    pub config: Option<WinConfig>,
    /// The closed folds.
    pub folds: Seq<(usize, usize)>,
}

/// A view onto a buffer: the buffer's id, the cursor, the first line shown
/// and the size.
pub struct Window {
    id: i32,
    /// The id of the buffer shown.
    pub buffer: i32,
    cursor: Cursor,
    /// The column the cursor keeps to when it moves up and down.
    pub curswant: usize,
    topline: usize,
    height: usize,
    width: usize,
    /// Where a floating window stands.
    pub config: Option<WinConfig>,
    /// Closed folds, as ranges of lines.
    pub folds: Vec<(usize, usize)>,
}

impl View for Window {
    type V = WindowView;

    closed spec fn view(&self) -> WindowView {
        WindowView {
            id: self.id,
            buffer: self.buffer,
            cursor: self.cursor,
            curswant: self.curswant,
            topline: self.topline,
            height: self.height,
            width: self.width,
            floating: self.config is Some,
            config: self.config,
            folds: self.folds@,
        }
    }
}

impl Window {
    /// A window with id `id` onto buffer `buffer`: cursor at the start, 24
    /// lines of 80 columns.
    pub fn new(id: i32, buffer: i32) -> (w: Window)
        ensures
            w@ == (WindowView {
                id: id,
                buffer: buffer,
                cursor: Cursor { row: 1, col: 0 },
                curswant: 0,
                topline: 1,
                height: 24,
                width: 80,
                floating: false,
                config: None,
                folds: Seq::empty(),
            }),
    {
        Window {
            id,
            buffer,
            cursor: Cursor { row: 1, col: 0 },
            curswant: 0,
            topline: 1,
            height: 24,
            width: 80,
            config: None,
            folds: Vec::new(),
        }
    }

    /// A floating window with id `id` onto buffer `buffer`, of the size
    /// that `config` gives.
    pub fn new_floating(id: i32, buffer: i32, config: WinConfig) -> (w: Window)
        ensures
            w@ == (WindowView {
                id: id,
                buffer: buffer,
                cursor: Cursor { row: 1, col: 0 },
                curswant: 0,
                topline: 1,
                height: config.height,
                width: config.width,
                floating: true,
                config: Some(config),
                folds: Seq::empty(),
            }),
    {
        let height = config.height;
        let width = config.width;
        Window {
            id,
            buffer,
            cursor: Cursor { row: 1, col: 0 },
            curswant: 0,
            topline: 1,
            height,
            width,
            config: Some(config),
            folds: Vec::new(),
        }
    }

    pub fn id(&self) -> (r: i32)
        ensures
            r == self@.id,
    {
        self.id
    }

    pub fn cursor(&self) -> (r: Cursor)
        ensures
            r == self@.cursor,
    {
        self.cursor
    }

    pub fn topline(&self) -> (r: usize)
        ensures
            r == self@.topline,
    {
        self.topline
    }

    pub fn height(&self) -> (r: usize)
        ensures
            r == self@.height,
    {
        self.height
    }

    pub fn set_height(&mut self, h: usize)
        ensures
            final(self)@ == (WindowView { height: h, ..old(self)@ }),
    {
        self.height = h;
    }

    pub fn set_width(&mut self, w: usize)
        ensures
            final(self)@ == (WindowView { width: w, ..old(self)@ }),
    {
        self.width = w;
    }

    /// Shows buffer `id`.
    pub fn set_buffer(&mut self, id: i32)
        ensures
            final(self)@ == (WindowView { buffer: id, ..old(self)@ }),
    {
        self.buffer = id;
    }

    /// The id of the buffer shown.
    pub fn buffer(&self) -> (r: i32)
        ensures
            r == self@.buffer,
    {
        self.buffer
    }

    /// Where a floating window stands, if it is one.
    pub fn config(&self) -> (r: Option<&WinConfig>)
        ensures
            r is Some == self@.floating,
            r is Some == self@.config is Some,
            r matches Some(c) ==> *c == self@.config->0,
    {
        self.config.as_ref()
    }

    pub fn is_floating(&self) -> (r: bool)
        ensures
            r == self@.floating,
    {
        self.config.is_some()
    }

    fn adjust_topline(&mut self)
        requires
            old(self).topline + old(self).height <= usize::MAX,
            old(self).cursor.row - old(self).height + 1 <= usize::MAX,
        ensures
            final(self)@ == (WindowView {
                topline: adjusted_topline(old(self).cursor.row, old(self).topline, old(self).height),
                ..old(self)@
            }),
            final(self).config == old(self).config,
    {
        if self.cursor.row < self.topline {
            self.topline = self.cursor.row;
        } else if self.cursor.row >= self.topline + self.height {
            self.topline = self.cursor.row - self.height + 1;
        }
    }

    /// Moves the cursor to `(row, col)`, remembers `col` as the wanted
    /// column, and scrolls the least that keeps the cursor in view.
    pub fn set_cursor(&mut self, row: usize, col: usize)
        requires
            old(self)@.topline + old(self)@.height <= usize::MAX,
            row - old(self)@.height + 1 <= usize::MAX,
        ensures
            final(self)@ == (WindowView {
                cursor: Cursor { row, col },
                curswant: col,
                topline: adjusted_topline(row, old(self)@.topline, old(self)@.height),
                ..old(self)@
            }),
    {
        self.cursor = Cursor { row, col };
        self.curswant = col;
        self.adjust_topline();
    }

    pub fn set_curswant(&mut self, col: usize)
        ensures
            final(self)@ == (WindowView { curswant: col, ..old(self)@ }),
    {
        self.curswant = col;
    }

    /// Moves the cursor to row `row`, keeping to the wanted column as far
    /// as the line allows. `line_len` is the number of characters of that
    /// line (0 where there is no such line), or `None` where the buffer
    /// cannot be read at the moment, in which case the column is the wanted
    /// one, but at most 1000.
    pub fn set_cursor_vertical(&mut self, row: usize, line_len: Option<usize>)
        requires
            old(self)@.topline + old(self)@.height <= usize::MAX,
            row - old(self)@.height + 1 <= usize::MAX,
        ensures
            final(self)@ == (WindowView {
                cursor: Cursor { row, col: vertical_col(old(self)@.curswant, line_len) },
                topline: adjusted_topline(row, old(self)@.topline, old(self)@.height),
                ..old(self)@
            }),
    {
        let c = match line_len {
            Some(chars_count) => {
                if chars_count == 0 {
                    0
                } else if self.curswant == usize::MAX {
                    chars_count - 1
                } else if self.curswant < chars_count - 1 {
                    self.curswant
                } else {
                    chars_count - 1
                }
            },
            None => if self.curswant < 1000 { self.curswant } else { 1000 },
        };
        self.cursor = Cursor { row, col: c };
        self.adjust_topline();
    }

    /// Scrolls so that the cursor line is in the middle of the view.
    pub fn center_cursor(&mut self)
        ensures
            final(self)@ == (WindowView {
                topline: at_least_one(old(self)@.cursor.row - old(self)@.height / 2),
                ..old(self)@
            }),
    {
        let half = self.height / 2;
        let t = if self.cursor.row > half { self.cursor.row - half } else { 0 };
        self.topline = if t > 1 { t } else { 1 };
    }

    /// Scrolls so that the cursor line is at the top of the view.
    pub fn cursor_to_top(&mut self)
        ensures
            final(self)@ == (WindowView { topline: old(self)@.cursor.row, ..old(self)@ }),
    {
        self.topline = self.cursor.row;
    }

    /// Scrolls so that the cursor line is at the bottom of the view.
    pub fn cursor_to_bottom(&mut self)
        ensures
            final(self)@ == (WindowView {
                topline: at_least_one(old(self)@.cursor.row - (if old(self)@.height >= 1 { old(self)@.height - 1 } else { 0 })),
                ..old(self)@
            }),
    {
        let h = if self.height >= 1 { self.height - 1 } else { 0 };
        let t = if self.cursor.row > h { self.cursor.row - h } else { 0 };
        self.topline = if t > 1 { t } else { 1 };
    }

    /// Scrolls by `lines` lines, within the first and the last line of the
    /// buffer. `line_count` is the number of lines of the buffer, or `None`
    /// where it cannot be read at the moment (then taken as 1000).
    pub fn scroll(&mut self, lines: i32, line_count: Option<usize>)
        requires
            scroll_ok(old(self)@.topline, lines, line_count),
        ensures
            final(self)@ == (WindowView { topline: scrolled(old(self)@.topline, lines, line_count), ..old(self)@ }),
    {
        let n: usize = match line_count {
            Some(c) => c,
            None => 1000,
        };
        let max = n as i32;
        let t = (self.topline as i32) + lines;
        let v = if t < 1 { 1 } else if t > max { max } else { t };
        self.topline = v as usize;
    }
}

/// The column of a vertical move: see [`Window::set_cursor_vertical`].
pub open spec fn vertical_col(curswant: usize, line_len: Option<usize>) -> usize {
    match line_len {
        Some(n) => if n == 0 {
            0
        } else if curswant == usize::MAX {
            (n - 1) as usize
        } else if curswant < n - 1 {
            curswant
        } else {
            (n - 1) as usize
        },
        None => if curswant < 1000 { curswant } else { 1000 },
    }
}

/// A line number no less than 1.
pub open spec fn at_least_one(v: int) -> usize {
    if v > 1 { v as usize } else { 1 }
}

/// The number of lines a scroll is bounded by.
pub open spec fn scroll_limit(line_count: Option<usize>) -> usize {
    match line_count {
        Some(c) => c,
        None => 1000,
    }
}

/// A scroll computes no `i32` overflow and has a last line to stop at.
pub open spec fn scroll_ok(topline: usize, lines: i32, line_count: Option<usize>) -> bool {
    &&& i32::MIN <= (topline as i32) + lines <= i32::MAX
    &&& (scroll_limit(line_count) as i32) >= 1
}

/// The top line after a scroll, kept between 1 and the last line.
pub open spec fn scrolled(topline: usize, lines: i32, line_count: Option<usize>) -> usize {
    let t = (topline as i32) + lines;
    let max = scroll_limit(line_count) as i32;
    (if t < 1 { 1 } else if t > max { max as int } else { t }) as usize
}

/// A tab page: its windows and the current one.
pub struct TabPage {
    pub windows: Vec<Window>,
    pub current_win_idx: usize,
}

impl TabPage {
    /// A tab page holding only `win`.
    pub fn new(win: Window) -> (t: TabPage)
        ensures
            t.windows@ == seq![win],
            t.current_win_idx == 0,
    {
        let mut windows = Vec::new();
        windows.push(win);
        TabPage { windows, current_win_idx: 0 }
    }
}

} // verus!
