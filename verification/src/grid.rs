use vstd::prelude::*;
use vstd::string::StringExecFns;
use crate::text::{chars_of, string_push};

verus! {

/// Standard ANSI colors and 24-bit colors.
#[derive(Debug, Clone, Copy, PartialEq, Eq, Structural)]
pub enum Color {
    Default,
    Black,
    Red,
    Green,
    Yellow,
    Blue,
    Magenta,
    Cyan,
    White,
    Rgb(u8, u8, u8),
}

/// The decimal digits of a byte, without leading zeros.
pub open spec fn decimal_u8(v: u8) -> Seq<char> {
    let d0 = (('0' as u32) + (v % 10) as u32) as char;
    let d1 = (('0' as u32) + ((v / 10) % 10) as u32) as char;
    let d2 = (('0' as u32) + (v / 100) as u32) as char;
    if v < 10 {
        seq![d0]
    } else if v < 100 {
        seq![d1, d0]
    } else {
        seq![d2, d1, d0]
    }
}

/// The SGR parameter selecting `c` as foreground (`base == '3'`) or
/// background (`base == '4'`).
pub open spec fn color_code(c: Color, base: char) -> Seq<char> {
    match c {
        Color::Default => seq![base, '9'],
        Color::Black => seq![base, '0'],
        Color::Red => seq![base, '1'],
        Color::Green => seq![base, '2'],
        Color::Yellow => seq![base, '3'],
        Color::Blue => seq![base, '4'],
        Color::Magenta => seq![base, '5'],
        Color::Cyan => seq![base, '6'],
        Color::White => seq![base, '7'],
        Color::Rgb(r, g, b) => seq![base, '8', ';', '2', ';'] + decimal_u8(r) + seq![';'] + decimal_u8(g)
            + seq![';'] + decimal_u8(b),
    }
}

/// Appends the decimal digits of a byte.
fn push_decimal_u8(s: &mut String, v: u8)
    ensures
        final(s)@ == old(s)@ + decimal_u8(v),
{
    let d0 = char_from_digit(v % 10);
    let d1 = char_from_digit((v / 10) % 10);
    let d2 = char_from_digit(v / 100);
    if v < 10 {
        string_push(s, d0);
    } else if v < 100 {
        string_push(s, d1);
        string_push(s, d0);
    } else {
        string_push(s, d2);
        string_push(s, d1);
        string_push(s, d0);
    }
    assert(final(s)@ =~= old(s)@ + decimal_u8(v));
}

/// The character of a decimal digit.
fn char_from_digit(d: u8) -> (c: char)
    requires
        d < 10,
    ensures
        c == (('0' as u32) + d as u32) as char,
{
    match d {
        0 => '0',
        1 => '1',
        2 => '2',
        3 => '3',
        4 => '4',
        5 => '5',
        6 => '6',
        7 => '7',
        8 => '8',
        _ => '9',
    }
}

/// Appends the SGR parameter of a color.
fn push_color_code(s: &mut String, c: Color, base: char)
    ensures
        final(s)@ == old(s)@ + color_code(c, base),
{
    string_push(s, base);
    match c {
        Color::Default => string_push(s, '9'),
        Color::Black => string_push(s, '0'),
        Color::Red => string_push(s, '1'),
        Color::Green => string_push(s, '2'),
        Color::Yellow => string_push(s, '3'),
        Color::Blue => string_push(s, '4'),
        Color::Magenta => string_push(s, '5'),
        Color::Cyan => string_push(s, '6'),
        Color::White => string_push(s, '7'),
        Color::Rgb(r, g, b) => {
            string_push(s, '8');
            string_push(s, ';');
            string_push(s, '2');
            string_push(s, ';');
            push_decimal_u8(s, r);
            string_push(s, ';');
            push_decimal_u8(s, g);
            string_push(s, ';');
            push_decimal_u8(s, b);
        },
    }
    assert(final(s)@ =~= old(s)@ + color_code(c, base));
}

impl Color {
    /// The SGR parameter selecting this color as foreground.
    pub fn to_fg_code(self) -> (r: String)
        ensures
            r@ == color_code(self, '3'),
    {
        let mut s = String::new();
        push_color_code(&mut s, self, '3');
        s
    }

    /// The SGR parameter selecting this color as background.
    pub fn to_bg_code(self) -> (r: String)
        ensures
            r@ == color_code(self, '4'),
    {
        let mut s = String::new();
        push_color_code(&mut s, self, '4');
        s
    }

    /// The color `0xRRGGBB`.
    pub fn from_u32(val: u32) -> (c: Color)
        ensures
            c == Color::Rgb(((val / 0x10000) % 0x100) as u8, ((val / 0x100) % 0x100) as u8, (val % 0x100) as u8),
    {
        let r = ((val >> 16) & 0xFF) as u8;
        let g = ((val >> 8) & 0xFF) as u8;
        let b = (val & 0xFF) as u8;
        assert((val >> 16) & 0xFF == (val / 0x10000) % 0x100) by (bit_vector);
        assert((val >> 8) & 0xFF == (val / 0x100) % 0x100) by (bit_vector);
        assert(val & 0xFF == val % 0x100) by (bit_vector);
        Color::Rgb(r, g, b)
    }
}

/// One cell of the grid: a character and its attributes.
#[derive(Debug, Clone, Copy, PartialEq, Eq, Structural)]
pub struct Cell {
    pub c: char,
    pub fg: Color,
    pub bg: Color,
    pub bold: bool,
    pub italic: bool,
    pub underline: bool,
}

/// A space with default colors and no attributes.
pub open spec fn blank_cell() -> Cell {
    Cell { c: ' ', fg: Color::Default, bg: Color::Default, bold: false, italic: false, underline: false }
}

fn make_blank_cell() -> (c: Cell)
    ensures
        c == blank_cell(),
{
    Cell { c: ' ', fg: Color::Default, bg: Color::Default, bold: false, italic: false, underline: false }
}

/// The named width of a character as `UnicodeWidthChar::width` reports it.
pub uninterp spec fn spec_char_width(c: char) -> Option<usize>;

/// `UnicodeWidthChar::width` of the `unicode-width` crate: the displayed
/// width in columns, `None` for a control character. Its result is named by
/// `spec_char_width`; the crate's source answers `None` below U+0020 and
/// from U+007F below U+00A0, and `Some(1)` from U+0020 below U+007F.
#[verifier::external_body]
pub(crate) fn char_width(c: char) -> (r: Option<usize>)
    ensures
        r == spec_char_width(c),
        (c as u32) < 0x20 ==> r is None,
        0x20 <= (c as u32) < 0x7F ==> r == Some(1usize),
        0x7F <= (c as u32) < 0xA0 ==> r is None,
        (c as u32) >= 0xA0 ==> r is Some,
{
    unicode_width::UnicodeWidthChar::width(c)
}

/// A screen of cells, row by row.
pub struct Grid {
    pub width: usize,
    pub height: usize,
    pub cells: Vec<Cell>,
    pub cursor_row: usize,
    pub cursor_col: usize,
}

/// The attributes that a terminal holds between cells.
pub struct Attr {
    pub fg: Color,
    pub bg: Color,
    pub bold: bool,
}

/// What rendering one cell writes, given the attributes in force: a reset
/// and new attributes where they differ, then the character.
pub open spec fn cell_output(cell: Cell, a: Attr) -> Seq<char> {
    if cell.fg != a.fg || cell.bg != a.bg || cell.bold != a.bold {
        seq!['\x1b', '[', '0', ';'] + color_code(cell.fg, '3') + seq![';'] + color_code(cell.bg, '4')
            + (if cell.bold { seq![';', '1'] } else { Seq::empty() }) + seq!['m', cell.c]
    } else {
        seq![cell.c]
    }
}

/// The attributes in force after rendering a cell.
pub open spec fn cell_attr(cell: Cell) -> Attr {
    Attr { fg: cell.fg, bg: cell.bg, bold: cell.bold }
}

/// What rendering cells `col..width` of row `row` writes, from attributes `a`.
pub open spec fn row_output(cells: Seq<Cell>, width: int, row: int, col: int, a: Attr) -> Seq<char>
    decreases width - col,
{
    if col >= width || col < 0 {
        Seq::empty()
    } else {
        let cell = cells[row * width + col];
        cell_output(cell, a) + row_output(cells, width, row, col + 1, cell_attr(cell))
    }
}

/// The attributes in force after rendering cells `col..width` of a row.
pub open spec fn row_attr(cells: Seq<Cell>, width: int, row: int, col: int, a: Attr) -> Attr
    decreases width - col,
{
    if col >= width || col < 0 {
        a
    } else {
        row_attr(cells, width, row, col + 1, cell_attr(cells[row * width + col]))
    }
}

/// What rendering rows `row..height` writes, from attributes `a`: each row,
/// then a line break between rows.
pub open spec fn rows_output(cells: Seq<Cell>, width: int, height: int, row: int, a: Attr) -> Seq<char>
    decreases height - row,
{
    if row >= height || row < 0 {
        Seq::empty()
    } else {
        row_output(cells, width, row, 0, a) + (if row < height - 1 {
            seq!['\r', '\n']
        } else {
            Seq::empty()
        }) + rows_output(cells, width, height, row + 1, row_attr(cells, width, row, 0, a))
    }
}

/// The whole screen as terminal output: cursor home, then the rows,
/// starting from default attributes.
pub open spec fn screen_output(cells: Seq<Cell>, width: int, height: int) -> Seq<char> {
    seq!['\x1b', '[', 'H'] + rows_output(
        cells,
        width,
        height,
        0,
        Attr { fg: Color::Default, bg: Color::Default, bold: false },
    )
}

/// `n` blank cells.
fn blank_cells(n: usize) -> (v: Vec<Cell>)
    ensures
        v@ == Seq::new(n as nat, |i: int| blank_cell()),
{
    let mut v: Vec<Cell> = Vec::new();
    let blank = make_blank_cell();
    while v.len() < n
        invariant
            v@.len() <= n,
            blank == blank_cell(),
            forall|i: int| 0 <= i < v@.len() ==> v@[i] == blank_cell(),
        decreases n - v@.len(),
    {
        v.push(blank);
    }
    assert(v@ =~= Seq::new(n as nat, |i: int| blank_cell()));
    v
}

proof fn lemma_cell_index(width: int, height: int, row: int, col: int)
    requires
        0 <= row < height,
        0 <= col < width,
    ensures
        0 <= row * width + col < width * height,
{
    assert(row * width + col < width * height) by (nonlinear_arith)
        requires
            0 <= row < height,
            0 <= col < width,
    ;
    assert(0 <= row * width) by (nonlinear_arith)
        requires
            0 <= row,
            0 <= col < width,
    ;
}

impl Grid {
    /// Well-formedness: one cell per position.
    pub open spec fn wf(&self) -> bool {
        self.cells@.len() == self.width * self.height
    }

    /// A blank grid of the given size, with the cursor at the origin.
    pub fn new(width: usize, height: usize) -> (g: Grid)
        requires
            width * height <= usize::MAX,
        ensures
            g.wf(),
            g.width == width,
            g.height == height,
            g.cells@ == Seq::new((width * height) as nat, |i: int| blank_cell()),
            g.cursor_row == 0,
            g.cursor_col == 0,
    {
        let cells = blank_cells(width * height);
        Grid { width, height, cells, cursor_row: 0, cursor_col: 0 }
    }

    /// Changes the size; every cell becomes blank.
    pub fn resize(&mut self, width: usize, height: usize)
        requires
            width * height <= usize::MAX,
        ensures
            final(self).wf(),
            final(self).width == width,
            final(self).height == height,
            final(self).cells@ == Seq::new((width * height) as nat, |i: int| blank_cell()),
            final(self).cursor_row == old(self).cursor_row,
            final(self).cursor_col == old(self).cursor_col,
    {
        self.width = width;
        self.height = height;
        self.cells = blank_cells(width * height);
    }

    /// Writes a character at a position with colors and boldness (neither
    /// italic nor underlined); a position outside the grid is ignored.
    pub fn put_char(&mut self, row: usize, col: usize, c: char, fg: Color, bg: Color, bold: bool)
        requires
            old(self).wf(),
        ensures
            final(self).wf(),
            final(self).width == old(self).width,
            final(self).height == old(self).height,
            final(self).cursor_row == old(self).cursor_row,
            final(self).cursor_col == old(self).cursor_col,
            row < old(self).height && col < old(self).width ==> final(self).cells@ == old(self).cells@.update(
                row * old(self).width + col,
                Cell { c, fg, bg, bold, italic: false, underline: false },
            ),
            !(row < old(self).height && col < old(self).width) ==> final(self).cells@ == old(self).cells@,
    {
        self.put_char_full(row, col, c, fg, bg, bold, false, false);
    }

    /// Writes a character at a position with all attributes; a position
    /// outside the grid is ignored.
    pub fn put_char_full(
        &mut self,
        row: usize,
        col: usize,
        c: char,
        fg: Color,
        bg: Color,
        bold: bool,
        italic: bool,
        underline: bool,
    )
        requires
            old(self).wf(),
        ensures
            final(self).wf(),
            final(self).width == old(self).width,
            final(self).height == old(self).height,
            final(self).cursor_row == old(self).cursor_row,
            final(self).cursor_col == old(self).cursor_col,
            row < old(self).height && col < old(self).width ==> final(self).cells@ == old(self).cells@.update(
                row * old(self).width + col,
                Cell { c, fg, bg, bold, italic, underline },
            ),
            !(row < old(self).height && col < old(self).width) ==> final(self).cells@ == old(self).cells@,
    {
        if row < self.height && col < self.width {
            proof {
                lemma_cell_index(self.width as int, self.height as int, row as int, col as int);
            }
            let n = self.cells.len();
            let idx = row * self.width + col;
            self.cells.set(idx, Cell { c, fg, bg, bold, italic, underline });
        }
    }

    /// Writes a string from a position onwards, each character advancing
    /// the column by its display width (1 for a control character), and
    /// stopping at the right edge.
    pub fn put_str(&mut self, row: usize, col: usize, s: &str, fg: Color, bg: Color, bold: bool)
        requires
            old(self).wf(),
        ensures
            final(self).wf(),
            final(self).width == old(self).width,
            final(self).height == old(self).height,
            final(self).cells@ == put_str_cells(
                old(self).cells@,
                old(self).width as int,
                old(self).height as int,
                row as int,
                col as int,
                s@,
                fg,
                bg,
                bold,
            ),
    {
        let chars = chars_of(s);
        let mut col = col;
        let mut i: usize = 0;
        let ghost start_cells = self.cells@;
        let ghost start_col = col as int;
        assert(s@.skip(0) =~= s@);
        while i < chars.len() && col < self.width
            invariant
                chars@ == s@,
                i <= chars@.len(),
                self.wf(),
                self.width == old(self).width,
                self.height == old(self).height,
                put_str_cells(start_cells, self.width as int, self.height as int, row as int, start_col, s@, fg, bg, bold)
                    == put_str_cells(self.cells@, self.width as int, self.height as int, row as int, col as int, s@.skip(i as int), fg, bg, bold),
            decreases chars@.len() - i,
        {
            let c = chars[i];
            self.put_char(row, col, c, fg, bg, bold);
            let w = match char_width(c) {
                Some(w) => w,
                None => 1,
            };
            assert(s@.skip(i as int).drop_first() =~= s@.skip(i as int + 1));
            if w > self.width - col {
                col = self.width;
            } else {
                col = col + w;
            }
            i += 1;
        }
        if i >= chars.len() {
            assert(s@.skip(i as int) =~= Seq::<char>::empty());
        }
        assert(put_str_cells(self.cells@, self.width as int, self.height as int, row as int, col as int, s@.skip(i as int), fg, bg, bold) == self.cells@);
        assert(start_cells == old(self).cells@);
    }

    /// Blanks every cell's character, colors and boldness, keeping italic
    /// and underline.
    pub fn clear(&mut self)
        requires
            old(self).wf(),
        ensures
            final(self).wf(),
            final(self).width == old(self).width,
            final(self).height == old(self).height,
            final(self).cursor_row == old(self).cursor_row,
            final(self).cursor_col == old(self).cursor_col,
            final(self).cells@.len() == old(self).cells@.len(),
            forall|i: int|
                0 <= i < old(self).cells@.len() ==> #[trigger] final(self).cells@[i] == (Cell {
                    c: ' ',
                    fg: Color::Default,
                    bg: Color::Default,
                    bold: false,
                    ..old(self).cells@[i]
                }),
    {
        let mut i: usize = 0;
        while i < self.cells.len()
            invariant
                self.width == old(self).width,
                self.height == old(self).height,
                self.cursor_row == old(self).cursor_row,
                self.cursor_col == old(self).cursor_col,
                self.cells@.len() == old(self).cells@.len(),
                i <= self.cells@.len(),
                forall|j: int|
                    0 <= j < i ==> #[trigger] self.cells@[j] == (Cell {
                        c: ' ',
                        fg: Color::Default,
                        bg: Color::Default,
                        bold: false,
                        ..old(self).cells@[j]
                    }),
                forall|j: int| i <= j < self.cells@.len() ==> #[trigger] self.cells@[j] == old(self).cells@[j],
            decreases self.cells@.len() - i,
        {
            let old_cell = self.cells[i];
            self.cells.set(
                i,
                Cell {
                    c: ' ',
                    fg: Color::Default,
                    bg: Color::Default,
                    bold: false,
                    italic: old_cell.italic,
                    underline: old_cell.underline,
                },
            );
            i += 1;
        }
    }
}

impl Grid {
    /// The whole screen as terminal output: cursor home, then every row
    /// with a line break between rows, switching attributes (after a reset)
    /// wherever they change from the previous cell.
    pub fn flush(&self) -> (r: String)
        requires
            self.wf(),
        ensures
            r@ == screen_output(self.cells@, self.width as int, self.height as int),
    {
        let ghost cells = self.cells@;
        let ghost w = self.width as int;
        let ghost h = self.height as int;
        let mut res = String::new();
        string_push(&mut res, '\x1b');
        string_push(&mut res, '[');
        string_push(&mut res, 'H');
        let ghost total = screen_output(cells, w, h);
        let mut cur_fg = Color::Default;
        let mut cur_bg = Color::Default;
        let mut cur_bold = false;
        let n = self.cells.len();
        let mut row: usize = 0;
        while row < self.height
            invariant
                self.wf(),
                cells == self.cells@,
                w == self.width,
                h == self.height,
                n == cells.len(),
                row <= h,
                total == screen_output(cells, w, h),
                res@ + rows_output(cells, w, h, row as int, Attr { fg: cur_fg, bg: cur_bg, bold: cur_bold }) == total,
            decreases h - row,
        {
            let ghost row_start = Attr { fg: cur_fg, bg: cur_bg, bold: cur_bold };
            let ghost prefix = res@;
            let mut col: usize = 0;
            while col < self.width
                invariant
                    self.wf(),
                    cells == self.cells@,
                    w == self.width,
                    h == self.height,
                    n == cells.len(),
                    0 <= row < h,
                    col <= w,
                    res@ + row_output(cells, w, row as int, col as int, Attr { fg: cur_fg, bg: cur_bg, bold: cur_bold })
                        == prefix + row_output(cells, w, row as int, 0, row_start),
                    row_attr(cells, w, row as int, col as int, Attr { fg: cur_fg, bg: cur_bg, bold: cur_bold })
                        == row_attr(cells, w, row as int, 0, row_start),
                decreases w - col,
            {
                proof {
                    lemma_cell_index(w, h, row as int, col as int);
                }
                let cell = self.cells[row * self.width + col];
                let ghost a = Attr { fg: cur_fg, bg: cur_bg, bold: cur_bold };
                let ghost before = res@;
                if cell.fg != cur_fg || cell.bg != cur_bg || cell.bold != cur_bold {
                    string_push(&mut res, '\x1b');
                    string_push(&mut res, '[');
                    string_push(&mut res, '0');
                    string_push(&mut res, ';');
                    push_color_code(&mut res, cell.fg, '3');
                    string_push(&mut res, ';');
                    push_color_code(&mut res, cell.bg, '4');
                    if cell.bold {
                        string_push(&mut res, ';');
                        string_push(&mut res, '1');
                    }
                    string_push(&mut res, 'm');
                    cur_fg = cell.fg;
                    cur_bg = cell.bg;
                    cur_bold = cell.bold;
                }
                string_push(&mut res, cell.c);
                assert(res@ =~= before + cell_output(cell, a));
                assert(Attr { fg: cur_fg, bg: cur_bg, bold: cur_bold } == cell_attr(cell));
                col += 1;
            }
            proof {
                assert(res@ =~= prefix + row_output(cells, w, row as int, 0, row_start));
            }
            if row + 1 < self.height {
                string_push(&mut res, '\r');
                string_push(&mut res, '\n');
            }
            assert(res@ + rows_output(cells, w, h, row + 1, Attr { fg: cur_fg, bg: cur_bg, bold: cur_bold })
                =~= prefix + rows_output(cells, w, h, row as int, row_start));
            row += 1;
        }
        assert(res@ =~= res@ + rows_output(cells, w, h, row as int, Attr { fg: cur_fg, bg: cur_bg, bold: cur_bold }));
        res
    }
}

/// The cells after writing `s` at `row`, starting at column `col`.
pub open spec fn put_str_cells(
    cells: Seq<Cell>,
    width: int,
    height: int,
    row: int,
    col: int,
    s: Seq<char>,
    fg: Color,
    bg: Color,
    bold: bool,
) -> Seq<Cell>
    decreases s.len(),
{
    if s.len() == 0 || col >= width {
        cells
    } else {
        let c = s[0];
        let cells2 = if 0 <= row < height && 0 <= col < width {
            cells.update(row * width + col, Cell { c, fg, bg, bold, italic: false, underline: false })
        } else {
            cells
        };
        let w: int = match spec_char_width(c) {
            Some(w) => w as int,
            None => 1,
        };
        let next = if w > width - col { width } else { col + w };
        put_str_cells(cells2, width, height, row, next, s.drop_first(), fg, bg, bold)
    }
}

} // verus!
