use vstd::prelude::*;
use vstd::arithmetic::div_mod::lemma_fundamental_div_mod_converse;
use crate::grid::{Cell, Color, Grid};
use crate::text::str_eq;
use crate::state::HlAttrs;

verus! {

/// The characters of a border style: the corners top-left, top-right,
/// bottom-left and bottom-right, then the vertical and horizontal edges.
/// `single`, `double` and `rounded` draw with box characters; any other
/// style with `+`, `|` and `-`.
pub open spec fn border_style(style: Seq<char>) -> (char, char, char, char, char, char) {
    if style == "single"@ {
        ('┌', '┐', '└', '┘', '│', '─')
    } else if style == "double"@ {
        ('╔', '╗', '╚', '╝', '║', '═')
    } else if style == "rounded"@ {
        ('╭', '╮', '╰', '╯', '│', '─')
    } else {
        ('+', '+', '+', '+', '|', '-')
    }
}

/// What part of the border around a box of `width` columns and `height`
/// rows, whose top-left corner is at (`row`, `col`), is at (`r`, `c`):
/// the first `corners` corners, the first `top` and `bottom` cells of the
/// horizontal edges and the first `left` and `right` cells of the vertical
/// edges.
pub open spec fn border_part(
    style: Seq<char>, row: int, col: int, width: int, height: int,
    corners: int, top: int, bottom: int, left: int, right: int, r: int, c: int,
) -> Option<char> {
    let (tl, tr, bl, br, v, h) = border_style(style);
    let t = row;
    let b = row + height + 1;
    let l = col;
    let rt = col + width + 1;
    if corners >= 1 && r == t && c == l { Some(tl) }
    else if corners >= 2 && r == t && c == rt { Some(tr) }
    else if corners >= 3 && r == b && c == l { Some(bl) }
    else if corners >= 4 && r == b && c == rt { Some(br) }
    else if r == t && l < c <= l + top { Some(h) }
    else if r == b && l < c <= l + bottom { Some(h) }
    else if c == l && t < r <= t + left { Some(v) }
    else if c == rt && t < r <= t + right { Some(v) }
    else { None }
}

/// The character of the whole border at (`r`, `c`), if it is on it.
pub open spec fn border_at(style: Seq<char>, row: int, col: int, width: int, height: int, r: int, c: int) -> Option<char> {
    border_part(style, row, col, width, height, 4, width, width, height, height, r, c)
}

/// A cell of the border.
pub open spec fn border_cell(ch: char) -> Cell {
    Cell { c: ch, fg: Color::White, bg: Color::Default, bold: false, italic: false, underline: false }
}

/// The cells of a grid `w` cells wide with what `f` gives drawn over
/// `old`: each cell that `f` puts a character at becomes a border cell.
pub open spec fn drawn_over(cells: Seq<Cell>, old: Seq<Cell>, w: int, f: spec_fn(int, int) -> Option<char>) -> bool {
    &&& cells.len() == old.len()
    &&& forall|i: int| 0 <= i < cells.len() ==> #[trigger] cells[i] == match f(i / w, i % w) {
        Some(ch) => border_cell(ch),
        None => old[i],
    }
}

proof fn lemma_cell_index(r: int, c: int, w: int)
    requires
        0 <= r,
        0 <= c < w,
    ensures
        (r * w + c) / w == r,
        (r * w + c) % w == c,
{
    lemma_fundamental_div_mod_converse(r * w + c, w, r, c);
}

proof fn lemma_index_cell(i: int, w: int, h: int)
    requires
        0 <= i < w * h,
        0 < w,
    ensures
        i == (i / w) * w + i % w,
        0 <= i % w < w,
        0 <= i / w < h,
{
    if i / w >= h {
        vstd::arithmetic::mul::lemma_mul_inequality(h, i / w, w);
        vstd::arithmetic::div_mod::lemma_fundamental_div_mod(i, w);
        vstd::arithmetic::div_mod::lemma_mod_bound(i, w);
        vstd::arithmetic::mul::lemma_mul_is_commutative(w, i / w);
        vstd::arithmetic::mul::lemma_mul_is_commutative(w, h);
    }
    vstd::arithmetic::div_mod::lemma_fundamental_div_mod(i, w);
    vstd::arithmetic::div_mod::lemma_mod_bound(i, w);
    vstd::arithmetic::div_mod::lemma_div_pos_is_pos(i, w);
    vstd::arithmetic::mul::lemma_mul_is_commutative(w, i / w);
}

/// Puts one border character, which takes `f` to `g`.
fn put_border(
    grid: &mut Grid,
    r: usize,
    c: usize,
    ch: char,
    Ghost(old_cells): Ghost<Seq<Cell>>,
    Ghost(f): Ghost<spec_fn(int, int) -> Option<char>>,
    Ghost(g): Ghost<spec_fn(int, int) -> Option<char>>,
)
    requires
        old(grid).wf(),
        drawn_over(old(grid).cells@, old_cells, old(grid).width as int, f),
        g(r as int, c as int) == Some(ch),
        forall|a: int, b: int| !(a == r && b == c) ==> #[trigger] g(a, b) == f(a, b),
    ensures
        final(grid).wf(),
        final(grid).width == old(grid).width,
        final(grid).height == old(grid).height,
        final(grid).cursor_row == old(grid).cursor_row,
        final(grid).cursor_col == old(grid).cursor_col,
        drawn_over(final(grid).cells@, old_cells, old(grid).width as int, g),
{
    let ghost before = grid.cells@;
    let ghost w = grid.width as int;
    let ghost ht = grid.height as int;
    grid.put_char(r, c, ch, Color::White, Color::Default, false);
    proof {
        assert forall|i: int| 0 <= i < grid.cells@.len() implies #[trigger] grid.cells@[i] == match g(i / w, i % w) {
            Some(x) => border_cell(x),
            None => old_cells[i],
        } by {
            assert(w > 0) by {
                if w == 0 {
                    assert(w * ht == 0) by (nonlinear_arith) requires w == 0;
                }
            }
            lemma_index_cell(i, w, ht);
            assert(before[i] == match f(i / w, i % w) { Some(x) => border_cell(x), None => old_cells[i] });
            if i / w == r && i % w == c {
                assert(i == r * w + c);
                assert(r < ht && c < w);
                assert(grid.cells@ == before.update(r * w + c, border_cell(ch)));
                assert(g(i / w, i % w) == Some(ch));
                assert(grid.cells@[i] == border_cell(ch));
            } else {
                assert(g(i / w, i % w) == f(i / w, i % w));
                if r < ht && c < w {
                    lemma_cell_index(r as int, c as int, w);
                    assert(i != r * w + c);
                    let (rr, cc) = (r as int, c as int);
                    assert(rr * w + cc < w * ht) by (nonlinear_arith)
                        requires 0 <= rr < ht, 0 <= cc < w;
                    assert(grid.cells@ == before.update(r * w + c, border_cell(ch)));
                } else {
                    assert(grid.cells@ == before);
                }
                assert(grid.cells@[i] == before[i]);
            }
        }
    }
}

/// Draws the border of a floating window around a box of `width` columns
/// and `height` rows whose top-left corner is at (`row`, `col`): corners
/// and edges in white on the default background, in the style named; what
/// falls outside the grid is not drawn.
pub fn draw_border(grid: &mut Grid, row: usize, col: usize, width: usize, height: usize, style: &str)
    requires
        old(grid).wf(),
        row + height + 1 <= usize::MAX,
        col + width + 1 <= usize::MAX,
    ensures
        final(grid).wf(),
        final(grid).width == old(grid).width,
        final(grid).height == old(grid).height,
        final(grid).cursor_row == old(grid).cursor_row,
        final(grid).cursor_col == old(grid).cursor_col,
        drawn_over(final(grid).cells@, old(grid).cells@, old(grid).width as int,
            |r: int, c: int| border_at(style@, row as int, col as int, width as int, height as int, r, c)),
{
    let (tl, tr, bl, br, v, h) = if str_eq(style, "single") {
        ('┌', '┐', '└', '┘', '│', '─')
    } else if str_eq(style, "double") {
        ('╔', '╗', '╚', '╝', '║', '═')
    } else if str_eq(style, "rounded") {
        ('╭', '╮', '╰', '╯', '│', '─')
    } else {
        ('+', '+', '+', '+', '|', '-')
    };
    let ghost s = style@;
    let ghost old_cells = grid.cells@;
    let ghost (gr, gc, gw, gh) = (row as int, col as int, width as int, height as int);
    assert(drawn_over(grid.cells@, old_cells, grid.width as int, |a: int, b: int| border_part(s, gr, gc, gw, gh, 0, 0, 0, 0, 0, a, b)));
    let bottom = row + height + 1;
    let right = col + width + 1;
    put_border(grid, row, col, tl, Ghost(old_cells),
        Ghost(|a: int, b: int| border_part(s, gr, gc, gw, gh, 0, 0, 0, 0, 0, a, b)),
        Ghost(|a: int, b: int| border_part(s, gr, gc, gw, gh, 1, 0, 0, 0, 0, a, b)));
    put_border(grid, row, right, tr, Ghost(old_cells),
        Ghost(|a: int, b: int| border_part(s, gr, gc, gw, gh, 1, 0, 0, 0, 0, a, b)),
        Ghost(|a: int, b: int| border_part(s, gr, gc, gw, gh, 2, 0, 0, 0, 0, a, b)));
    put_border(grid, bottom, col, bl, Ghost(old_cells),
        Ghost(|a: int, b: int| border_part(s, gr, gc, gw, gh, 2, 0, 0, 0, 0, a, b)),
        Ghost(|a: int, b: int| border_part(s, gr, gc, gw, gh, 3, 0, 0, 0, 0, a, b)));
    put_border(grid, bottom, right, br, Ghost(old_cells),
        Ghost(|a: int, b: int| border_part(s, gr, gc, gw, gh, 3, 0, 0, 0, 0, a, b)),
        Ghost(|a: int, b: int| border_part(s, gr, gc, gw, gh, 4, 0, 0, 0, 0, a, b)));
    let mut i: usize = 1;
    while i <= width
        invariant
            grid.wf(),
            grid.width == old(grid).width,
            grid.height == old(grid).height,
            grid.cursor_row == old(grid).cursor_row,
            grid.cursor_col == old(grid).cursor_col,
            1 <= i <= width + 1,
            col + width + 1 <= usize::MAX,
            bottom == row + height + 1,
            s == style@,
            (tl, tr, bl, br, v, h) == border_style(s),
            gr == row, gc == col, gw == width, gh == height,
            old_cells.len() == grid.cells@.len(),
            drawn_over(grid.cells@, old_cells, grid.width as int,
                |a: int, b: int| border_part(s, gr, gc, gw, gh, 4, (i - 1) as int, (i - 1) as int, 0, 0, a, b)),
        decreases width + 1 - i,
    {
        let ghost k = (i - 1) as int;
        put_border(grid, row, col + i, h, Ghost(old_cells),
            Ghost(|a: int, b: int| border_part(s, gr, gc, gw, gh, 4, k, k, 0, 0, a, b)),
            Ghost(|a: int, b: int| border_part(s, gr, gc, gw, gh, 4, k + 1, k, 0, 0, a, b)));
        put_border(grid, bottom, col + i, h, Ghost(old_cells),
            Ghost(|a: int, b: int| border_part(s, gr, gc, gw, gh, 4, k + 1, k, 0, 0, a, b)),
            Ghost(|a: int, b: int| border_part(s, gr, gc, gw, gh, 4, k + 1, k + 1, 0, 0, a, b)));
        i = i + 1;
    }
    let mut j: usize = 1;
    while j <= height
        invariant
            grid.wf(),
            grid.width == old(grid).width,
            grid.height == old(grid).height,
            grid.cursor_row == old(grid).cursor_row,
            grid.cursor_col == old(grid).cursor_col,
            1 <= j <= height + 1,
            row + height + 1 <= usize::MAX,
            right == col + width + 1,
            s == style@,
            (tl, tr, bl, br, v, h) == border_style(s),
            gr == row, gc == col, gw == width, gh == height,
            old_cells.len() == grid.cells@.len(),
            drawn_over(grid.cells@, old_cells, grid.width as int,
                |a: int, b: int| border_part(s, gr, gc, gw, gh, 4, gw, gw, (j - 1) as int, (j - 1) as int, a, b)),
        decreases height + 1 - j,
    {
        let ghost k = (j - 1) as int;
        put_border(grid, row + j, col, v, Ghost(old_cells),
            Ghost(|a: int, b: int| border_part(s, gr, gc, gw, gh, 4, gw, gw, k, k, a, b)),
            Ghost(|a: int, b: int| border_part(s, gr, gc, gw, gh, 4, gw, gw, k + 1, k, a, b)));
        put_border(grid, row + j, right, v, Ghost(old_cells),
            Ghost(|a: int, b: int| border_part(s, gr, gc, gw, gh, 4, gw, gw, k + 1, k, a, b)),
            Ghost(|a: int, b: int| border_part(s, gr, gc, gw, gh, 4, gw, gw, k + 1, k + 1, a, b)));
        j = j + 1;
    }
}

/// The color `0xRRGGBB`.
pub open spec fn rgb_color(val: u32) -> Color {
    Color::Rgb(((val / 0x10000) % 0x100) as u8, ((val / 0x100) % 0x100) as u8, (val % 0x100) as u8)
}

/// The foreground (or background) color of a highlight group: the color
/// the group sets, else white for a foreground and the default for a
/// background.
pub open spec fn hl_color_of(attrs: Option<HlAttrs>, is_fg: bool) -> Color {
    let val = match attrs {
        Some(a) => if is_fg { a.fg } else { a.bg },
        None => None,
    };
    match val {
        Some(c) => rgb_color(c),
        None => if is_fg { Color::White } else { Color::Default },
    }
}

/// The color of a highlight group (see [`hl_color_of`]).
pub fn hl_color(attrs: Option<&HlAttrs>, is_fg: bool) -> (r: Color)
    ensures
        r == hl_color_of(match attrs { Some(a) => Some(*a), None => None }, is_fg),
{
    if let Some(a) = attrs {
        let val = if is_fg { a.fg } else { a.bg };
        if let Some(c) = val {
            return Color::from_u32(c);
        }
    }
    if is_fg { Color::White } else { Color::Default }
}

} // verus!
