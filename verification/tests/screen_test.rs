use rneovim_core::edit::{block_insert_rows, expand_abbreviation, increment_number_in_line, Abbreviations};
use rneovim_core::grid::{Color, Grid};
use rneovim_core::screen::draw_border;
use rneovim_core::statusline::{build_statusline, filetype_tag, replace_str};
use rneovim_core::window::Cursor;

fn ch(g: &Grid, r: usize, c: usize) -> char {
    g.cells[r * g.width + c].c
}

#[test]
fn test_draw_border_single() {
    let mut g = Grid::new(6, 4);
    draw_border(&mut g, 0, 0, 2, 1, "single");
    assert_eq!(ch(&g, 0, 0), '┌');
    assert_eq!(ch(&g, 0, 1), '─');
    assert_eq!(ch(&g, 0, 2), '─');
    assert_eq!(ch(&g, 0, 3), '┐');
    assert_eq!(ch(&g, 1, 0), '│');
    assert_eq!(ch(&g, 1, 1), ' ');
    assert_eq!(ch(&g, 1, 3), '│');
    assert_eq!(ch(&g, 2, 0), '└');
    assert_eq!(ch(&g, 2, 2), '─');
    assert_eq!(ch(&g, 2, 3), '┘');
    assert_eq!(ch(&g, 0, 4), ' ');
    assert_eq!(ch(&g, 3, 0), ' ');
    assert_eq!(g.cells[0].fg, Color::White);
    assert_eq!(g.cells[0].bg, Color::Default);
}

#[test]
fn test_draw_border_styles() {
    let mut g = Grid::new(4, 3);
    draw_border(&mut g, 0, 0, 1, 0, "rounded");
    assert_eq!(ch(&g, 0, 0), '╭');
    assert_eq!(ch(&g, 1, 2), '╯');
    draw_border(&mut g, 0, 0, 1, 0, "plain");
    assert_eq!(ch(&g, 0, 0), '+');
    assert_eq!(ch(&g, 0, 1), '-');
    assert_eq!(ch(&g, 1, 2), '+');
}

#[test]
fn test_draw_border_clipped() {
    let mut g = Grid::new(6, 4);
    draw_border(&mut g, 2, 4, 3, 3, "double");
    assert_eq!(ch(&g, 2, 4), '╔');
    assert_eq!(ch(&g, 2, 5), '═');
    assert_eq!(ch(&g, 3, 4), '║');
    assert_eq!(ch(&g, 3, 5), ' ');
    assert_eq!(ch(&g, 0, 0), ' ');
}

#[test]
fn test_replace_str() {
    assert_eq!(replace_str("aaa", "aa", "b"), "ba");
    assert_eq!(replace_str("%l:%c", "%l", "12"), "12:%c");
    assert_eq!(replace_str("none", "x", "y"), "none");
    assert_eq!(replace_str("100%%", "%%", "%"), "100%");
}

#[test]
fn test_filetype_tag() {
    assert_eq!(filetype_tag(Some("rust"), Some("main.rs")), "[rust]");
    assert_eq!(filetype_tag(Some(""), Some("main.rs")), "");
    assert_eq!(filetype_tag(None, Some("main.rs")), "[rs]");
    assert_eq!(filetype_tag(None, Some("archive.tar.gz")), "[gz]");
    assert_eq!(filetype_tag(None, Some(".bashrc")), "");
    assert_eq!(filetype_tag(None, Some("Makefile")), "");
    assert_eq!(filetype_tag(None, None), "");
}

#[test]
fn test_default_statusline() {
    let s = build_statusline(None, Some("main.rs"), 10, Cursor { row: 5, col: 3 }, true, false, "[rs]");
    assert_eq!(s, " main.rs [10] [rs] [RW] [+]  44%  5:3 ");
    let s = build_statusline(None, None, 1, Cursor { row: 1, col: 0 }, false, true, "");
    assert_eq!(s, " [No Name] [1]  [RO]   100%  1:0 ");
    let s = build_statusline(None, None, 0, Cursor { row: 0, col: 0 }, false, false, "");
    assert_eq!(s, " [No Name] [0]  [RW]   0%  0:0 ");
}

#[test]
fn test_statusline_template() {
    let s = build_statusline(Some("%l/%L %p%% %m"), Some("a"), 3, Cursor { row: 3, col: 1 }, true, false, "");
    assert_eq!(s, "3/3 100% [+]");
}

#[test]
fn test_increment_number() {
    assert_eq!(increment_number_in_line("abc 41 x", 0, 1), Some(("abc 42 x".to_string(), 4, 5)));
    assert_eq!(increment_number_in_line("x -5 y", 0, 10), Some(("x 5 y".to_string(), 2, 2)));
    assert_eq!(increment_number_in_line("5", 0, -7), Some(("-2".to_string(), 0, 1)));
    assert_eq!(increment_number_in_line("7 8", 2, 1), Some(("7 9".to_string(), 2, 2)));
    assert_eq!(increment_number_in_line("x-0012y", 0, 1), Some(("x-11y".to_string(), 1, 3)));
    assert_eq!(increment_number_in_line("99", 0, -100), Some(("-1".to_string(), 0, 1)));
}

#[test]
fn test_increment_number_nothing_to_change() {
    assert_eq!(increment_number_in_line("no digits", 0, 1), None);
    assert_eq!(increment_number_in_line("a - b", 0, 1), None);
    assert_eq!(increment_number_in_line("12", 5, 1), None);
    assert_eq!(increment_number_in_line("99999999999", 0, 1), None);
}

#[test]
fn test_increment_number_saturates() {
    assert_eq!(increment_number_in_line("2147483647", 0, 1), Some(("2147483647".to_string(), 0, 9)));
    assert_eq!(increment_number_in_line("-2147483648", 0, -1), Some(("-2147483648".to_string(), 0, 10)));
}

#[test]
fn test_expand_abbreviation() {
    let mut a = Abbreviations::new();
    a.insert("teh", "the");
    a.insert("btw", "by the way");
    assert_eq!(expand_abbreviation("I saw teh", 9, &a, ' '), Some(("I saw the".to_string(), 9)));
    assert_eq!(expand_abbreviation("btw x", 3, &a, ','), Some(("by the way x".to_string(), 10)));
    assert_eq!(expand_abbreviation("teh  ", 5, &a, '.'), Some(("the".to_string(), 3)));
    assert_eq!(expand_abbreviation("I saw teh", 9, &a, 'x'), None);
    assert_eq!(expand_abbreviation("I saw tea", 9, &a, ' '), None);
    assert_eq!(expand_abbreviation("   ", 3, &a, ' '), None);
    a.insert("teh", "THE");
    assert_eq!(a.get("teh").map(|s| s.as_str()), Some("THE"));
    assert_eq!(a.get("nope"), None);
}

#[test]
fn test_block_insert_rows() {
    let anchor = Cursor { row: 3, col: 5 };
    let cursor = Cursor { row: 1, col: 2 };
    assert_eq!(block_insert_rows(false, anchor, cursor), (1, 3, 2));
    assert_eq!(block_insert_rows(true, anchor, cursor), (1, 3, 6));
}

#[test]
fn test_increment_then_decrement_restores() {
    let (up, start, _) = increment_number_in_line("abc 41 x", 0, 5).unwrap();
    assert_eq!(up, "abc 46 x");
    let (back, start2, _) = increment_number_in_line(&up, start, -5).unwrap();
    assert_eq!(back, "abc 41 x");
    assert_eq!(start2, start);
    let (up, start, _) = increment_number_in_line("n=-3;", 0, 10).unwrap();
    assert_eq!(up, "n=7;");
    let (back, _, _) = increment_number_in_line(&up, start, -10).unwrap();
    assert_eq!(back, "n=-3;");
}
