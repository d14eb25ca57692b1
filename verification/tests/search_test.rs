use rneovim_core::buffer::Buffer;
use rneovim_core::search::{search_forward, search_next};
use rneovim_core::window::Cursor;

fn buffer(lines: &[&str]) -> Buffer {
    let mut b = Buffer::new(1);
    for l in lines {
        b.append_line(l).unwrap();
    }
    b
}

#[test]
fn test_search_forward_on_cursor_line() {
    let b = buffer(&["Hello World", "Rust Programming"]);
    assert_eq!(search_forward(&b, "World", Cursor { row: 1, col: 0 }), Some((1, 6)));
    assert_eq!(search_forward(&b, "o", Cursor { row: 1, col: 5 }), Some((1, 7)));
}

#[test]
fn test_search_forward_includes_cursor_position() {
    let b = buffer(&["abc abc"]);
    assert_eq!(search_forward(&b, "abc", Cursor { row: 1, col: 4 }), Some((1, 4)));
}

#[test]
fn test_search_forward_moves_to_later_lines() {
    let b = buffer(&["Hello World", "Rust Programming"]);
    assert_eq!(search_forward(&b, "Rust", Cursor { row: 1, col: 3 }), Some((2, 0)));
    assert_eq!(search_forward(&b, "gram", Cursor { row: 1, col: 0 }), Some((2, 8)));
}

#[test]
fn test_search_forward_does_not_wrap() {
    let b = buffer(&["needle", "hay"]);
    assert_eq!(search_forward(&b, "needle", Cursor { row: 2, col: 0 }), None);
}

#[test]
fn test_search_forward_empty_or_invalid_query() {
    let b = buffer(&["text"]);
    assert_eq!(search_forward(&b, "", Cursor { row: 1, col: 0 }), None);
    assert_eq!(search_forward(&b, "(", Cursor { row: 1, col: 0 }), None);
}

#[test]
fn test_search_forward_byte_columns() {
    let b = buffer(&["日本語 text"]);
    assert_eq!(search_forward(&b, "text", Cursor { row: 1, col: 0 }), Some((1, 10)));
    assert_eq!(search_forward(&b, "語", Cursor { row: 1, col: 3 }), Some((1, 6)));
}

#[test]
fn test_search_next_skips_cursor_position() {
    let b = buffer(&["abc abc", "abc"]);
    assert_eq!(search_next(&b, "abc", Cursor { row: 1, col: 0 }, true), Some((1, 4)));
    assert_eq!(search_next(&b, "abc", Cursor { row: 1, col: 4 }, true), Some((2, 0)));
}

#[test]
fn test_search_next_converts_vim_pattern() {
    let b = buffer(&["f(x) + g(x)", "h(x)"]);
    assert_eq!(search_next(&b, "(x", Cursor { row: 1, col: 0 }, true), Some((1, 1)));
    assert_eq!(search_next(&b, "(x", Cursor { row: 1, col: 1 }, true), Some((1, 8)));
    assert_eq!(search_next(&b, "\\v(x)", Cursor { row: 1, col: 8 }, true), Some((1, 9)));
    assert_eq!(search_next(&b, "\\v(x)", Cursor { row: 1, col: 9 }, true), Some((2, 2)));
}

#[test]
fn test_search_next_backward_does_nothing() {
    let b = buffer(&["abc abc"]);
    assert_eq!(search_next(&b, "abc", Cursor { row: 1, col: 4 }, false), None);
}

#[test]
fn test_search_next_passes_over_empty_lines() {
    let b = buffer(&["x", "", "y"]);
    assert_eq!(search_next(&b, "^", Cursor { row: 1, col: 0 }, true), Some((3, 0)));
}
