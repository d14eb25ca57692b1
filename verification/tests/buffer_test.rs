use rneovim_core::buffer::Buffer;
use rneovim_core::error::NvimError;
use rneovim_core::window::Cursor;

#[test]
fn test_buffer_creation() {
    let b1 = Buffer::new(1);
    let b2 = Buffer::new(2);
    assert_ne!(b1.id(), b2.id());
    assert_eq!(b1.line_count(), 0);
}

#[test]
fn test_insert_char() {
    let mut buf = Buffer::new(1);
    buf.append_line("abc").unwrap();

    buf.insert_char(1, 1, 'X').unwrap();
    assert_eq!(buf.get_line(1), Some("aXbc"));

    buf.insert_char(1, 0, 'S').unwrap();
    assert_eq!(buf.get_line(1), Some("SaXbc"));

    let len = buf.get_line(1).unwrap().chars().count();
    buf.insert_char(1, len, 'E').unwrap();
    assert_eq!(buf.get_line(1), Some("SaXbcE"));

    buf.insert_char(1, 100, '!').unwrap();
    assert_eq!(buf.get_line(1), Some("SaXbcE!"));
}

#[test]
fn test_delete_char() {
    let mut buf = Buffer::new(1);
    buf.append_line("line1").unwrap();
    buf.append_line("line2").unwrap();

    buf.delete_char(2, 5).unwrap();
    assert_eq!(buf.get_line(2), Some("line"));

    buf.delete_char(2, 0).unwrap();
    assert_eq!(buf.line_count(), 1);
    assert_eq!(buf.get_line(1), Some("line1line"));

    let res = buf.delete_char(1, 0).unwrap();
    assert!(res.is_none());
    assert_eq!(buf.line_count(), 1);
}

#[test]
fn test_insert_newline() {
    let mut buf = Buffer::new(1);
    buf.append_line("HelloWorld").unwrap();

    buf.insert_newline(1, 5).unwrap();
    assert_eq!(buf.line_count(), 2);
    assert_eq!(buf.get_line(1), Some("Hello"));
    assert_eq!(buf.get_line(2), Some("World"));

    buf.insert_newline(1, 0).unwrap();
    assert_eq!(buf.line_count(), 3);
    assert_eq!(buf.get_line(1), Some(""));
    assert_eq!(buf.get_line(2), Some("Hello"));

    let len = buf.get_line(3).unwrap().chars().count();
    buf.insert_newline(3, len).unwrap();
    assert_eq!(buf.line_count(), 4);
    assert_eq!(buf.get_line(3), Some("World"));
    assert_eq!(buf.get_line(4), Some(""));
}

#[test]
fn test_japanese_support() {
    let mut buf = Buffer::new(1);
    buf.append_line("こんにちは世界").unwrap();
    assert_eq!(buf.get_line(1).unwrap().chars().count(), 7);

    buf.insert_char(1, 5, 'R').unwrap();
    buf.insert_char(1, 6, 'u').unwrap();
    buf.insert_char(1, 7, 's').unwrap();
    buf.insert_char(1, 8, 't').unwrap();
    assert_eq!(buf.get_line(1), Some("こんにちはRust世界"));

    buf.delete_char(1, 6).unwrap();
    assert_eq!(buf.get_line(1), Some("こんにちはust世界"));
}

#[test]
fn test_word_range_basic() {
    let mut buf = Buffer::new(1);
    buf.append_line("hello world! rust_neovim").unwrap();
    let range = buf.get_word_range(1, 2, true).unwrap();
    assert_eq!(range.0.col, 0);
    assert_eq!(range.1.col, 4);
}

#[test]
fn test_word_range_a_word() {
    let mut buf = Buffer::new(1);
    buf.append_line("hello world! rust_neovim").unwrap();
    let range = buf.get_word_range(1, 7, false).unwrap();
    assert_eq!(range.0.col, 6);
    assert_eq!(range.1.col, 10);
}

#[test]
fn test_word_range_identifier() {
    let mut buf = Buffer::new(1);
    buf.append_line("hello world! rust_neovim").unwrap();
    let range = buf.get_word_range(1, 15, true).unwrap();
    assert_eq!(range.0.col, 13);
    assert_eq!(range.1.col, 23);
}

#[test]
fn test_big_word_range() {
    let mut buf = Buffer::new(1);
    buf.append_line("hello world! rust_neovim").unwrap();
    let range = buf.get_big_word_range(1, 11, true).unwrap();
    assert_eq!(range.0.col, 6);
    assert_eq!(range.1.col, 11);
}

#[test]
fn test_sentence_and_paragraph_boundaries() {
    let mut buf = Buffer::new(1);
    buf.append_line("Sentence one. Sentence two!").unwrap();
    buf.append_line("").unwrap();
    buf.append_line("Paragraph two starts here.").unwrap();

    let pos = buf.find_sentence_boundary(1, 0, true);
    assert_eq!(pos.row, 1);
    assert_eq!(pos.col, 13);

    let pos = buf.find_paragraph_boundary(1, 0, true);
    assert_eq!(pos.row, 2);

    let pos = buf.find_paragraph_boundary(3, 0, false);
    assert_eq!(pos.row, 2);
}

#[test]
fn test_section_boundaries() {
    let mut buf = Buffer::new(1);
    buf.append_line("fn main() {").unwrap();
    buf.append_line("  println!(\"hi\");").unwrap();
    buf.append_line("}").unwrap();
    buf.append_line("{").unwrap();
    buf.append_line("  next section").unwrap();

    let pos = buf.find_section_boundary(1, 0, true, false);
    assert_eq!(pos.row, 4);

    let pos = buf.find_section_boundary(5, 0, false, false);
    assert_eq!(pos.row, 4);
}

#[test]
fn test_buffer_signs() {
    let mut buf = Buffer::new(1);
    buf.append_line("line").unwrap();
    buf.set_sign(1, ">>");
    assert_eq!(buf.get_sign(1).unwrap(), ">>");
}

#[test]
fn test_buffer_virtual_text() {
    let mut buf = Buffer::new(1);
    buf.append_line("line").unwrap();
    buf.set_virtual_text(1, "VT".to_string());
    assert_eq!(buf.get_virtual_text(1).unwrap(), "VT");
}

#[test]
fn test_pair_and_quote_ranges() {
    let mut buf = Buffer::new(1);
    buf.append_line("print('hello', \"world\")").unwrap();

    let range = buf.get_quote_range(1, 8, '\'', true).unwrap();
    assert_eq!(range.0.col, 7);
    assert_eq!(range.1.col, 11);

    let range = buf.get_quote_range(1, 17, '"', false).unwrap();
    assert_eq!(range.0.col, 15);
    assert_eq!(range.1.col, 21);

    let range = buf.get_pair_range(1, 10, '(', ')', true).unwrap();
    assert_eq!(range.0.col, 6);
    assert_eq!(range.1.col, 21);
}

#[test]
fn set_line_then_undo_restores_and_redo_reapplies() {
    let mut buf = Buffer::new(7);
    buf.append_line("one").unwrap();
    buf.append_line("two").unwrap();
    buf.set_line(2, 1, "TWO").unwrap();
    assert_eq!(buf.get_line(2), Some("TWO"));
    let c = buf.undo().unwrap();
    assert_eq!(c, Some(Cursor { row: 2, col: 1 }));
    assert_eq!(buf.get_line(2), Some("two"));
    let c = buf.redo().unwrap();
    assert_eq!(c, Some(Cursor { row: 2, col: 1 }));
    assert_eq!(buf.get_line(2), Some("TWO"));
    assert!(buf.is_modified());
    buf.clear_modified();
    assert!(!buf.is_modified());
}

#[test]
fn grouped_edits_undo_as_one_step() {
    let mut buf = Buffer::new(3);
    buf.append_line("a").unwrap();
    buf.start_undo_group();
    buf.insert_line(2, "b").unwrap();
    buf.insert_line(3, "c").unwrap();
    buf.delete_line(1).unwrap();
    buf.end_undo_group();
    assert_eq!(buf.get_all_lines(), vec!["b".to_string(), "c".to_string()]);
    let c = buf.undo().unwrap();
    assert_eq!(c, Some(Cursor { row: 1, col: 0 }));
    assert_eq!(buf.get_all_lines(), vec!["a".to_string()]);
    let c = buf.redo().unwrap();
    assert_eq!(c, Some(Cursor { row: 1, col: 0 }));
    assert_eq!(buf.get_all_lines(), vec!["b".to_string(), "c".to_string()]);
    let c = buf.undo().unwrap();
    assert!(c.is_some());
    let c = buf.undo().unwrap();
    assert_eq!(c, Some(Cursor { row: 1, col: 0 }));
    assert_eq!(buf.line_count(), 0);
    assert_eq!(buf.undo().unwrap(), None);
}

#[test]
fn edits_out_of_range_are_errors() {
    let mut buf = Buffer::new(1);
    buf.append_line("x").unwrap();
    assert!(matches!(buf.set_line(3, 0, "y"), Err(NvimError::Buffer(_))));
    assert!(matches!(buf.insert_line(5, "y"), Err(NvimError::Buffer(_))));
    assert!(matches!(buf.delete_line(0), Err(NvimError::Buffer(_))));
    assert!(matches!(buf.delete_char(2, 1), Err(NvimError::Buffer(_))));
    assert!(matches!(buf.insert_newline(9, 0), Err(NvimError::Buffer(_))));
    assert!(buf.indent_line(9, true, 4).is_ok());
    assert_eq!(buf.get_all_lines(), vec!["x".to_string()]);
    let e = buf.set_line(3, 0, "y").unwrap_err();
    assert_eq!(e.message(), "Buffer error: Invalid line number");
}

#[test]
fn indent_and_marks() {
    let mut buf = Buffer::new(1);
    buf.append_line("  code").unwrap();
    buf.indent_line(1, true, 2).unwrap();
    assert_eq!(buf.get_line(1), Some("    code"));
    buf.indent_line(1, false, 3).unwrap();
    assert_eq!(buf.get_line(1), Some(" code"));
    buf.indent_line(1, false, 8).unwrap();
    assert_eq!(buf.get_line(1), Some("code"));
    buf.set_mark('a', Cursor { row: 1, col: 2 });
    buf.set_mark('a', Cursor { row: 1, col: 3 });
    assert_eq!(buf.get_mark('a'), Some(Cursor { row: 1, col: 3 }));
    assert_eq!(buf.get_mark('b'), None);
    buf.set_name("file.txt");
    assert_eq!(buf.name(), Some("file.txt"));
}

#[test]
fn extmarks_follow_edits() {
    let mut buf = Buffer::new(1);
    buf.append_line("first line").unwrap();
    buf.append_line("second line").unwrap();
    buf.append_line("third line").unwrap();
    let id1 = buf.set_extmark(2, 0);
    let id2 = buf.set_extmark(3, 6);
    assert_ne!(id1, id2);
    buf.insert_line(1, "").unwrap();
    assert_eq!(buf.get_extmark(id1).unwrap().row, 3);
    assert_eq!(buf.get_extmark(id2).unwrap().row, 4);
    for (i, c) in "prefix ".chars().enumerate() {
        buf.insert_char(4, i, c).unwrap();
    }
    let m2 = buf.get_extmark(id2).unwrap();
    assert_eq!(m2.row, 4);
    assert_eq!(m2.col, 6 + "prefix ".chars().count());
    assert!(buf.get_extmark(99).is_none());
}
