use rneovim_core::buffer::Buffer;
use rneovim_core::window::Cursor;

fn buffer_of(lines: &[&str]) -> Buffer {
    let mut b = Buffer::new(1);
    for l in lines {
        b.append_line(l).unwrap();
    }
    b
}

#[test]
fn word_motion_forward_and_backward() {
    let b = buffer_of(&["foo  bar baz", "next"]);
    assert_eq!(b.find_word_boundary(1, 0, true), Cursor { row: 1, col: 5 });
    assert_eq!(b.find_word_boundary(1, 5, true), Cursor { row: 1, col: 9 });
    assert_eq!(b.find_word_boundary(1, 9, true), Cursor { row: 2, col: 0 });
    assert_eq!(b.find_word_boundary(2, 0, true), Cursor { row: 2, col: 3 });
    assert_eq!(b.find_word_boundary(1, 10, false), Cursor { row: 1, col: 9 });
    assert_eq!(b.find_word_boundary(1, 9, false), Cursor { row: 1, col: 5 });
    assert_eq!(b.find_word_boundary(1, 2, false), Cursor { row: 1, col: 0 });
    assert_eq!(b.find_word_boundary(7, 4, true), Cursor { row: 7, col: 4 });
}

#[test]
fn word_end_motion() {
    let b = buffer_of(&["ab  cde", "", "xy z"]);
    assert_eq!(b.find_word_end(1, 0, true), Cursor { row: 1, col: 1 });
    assert_eq!(b.find_word_end(1, 1, true), Cursor { row: 1, col: 6 });
    assert_eq!(b.find_word_end(1, 6, true), Cursor { row: 3, col: 1 });
    assert_eq!(b.find_word_end(3, 0, false), Cursor { row: 1, col: 4 });
    assert_eq!(b.find_word_end(1, 6, false), Cursor { row: 1, col: 4 });
    assert_eq!(b.find_word_end(1, 0, false), Cursor { row: 1, col: 0 });
}

#[test]
fn char_search_across_lines() {
    let b = buffer_of(&["a,b", "c,d,e"]);
    assert_eq!(b.find_char_pos(1, 1, ',', true), Some(Cursor { row: 2, col: 1 }));
    assert_eq!(b.find_char_pos(1, 0, ',', true), Some(Cursor { row: 1, col: 1 }));
    assert_eq!(b.find_char_pos(2, 3, ',', true), None);
    assert_eq!(b.find_char_pos(2, 3, ',', false), Some(Cursor { row: 2, col: 1 }));
    assert_eq!(b.find_char_pos(2, 0, ',', false), Some(Cursor { row: 1, col: 1 }));
    assert_eq!(b.find_char_pos(2, 1, 'x', false), None);
}

#[test]
fn matching_brackets() {
    let b = buffer_of(&["f(a[1], (b))x"]);
    assert_eq!(b.find_matching_pair(1, 1), Some(Cursor { row: 1, col: 11 }));
    assert_eq!(b.find_matching_pair(1, 11), Some(Cursor { row: 1, col: 1 }));
    assert_eq!(b.find_matching_pair(1, 3), Some(Cursor { row: 1, col: 5 }));
    assert_eq!(b.find_matching_pair(1, 0), None);
    assert_eq!(b.find_matching_pair(1, 40), None);
    let c = buffer_of(&["(()"]);
    assert_eq!(c.find_matching_pair(1, 0), None);
}

#[test]
fn first_and_last_characters_of_lines() {
    let b = buffer_of(&["   abc  ", "", "    "]);
    assert_eq!(b.find_line_first_char(1), 3);
    assert_eq!(b.find_line_last_char(1), 5);
    assert_eq!(b.find_line_first_char(2), 0);
    assert_eq!(b.find_line_last_char(2), 0);
    assert_eq!(b.find_line_first_char(3), 4);
    assert_eq!(b.find_line_last_char(3), 0);
    assert_eq!(b.find_line_first_char(9), 0);
}

#[test]
fn sentence_and_paragraph_ranges() {
    let b = buffer_of(&["One. Two two.  Three!", " ", "Last one"]);
    assert_eq!(b.find_sentence_boundary(1, 0, true), Cursor { row: 1, col: 4 });
    assert_eq!(b.find_sentence_boundary(1, 7, false), Cursor { row: 1, col: 5 });
    let (s, e) = b.get_sentence_range(1, 7, true).unwrap();
    assert_eq!(s, Cursor { row: 1, col: 5 });
    assert_eq!(e, Cursor { row: 1, col: 12 });
    let (s, e) = b.get_paragraph_range(1, 0, false).unwrap();
    assert_eq!(s, Cursor { row: 1, col: 0 });
    assert_eq!(e, Cursor { row: 2, col: 0 });
    let (s, e) = b.get_paragraph_range(3, 0, true).unwrap();
    assert_eq!(s, Cursor { row: 3, col: 0 });
    assert_eq!(e, Cursor { row: 3, col: 7 });
}

#[test]
fn ranges_that_do_not_exist() {
    let b = buffer_of(&["a 'b", "  "]);
    assert!(b.get_quote_range(1, 0, '\'', true).is_none());
    assert!(b.get_pair_range(1, 1, '(', ')', false).is_none());
    assert!(b.get_word_range(1, 1, true).is_none());
    assert!(b.get_big_word_range(2, 0, true).is_none());
    assert!(b.get_word_range(3, 0, true).is_none());
    let (s, e) = b.get_big_word_range(1, 2, false).unwrap();
    assert_eq!((s.col, e.col), (2, 3));
}
