use rneovim_core::memline::MemLine;

#[test]
fn test_btree_memline_extensive() {
    let mut ml = MemLine::new();
    let count = 100;

    for i in 1..=count {
        ml.append_line(&format!("Line {}", i));
    }
    assert_eq!(ml.line_count(), count);

    assert_eq!(ml.get_line(1), Some("Line 1"));
    let last_line_expected = format!("Line {}", count);
    assert_eq!(ml.get_line(count), Some(last_line_expected.as_str()));

    ml.insert_line(50, "Split Middle").unwrap();
    assert_eq!(ml.get_line(50), Some("Split Middle"));
    assert_eq!(ml.line_count(), count + 1);

    for _ in 0..50 {
        ml.delete_line(1).unwrap();
    }
    assert_eq!(ml.line_count(), count + 1 - 50);
}

#[test]
fn test_memline_empty_ops() {
    let mut ml = MemLine::new();
    assert_eq!(ml.line_count(), 0);
    assert_eq!(ml.get_line(1), None);
    assert!(ml.delete_line(1).is_err());

    ml.insert_line(1, "first").unwrap();
    assert_eq!(ml.line_count(), 1);
    assert_eq!(ml.get_line(1), Some("first"));
}

#[test]
fn test_memline_set_line() {
    let mut ml = MemLine::new();
    ml.insert_line(1, "line 1").unwrap();
    ml.replace_line(1, "updated").unwrap();
    assert_eq!(ml.get_line(1), Some("updated"));

    assert!(ml.replace_line(2, "fail").is_err());
}

#[test]
fn test_memline_out_of_bounds() {
    let ml = MemLine::new();
    assert_eq!(ml.get_line(0), None);
    assert_eq!(ml.get_line(1), None);
}

#[test]
fn memline_many_lines_keep_order_through_splits() {
    let mut ml = MemLine::new();
    for i in 0..1000 {
        ml.append_line(&format!("{}", i));
    }
    ml.insert_line(1, "top").unwrap();
    ml.insert_line(1002, "bottom").unwrap();
    assert!(ml.insert_line(1004, "beyond").is_err());
    assert_eq!(ml.line_count(), 1002);
    assert_eq!(ml.get_line(1), Some("top"));
    assert_eq!(ml.get_line(2), Some("0"));
    assert_eq!(ml.get_line(501), Some("499"));
    assert_eq!(ml.get_line(1002), Some("bottom"));
    ml.delete_line(2).unwrap();
    assert_eq!(ml.get_line(2), Some("1"));
    assert!(ml.delete_line(0).is_err());
    assert!(ml.delete_line(1002).is_err());
    assert_eq!(ml.line_count(), 1001);
}

#[test]
fn memline_insert_then_delete_restores() {
    let mut ml = MemLine::new();
    ml.append_line("a");
    ml.append_line("b");
    ml.insert_line(2, "x").unwrap();
    ml.delete_line(2).unwrap();
    assert_eq!(ml.line_count(), 2);
    assert_eq!(ml.get_line(1), Some("a"));
    assert_eq!(ml.get_line(2), Some("b"));
}
