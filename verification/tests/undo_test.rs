use rneovim_core::undo::{UndoTree, Action};

#[test]
fn test_undo_grouping() {
    let mut tree = UndoTree::new();
    tree.start_group();
    tree.push(Action::InsertLine { lnum: 1, col: 0, text: "H".to_string() });
    tree.push(Action::InsertLine { lnum: 1, col: 1, text: "e".to_string() });
    tree.start_group();
    tree.push(Action::InsertLine { lnum: 1, col: 2, text: "l".to_string() });
    tree.end_group();
    tree.end_group();

    assert_eq!(tree.nodes.len(), 2);
    let u = tree.pop_undo().unwrap();
    if let Action::Group(actions) = u {
        assert_eq!(actions.len(), 3);
    } else {
        panic!("Expected Group action");
    }
}

#[test]
fn undo_then_redo_returns_to_the_same_state() {
    let mut tree = UndoTree::new();
    tree.push(Action::InsertLine { lnum: 1, col: 0, text: "a".to_string() });
    tree.push(Action::DeleteLine { lnum: 1, col: 0, text: "a".to_string() });
    assert_eq!(tree.current_idx, 2);
    let u = tree.pop_undo().unwrap();
    assert!(matches!(u, Action::DeleteLine { .. }));
    assert_eq!(tree.current_idx, 1);
    let r = tree.pop_redo().unwrap();
    assert!(matches!(r, Action::DeleteLine { .. }));
    assert_eq!(tree.current_idx, 2);
    assert!(tree.pop_redo().is_none());
    assert!(tree.earlier().is_some());
    assert_eq!(tree.current_idx, 1);
}
