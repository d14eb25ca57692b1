use rneovim_core::syntax::{SyntaxHighlighter, HighlightGroup};
use rneovim_core::grid::Color;

#[test]
fn test_rust_highlighting() {
    let hl = SyntaxHighlighter::new_rust();

    let h = hl.highlight_line("fn main()");
    assert!(h.iter().any(|(_, _, g)| matches!(g, HighlightGroup::Keyword)));

    let h = hl.highlight_line("let x = 1; // comment");
    assert!(h.iter().any(|(_, _, g)| matches!(g, HighlightGroup::Comment)));

    let h = hl.highlight_line("let s = \"hello\";");
    assert!(h.iter().any(|(_, _, g)| matches!(g, HighlightGroup::String)));
}

#[test]
fn test_highlight_colors() {
    assert_eq!(HighlightGroup::Keyword.color(), Color::Yellow);
    assert_eq!(HighlightGroup::Comment.color(), Color::Blue);
}

#[test]
fn highlights_are_byte_ranges_rule_by_rule() {
    let hl = SyntaxHighlighter::new_rust();
    assert_eq!(hl.rules.len(), 20);
    let h = hl.highlight_line("let s = \"fn\"; // if");
    let kw: Vec<(usize, usize)> = h.iter().filter(|(_, _, g)| *g == HighlightGroup::Keyword).map(|(a, b, _)| (*a, *b)).collect();
    assert_eq!(kw, vec![(9, 11), (0, 3), (17, 19)]);
    assert!(h.contains(&(14, 19, HighlightGroup::Comment)));
    assert!(h.contains(&(8, 12, HighlightGroup::String)));
    assert!(hl.highlight_line("").is_empty());
    assert_eq!(HighlightGroup::Default.color(), Color::Default);
    assert_eq!(HighlightGroup::Number.color(), Color::Red);
}
