use rneovim_core::spell::SpellChecker;

#[test]
fn test_spell_check_extensive() {
    let mut checker = SpellChecker::new();
    checker.add_word("I");
    checker.add_word("like");
    checker.add_word("Rust");

    assert_eq!(checker.check_line("I like Rust").len(), 0);

    let errors = checker.check_line("I like Ruzt");
    assert_eq!(errors.len(), 1);
    assert_eq!(errors[0], (7, 11));

    assert_eq!(checker.check_line("I like Rust!").len(), 0);
    assert_eq!(checker.check_line("I LIKE RUST").len(), 0);

    assert_eq!(checker.check_line("Rust 1.68").len(), 0);
}

#[test]
fn added_word_is_spelled_in_any_case() {
    let mut checker = SpellChecker::new();
    assert!(checker.is_misspelled("Verus"));
    checker.add_word("VERUS");
    assert!(!checker.is_misspelled("verus"));
    assert!(!checker.is_misspelled("Verus"));
    assert!(!checker.is_misspelled(""));
    assert!(!checker.is_misspelled("123"));
}

#[test]
fn misspellings_are_byte_ranges() {
    let mut checker = SpellChecker::new();
    checker.add_word("ok");
    let errors = checker.check_line("é bad ok");
    assert_eq!(errors, vec![(0, 2), (3, 6)]);
    let errors = checker.check_line("ok zz");
    assert_eq!(errors, vec![(3, 5)]);
}
