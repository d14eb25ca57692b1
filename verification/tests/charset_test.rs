use rneovim_core::charset::{vim_iswhite, vim_isdigit, vim_isident, vim_isxdigit};

#[test]
fn test_vim_iswhite() {
    assert!(vim_iswhite(' '));
    assert!(vim_iswhite('\t'));
    assert!(!vim_iswhite('a'));
    assert!(!vim_iswhite('\n'));
    assert!(!vim_iswhite('\r'));
}

#[test]
fn test_vim_isdigit() {
    for c in '0'..='9' {
        assert!(vim_isdigit(c));
    }
    assert!(!vim_isdigit('a'));
    assert!(!vim_isdigit(' '));
}

#[test]
fn test_vim_isident_ascii() {
    assert!(vim_isident('a'));
}

#[test]
fn test_vim_isident_digit() {
    assert!(vim_isident('1'));
}

#[test]
fn test_vim_isident_underscore() {
    assert!(vim_isident('_'));
}

#[test]
fn test_vim_isident_mbyte() {
    assert!(vim_isident('あ'));
    assert!(vim_isident('漢'));
}

#[test]
fn test_vim_isident_false() {
    assert!(!vim_isident(' '));
    assert!(!vim_isident('!'));
}

#[test]
fn test_vim_isxdigit() {
    for c in '0'..='9' {
        assert!(vim_isxdigit(c));
    }
    for c in 'a'..='f' {
        assert!(vim_isxdigit(c));
    }
    for c in 'A'..='F' {
        assert!(vim_isxdigit(c));
    }
    assert!(!vim_isxdigit('g'));
    assert!(!vim_isxdigit('G'));
}
