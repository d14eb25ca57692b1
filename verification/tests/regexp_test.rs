use rneovim_core::regexp::convert_vim_regex;

#[test]
fn test_vim_regex_conversion_advanced() {
    assert_eq!(convert_vim_regex(r"\v(a|b)+"), "(a|b)+");
    assert_eq!(convert_vim_regex(r"\d+"), r"\d\+");
    assert_eq!(convert_vim_regex(r"\s*"), r"\s*");
    assert_eq!(convert_vim_regex(r"a\|b"), "a|b");
    assert_eq!(convert_vim_regex(r"\."), r"\.");
}
