use rneovim_core::strings::{StringBuilder, vim_strsave_escaped, vim_strnsave_unquoted};

#[test]
fn test_string_builder() {
    let mut sb = StringBuilder::new();
    sb.append("Hello");
    sb.append(", ");
    sb.append("World!");
    assert_eq!(sb.as_str(), "Hello, World!");
}

#[test]
fn test_vim_strsave_escaped() {
    assert_eq!(vim_strsave_escaped("abcd", "abcd"), r"\a\b\c\d");
    assert_eq!(vim_strsave_escaped("abcd", "ab"), r"\a\bcd");
    assert_eq!(vim_strsave_escaped("text \n text", ""), "text \n text");
    assert_eq!(vim_strsave_escaped("", "\r"), "");
    assert_eq!(vim_strsave_escaped("some text", "a"), "some text");
    assert_eq!(vim_strsave_escaped("foo", "o"), r"f\o\o");
    assert_eq!(vim_strsave_escaped("bar", "z"), "bar");
}

#[test]
fn test_vim_strnsave_unquoted() {
    assert_eq!(vim_strnsave_unquoted("-c"), "-c");
    assert_eq!(vim_strnsave_unquoted(""), "");
    assert_eq!(vim_strnsave_unquoted("\"/bin/sh\""), "/bin/sh");
    assert_eq!(vim_strnsave_unquoted("/Program\" \"Files/sh"), "/Program Files/sh");
    assert_eq!(vim_strnsave_unquoted("/\"\"Program\" \"Files/sh"), "/Program Files/sh");
    assert_eq!(vim_strnsave_unquoted("/\"\\\"\"Program Files\"\\\"\"/sh"), "/\"Program Files\"/sh");
    assert_eq!(vim_strnsave_unquoted("/\"\\\\\"Program Files\"\\\\foo\"/sh"), "/\\Program Files\\foo/sh");
    assert_eq!(vim_strnsave_unquoted("/Program\" Files/sh"), "/Program Files/sh");
    assert_eq!(vim_strnsave_unquoted("\""), "");
    assert_eq!(vim_strnsave_unquoted("/Program\" Files/sh\\"), "/Program Files/sh\\");
    assert_eq!(vim_strnsave_unquoted("/Program\\ Files/sh\\"), "/Program\\ Files/sh\\");
    assert_eq!(vim_strnsave_unquoted("/Program\"\\n\"Files/sh"), "/Program\\nFiles/sh");
    assert_eq!(vim_strnsave_unquoted("\"こんにちは\""), "こんにちは");
}

#[test]
fn string_builder_counts_bytes() {
    let mut sb = StringBuilder::with_capacity(16);
    assert!(sb.is_empty());
    assert_eq!(sb.len(), 0);
    sb.append_char('日');
    sb.append_char('x');
    assert_eq!(sb.len(), 4);
    assert!(!sb.is_empty());
    assert_eq!(sb.to_string(), "日x");
}
