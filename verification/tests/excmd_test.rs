use rneovim_core::excmd::{
    config_lines, script_lines, trim_str,
    buffer_after_delete, cycle_buffer, join_lines, next_tab, parse_command_definition, parse_ex_command, prev_tab,
    tab_after_close,
};

fn words(v: &[&str]) -> Vec<String> {
    v.iter().map(|s| s.to_string()).collect()
}

#[test]
fn test_parse_ex_command() {
    assert_eq!(parse_ex_command("  :e  foo.txt "), words(&["e", "foo.txt"]));
    assert_eq!(parse_ex_command(":  q"), words(&["q"]));
    assert_eq!(parse_ex_command("let x = 1"), words(&["let", "x", "=", "1"]));
    assert_eq!(parse_ex_command("w\tfile"), words(&["w", "file"]));
    assert!(parse_ex_command("").is_empty());
    assert!(parse_ex_command(" : ").is_empty());
}

#[test]
fn test_buffer_cycling() {
    assert_eq!(cycle_buffer(0, 3, true), 1);
    assert_eq!(cycle_buffer(2, 3, true), 0);
    assert_eq!(cycle_buffer(0, 3, false), 2);
    assert_eq!(cycle_buffer(1, 3, false), 0);
    assert_eq!(buffer_after_delete(2, 2), 0);
    assert_eq!(buffer_after_delete(0, 2), 0);
}

#[test]
fn test_tab_navigation() {
    assert_eq!(next_tab(1, 2), 0);
    assert_eq!(next_tab(0, 2), 1);
    assert_eq!(prev_tab(0, 3), 2);
    assert_eq!(prev_tab(2, 3), 1);
    assert_eq!(tab_after_close(2, 2), 1);
    assert_eq!(tab_after_close(0, 2), 0);
}

#[test]
fn test_join_lines() {
    assert_eq!(join_lines("foo  ", "   bar"), "foo bar");
    assert_eq!(join_lines("", "x"), " x");
    assert_eq!(join_lines("a", ""), "a ");
}

#[test]
fn test_command_definition() {
    assert_eq!(
        parse_command_definition(&words(&["command", "-nargs=1", "Hello", "echo", "hi"])),
        Some(("Hello".to_string(), "echo hi".to_string()))
    );
    assert_eq!(
        parse_command_definition(&words(&["command!", "-bang", "-bar", "X", "y"])),
        Some(("X".to_string(), "y".to_string()))
    );
    assert_eq!(parse_command_definition(&words(&["command", "Foo"])), None);
    assert_eq!(parse_command_definition(&words(&["command", "-x"])), None);
}

#[test]
fn test_config_and_script_lines() {
    let lines = words(&["set number", "  ", "\"comment", "  \"indented comment", "  map x y  "]);
    assert_eq!(config_lines(&lines), words(&["set number", "  \"indented comment", "  map x y  "]));
    assert_eq!(script_lines(&lines), words(&["set number", "map x y"]));
    assert_eq!(trim_str("  a b \t"), "a b");
}
