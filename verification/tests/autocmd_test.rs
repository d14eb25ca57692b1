use rneovim_core::autocmd::{event_name, remove_fired_once, select_autocmds};
use rneovim_core::grid::Color;
use rneovim_core::screen::hl_color;
use rneovim_core::state::{step_timers, AutoCmd, AutoCmdCallback, AutoCmdEvent, HlAttrs, UvEvent};

fn cmd(pattern: Option<&str>, once: bool, body: &str) -> AutoCmd {
    AutoCmd { callback: AutoCmdCallback::Command(body.to_string()), pattern: pattern.map(|p| p.to_string()), once }
}

fn bodies(cmds: &[AutoCmd]) -> Vec<String> {
    cmds.iter()
        .map(|c| match &c.callback {
            AutoCmdCallback::Command(s) => s.clone(),
            AutoCmdCallback::Lua(id) => format!("lua {}", id),
        })
        .collect()
}

#[test]
fn test_select_without_pattern_fires_all() {
    let cmds = vec![cmd(None, false, "a"), cmd(Some("*.rs"), true, "b"), cmd(Some("x"), false, "c")];
    let (fired, once) = select_autocmds(&cmds, None);
    assert_eq!(fired, vec![0, 1, 2]);
    assert_eq!(once, vec![1]);
}

#[test]
fn test_select_with_pattern() {
    let cmds = vec![cmd(None, true, "a"), cmd(Some("rust"), false, "b"), cmd(Some("lua"), true, "c")];
    let (fired, once) = select_autocmds(&cmds, Some("rust"));
    assert_eq!(fired, vec![0, 1]);
    assert_eq!(once, vec![0]);
}

#[test]
fn test_remove_fired_once() {
    let mut cmds = vec![cmd(None, true, "a"), cmd(None, false, "b"), cmd(None, true, "c"), cmd(None, false, "d")];
    let (_, once) = select_autocmds(&cmds, None);
    remove_fired_once(&mut cmds, &once);
    assert_eq!(bodies(&cmds), vec!["b".to_string(), "d".to_string()]);
    remove_fired_once(&mut cmds, &vec![7]);
    assert_eq!(bodies(&cmds), vec!["b".to_string(), "d".to_string()]);
}

#[test]
fn test_event_names() {
    assert_eq!(event_name(AutoCmdEvent::VimEnter), "VimEnter");
    assert_eq!(event_name(AutoCmdEvent::FileType), "FileType");
    assert_eq!(event_name(AutoCmdEvent::BufEnter), "User");
    assert_eq!(event_name(AutoCmdEvent::ColorSchemePre), "ColorSchemePre");
}

#[test]
fn test_highlight_group_colors() {
    let attrs = HlAttrs { fg: Some(0x112233), bg: None, bold: false, italic: false, reverse: false, underline: false };
    assert_eq!(hl_color(Some(&attrs), true), Color::Rgb(0x11, 0x22, 0x33));
    assert_eq!(hl_color(Some(&attrs), false), Color::Default);
    assert_eq!(hl_color(None, true), Color::White);
    assert_eq!(hl_color(None, false), Color::Default);
}

#[test]
fn test_step_timers() {
    let ev = |cb: i32, next: u64, repeat: Option<u64>| UvEvent { callback_id: cb, next_run: next, repeat };
    let mut events = vec![(1, ev(10, 5, None)), (2, ev(20, 100, None)), (3, ev(30, 0, Some(50)))];
    let to_run = step_timers(&mut events, &vec![99], 10);
    assert_eq!(to_run, vec![10, 30, 99]);
    assert_eq!(events, vec![(2, ev(20, 100, None)), (3, ev(30, 60, Some(50)))]);
    let to_run = step_timers(&mut events, &Vec::new(), 59);
    assert!(to_run.is_empty());
    let to_run = step_timers(&mut events, &Vec::new(), 60);
    assert_eq!(to_run, vec![30]);
    assert_eq!(events, vec![(2, ev(20, 100, None)), (3, ev(30, 110, Some(50)))]);
}
