use rneovim_core::options::{join_path, join_strings, runtime_path, Options};
use rneovim_core::state::OptionValue;

#[test]
fn test_default_options() {
    let o = Options::defaults("/rt");
    assert_eq!(o.get_int("tabstop", 0), 8);
    assert_eq!(o.get_int("lines", 0), 24);
    assert!(o.get_bool("wrap"));
    assert!(!o.get_bool("number"));
    assert!(!o.get_bool("tabstop"));
    assert!(!o.get_bool("nosuchoption"));
    assert_eq!(o.get_string("signcolumn"), Some("auto".to_string()));
    assert_eq!(o.get_string("runtimepath"), Some("/rt".to_string()));
    assert_eq!(o.get_string("wrap"), None);
    assert_eq!(o.get_int("textwidth", 80), 80);
}

#[test]
fn test_option_insert_overwrites() {
    let mut o = Options::new();
    assert!(o.get("number").is_none());
    o.insert("number", OptionValue::Bool(true));
    assert!(o.get_bool("number"));
    o.insert("number", OptionValue::Bool(false));
    assert!(!o.get_bool("number"));
    o.insert("textwidth", OptionValue::Int(40));
    assert_eq!(o.get_int("textwidth", 80), 40);
    assert!(!o.get_bool("number"));
}

#[test]
fn test_join_path() {
    assert_eq!(join_path("/home/u/.config", "rneovim"), "/home/u/.config/rneovim");
    assert_eq!(join_path("/", "rneovim"), "/rneovim");
    assert_eq!(join_path("", "rneovim"), "rneovim");
    assert_eq!(join_path("a/", "b/c"), "a/b/c");
}

#[test]
fn test_join_strings() {
    let v: Vec<String> = vec!["a".to_string(), "b".to_string(), "c".to_string()];
    assert_eq!(join_strings(&v, ','), "a,b,c");
    assert_eq!(join_strings(&Vec::new(), ','), "");
}

#[test]
fn test_runtime_path() {
    let rtp = runtime_path(Some("/c"), Some("/d"), Some("/w"), Some("/h"));
    assert_eq!(
        rtp,
        "/c/rneovim,/d/rneovim/site,/w/neovim-src/runtime,/usr/local/share/rneovim/site,/usr/share/rneovim/site,\
/usr/local/share/rneovim/runtime,/usr/share/rneovim/runtime,/h/.local/share/rneovim/site,/c/rneovim/after"
    );
    let rtp = runtime_path(None, None, None, None);
    assert_eq!(
        rtp,
        "/usr/local/share/rneovim/site,/usr/share/rneovim/site,/usr/local/share/rneovim/runtime,/usr/share/rneovim/runtime"
    );
}
