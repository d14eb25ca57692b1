use rneovim_core::keymap::{KeymapEngine, MappingTarget};

#[test]
fn test_keymap_resolution() {
    let mut engine = KeymapEngine::new();
    engine.add_mapping("n", "jj", MappingTarget::String("\x1B".to_string()), false, false, false);

    let (resolved, consumed) = engine.resolve("n", "jj");
    match resolved {
        Some(m) => match m.target {
            MappingTarget::String(s) => assert_eq!(s, "\x1B"),
            _ => panic!("Expected string mapping"),
        },
        _ => panic!("Expected mapping"),
    }
    assert_eq!(consumed, 2);

    let (resolved, consumed) = engine.resolve("n", "j");
    assert!(resolved.is_none());
    assert_eq!(consumed, 0);
}

#[test]
fn added_mapping_resolves_to_itself_and_deleted_one_does_not() {
    let mut engine = KeymapEngine::new();
    engine.add_mapping("i", "ab", MappingTarget::String("X".to_string()), true, false, false);
    engine.add_mapping("i", "abc", MappingTarget::String("Y".to_string()), true, false, false);
    let (m, n) = engine.resolve("i", "abcd");
    match m {
        Some(m) => match m.target {
            MappingTarget::String(s) => assert_eq!(s, "Y"),
            _ => panic!("Expected string mapping"),
        },
        None => panic!("Expected mapping"),
    }
    assert_eq!(n, 3);
    engine.del_mapping("i", "abc");
    let (m, n) = engine.resolve("i", "abcd");
    assert!(m.is_some());
    assert_eq!(n, 2);
    let (m, n) = engine.resolve("i", "zz");
    assert!(m.is_none());
    assert_eq!(n, 0);
}

#[test]
fn global_mappings_apply_in_every_mode() {
    let mut engine = KeymapEngine::new();
    engine.add_mapping("", "é", MappingTarget::String("e".to_string()), false, false, false);
    let (m, n) = engine.resolve("v", "é!");
    assert!(m.is_some());
    assert_eq!(n, 2);
}
