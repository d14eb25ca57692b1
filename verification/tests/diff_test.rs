use rneovim_core::diff::{compute_diff, DiffChange};

#[test]
fn test_diff_engine_exhaustive() {
    let res = compute_diff(&["a".into()], &["a".into()]);
    assert_eq!(res, vec![DiffChange::Equal("a".into())]);

    let res = compute_diff(&[], &["a".into()]);
    assert_eq!(res, vec![DiffChange::Add("a".into())]);

    let res = compute_diff(&["a".into()], &[]);
    assert_eq!(res, vec![DiffChange::Delete("a".into())]);

    let old: Vec<String> = vec!["A".into(), "B".into(), "C".into()];
    let new: Vec<String> = vec!["A".into(), "C".into(), "D".into()];
    let res = compute_diff(&old, &new);
    assert_eq!(res.len(), 4);
    assert_eq!(res[0], DiffChange::Equal("A".into()));
    assert_eq!(res[1], DiffChange::Delete("B".into()));
    assert_eq!(res[2], DiffChange::Equal("C".into()));
    assert_eq!(res[3], DiffChange::Add("D".into()));
}

#[test]
fn diff_script_rebuilds_both_sides() {
    let old: Vec<String> = vec!["x".into(), "y".into(), "z".into(), "y".into()];
    let new: Vec<String> = vec!["y".into(), "z".into(), "w".into()];
    let res = compute_diff(&old, &new);
    let mut rebuilt_old: Vec<String> = Vec::new();
    let mut rebuilt_new: Vec<String> = Vec::new();
    for c in &res {
        match c {
            DiffChange::Equal(s) => {
                rebuilt_old.push(s.clone());
                rebuilt_new.push(s.clone());
            }
            DiffChange::Delete(s) => rebuilt_old.push(s.clone()),
            DiffChange::Add(s) => rebuilt_new.push(s.clone()),
        }
    }
    assert_eq!(rebuilt_old, old);
    assert_eq!(rebuilt_new, new);
    let kept = res.iter().filter(|c| matches!(c, DiffChange::Equal(_))).count();
    assert_eq!(kept, 2);
}
