use pvm::utils::{compare_versions, sort_versions, Precedence};

fn names(v: &[&str]) -> Vec<String> {
    v.iter().map(|s| s.to_string()).collect()
}

#[test]
fn sorts_semantic_versions_by_precedence() {
    let mut v = names(&["8.3.1", "8.2.14", "8.4.0", "8.10.0"]);
    sort_versions(&mut v);
    assert_eq!(v, names(&["8.2.14", "8.3.1", "8.4.0", "8.10.0"]));
}

#[test]
fn sorts_mixed_names_by_numbers() {
    let mut v = names(&["8.10.0", "8.9", "8.2.0-rc1", "8.2"]);
    sort_versions(&mut v);
    assert_eq!(v, names(&["8.2", "8.2.0-rc1", "8.9", "8.10.0"]));
    let mut empty: Vec<String> = Vec::new();
    sort_versions(&mut empty);
    assert!(empty.is_empty());
}

#[test]
fn comparisons_of_each_kind() {
    assert_eq!(compare_versions("8.2.0", "8.10.0"), Precedence::Less);
    assert_eq!(compare_versions("8.2.0", "8.2.0-rc1"), Precedence::Greater);
    assert_eq!(compare_versions("8.2.0-rc1", "8.2"), Precedence::Greater);
    assert_eq!(compare_versions("8.2.0", "8.2.0"), Precedence::Equal);
    assert_eq!(compare_versions("8.2.0", "8.2.0.x"), Precedence::Equal);
    assert_eq!(compare_versions("8.2", "8.10"), Precedence::Less);
    assert_eq!(compare_versions("x", "1"), Precedence::Less);
}

#[test]
fn a_pre_release_loses_a_numeric_tie_with_another_name() {
    assert_eq!(compare_versions("8.2.0-rc1", "8.2.0.x"), Precedence::Less);
    assert_eq!(compare_versions("8.2.0.x", "8.2.0-rc1"), Precedence::Greater);
    // Build metadata is no pre-release, even with a `-` in it.
    assert_eq!(compare_versions("8.2.0+b-1", "8.2.0.x"), Precedence::Equal);
    assert_eq!(compare_versions("8.2.0.x", "8.2.0+build"), Precedence::Equal);
}
