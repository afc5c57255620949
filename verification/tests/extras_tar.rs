use ward::extras::{entry_kind, entry_name, extras_match, extras_plan, restore_target, ExtrasKind};

#[test]
fn entry_names_read_back() {
    for (k, rel) in [
        (ExtrasKind::Untracked, "notes/todo.txt"),
        (ExtrasKind::Hook, "pre-commit"),
        (ExtrasKind::GitFile, "config.worktree"),
    ] {
        let n = entry_name(k, rel);
        assert_eq!(entry_kind(&n), Some((k, rel.to_string())));
    }
    assert_eq!(entry_name(ExtrasKind::Hook, "pre-push"), "hooks/pre-push");
    assert_eq!(entry_kind("other/file"), None);
}

#[test]
fn extras_go_back_in_place() {
    assert_eq!(restore_target("/w/a", ExtrasKind::Untracked, "src/new.rs"), "/w/a/src/new.rs");
    assert_eq!(restore_target("/w/a", ExtrasKind::Hook, "pre-commit"), "/w/a/.git/hooks/pre-commit");
    assert_eq!(restore_target("/w/a", ExtrasKind::GitFile, "config"), "/w/a/.git/config");
}

#[test]
fn extras_plan_lists_everything_in_order() {
    let plan = extras_plan(
        &vec!["a.txt".to_string()],
        &vec![("pre-commit".to_string(), "/w/a/.git/hooks/pre-commit".to_string())],
        true,
        false,
    );
    let rows: Vec<(&str, &str)> = plan.iter().map(|e| (e.name.as_str(), e.source.as_str())).collect();
    assert_eq!(
        rows,
        vec![
            ("untracked/a.txt", "a.txt"),
            ("hooks/pre-commit", "/w/a/.git/hooks/pre-commit"),
            ("git/config", ".git/config"),
        ]
    );
    assert!(extras_plan(&Vec::new(), &Vec::new(), false, false).is_empty());
}

#[test]
fn extras_read_back_must_match_plan() {
    let plan = extras_plan(
        &vec!["a.txt".to_string()],
        &vec![("pre-commit".to_string(), "/w/a/.git/hooks/pre-commit".to_string())],
        true,
        false,
    );
    let names = |xs: &[&str]| xs.iter().map(|s| s.to_string()).collect::<Vec<String>>();
    assert!(extras_match(&plan, &names(&["untracked/a.txt", "hooks/pre-commit", "git/config"])));
    assert!(!extras_match(&plan, &names(&["untracked/a.txt", "git/config", "hooks/pre-commit"])));
    assert!(!extras_match(&plan, &names(&["untracked/a.txt", "hooks/pre-commit"])));
    assert!(!extras_match(&plan, &names(&["untracked/a.txt", "hooks/pre-commit", "git/config.worktree"])));
    assert!(extras_match(&Vec::new(), &Vec::new()));
}
