use ward::git::{hooks_path_setting, is_custom_hook};

#[test]
fn scan_detects_custom_hooks() {
    assert!(is_custom_hook("pre-commit"));
    assert!(!is_custom_hook("pre-commit.sample"));
}

#[test]
fn hooks_path_expands_home() {
    assert_eq!(hooks_path_setting("~/hooks\n", Some("/home/me")), Some("/home/me/hooks".to_string()));
    assert_eq!(hooks_path_setting("~/hooks\n", None), Some("~/hooks".to_string()));
    assert_eq!(hooks_path_setting("  \n", Some("/home/me")), None);
    assert_eq!(hooks_path_setting(".githooks\n", Some("/home/me")), Some(".githooks".to_string()));
}
