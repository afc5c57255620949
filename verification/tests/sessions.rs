use ward::sessions::{is_active_session, probe, resolve_slug};

fn dirs_in(known: &'static [&'static str]) -> impl Fn(&str) -> bool {
    move |p: &str| known.contains(&p)
}

#[test]
fn probe_prefers_longer_segments() {
    let is_dir = dirs_in(&["/tmp/w/bet", "/tmp/w/bet-trackers", "/tmp/w/bet/trackers"]);
    let parts: Vec<String> = vec!["bet".to_string(), "trackers".to_string()];
    let found = probe("/tmp/w", &parts, &is_dir).unwrap();
    assert_eq!(found, "/tmp/w/bet-trackers");
}

#[test]
fn probe_falls_back_to_split_segments() {
    let is_dir = dirs_in(&["/tmp/w/bet", "/tmp/w/bet/trackers"]);
    let parts: Vec<String> = vec!["bet".to_string(), "trackers".to_string()];
    let found = probe("/tmp/w", &parts, &is_dir).unwrap();
    assert_eq!(found, "/tmp/w/bet/trackers");
}

#[test]
fn resolve_unknown_slug_returns_none() {
    let on_disk = |p: &str| std::path::Path::new(p).is_dir();
    assert!(resolve_slug("-nonexistent-path-xyz-12345", &on_disk).is_none());
}

#[test]
fn resolve_slug_walks_from_root() {
    let is_dir = dirs_in(&["/home", "/home/me", "/home/me/bet-trackers"]);
    assert_eq!(
        resolve_slug("-home-me-bet-trackers", &is_dir),
        Some("/home/me/bet-trackers".to_string())
    );
}

#[test]
fn resolve_slug_backtracks_when_longer_segment_dead_ends() {
    // "/a-b" exists but holds no "c"; "/a/b/c" is the repository.
    let is_dir = dirs_in(&["/a-b", "/a", "/a/b", "/a/b/c"]);
    assert_eq!(resolve_slug("-a-b-c", &is_dir), Some("/a/b/c".to_string()));
}

#[test]
fn resolve_slug_needs_leading_dash() {
    let is_dir = dirs_in(&["/home"]);
    assert_eq!(resolve_slug("home", &is_dir), None);
    assert_eq!(resolve_slug("", &is_dir), None);
}

#[test]
fn probe_with_no_parts_is_the_base() {
    let is_dir = dirs_in(&[]);
    assert_eq!(probe("/x", &Vec::new(), &is_dir), Some("/x".to_string()));
}

#[test]
fn session_activity_window() {
    assert!(is_active_session(Some(1_000), 1_500, 900));
    assert!(is_active_session(Some(600), 1_500, 900));
    assert!(!is_active_session(Some(599), 1_500, 900));
    assert!(!is_active_session(None, 1_500, 900));
    assert!(!is_active_session(Some(10), 100, 900));
}
