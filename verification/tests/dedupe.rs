use ward::dedupe::{
    action_reason, convert_start, convert_step, decide_action, fingerprint, plan_clusters, tally_plan,
    weak_fingerprint, Action, CloneInfo, ConvertAction, ConvertEvent, ConvertFailure, ConvertState,
    DupEntry,
};

fn clone_info(path: &str, size: u64, last: Option<i32>, local_only: bool, stash: bool, dirty: bool) -> CloneInfo {
    CloneInfo {
        path: path.to_string(),
        size,
        last_commit: last,
        root_sha: Some("abcdef0123456789".to_string()),
        has_local_only: local_only,
        has_stash: stash,
        dirty,
    }
}

#[test]
fn actions_protect_local_work() {
    assert_eq!(decide_action(&clone_info("/a", 1, None, true, true, false)), Action::Skip);
    assert_eq!(decide_action(&clone_info("/a", 1, None, false, false, true)), Action::Skip);
    assert_eq!(decide_action(&clone_info("/a", 1, None, true, false, false)), Action::Worktree);
    assert_eq!(decide_action(&clone_info("/a", 1, None, false, false, false)), Action::Remove);
    assert_eq!(action_reason(Action::Remove), "no local work, safe to remove");
}

#[test]
fn fingerprint_takes_twelve_root_chars() {
    let fp = fingerprint("github.com/acme/x", &Some("abcdef0123456789".to_string()));
    assert_eq!(fp, "github.com/acme/x#abcdef012345");
    assert_eq!(fingerprint("github.com/acme/x", &None), "github.com/acme/x");
    let mut weak = clone_info("/a", 1, None, false, false, false);
    assert!(!weak_fingerprint(&weak));
    weak.root_sha = None;
    assert!(weak_fingerprint(&weak));
}

#[test]
fn clusters_keep_latest_clone() {
    let e = |fp: &str, info: CloneInfo| DupEntry { fingerprint: fp.to_string(), url: format!("https://{fp}"), info };
    let entries = vec![
        e("x", clone_info("/w/x1", 100, Some(10), false, false, false)),
        e("y", clone_info("/w/y1", 5, Some(1), false, false, false)),
        e("x", clone_info("/w/x2", 50, Some(30), true, false, false)),
        e("x", clone_info("/w/x3", 20, Some(20), false, true, false)),
        e("z", clone_info("/w/z1", 1000, Some(1), false, false, false)),
    ];
    let clusters = plan_clusters(&entries);
    assert_eq!(clusters.len(), 1);
    let c = &clusters[0];
    let paths: Vec<&str> = c.clones.iter().map(|k| k.path.as_str()).collect();
    assert_eq!(paths, vec!["/w/x2", "/w/x3", "/w/x1"]);
    assert_eq!(c.actions, vec![Action::Skip, Action::Remove]);
    assert_eq!(c.total, 170);
    assert_eq!(c.reclaimable, 120);
    assert_eq!(c.url, "https://x");
}

#[test]
fn conversion_runs_in_order() {
    let (s, a) = convert_start();
    assert!(matches!(a, ConvertAction::ShowBranch));
    let (s, a) = convert_step(s, ConvertEvent::Branch(Some("feature\n".to_string())));
    assert!(matches!(&a, ConvertAction::Push(b) if b == "feature"));
    let (s, a) = convert_step(s, ConvertEvent::Pushed(Some(false)));
    assert!(matches!(&a, ConvertAction::Fetch { branch, push_failed: true } if branch == "feature"));
    let (s, a) = convert_step(s, ConvertEvent::Fetched(Some((true, String::new()))));
    assert!(matches!(a, ConvertAction::RemoveTarget));
    let (s, a) = convert_step(s, ConvertEvent::Removed(true));
    assert!(matches!(&a, ConvertAction::AddWorktree(b) if b == "feature"));
    let (s, a) = convert_step(s, ConvertEvent::Added(Some((true, String::new()))));
    assert!(matches!(a, ConvertAction::Done));
    assert!(matches!(s, ConvertState::Finished));
}

#[test]
fn detached_head_is_never_converted() {
    let (s, _) = convert_start();
    let (s, a) = convert_step(s, ConvertEvent::Branch(Some("  \n".to_string())));
    assert!(matches!(a, ConvertAction::Fail(ConvertFailure::DetachedHead)));
    assert!(matches!(s, ConvertState::Finished));
}

#[test]
fn failed_fetch_keeps_the_clone() {
    let s = ConvertState::AwaitFetch("feature".to_string());
    let (_, a) = convert_step(s, ConvertEvent::Fetched(Some((false, "no such ref".to_string()))));
    assert!(matches!(&a, ConvertAction::Fail(ConvertFailure::FetchFailed(m)) if m == "no such ref"));
    let (_, b) = convert_step(ConvertState::AwaitFetch("f".to_string()), ConvertEvent::Removed(true));
    assert!(matches!(b, ConvertAction::Fail(ConvertFailure::Unexpected)));
}

#[test]
fn plan_tally_counts_failures_as_skipped() {
    let t = tally_plan(
        &vec![Action::Worktree, Action::Remove, Action::Skip, Action::Remove, Action::Worktree],
        &vec![true, true, true, false, false],
    );
    assert_eq!((t.converted, t.removed, t.skipped), (1, 1, 3));
}

#[test]
fn conversion_failures() {
    let (_, a) = convert_step(ConvertState::AwaitBranch, ConvertEvent::Branch(None));
    assert!(matches!(a, ConvertAction::Fail(ConvertFailure::CommandFailed)));
    let (_, b) = convert_step(ConvertState::AwaitRemove("f".to_string()), ConvertEvent::Removed(false));
    assert!(matches!(b, ConvertAction::Fail(ConvertFailure::RemoveFailed)));
    let (_, c) = convert_step(
        ConvertState::AwaitAdd("f".to_string()),
        ConvertEvent::Added(Some((false, "already exists".to_string()))),
    );
    assert!(matches!(&c, ConvertAction::Fail(ConvertFailure::AddFailed(m)) if m == "already exists"));
    let (_, d) = convert_step(ConvertState::AwaitFetch("f".to_string()), ConvertEvent::Fetched(None));
    assert!(matches!(d, ConvertAction::Fail(ConvertFailure::CommandFailed)));
    let (_, e) = convert_step(ConvertState::AwaitPush("f".to_string()), ConvertEvent::Pushed(None));
    assert!(matches!(&e, ConvertAction::Fetch { branch, push_failed: false } if branch == "f"));
}
