use ward::assess::{assess_repo, classify, verdict_key, RepoFacts, RepoProbe, Verdict};
use ward::config::Thresholds;
use ward::git::BranchStatus;

fn probe(origin: Option<&str>, commits: u64, dirty: bool, first: i32, last: i32) -> RepoProbe {
    RepoProbe {
        path: "/ws/repo".to_string(),
        size: 4096,
        last_commit: Some(last),
        first_commit: Some(first),
        head_sha: Some("0123456789abcdef".to_string()),
        commit_count: commits,
        author_count: 1,
        origin_url: origin.map(|s| s.to_string()),
        remotes: Vec::new(),
        branches: vec![BranchStatus {
            name: "main".to_string(),
            upstream: origin.map(|_| "origin/main".to_string()),
            ahead: 0,
        }],
        tag_count: 0,
        stash_count: 0,
        status_counts: Some((0, 0)),
        tracked_changes: Some(dirty),
        worktrees: vec!["/ws/repo".to_string()],
        submodule_count: 0,
    }
}

const TODAY: i32 = 739_200;

#[test]
fn no_remote_single_commit_is_prototype() {
    let a = assess_repo(probe(None, 1, false, TODAY, TODAY), TODAY, &Thresholds::default());
    assert_eq!(a.verdict, Verdict::Prototype);
    assert_eq!(verdict_key(a.verdict), "prototype");
}

#[test]
fn dirty_repo_is_has_local_work() {
    let a = assess_repo(probe(None, 1, true, TODAY, TODAY), TODAY, &Thresholds::default());
    assert_eq!(a.verdict, Verdict::HasLocalWork);
    assert!(a.dirty);
}

#[test]
fn no_remote_many_commits_is_no_remote() {
    let a = assess_repo(probe(None, 15, false, TODAY, TODAY), TODAY, &Thresholds::default());
    assert_eq!(a.verdict, Verdict::NoRemote);
}

fn facts() -> RepoFacts {
    RepoFacts {
        has_remote: true,
        all_pushed: true,
        has_local_only: false,
        has_ahead: false,
        dirty: false,
        has_stash: false,
        commit_count: 200,
        author_count: 3,
        lifetime_days: Some(400),
        age_days: Some(120),
    }
}

#[test]
fn stale_pushed_repo_is_archived() {
    assert_eq!(classify(&facts(), &Thresholds::default()), Verdict::Archive);
}

#[test]
fn recent_pushed_repo_is_kept() {
    let f = RepoFacts { age_days: Some(90), ..facts() };
    assert_eq!(classify(&f, &Thresholds::default()), Verdict::KeepAsIs);
}

#[test]
fn stash_counts_as_local_work() {
    let f = RepoFacts { has_stash: true, ..facts() };
    assert_eq!(classify(&f, &Thresholds::default()), Verdict::HasLocalWork);
}

#[test]
fn unpushed_branch_is_local_work() {
    let f = RepoFacts { has_ahead: true, all_pushed: false, ..facts() };
    assert_eq!(classify(&f, &Thresholds::default()), Verdict::HasLocalWork);
    let g = RepoFacts { has_local_only: true, all_pushed: false, ..facts() };
    assert_eq!(classify(&g, &Thresholds::default()), Verdict::HasLocalWork);
}

#[test]
fn short_lived_remote_repo_is_prototype() {
    let f = RepoFacts { commit_count: 3, author_count: 1, lifetime_days: Some(5), ..facts() };
    assert_eq!(classify(&f, &Thresholds::default()), Verdict::Prototype);
}

#[test]
fn no_remote_without_commits_is_no_remote() {
    let f = RepoFacts {
        has_remote: false,
        commit_count: 0,
        author_count: 0,
        lifetime_days: Some(0),
        ..facts()
    };
    assert_eq!(classify(&f, &Thresholds::default()), Verdict::NoRemote);
}

#[test]
fn assessment_keeps_probe_values() {
    let mut p = probe(Some("git@github.com:acme/x.git"), 200, false, TODAY - 400, TODAY - 100);
    p.status_counts = Some((3, 7));
    p.worktrees = vec!["/ws/repo".to_string(), "/ws/repo-wt".to_string()];
    let a = assess_repo(p, TODAY, &Thresholds::default());
    assert_eq!(a.verdict, Verdict::Archive);
    assert_eq!(a.untracked, 3);
    assert_eq!(a.ignored, 7);
    assert_eq!(a.worktree_count, 1);
    assert_eq!(a.commit_count, 200);
}

#[test]
fn failed_status_counts_as_dirty() {
    let mut p = probe(Some("https://h/x"), 200, false, TODAY - 400, TODAY - 100);
    p.tracked_changes = None;
    p.status_counts = None;
    let a = assess_repo(p, TODAY, &Thresholds::default());
    assert_eq!(a.verdict, Verdict::HasLocalWork);
    assert_eq!(a.untracked, 0);
}

#[test]
fn classify_never_answers_worktree() {
    for bits in 0u32..64 {
        let f = RepoFacts {
            has_remote: bits & 1 != 0,
            all_pushed: bits & 2 != 0,
            has_local_only: bits & 4 != 0,
            has_ahead: bits & 8 != 0,
            dirty: bits & 16 != 0,
            has_stash: bits & 32 != 0,
            commit_count: 3,
            author_count: 1,
            lifetime_days: Some(2),
            age_days: Some(400),
        };
        assert_ne!(classify(&f, &Thresholds::default()), Verdict::Worktree);
    }
}

#[test]
fn local_work_is_never_an_archive_candidate() {
    for (dirty, stash) in [(true, false), (false, true), (true, true)] {
        let f = RepoFacts { dirty, has_stash: stash, ..facts() };
        let v = classify(&f, &Thresholds::default());
        assert!(!ward::archive::is_eligible(v, true, true));
    }
}
