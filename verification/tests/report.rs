use ward::assess::{verdict_key, Assessment, Verdict};
use ward::report::verdict_histogram;
use ward::scan::{next_actions, parse_verdict, scan_rows};
use ward::status::{
    archivable_count, is_artifact_dir, percent, source_size, stalest, usage_step, UsageStep,
};

fn a(size: u64, last: Option<i32>, verdict: Verdict) -> Assessment {
    Assessment {
        path: format!("/w/{size}"),
        size,
        last_commit: last,
        first_commit: last,
        head_sha: None,
        commit_count: 3,
        author_count: 1,
        origin_url: None,
        remotes: Vec::new(),
        branches: Vec::new(),
        tag_count: 0,
        stash_count: 0,
        untracked: 0,
        ignored: 0,
        dirty: false,
        worktree_count: 0,
        submodule_count: 0,
        verdict,
    }
}

fn sample() -> Vec<Assessment> {
    vec![
        a(10, Some(500), Verdict::Prototype),
        a(40, Some(100), Verdict::Archive),
        a(30, None, Verdict::KeepAsIs),
        a(40, Some(50), Verdict::Archive),
        a(5, Some(60), Verdict::NoRemote),
        a(7, Some(70), Verdict::HasLocalWork),
        a(8, Some(80), Verdict::KeepAsIs),
    ]
}

#[test]
fn histogram_lists_present_verdicts_in_key_order() {
    let h = verdict_histogram(&sample());
    let rows: Vec<(&str, u64, u128)> = h.iter().map(|e| (e.key, e.count, e.size)).collect();
    assert_eq!(
        rows,
        vec![
            ("archive", 2, 80),
            ("keep", 2, 38),
            ("local-work", 1, 7),
            ("no-remote", 1, 5),
            ("prototype", 1, 10),
        ]
    );
    assert!(verdict_histogram(&Vec::new()).is_empty());
}

#[test]
fn verdict_filter_parses_any_case() {
    assert_eq!(parse_verdict("archive"), Some(Verdict::Archive));
    assert_eq!(parse_verdict("ARCHIVE"), Some(Verdict::Archive));
    assert_eq!(parse_verdict("Prototype"), Some(Verdict::Prototype));
    assert_eq!(parse_verdict("worktree"), Some(Verdict::Worktree));
    assert_eq!(parse_verdict("local"), Some(Verdict::HasLocalWork));
    assert_eq!(parse_verdict("local-work"), Some(Verdict::HasLocalWork));
    assert_eq!(parse_verdict("keep"), Some(Verdict::KeepAsIs));
    assert_eq!(parse_verdict("no-remote"), Some(Verdict::NoRemote));
    assert_eq!(parse_verdict("NoRemote"), Some(Verdict::NoRemote));
    assert_eq!(parse_verdict("stale"), None);
    assert_eq!(parse_verdict("bogus"), None);
}

#[test]
fn verdict_keys_read_back() {
    for v in [
        Verdict::Archive,
        Verdict::Prototype,
        Verdict::Worktree,
        Verdict::HasLocalWork,
        Verdict::KeepAsIs,
        Verdict::NoRemote,
    ] {
        assert_eq!(parse_verdict(verdict_key(v)), Some(v));
        assert_eq!(parse_verdict(&verdict_key(v).to_uppercase()), Some(v));
        assert_eq!(verdict_key(v).to_uppercase(), v.label());
    }
}

#[test]
fn scan_rows_are_largest_first() {
    let s = sample();
    assert_eq!(scan_rows(&s, None, false), vec![1, 3, 2, 0, 6, 5, 4]);
    assert_eq!(scan_rows(&s, Some(Verdict::KeepAsIs), false), vec![2, 6]);
    assert_eq!(scan_rows(&s, None, true), vec![0]);
    assert_eq!(scan_rows(&s, Some(Verdict::Archive), true), Vec::<usize>::new());
}

#[test]
fn next_actions_count_candidates() {
    let n = next_actions(&sample());
    assert_eq!((n.archive, n.prototype, n.no_remote, n.clean), (2, 1, 1, false));
    let quiet = vec![a(1, None, Verdict::KeepAsIs), a(2, None, Verdict::NoRemote)];
    let m = next_actions(&quiet);
    assert_eq!((m.archive, m.prototype, m.no_remote, m.clean), (0, 0, 1, true));
}

#[test]
fn usage_walk_steps() {
    assert_eq!(usage_step("target", 3, true), UsageStep::Artefact);
    assert_eq!(usage_step(".venv", 3, true), UsageStep::Artefact);
    assert_eq!(usage_step(".git", 1, true), UsageStep::Prune);
    assert_eq!(usage_step(".config", 0, true), UsageStep::Descend);
    assert_eq!(usage_step("src", 2, true), UsageStep::Descend);
    assert_eq!(usage_step("target", 3, false), UsageStep::Ignore);
    assert!(is_artifact_dir("DerivedData"));
    assert!(!is_artifact_dir("out"));
}

#[test]
fn shares_and_source_size() {
    assert_eq!(percent(74, 100), 74);
    assert_eq!(percent(1, 3), 33);
    assert_eq!(percent(5, 0), 0);
    assert_eq!(percent(u64::MAX, u64::MAX), 100);
    assert_eq!(source_size(100, 74), 26);
    assert_eq!(source_size(10, 74), 0);
}

#[test]
fn stalest_lists_oldest_dated_five() {
    let s = sample();
    assert_eq!(stalest(&s), vec![3, 4, 5, 6, 1]);
    let few = vec![a(1, None, Verdict::KeepAsIs), a(2, Some(9), Verdict::KeepAsIs)];
    assert_eq!(stalest(&few), vec![1]);
}

#[test]
fn archivable_counts_archive_and_prototype() {
    assert_eq!(archivable_count(&sample()), 3);
}
