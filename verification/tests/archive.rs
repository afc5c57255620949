use chrono::Datelike;
use ward::archive::{
    archive_candidates, archive_files, archive_start, archive_step, build_manifest, compare_refs, is_eligible,
    repo_name, tally, total_size_at, ArchiveAction, ArchiveEvent, ArchiveFailure, ArchiveRecord, ArchiveState,
    RefCheckError,
};
use ward::assess::{Assessment, Verdict};
use ward::bundle::VerifiedRefs;
use ward::git::BranchStatus;
use ward::manifest::{ArchiveFormat, MANIFEST_VERSION};

fn assessment(path: &str, size: u64, last: Option<i32>, verdict: Verdict) -> Assessment {
    Assessment {
        path: path.to_string(),
        size,
        last_commit: last,
        first_commit: last,
        head_sha: Some("1111".to_string()),
        commit_count: 12,
        author_count: 2,
        origin_url: Some("https://example.com/x.git".to_string()),
        remotes: vec![("origin".to_string(), "https://example.com/x.git".to_string())],
        branches: vec![BranchStatus {
            name: "main".to_string(),
            upstream: Some("origin/main".to_string()),
            ahead: 0,
        }],
        tag_count: 1,
        stash_count: 0,
        untracked: 0,
        ignored: 0,
        dirty: false,
        worktree_count: 0,
        submodule_count: 0,
        verdict,
    }
}

fn refs(pairs: &[(&str, &str)], head: Option<&str>) -> VerifiedRefs {
    VerifiedRefs {
        refs: pairs.iter().map(|(n, s)| (n.to_string(), s.to_string())).collect(),
        head: head.map(|h| h.to_string()),
    }
}

#[test]
fn eligibility_follows_flags() {
    assert!(is_eligible(Verdict::Archive, false, false));
    assert!(!is_eligible(Verdict::Prototype, false, false));
    assert!(is_eligible(Verdict::Prototype, true, false));
    assert!(!is_eligible(Verdict::NoRemote, true, false));
    assert!(is_eligible(Verdict::NoRemote, false, true));
    assert!(!is_eligible(Verdict::KeepAsIs, true, true));
    assert!(!is_eligible(Verdict::HasLocalWork, true, true));
}

#[test]
fn candidates_are_oldest_first() {
    let all = vec![
        assessment("/w/c", 1, Some(300), Verdict::Archive),
        assessment("/w/keep", 1, Some(50), Verdict::KeepAsIs),
        assessment("/w/a", 1, Some(100), Verdict::Archive),
        assessment("/w/proto", 1, Some(200), Verdict::Prototype),
        assessment("/w/unknown", 1, None, Verdict::Archive),
        assessment("/w/b", 1, Some(100), Verdict::Archive),
    ];
    assert_eq!(archive_candidates(&all, false, false), vec![4, 2, 5, 0]);
    assert_eq!(archive_candidates(&all, true, false), vec![4, 2, 5, 3, 0]);
}

#[test]
fn eligible_total_adds_sizes() {
    let all = vec![
        assessment("/w/a", u64::MAX, Some(1), Verdict::Archive),
        assessment("/w/b", 10, Some(2), Verdict::Archive),
        assessment("/w/c", 99, Some(3), Verdict::Archive),
    ];
    assert_eq!(total_size_at(&all, &vec![0, 1]), u64::MAX as u128 + 10);
    assert_eq!(total_size_at(&all, &vec![]), 0);
}

#[test]
fn compare_refs_accepts_matching_clone() {
    let a = assessment("/w/a", 1, Some(1), Verdict::Archive);
    let v = refs(&[("refs/heads/main", "1111"), ("refs/tags/v1", "2222")], Some("1111"));
    assert!(compare_refs(&a, &v).is_ok());
}

#[test]
fn compare_refs_rejects_head_mismatch() {
    let a = assessment("/w/a", 1, Some(1), Verdict::Archive);
    let v = refs(&[("refs/heads/main", "9999")], Some("9999"));
    assert!(matches!(compare_refs(&a, &v), Err(RefCheckError::HeadMismatch)));
}

#[test]
fn compare_refs_rejects_empty_clone() {
    let a = assessment("/w/a", 1, Some(1), Verdict::Archive);
    let v = refs(&[], Some("1111"));
    assert!(matches!(compare_refs(&a, &v), Err(RefCheckError::NoRefs)));
}

#[test]
fn compare_refs_rejects_clone_without_head() {
    let a = assessment("/w/a", 1, Some(1), Verdict::Archive);
    let v = refs(&[("refs/heads/main", "1111")], None);
    assert!(matches!(compare_refs(&a, &v), Err(RefCheckError::HeadMismatch)));
}

#[test]
fn compare_refs_without_source_head_ignores_clone_head() {
    let mut a = assessment("/w/a", 1, Some(1), Verdict::Archive);
    a.head_sha = None;
    let v = refs(&[("refs/heads/main", "1111")], None);
    assert!(compare_refs(&a, &v).is_ok());
}

#[test]
fn compare_refs_names_first_missing_branch() {
    let mut a = assessment("/w/a", 1, Some(1), Verdict::Archive);
    a.branches.push(BranchStatus { name: "feature".to_string(), upstream: None, ahead: 0 });
    a.branches.push(BranchStatus { name: "fix".to_string(), upstream: None, ahead: 0 });
    let v = refs(&[("refs/heads/main", "1111")], Some("1111"));
    match compare_refs(&a, &v) {
        Err(RefCheckError::MissingBranch(n)) => assert_eq!(n, "feature"),
        other => panic!("unexpected {:?}", other),
    }
}

#[test]
fn archive_file_names() {
    let f = archive_files("/home/me/.ward/archives", "/w/old-service", "20260405120000");
    assert_eq!(f.stem, "old-service-20260405120000");
    assert_eq!(f.bundle, "/home/me/.ward/archives/old-service-20260405120000.bundle");
    assert_eq!(f.extras, "/home/me/.ward/archives/old-service-20260405120000.extras.tar.gz");
    assert_eq!(f.manifest, "/home/me/.ward/archives/old-service-20260405120000.json");
}

#[test]
fn repo_name_falls_back() {
    assert_eq!(repo_name("/w/old-service"), "old-service");
    assert_eq!(repo_name("/w/old-service/"), "old-service");
    assert_eq!(repo_name("/"), "repo");
    assert_eq!(repo_name("/w/.."), "repo");
}

#[test]
fn manifest_records_archive() {
    let day = chrono::NaiveDate::from_ymd_opt(2025, 11, 3).unwrap().num_days_from_ce();
    let a = assessment("/w/a", 4242, Some(day), Verdict::Archive);
    let v = refs(&[("refs/heads/main", "1111")], Some("1111"));
    let rec = ArchiveRecord {
        archived_at: "2026-04-05T12:00:00+00:00".to_string(),
        verified_at: "2026-04-05T12:00:05+00:00".to_string(),
        verifier_version: "ward 0.1.0".to_string(),
        bundle_sha256: "ab".repeat(32),
        extras_sha256: Some("cd".repeat(32)),
        stash_shas: vec!["5555".to_string()],
        has_hooks: true,
        has_config: true,
        has_config_worktree: false,
    };
    let m = build_manifest(&a, &v, rec);
    assert_eq!(m.manifest_version, MANIFEST_VERSION);
    assert_eq!(m.manifest_version, 3);
    assert_eq!(m.format, ArchiveFormat::Bundle);
    assert_eq!(m.original_path, "/w/a");
    assert_eq!(m.archived_by, "ward 0.1.0");
    assert_eq!(m.size_bytes, 4242);
    assert!(m.has_extras);
    assert_eq!(m.refs.len(), 1);
    assert_eq!(m.refs[0].name, "refs/heads/main");
    assert_eq!(m.remotes[0].name, "origin");
    assert_eq!(m.last_commit.as_deref(), Some("2025-11-03"));
    assert_eq!(m.verified_at.as_deref(), Some("2026-04-05T12:00:05+00:00"));
    assert_eq!(m.stash_shas, vec!["5555".to_string()]);
    assert!(m.has_hooks && m.has_config && !m.has_config_worktree);
}

#[test]
fn tally_counts_successes() {
    let t = tally(&vec![10, 20, 30], &vec![true, false, true]);
    assert_eq!(t.archived, 2);
    assert_eq!(t.failed, 1);
    assert_eq!(t.freed, 40);
}

#[test]
fn archiving_removes_source_last() {
    let a = assessment("/w/a", 1, Some(1), Verdict::Archive);
    let (s, act) = archive_start();
    assert!(matches!(act, ArchiveAction::CreateStashRefs));
    let (s, act) = archive_step(s, &a, ArchiveEvent::StashRefs(true));
    assert!(matches!(act, ArchiveAction::CreateBundle));
    let (s, act) = archive_step(s, &a, ArchiveEvent::Bundled(true));
    assert!(matches!(act, ArchiveAction::VerifyBundle));
    let (s, act) = archive_step(s, &a, ArchiveEvent::BundleVerified(true));
    assert!(matches!(act, ArchiveAction::CaptureExtras));
    let (s, act) = archive_step(s, &a, ArchiveEvent::ExtrasCaptured(true));
    assert!(matches!(act, ArchiveAction::VerifyByClone));
    let clone = refs(&[("refs/heads/main", "1111")], Some("1111"));
    let (s, act) = archive_step(s, &a, ArchiveEvent::Cloned(Some(clone)));
    assert!(matches!(act, ArchiveAction::WriteManifest));
    let (s, act) = archive_step(s, &a, ArchiveEvent::ManifestWritten(true));
    assert!(matches!(act, ArchiveAction::RemoveSource));
    let (s, act) = archive_step(s, &a, ArchiveEvent::SourceRemoved(true));
    assert!(matches!(act, ArchiveAction::Done));
    assert_eq!(s, ArchiveState::Finished);
}

#[test]
fn mismatched_clone_keeps_source() {
    let a = assessment("/w/a", 1, Some(1), Verdict::Archive);
    let clone = refs(&[("refs/heads/main", "2222")], Some("2222"));
    let (s, act) = archive_step(ArchiveState::AwaitClone, &a, ArchiveEvent::Cloned(Some(clone)));
    assert!(matches!(act, ArchiveAction::Fail(ArchiveFailure::RefMismatch(RefCheckError::HeadMismatch))));
    assert_eq!(s, ArchiveState::Finished);
    let (_, act) = archive_step(ArchiveState::AwaitBundleCheck, &a, ArchiveEvent::BundleVerified(false));
    assert!(matches!(act, ArchiveAction::Fail(ArchiveFailure::BundleInvalid)));
    let (_, act) = archive_step(ArchiveState::AwaitManifest, &a, ArchiveEvent::SourceRemoved(true));
    assert!(matches!(act, ArchiveAction::Fail(ArchiveFailure::Unexpected)));
}

#[test]
fn every_failed_step_keeps_source() {
    let a = assessment("/w/a", 1, Some(1), Verdict::Archive);
    let fails = |s: ArchiveState, e: ArchiveEvent| {
        let (next, act) = archive_step(s, &a, e);
        assert_eq!(next, ArchiveState::Finished);
        act
    };
    assert!(matches!(
        fails(ArchiveState::AwaitStashRefs, ArchiveEvent::StashRefs(false)),
        ArchiveAction::Fail(ArchiveFailure::StashRefsFailed)
    ));
    assert!(matches!(
        fails(ArchiveState::AwaitBundle, ArchiveEvent::Bundled(false)),
        ArchiveAction::Fail(ArchiveFailure::BundleFailed)
    ));
    assert!(matches!(
        fails(ArchiveState::AwaitExtras, ArchiveEvent::ExtrasCaptured(false)),
        ArchiveAction::Fail(ArchiveFailure::ExtrasFailed)
    ));
    assert!(matches!(
        fails(ArchiveState::AwaitClone, ArchiveEvent::Cloned(None)),
        ArchiveAction::Fail(ArchiveFailure::CloneFailed)
    ));
    assert!(matches!(
        fails(ArchiveState::AwaitManifest, ArchiveEvent::ManifestWritten(false)),
        ArchiveAction::Fail(ArchiveFailure::ManifestFailed)
    ));
    assert!(matches!(
        fails(ArchiveState::AwaitRemoval, ArchiveEvent::SourceRemoved(false)),
        ArchiveAction::Fail(ArchiveFailure::RemoveFailed)
    ));
    assert!(matches!(
        fails(ArchiveState::AwaitClone, ArchiveEvent::Cloned(Some(refs(&[], Some("1111"))))),
        ArchiveAction::Fail(ArchiveFailure::RefMismatch(RefCheckError::NoRefs))
    ));
}
