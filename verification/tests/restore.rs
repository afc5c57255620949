use ward::manifest::{ArchiveFormat, Manifest};
use ward::restore::{
    archive_paths, archive_stem, check_extras, check_hash, format_tag, head_prefix, list_order,
    manifest_stem, plan_restore, ExtrasCheck, HashCheck, RestorePlan, RestoreRefusal,
};

fn manifest(format: ArchiveFormat, bundle: Option<&str>, extras: Option<&str>, has_extras: bool) -> Manifest {
    Manifest {
        manifest_version: 3,
        format,
        original_path: "/w/a".to_string(),
        archived_at: "2026-04-05T12:00:00+00:00".to_string(),
        archived_by: "ward".to_string(),
        size_bytes: 1,
        bundle_sha256: bundle.map(|s| s.to_string()),
        extras_sha256: extras.map(|s| s.to_string()),
        head_sha: Some("0123456789abcdef".to_string()),
        refs: Vec::new(),
        remotes: Vec::new(),
        first_commit: None,
        last_commit: None,
        commit_count: 1,
        verified_at: None,
        verifier_version: None,
        has_extras,
        stash_count: 0,
        stash_shas: Vec::new(),
        tag_count: 0,
        has_hooks: false,
        has_config: false,
        has_config_worktree: false,
        submodule_count: 0,
    }
}

#[test]
fn stem_of_plain_and_suffixed_names() {
    assert_eq!(archive_stem("old-20260405"), "old-20260405");
    assert_eq!(archive_stem("old-20260405.tar.gz"), "old-20260405");
    // Each later suffix is taken off what the step before left, falling
    // back to the name itself when it is not there.
    assert_eq!(archive_stem("old-20260405.json"), "old-20260405.json");
    assert_eq!(archive_stem("old-20260405.bundle"), "old-20260405.bundle");
}

#[test]
fn paths_prefer_bundle() {
    let has = |p: &str| p == "/arch/x.bundle";
    let r = archive_paths("/arch", "x", &has);
    assert_eq!(r.primary, "/arch/x.bundle");
    assert_eq!(r.extras, "/arch/x.extras.tar.gz");
    assert_eq!(r.manifest, "/arch/x.json");
    let none = |_: &str| false;
    let t = archive_paths("/arch", "x", &none);
    assert_eq!(t.primary, "/arch/x.tar.gz");
}

#[test]
fn manifest_stems() {
    assert_eq!(manifest_stem("/arch/x-1.json"), Some("x-1".to_string()));
    assert_eq!(manifest_stem("/arch/x-1.bundle"), None);
    assert_eq!(manifest_stem("/arch/.json"), None);
}

#[test]
fn hash_checks() {
    assert_eq!(check_hash(&Some("ab".to_string()), "ab"), HashCheck::Match);
    assert_eq!(check_hash(&Some("ab".to_string()), "cd"), HashCheck::Mismatch);
    assert_eq!(check_hash(&None, "cd"), HashCheck::NotRecorded);
}

#[test]
fn extras_checks() {
    let m = manifest(ArchiveFormat::Bundle, Some("aa"), Some("ee"), true);
    assert_eq!(check_extras(&m, &Some("ee".to_string())), ExtrasCheck::Checked(HashCheck::Match));
    assert_eq!(check_extras(&m, &Some("ff".to_string())), ExtrasCheck::Checked(HashCheck::Mismatch));
    assert_eq!(check_extras(&m, &None), ExtrasCheck::Missing);
    let n = manifest(ArchiveFormat::Bundle, Some("aa"), None, false);
    assert_eq!(check_extras(&n, &Some("ee".to_string())), ExtrasCheck::NotExpected);
}

#[test]
fn restore_refuses_existing_target() {
    let m = manifest(ArchiveFormat::Bundle, Some("aa"), None, false);
    assert_eq!(plan_restore(&m, true, "aa", &None), Err(RestoreRefusal::TargetExists));
}

#[test]
fn restore_refuses_changed_archive() {
    let m = manifest(ArchiveFormat::Bundle, Some("aa"), None, false);
    assert_eq!(plan_restore(&m, false, "bb", &None), Err(RestoreRefusal::ArchiveHashMismatch));
}

#[test]
fn restore_refuses_changed_extras() {
    let m = manifest(ArchiveFormat::Bundle, Some("aa"), Some("ee"), true);
    assert_eq!(
        plan_restore(&m, false, "aa", &Some("ff".to_string())),
        Err(RestoreRefusal::ExtrasHashMismatch)
    );
}

#[test]
fn restore_plan_for_intact_archives() {
    let m = manifest(ArchiveFormat::Bundle, Some("aa"), Some("ee"), true);
    assert_eq!(
        plan_restore(&m, false, "aa", &Some("ee".to_string())),
        Ok(RestorePlan { format: ArchiveFormat::Bundle, extract_extras: true })
    );
    assert_eq!(
        plan_restore(&m, false, "aa", &None),
        Ok(RestorePlan { format: ArchiveFormat::Bundle, extract_extras: false })
    );
    let unrecorded = manifest(ArchiveFormat::Tarball, None, None, false);
    assert_eq!(
        plan_restore(&unrecorded, false, "anything", &None),
        Ok(RestorePlan { format: ArchiveFormat::Tarball, extract_extras: false })
    );
}

#[test]
fn list_helpers() {
    assert_eq!(format_tag(ArchiveFormat::Bundle), "bundle");
    assert_eq!(format_tag(ArchiveFormat::Tarball), "tar");
    assert_eq!(head_prefix(&Some("0123456789abcdef".to_string())), "0123456789");
    assert_eq!(head_prefix(&Some("abc".to_string())), "abc");
    assert_eq!(head_prefix(&None), "");
}

#[test]
fn list_is_ordered_by_archive_time() {
    let mut a = manifest(ArchiveFormat::Bundle, None, None, false);
    a.archived_at = "2026-04-05T12:00:00+00:00".to_string();
    let mut b = manifest(ArchiveFormat::Bundle, None, None, false);
    b.archived_at = "2025-01-01T00:00:00+00:00".to_string();
    let mut c = manifest(ArchiveFormat::Bundle, None, None, false);
    c.archived_at = "2026-04-05T12:00:00+00:00".to_string();
    let mut d = manifest(ArchiveFormat::Bundle, None, None, false);
    d.archived_at = "2026-04".to_string();
    assert_eq!(list_order(&vec![a, b, c, d]), vec![1, 3, 0, 2]);
}
