use ward::assess::{Assessment, Verdict};
use ward::cache::{Cache, Entry};

fn assessment(path: &str, verdict: Verdict) -> Assessment {
    Assessment {
        path: path.to_string(),
        size: 7,
        last_commit: Some(10),
        first_commit: Some(5),
        head_sha: None,
        commit_count: 3,
        author_count: 1,
        origin_url: None,
        remotes: Vec::new(),
        branches: Vec::new(),
        tag_count: 0,
        stash_count: 0,
        untracked: 0,
        ignored: 0,
        dirty: false,
        worktree_count: 0,
        submodule_count: 0,
        verdict,
    }
}

#[test]
fn lookup_after_store_hits() {
    let mut c = Cache::new();
    c.store("/w/a", Some(100), assessment("/w/a", Verdict::Archive));
    let hit = c.lookup("/w/a", Some(100)).map(|a| a.verdict);
    assert_eq!(hit, Some(Verdict::Archive));
}

#[test]
fn changed_mtime_misses() {
    let mut c = Cache::new();
    c.store("/w/a", Some(100), assessment("/w/a", Verdict::Archive));
    assert!(c.lookup("/w/a", Some(101)).is_none());
    assert!(c.lookup("/w/a", None).is_none());
}

#[test]
fn store_without_mtime_is_ignored() {
    let mut c = Cache::new();
    c.store("/w/a", None, assessment("/w/a", Verdict::Archive));
    assert!(c.entries().is_empty());
}

#[test]
fn store_replaces_and_keeps_other_keys() {
    let mut c = Cache::new();
    c.store("/w/a", Some(1), assessment("/w/a", Verdict::Archive));
    c.store("/w/b", Some(2), assessment("/w/b", Verdict::KeepAsIs));
    c.store("/w/a", Some(3), assessment("/w/a", Verdict::Prototype));
    assert_eq!(c.entries().len(), 2);
    assert_eq!(c.lookup("/w/a", Some(3)).map(|a| a.verdict), Some(Verdict::Prototype));
    assert!(c.lookup("/w/a", Some(1)).is_none());
    assert_eq!(c.lookup("/w/b", Some(2)).map(|a| a.verdict), Some(Verdict::KeepAsIs));
}

#[test]
fn later_entry_wins_when_loading() {
    let c = Cache::from_entries(vec![
        Entry { key: "/w/a".to_string(), git_mtime_secs: 1, assessment: assessment("/w/a", Verdict::Archive) },
        Entry { key: "/w/a".to_string(), git_mtime_secs: 2, assessment: assessment("/w/a", Verdict::NoRemote) },
    ]);
    assert!(c.lookup("/w/a", Some(1)).is_none());
    assert_eq!(c.lookup("/w/a", Some(2)).map(|a| a.verdict), Some(Verdict::NoRemote));
}

#[test]
fn cache_lives_under_ward_home() {
    assert_eq!(Cache::path("/home/me"), "/home/me/.ward/cache.json");
}
