use chrono::Datelike;
use ward::bundle::{sha256_hex, verified_refs};
use ward::config::{canonicalise, expand_tilde, Config, ExcludeOpts, Exclusions};
use ward::dates::{date_or_unknown, date_text, parse_commit_date, parse_first_commit_date};
use ward::git::{
    count_distinct_lines, count_nonblank_lines, count_value, has_submodules, has_tracked_changes,
    submodule_count,
    has_worktree_config, normalise_remote_url, normalise_url, parse_ahead, parse_branches,
    parse_remote_urls, parse_stash_refs, parse_worktree_paths, repo_walk_step, stash_ref_name,
    untracked_ignored_counts, WalkStep,
};
use ward::paths::{file_name, join, path_starts_with};
use ward::text::decimal;

#[test]
fn ahead_counts() {
    assert_eq!(parse_ahead("[ahead 3, behind 2]"), 3);
    assert_eq!(parse_ahead("[behind 2]"), 0);
    assert_eq!(parse_ahead("[ahead 7]"), 7);
    assert_eq!(parse_ahead(""), 0);
}

#[test]
fn branch_lines() {
    let b = parse_branches("main|origin/main|\nfeature||\nfix|origin/fix|[ahead 2]\nbroken\n");
    assert_eq!(b.len(), 3);
    assert_eq!(b[0].name, "main");
    assert_eq!(b[0].upstream.as_deref(), Some("origin/main"));
    assert_eq!(b[1].upstream, None);
    assert_eq!(b[2].ahead, 2);
}

#[test]
fn remote_lines_are_deduplicated() {
    let r = parse_remote_urls(
        "origin\tgit@github.com:acme/x.git (fetch)\norigin\tgit@github.com:acme/x.git (push)\nup\thttps://h/y (fetch)\n",
    );
    assert_eq!(
        r,
        vec![
            ("origin".to_string(), "git@github.com:acme/x.git".to_string()),
            ("up".to_string(), "https://h/y".to_string()),
        ]
    );
}

#[test]
fn remote_urls_normalise_alike() {
    assert_eq!(normalise_remote_url("git@github.com:Acme/Repo.git"), "github.com/acme/repo");
    assert_eq!(normalise_remote_url("https://github.com/acme/repo"), "github.com/acme/repo");
    assert_eq!(normalise_remote_url("ssh://git@host/x.git"), "host/x");
    assert_eq!(normalise_remote_url("ssh://git@github.com/acme/repo.git"), "github.com/acme/repo");
    assert_eq!(normalise_remote_url("http://github.com/acme/repo.git"), "github.com/acme/repo");
    assert_eq!(normalise_url("ssh://git@host/x.git"), "ssh://git@host/x");
    assert_eq!(normalise_url(" http://Host/X.git "), "host/x");
}

#[test]
fn counts_from_output() {
    assert_eq!(count_value("42\n"), 42);
    assert_eq!(count_value("nope"), 0);
    assert_eq!(count_nonblank_lines("a\n\n  \nb\n"), 2);
    assert_eq!(submodule_count(false, Some(" abc lib (v1)\n")), 0);
    assert_eq!(submodule_count(false, None), 0);
    assert_eq!(submodule_count(true, Some(" abc lib (v1)\n+def vendor/x (v2)\n\n")), 2);
    assert_eq!(submodule_count(true, None), 0);
    assert_eq!(count_distinct_lines("x@a\ny@b\nx@a\n"), 2);
}

#[test]
fn status_porcelain() {
    let text = "?? new.txt\n!! target/\n!! .env\n M src/lib.rs\n";
    assert!(has_tracked_changes(text));
    assert!(!has_tracked_changes("?? a\n!! b\n"));
    assert_eq!(untracked_ignored_counts(text), (1, 2));
}

#[test]
fn worktree_and_stash_listings() {
    let w = parse_worktree_paths("worktree /w/a\nHEAD 123\n\nworktree /w/a-wt\nbranch refs/heads/x\n");
    assert_eq!(w, vec!["/w/a".to_string(), "/w/a-wt".to_string()]);
    let s = parse_stash_refs("refs/ward-stash/0 aaa\nrefs/ward-stash/1 bbb \nlonely\n");
    assert_eq!(
        s,
        vec![
            ("refs/ward-stash/0".to_string(), "aaa".to_string()),
            ("refs/ward-stash/1".to_string(), "bbb".to_string()),
        ]
    );
    assert_eq!(stash_ref_name(0), "refs/ward-stash/0");
    assert_eq!(stash_ref_name(12), "refs/ward-stash/12");
}

#[test]
fn repo_walk() {
    assert_eq!(repo_walk_step(".git", 1, true), WalkStep::Prune);
    assert_eq!(repo_walk_step(".cache", 2, true), WalkStep::Prune);
    assert_eq!(repo_walk_step("app", 1, true), WalkStep::Repo);
    assert_eq!(repo_walk_step("app", 1, false), WalkStep::Descend);
    assert_eq!(repo_walk_step(".root", 0, false), WalkStep::Descend);
}

#[test]
fn repo_markers() {
    let exists = |p: &str| p == "/w/a/.gitmodules";
    assert!(has_submodules("/w/a", &exists));
    assert!(!has_worktree_config("/w/a", &exists));
    let wt = |p: &str| p == "/w/a/.git/config.worktree";
    assert!(has_worktree_config("/w/a", &wt));
}

#[test]
fn decimal_text() {
    assert_eq!(decimal(0), "0");
    assert_eq!(decimal(907), "907");
    assert_eq!(decimal(u64::MAX), "18446744073709551615");
}

#[test]
fn commit_dates_round_trip() {
    let day = chrono::NaiveDate::from_ymd_opt(2025, 11, 3).unwrap().num_days_from_ce();
    assert_eq!(parse_commit_date("2025-11-03T23:20:30+01:00\n"), Some(day));
    assert_eq!(parse_commit_date("not a date"), None);
    assert_eq!(
        parse_first_commit_date("2025-11-03T10:00:00Z\n2026-01-01T00:00:00Z\n"),
        Some(day)
    );
    assert_eq!(parse_first_commit_date(""), None);
    assert_eq!(date_text(day), Some("2025-11-03".to_string()));
    assert_eq!(date_or_unknown(Some(day)), "2025-11-03");
    assert_eq!(date_or_unknown(None), "unknown");
}

#[test]
fn archive_digest_is_sha256_hex() {
    assert_eq!(
        sha256_hex(b"abc"),
        "ba7816bf8f01cfea414140de5dae2223b00361a396177a9cb410ff61f20015ad"
    );
    assert_eq!(sha256_hex(b"").len(), 64);
}

#[test]
fn verification_clone_refs() {
    let v = verified_refs("refs/heads/main 1111\nrefs/tags/v1 2222\nbroken\n", Some("1111\n"));
    assert_eq!(
        v.refs,
        vec![
            ("refs/heads/main".to_string(), "1111".to_string()),
            ("refs/tags/v1".to_string(), "2222".to_string()),
        ]
    );
    assert_eq!(v.head.as_deref(), Some("1111"));
    assert_eq!(verified_refs("", Some("  \n")).head, None);
    assert_eq!(verified_refs("", None).head, None);
}

#[test]
fn tilde_and_paths() {
    assert_eq!(expand_tilde("~/projects", "/home/me"), "/home/me/projects");
    assert_eq!(expand_tilde("~", "/home/me"), "/home/me");
    assert_eq!(expand_tilde("/abs/~", "/home/me"), "/abs/~");
    assert_eq!(Config::path("/home/me"), "/home/me/.ward/config.toml");
    assert_eq!(join("/a", "b"), "/a/b");
    assert_eq!(join("/a/", "b"), "/a/b");
    assert_eq!(join("/a", "/b"), "/b");
    assert_eq!(file_name("/a/b.json"), Some("b.json".to_string()));
    assert_eq!(file_name("."), None);
}

#[test]
fn canonical_exclude_paths() {
    let resolve = |p: &str| if p == "/home/me/x" { Some("/data/x".to_string()) } else { None };
    assert_eq!(canonicalise("~/x", "/home/me", &resolve), "/data/x");
    assert_eq!(canonicalise("~/y", "/home/me", &resolve), "/home/me/y");
}

#[test]
fn exclusions_match_whole_components() {
    assert!(path_starts_with("/a/b/c", "/a/b"));
    assert!(!path_starts_with("/a/bc", "/a/b"));
    let mut cfg = Config::default();
    cfg.exclude.paths.push("~/keep".to_string());
    let opts = ExcludeOpts { exclude: vec!["/tmp/x".to_string()], skip_active_sessions: false };
    let none = |_: &str| -> Option<String> { None };
    let e = Exclusions::build(&cfg, &opts, "/home/me", &none, vec!["/w/active".to_string()]);
    assert!(!e.is_empty());
    assert!(e.is_excluded("/home/me/keep/repo"));
    assert!(e.is_excluded("/tmp/x"));
    assert!(!e.is_excluded("/home/me/keeper"));
    assert!(!e.is_excluded("/w/active"));
}

#[test]
fn exclusions_hold_resolved_cli_paths_and_sessions() {
    let cfg = Config::default();
    let opts = ExcludeOpts {
        exclude: vec!["/tmp/link".to_string(), "~/y".to_string()],
        skip_active_sessions: true,
    };
    let resolve = |p: &str| -> Option<String> {
        if p == "/tmp/link" {
            Some("/real/x".to_string())
        } else {
            None
        }
    };
    let e = Exclusions::build(&cfg, &opts, "/home/me", &resolve, vec!["/w/active".to_string()]);
    assert!(e.is_excluded("/real/x/repo"));
    assert!(!e.is_excluded("/tmp/link/repo"));
    assert!(e.is_excluded("/home/me/y"));
    assert!(e.is_excluded("/w/active/sub"));
    assert!(!Exclusions::build(&cfg, &ExcludeOpts { exclude: vec![], skip_active_sessions: false }, "/h", &resolve, vec!["/w/active".to_string()]).is_excluded("/w/active"));
}
