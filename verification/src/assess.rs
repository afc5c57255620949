//! The decision engine: what a repository's facts say about its lifecycle.
//!
//! | verdict      | when                                                          |
//! |--------------|---------------------------------------------------------------|
//! | `archive`    | remote, all refs pushed, no local work, last commit is old    |
//! | `prototype`  | short lifetime, few commits, few authors, remote or not       |
//! | `local-work` | uncommitted changes, stashes, local-only or unpushed branches |
//! | `keep`       | anything else with a remote                                   |
//! | `no-remote`  | no remote configured                                          |
use vstd::prelude::*;
use crate::config::Thresholds;
use crate::git::{branch_views, opt_view, pair_views, BranchStatus};
use crate::text::{spec_decimal, string_views};

verus! {

#[derive(PartialEq, Eq, Structural, Clone, Copy, Debug)]
pub enum Verdict {
    Archive,
    Prototype,
    Worktree,
    HasLocalWork,
    KeepAsIs,
    NoRemote,
}

impl Verdict {
    /// The label shown next to a repository.
    pub fn label(&self) -> (s: &'static str)
        ensures
            s@ == spec_label(*self),
    {
        match self {
            Verdict::Archive => "ARCHIVE",
            Verdict::Prototype => "PROTOTYPE",
            Verdict::Worktree => "WORKTREE",
            Verdict::HasLocalWork => "LOCAL-WORK",
            Verdict::KeepAsIs => "KEEP",
            Verdict::NoRemote => "NO-REMOTE",
        }
    }
}

pub open spec fn spec_label(v: Verdict) -> Seq<char> {
    match v {
        Verdict::Archive => "ARCHIVE"@,
        Verdict::Prototype => "PROTOTYPE"@,
        Verdict::Worktree => "WORKTREE"@,
        Verdict::HasLocalWork => "LOCAL-WORK"@,
        Verdict::KeepAsIs => "KEEP"@,
        Verdict::NoRemote => "NO-REMOTE"@,
    }
}

/// The key under which summaries count a verdict.
pub open spec fn spec_verdict_key(v: Verdict) -> Seq<char> {
    match v {
        Verdict::Archive => "archive"@,
        Verdict::Prototype => "prototype"@,
        Verdict::Worktree => "worktree"@,
        Verdict::HasLocalWork => "local-work"@,
        Verdict::KeepAsIs => "keep"@,
        Verdict::NoRemote => "no-remote"@,
    }
}

pub fn verdict_key(v: Verdict) -> (s: &'static str)
    ensures
        s@ == spec_verdict_key(v),
{
    match v {
        Verdict::Archive => "archive",
        Verdict::Prototype => "prototype",
        Verdict::Worktree => "worktree",
        Verdict::HasLocalWork => "local-work",
        Verdict::KeepAsIs => "keep",
        Verdict::NoRemote => "no-remote",
    }
}

/// What the classification looks at.
#[derive(Clone, Copy)]
pub struct RepoFacts {
    pub has_remote: bool,
    pub all_pushed: bool,
    pub has_local_only: bool,
    pub has_ahead: bool,
    pub dirty: bool,
    pub has_stash: bool,
    pub commit_count: u64,
    pub author_count: u64,
    /// Days from the first commit to the last.
    pub lifetime_days: Option<i64>,
    /// Days from the last commit to today.
    pub age_days: Option<i64>,
}

/// Few commits (and, where asked, at least one), few authors, short lifetime.
pub open spec fn is_prototype(f: RepoFacts, t: Thresholds, need_commit: bool) -> bool {
    &&& (!need_commit || f.commit_count > 0)
    &&& f.commit_count < t.prototype_max_commits
    &&& f.author_count <= t.prototype_max_authors
    &&& f.lifetime_days matches Some(d) && d < t.prototype_max_lifetime_days
}

/// The last commit is older than the staleness limit.
pub open spec fn is_stale(f: RepoFacts, t: Thresholds) -> bool {
    f.age_days matches Some(d) && d > t.archive_stale_days
}

/// The verdict, rule by rule in order of precedence: local work first, then
/// the lack of a remote, then unpushed work, then prototypes, then staleness.
pub open spec fn spec_classify(f: RepoFacts, t: Thresholds) -> Verdict {
    if f.dirty || f.has_stash {
        Verdict::HasLocalWork
    } else if !f.has_remote {
        if is_prototype(f, t, true) {
            Verdict::Prototype
        } else {
            Verdict::NoRemote
        }
    } else if f.has_ahead || f.has_local_only {
        Verdict::HasLocalWork
    } else if f.all_pushed {
        if is_prototype(f, t, false) {
            Verdict::Prototype
        } else if is_stale(f, t) {
            Verdict::Archive
        } else {
            Verdict::KeepAsIs
        }
    } else {
        Verdict::HasLocalWork
    }
}

pub fn classify(f: &RepoFacts, t: &Thresholds) -> (v: Verdict)
    ensures
        v == spec_classify(*f, *t),
{
    let lifetime_ok = match f.lifetime_days {
        Some(d) => d < t.prototype_max_lifetime_days,
        None => false,
    };
    let proto_common = f.commit_count < t.prototype_max_commits && f.author_count
        <= t.prototype_max_authors && lifetime_ok;
    if f.dirty || f.has_stash {
        return Verdict::HasLocalWork;
    }
    if !f.has_remote {
        if f.commit_count > 0 && proto_common {
            return Verdict::Prototype;
        }
        return Verdict::NoRemote;
    }
    if f.has_ahead || f.has_local_only {
        return Verdict::HasLocalWork;
    }
    if f.all_pushed {
        let old = match f.age_days {
            Some(d) => d > t.archive_stale_days,
            None => false,
        };
        if proto_common {
            return Verdict::Prototype;
        }
        if old {
            return Verdict::Archive;
        }
        return Verdict::KeepAsIs;
    }
    Verdict::HasLocalWork
}

// ---------------------------------------------------------------------------
// Laws of the classification
// ---------------------------------------------------------------------------

/// A repository with uncommitted changes or stashes is always `local-work`:
/// ward never proposes to archive or drop local work.
pub proof fn law_local_work_is_kept(f: RepoFacts, t: Thresholds)
    requires
        f.dirty || f.has_stash,
    ensures
        spec_classify(f, t) == Verdict::HasLocalWork,
{
}

/// `archive` only for a repository with a remote, every branch pushed, nothing
/// ahead, no local-only branch, a clean tree, no stash, and a last commit older
/// than the staleness limit.
pub proof fn law_archive_needs_pushed_and_stale(f: RepoFacts, t: Thresholds)
    requires
        spec_classify(f, t) == Verdict::Archive,
    ensures
        f.has_remote,
        f.all_pushed,
        !f.has_ahead,
        !f.has_local_only,
        !f.dirty,
        !f.has_stash,
        is_stale(f, t),
{
}

/// Without a remote the verdict is `prototype`, `no-remote` or `local-work`;
/// `no-remote` is given to repositories without a remote only.
pub proof fn law_no_remote(f: RepoFacts, t: Thresholds)
    ensures
        !f.has_remote ==> (spec_classify(f, t) == Verdict::Prototype || spec_classify(f, t)
            == Verdict::NoRemote || spec_classify(f, t) == Verdict::HasLocalWork),
        spec_classify(f, t) == Verdict::NoRemote ==> !f.has_remote,
{
}

/// A `prototype` has fewer commits than the limit, no more authors than the
/// limit, and a lifetime under the limit; without a remote it has a commit.
pub proof fn law_prototype_bounds(f: RepoFacts, t: Thresholds)
    requires
        spec_classify(f, t) == Verdict::Prototype,
    ensures
        f.commit_count < t.prototype_max_commits,
        f.author_count <= t.prototype_max_authors,
        f.lifetime_days matches Some(d) && d < t.prototype_max_lifetime_days,
        !f.has_remote ==> f.commit_count > 0,
        !f.dirty && !f.has_stash,
{
}

/// The classification never answers `worktree`; that verdict belongs to the
/// duplicate-clone planner.
pub proof fn law_classify_never_worktree(f: RepoFacts, t: Thresholds)
    ensures
        spec_classify(f, t) != Verdict::Worktree,
{
}

/// A repository with a branch ahead of its upstream, or a branch without one,
/// is never archived.
pub proof fn law_unpushed_is_not_archived(f: RepoFacts, t: Thresholds)
    requires
        f.has_ahead || f.has_local_only || !f.all_pushed,
    ensures
        spec_classify(f, t) != Verdict::Archive,
{
}

/// A clean repository with a remote, every branch pushed, nothing ahead and
/// no local-only branch, that has fewer commits than the prototype limit, no
/// more authors than that limit and a lifetime under that limit, is a
/// `prototype`, however long ago its last commit was.
pub proof fn law_pushed_small_repo_is_prototype(f: RepoFacts, t: Thresholds)
    requires
        f.has_remote,
        f.all_pushed,
        !f.has_ahead,
        !f.has_local_only,
        !f.dirty,
        !f.has_stash,
        f.commit_count < t.prototype_max_commits,
        f.author_count <= t.prototype_max_authors,
        f.lifetime_days matches Some(d) && d < t.prototype_max_lifetime_days,
    ensures
        spec_classify(f, t) == Verdict::Prototype,
{
}

/// A clean repository without a remote that has at least one commit, fewer
/// commits than the prototype limit, no more authors than that limit and a
/// lifetime under that limit is a `prototype`; any other clean repository
/// without a remote is `no-remote`.
pub proof fn law_remoteless_verdict(f: RepoFacts, t: Thresholds)
    requires
        !f.has_remote,
        !f.dirty,
        !f.has_stash,
    ensures
        (f.commit_count > 0 && f.commit_count < t.prototype_max_commits && f.author_count
            <= t.prototype_max_authors && (f.lifetime_days matches Some(d) && d
            < t.prototype_max_lifetime_days)) ==> spec_classify(f, t) == Verdict::Prototype,
        !(f.commit_count > 0 && f.commit_count < t.prototype_max_commits && f.author_count
            <= t.prototype_max_authors && (f.lifetime_days matches Some(d) && d
            < t.prototype_max_lifetime_days)) ==> spec_classify(f, t) == Verdict::NoRemote,
{
}

/// A clean repository with a remote and every branch pushed that is not a
/// prototype by the limits is `archive` when its last commit is older than
/// the staleness limit and `keep` otherwise (also when its age is unknown).
pub proof fn law_pushed_repo_archive_or_keep(f: RepoFacts, t: Thresholds)
    requires
        f.has_remote,
        f.all_pushed,
        !f.has_ahead,
        !f.has_local_only,
        !f.dirty,
        !f.has_stash,
        !(f.commit_count < t.prototype_max_commits && f.author_count <= t.prototype_max_authors && (
        f.lifetime_days matches Some(d) && d < t.prototype_max_lifetime_days)),
    ensures
        (f.age_days matches Some(a) && a > t.archive_stale_days) ==> spec_classify(f, t)
            == Verdict::Archive,
        !(f.age_days matches Some(a) && a > t.archive_stale_days) ==> spec_classify(f, t)
            == Verdict::KeepAsIs,
{
}

/// A repository with a remote and a branch that is ahead, without an
/// upstream, or not pushed is `local-work`.
pub proof fn law_unpushed_remote_repo_is_local_work(f: RepoFacts, t: Thresholds)
    requires
        f.has_remote,
        f.has_ahead || f.has_local_only || !f.all_pushed,
    ensures
        spec_classify(f, t) == Verdict::HasLocalWork,
{
}

// ---------------------------------------------------------------------------
// Assessment
// ---------------------------------------------------------------------------

/// What the caller gathered about one repository by running git in it.
pub struct RepoProbe {
    pub path: String,
    pub size: u64,
    /// Day number (days from 0001-01-01, counting that day as 1) of the last commit.
    pub last_commit: Option<i32>,
    /// Day number of the first commit.
    pub first_commit: Option<i32>,
    pub head_sha: Option<String>,
    pub commit_count: u64,
    pub author_count: u64,
    pub origin_url: Option<String>,
    pub remotes: Vec<(String, String)>,
    pub branches: Vec<BranchStatus>,
    pub tag_count: u64,
    pub stash_count: u64,
    /// (untracked, ignored) counts, `None` when `git status` could not run.
    pub status_counts: Option<(u64, u64)>,
    /// Whether tracked files changed, `None` when `git status` could not run.
    pub tracked_changes: Option<bool>,
    pub worktrees: Vec<String>,
    pub submodule_count: u64,
}

/// The assessment of one repository.
pub struct Assessment {
    pub path: String,
    pub size: u64,
    pub last_commit: Option<i32>,
    pub first_commit: Option<i32>,
    pub head_sha: Option<String>,
    pub commit_count: u64,
    pub author_count: u64,
    pub origin_url: Option<String>,
    pub remotes: Vec<(String, String)>,
    pub branches: Vec<BranchStatus>,
    pub tag_count: u64,
    pub stash_count: u64,
    pub untracked: u64,
    pub ignored: u64,
    pub dirty: bool,
    pub worktree_count: u64,
    pub submodule_count: u64,
    pub verdict: Verdict,
}

pub open spec fn all_pushed(bs: Seq<BranchStatus>) -> bool {
    forall|i: int| 0 <= i < bs.len() ==> (#[trigger] bs[i]).upstream is Some && bs[i].ahead == 0
}

pub open spec fn any_local_only(bs: Seq<BranchStatus>) -> bool {
    exists|i: int| 0 <= i < bs.len() && (#[trigger] bs[i]).upstream is None
}

pub open spec fn any_ahead(bs: Seq<BranchStatus>) -> bool {
    exists|i: int| 0 <= i < bs.len() && (#[trigger] bs[i]).ahead > 0
}

/// The facts that the classification reads off a probe, `today` being a day number.
pub open spec fn spec_facts(p: RepoProbe, today: i32) -> RepoFacts {
    RepoFacts {
        has_remote: p.origin_url is Some,
        all_pushed: all_pushed(p.branches@),
        has_local_only: any_local_only(p.branches@),
        has_ahead: any_ahead(p.branches@),
        dirty: match p.tracked_changes {
            Some(b) => b,
            None => true,
        },
        has_stash: p.stash_count > 0,
        commit_count: p.commit_count,
        author_count: p.author_count,
        lifetime_days: match (p.first_commit, p.last_commit) {
            (Some(f), Some(l)) => Some((l - f) as i64),
            _ => None,
        },
        age_days: match p.last_commit {
            Some(l) => Some((today - l) as i64),
            None => None,
        },
    }
}

/// Works out the facts of a probe (see `spec_facts`).
pub fn repo_facts(p: &RepoProbe, today: i32) -> (f: RepoFacts)
    ensures
        f == spec_facts(*p, today),
{
    let mut pushed = true;
    let mut local_only = false;
    let mut ahead = false;
    let mut k: usize = 0;
    while k < p.branches.len()
        invariant
            k <= p.branches.len(),
            pushed == all_pushed(p.branches@.take(k as int)),
            local_only == any_local_only(p.branches@.take(k as int)),
            ahead == any_ahead(p.branches@.take(k as int)),
        decreases p.branches.len() - k,
    {
        let b = &p.branches[k];
        let ghost pre = p.branches@.take(k as int);
        let ghost post = p.branches@.take(k + 1);
        assert(post =~= pre.push(*b));
        if !(b.upstream.is_some() && b.ahead == 0) {
            pushed = false;
            assert(!((post[k as int]).upstream is Some && post[k as int].ahead == 0));
        } else {
            assert(all_pushed(pre) ==> all_pushed(post)) by {
                if all_pushed(pre) {
                    assert forall|i: int| 0 <= i < post.len() implies (#[trigger] post[i]).upstream is Some
                        && post[i].ahead == 0 by {
                        if i < k {
                            assert(post[i] == pre[i]);
                        }
                    }
                }
            }
        }
        if b.upstream.is_none() {
            local_only = true;
            assert(post[k as int].upstream is None);
        }
        if b.ahead > 0 {
            ahead = true;
            assert(post[k as int].ahead > 0);
        }
        proof {
            if any_local_only(post) && b.upstream.is_some() {
                let i = choose|i: int| 0 <= i < post.len() && (#[trigger] post[i]).upstream is None;
                assert(i < k);
                assert(pre[i] == post[i]);
            }
            if any_ahead(post) && b.ahead == 0 {
                let i = choose|i: int| 0 <= i < post.len() && (#[trigger] post[i]).ahead > 0;
                assert(i < k);
                assert(pre[i] == post[i]);
            }
            if any_local_only(pre) {
                let i = choose|i: int| 0 <= i < pre.len() && (#[trigger] pre[i]).upstream is None;
                assert(post[i] == pre[i]);
            }
            if any_ahead(pre) {
                let i = choose|i: int| 0 <= i < pre.len() && (#[trigger] pre[i]).ahead > 0;
                assert(post[i] == pre[i]);
            }
            if !all_pushed(pre) {
                let i = choose|i: int|
                    0 <= i < pre.len() && !((#[trigger] pre[i]).upstream is Some && pre[i].ahead == 0);
                assert(post[i] == pre[i]);
            }
        }
        k = k + 1;
    }
    assert(p.branches@.take(k as int) =~= p.branches@);
    let dirty = match p.tracked_changes {
        Some(b) => b,
        None => true,
    };
    let lifetime_days: Option<i64> = match (p.first_commit, p.last_commit) {
        (Some(f), Some(l)) => Some(l as i64 - f as i64),
        _ => None,
    };
    let age_days: Option<i64> = match p.last_commit {
        Some(l) => Some(today as i64 - l as i64),
        None => None,
    };
    RepoFacts {
        has_remote: p.origin_url.is_some(),
        all_pushed: pushed,
        has_local_only: local_only,
        has_ahead: ahead,
        dirty,
        has_stash: p.stash_count > 0,
        commit_count: p.commit_count,
        author_count: p.author_count,
        lifetime_days,
        age_days,
    }
}

/// Assesses a repository from what was gathered about it: every count and
/// value is kept, a failed `git status` counts as uncommitted changes and as
/// no untracked files, the main worktree is not counted among the worktrees,
/// and the verdict is `spec_classify` of the repository's facts.
pub fn assess_repo(p: RepoProbe, today: i32, thresholds: &Thresholds) -> (a: Assessment)
    ensures
        a.verdict == spec_classify(spec_facts(p, today), *thresholds),
        a.path@ == p.path@,
        a.size == p.size,
        a.last_commit == p.last_commit,
        a.first_commit == p.first_commit,
        opt_view(a.head_sha) == opt_view(p.head_sha),
        a.commit_count == p.commit_count,
        a.author_count == p.author_count,
        opt_view(a.origin_url) == opt_view(p.origin_url),
        pair_views(a.remotes@) == pair_views(p.remotes@),
        branch_views(a.branches@) == branch_views(p.branches@),
        a.branches@ == p.branches@,
        a.tag_count == p.tag_count,
        a.stash_count == p.stash_count,
        (a.untracked, a.ignored) == (match p.status_counts {
            Some(c) => c,
            None => (0u64, 0u64),
        }),
        a.dirty == (match p.tracked_changes {
            Some(b) => b,
            None => true,
        }),
        a.worktree_count == (if p.worktrees@.len() > 0 {
            p.worktrees@.len() - 1
        } else {
            0
        }),
        a.submodule_count == p.submodule_count,
{
    let facts = repo_facts(&p, today);
    let verdict = classify(&facts, thresholds);
    let (untracked, ignored) = match p.status_counts {
        Some(c) => c,
        None => (0u64, 0u64),
    };
    let worktree_count: u64 = if p.worktrees.len() > 0 {
        (p.worktrees.len() - 1) as u64
    } else {
        0
    };
    Assessment {
        path: p.path,
        size: p.size,
        last_commit: p.last_commit,
        first_commit: p.first_commit,
        head_sha: p.head_sha,
        commit_count: p.commit_count,
        author_count: p.author_count,
        origin_url: p.origin_url,
        remotes: p.remotes,
        branches: p.branches,
        tag_count: p.tag_count,
        stash_count: p.stash_count,
        untracked,
        ignored,
        dirty: facts.dirty,
        worktree_count,
        submodule_count: p.submodule_count,
        verdict,
    }
}

/// The first ten characters of the HEAD sha, or `unknown`.
pub open spec fn spec_short_sha(sha: Option<Seq<char>>) -> Seq<char> {
    match sha {
        Some(s) => s.take(if s.len() < 10 { s.len() as int } else { 10 }),
        None => "unknown"@,
    }
}

pub fn short_sha(sha: &Option<String>) -> (r: String)
    ensures
        r@ == spec_short_sha(opt_view(*sha)),
{
    match sha {
        Some(s) => {
            let cs = crate::text::chars_of(s.as_str());
            let n = if cs.len() < 10 {
                cs.len()
            } else {
                10
            };
            let t = crate::text::slice(&cs, 0, n);
            crate::text::string_of(t.as_slice())
        },
        None => crate::text::string_of(crate::text::chars_of("unknown").as_slice()),
    }
}

/// The evidence shown before a repository is archived.
pub struct SafetyProof {
    /// The origin URL, or `none`.
    pub remote: String,
    /// The first ten characters of HEAD, or `unknown`.
    pub head: String,
    pub commits: u64,
    pub authors: u64,
    pub branch_count: u64,
    /// The branches without an upstream.
    pub local_only: Vec<String>,
    /// The branches ahead of their upstream, as `name (+n ahead)`.
    pub ahead: Vec<String>,
    pub uncommitted: bool,
    pub stashes: u64,
    pub tags: u64,
    pub untracked: u64,
    pub ignored: u64,
    pub worktrees: u64,
    pub submodules: u64,
    pub size: u64,
}

pub open spec fn local_only_names(bs: Seq<BranchStatus>) -> Seq<Seq<char>> {
    bs.filter(|b: BranchStatus| b.upstream is None).map_values(|b: BranchStatus| b.name@)
}

pub open spec fn ahead_line(b: BranchStatus) -> Seq<char> {
    b.name@ + " (+"@ + spec_decimal(b.ahead as nat) + " ahead)"@
}

pub open spec fn ahead_lines(bs: Seq<BranchStatus>) -> Seq<Seq<char>> {
    bs.filter(|b: BranchStatus| b.ahead > 0).map_values(|b: BranchStatus| ahead_line(b))
}

/// Some branch named `n` has no upstream.
pub open spec fn has_branch_without_upstream(bs: Seq<BranchStatus>, n: Seq<char>) -> bool {
    exists|i: int| 0 <= i < bs.len() && (#[trigger] bs[i]).upstream is None && bs[i].name@ == n
}

/// Some branch is ahead of its upstream and `line` is its name followed by
/// ` (+n ahead)`.
pub open spec fn is_line_of_branch_ahead(bs: Seq<BranchStatus>, line: Seq<char>) -> bool {
    exists|i: int|
        0 <= i < bs.len() && (#[trigger] bs[i]).ahead > 0 && line == bs[i].name@ + " (+"@
            + spec_decimal(bs[i].ahead as nat) + " ahead)"@
}

/// The safety proof's local-only list holds the branches without an
/// upstream: each listed name is that of a branch whose upstream is `None`,
/// every branch without an upstream is listed, and when every branch has an
/// upstream the list is empty.
pub proof fn law_local_only_lists_branches_without_upstream(bs: Seq<BranchStatus>)
    ensures
        forall|k: int|
            0 <= k < local_only_names(bs).len() ==> has_branch_without_upstream(
                bs,
                #[trigger] local_only_names(bs)[k],
            ),
        forall|i: int|
            0 <= i < bs.len() && (#[trigger] bs[i]).upstream is None ==> local_only_names(
                bs,
            ).contains(bs[i].name@),
        local_only_names(bs).len() <= bs.len(),
        (forall|i: int| 0 <= i < bs.len() ==> (#[trigger] bs[i]).upstream is Some) ==> local_only_names(
            bs,
        ).len() == 0,
{
    let no_up = |b: BranchStatus| b.upstream is None;
    let f = bs.filter(no_up);
    assert forall|k: int| 0 <= k < local_only_names(bs).len() implies has_branch_without_upstream(
        bs,
        #[trigger] local_only_names(bs)[k],
    ) by {
        bs.lemma_filter_pred(no_up, k);
        bs.lemma_filter_contains_rev(no_up, f[k]);
        let i = choose|i: int| 0 <= i < bs.len() && bs[i] == f[k];
        assert(bs[i].upstream is None && bs[i].name@ == local_only_names(bs)[k]);
    }
    assert forall|i: int| 0 <= i < bs.len() && (#[trigger] bs[i]).upstream is None implies local_only_names(
        bs,
    ).contains(bs[i].name@) by {
        bs.lemma_filter_contains(no_up, i);
        let k = choose|k: int| 0 <= k < f.len() && f[k] == bs[i];
        assert(local_only_names(bs)[k] == bs[i].name@);
    }
    bs.lemma_filter_len(no_up);
    if forall|i: int| 0 <= i < bs.len() ==> (#[trigger] bs[i]).upstream is Some {
        if f.len() > 0 {
            bs.lemma_filter_pred(no_up, 0);
            bs.lemma_filter_contains_rev(no_up, f[0]);
            let i = choose|i: int| 0 <= i < bs.len() && bs[i] == f[0];
            assert(bs[i].upstream is Some);
        }
    }
}

/// The safety proof's ahead list holds the branches ahead of their upstream,
/// each as its name followed by ` (+n ahead)`: every line is that of a
/// branch ahead, and every branch ahead has its line.
pub proof fn law_ahead_lists_branches_ahead(bs: Seq<BranchStatus>)
    ensures
        forall|k: int|
            0 <= k < ahead_lines(bs).len() ==> is_line_of_branch_ahead(bs, #[trigger] ahead_lines(bs)[k]),
        forall|i: int|
            0 <= i < bs.len() && (#[trigger] bs[i]).ahead > 0 ==> ahead_lines(bs).contains(
                bs[i].name@ + " (+"@ + spec_decimal(bs[i].ahead as nat) + " ahead)"@,
            ),
{
    let is_ahead = |b: BranchStatus| b.ahead > 0;
    let f = bs.filter(is_ahead);
    assert forall|k: int| 0 <= k < ahead_lines(bs).len() implies is_line_of_branch_ahead(
        bs,
        #[trigger] ahead_lines(bs)[k],
    ) by {
        bs.lemma_filter_pred(is_ahead, k);
        bs.lemma_filter_contains_rev(is_ahead, f[k]);
        let i = choose|i: int| 0 <= i < bs.len() && bs[i] == f[k];
        assert(bs[i].ahead > 0 && ahead_lines(bs)[k] == ahead_line(bs[i]));
    }
    assert forall|i: int| 0 <= i < bs.len() && (#[trigger] bs[i]).ahead > 0 implies ahead_lines(
        bs,
    ).contains(bs[i].name@ + " (+"@ + spec_decimal(bs[i].ahead as nat) + " ahead)"@) by {
        bs.lemma_filter_contains(is_ahead, i);
        let k = choose|k: int| 0 <= k < f.len() && f[k] == bs[i];
        assert(ahead_lines(bs)[k] == ahead_line(bs[i]));
    }
}

/// The safety proof of an assessment.
pub fn safety_proof(a: &Assessment) -> (p: SafetyProof)
    ensures
        p.remote@ == (match a.origin_url {
            Some(u) => u@,
            None => "none"@,
        }),
        p.head@ == spec_short_sha(opt_view(a.head_sha)),
        p.commits == a.commit_count,
        p.authors == a.author_count,
        p.branch_count == a.branches.len(),
        string_views(p.local_only@) == local_only_names(a.branches@),
        string_views(p.ahead@) == ahead_lines(a.branches@),
        p.uncommitted == a.dirty,
        p.stashes == a.stash_count,
        p.tags == a.tag_count,
        p.untracked == a.untracked,
        p.ignored == a.ignored,
        p.worktrees == a.worktree_count,
        p.submodules == a.submodule_count,
        p.size == a.size,
{
    let remote = match &a.origin_url {
        Some(u) => u.clone(),
        None => crate::text::string_of(crate::text::chars_of("none").as_slice()),
    };
    let ghost bs = a.branches@;
    let ghost no_up = |b: BranchStatus| b.upstream is None;
    let ghost is_ahead = |b: BranchStatus| b.ahead > 0;
    let mut local_only: Vec<String> = Vec::new();
    let mut ahead: Vec<String> = Vec::new();
    let mut k: usize = 0;
    while k < a.branches.len()
        invariant
            k <= a.branches.len(),
            bs == a.branches@,
            no_up == (|b: BranchStatus| b.upstream is None),
            is_ahead == (|b: BranchStatus| b.ahead > 0),
            string_views(local_only@) == bs.take(k as int).filter(no_up).map_values(
                |b: BranchStatus| b.name@,
            ),
            string_views(ahead@) == bs.take(k as int).filter(is_ahead).map_values(
                |b: BranchStatus| ahead_line(b),
            ),
        decreases a.branches.len() - k,
    {
        let b = &a.branches[k];
        proof {
            assert(bs.take(k + 1) =~= bs.take(k as int).push(*b));
            bs.take(k as int).lemma_filter_push(*b, no_up);
            bs.take(k as int).lemma_filter_push(*b, is_ahead);
        }
        let ghost lo = local_only@;
        let ghost ah = ahead@;
        if b.upstream.is_none() {
            local_only.push(b.name.clone());
            assert(string_views(local_only@) =~= string_views(lo).push(b.name@));
        }
        if b.ahead > 0 {
            let t1 = crate::text::concat(b.name.as_str(), " (+");
            let t2 = crate::text::concat(t1.as_str(), crate::text::decimal(b.ahead).as_str());
            let t3 = crate::text::concat(t2.as_str(), " ahead)");
            ahead.push(t3);
            assert(string_views(ahead@) =~= string_views(ah).push(ahead_line(*b)));
        }
        k = k + 1;
        assert(string_views(local_only@) =~= bs.take(k as int).filter(no_up).map_values(
            |b: BranchStatus| b.name@,
        ));
        assert(string_views(ahead@) =~= bs.take(k as int).filter(is_ahead).map_values(
            |b: BranchStatus| ahead_line(b),
        ));
    }
    assert(bs.take(k as int) =~= bs);
    SafetyProof {
        remote,
        head: short_sha(&a.head_sha),
        commits: a.commit_count,
        authors: a.author_count,
        branch_count: a.branches.len() as u64,
        local_only,
        ahead,
        uncommitted: a.dirty,
        stashes: a.stash_count,
        tags: a.tag_count,
        untracked: a.untracked,
        ignored: a.ignored,
        worktrees: a.worktree_count,
        submodules: a.submodule_count,
        size: a.size,
    }
}

} // verus!
