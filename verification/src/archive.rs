//! Archiving: which assessed repositories go and in what order, the checks a
//! verification clone must pass before the source may be removed, the names
//! of the archive files, and the manifest that records an archive.
use vstd::prelude::*;
use crate::assess::{spec_classify, Assessment, RepoFacts, Verdict};
use crate::config::Thresholds;
use crate::bundle::VerifiedRefs;
use crate::dates::{date_text, iso_date};
use crate::git::{opt_view, pair_views};
use crate::manifest::{
    ref_entry_views, remote_entry_views, ArchiveFormat, Manifest, RefEntry, RemoteEntry,
    MANIFEST_VERSION,
};
use crate::order::{
    before, is_stable_order, lemma_all_indices_present, lemma_filter_keeps_order, opt_day_key, opt_day_key_exec,
    stable_order,
};
use crate::paths::{file_name, join, spec_file_name, spec_join};
use crate::text::{chars_eq, chars_of, concat, string_of};

verus! {

// ---------------------------------------------------------------------------
// Candidates
// ---------------------------------------------------------------------------

/// Archive takes `archive` verdicts, and prototypes or repositories without
/// a remote only when asked to.
pub open spec fn spec_is_eligible(v: Verdict, include_prototypes: bool, include_no_remote: bool) -> bool {
    match v {
        Verdict::Archive => true,
        Verdict::Prototype => include_prototypes,
        Verdict::NoRemote => include_no_remote,
        _ => false,
    }
}

pub fn is_eligible(v: Verdict, include_prototypes: bool, include_no_remote: bool) -> (b: bool)
    ensures
        b == spec_is_eligible(v, include_prototypes, include_no_remote),
{
    match v {
        Verdict::Archive => true,
        Verdict::Prototype => include_prototypes,
        Verdict::NoRemote => include_no_remote,
        _ => false,
    }
}

/// Archive never takes a repository with uncommitted changes or stashes,
/// whichever verdicts it is asked to include: such a repository is always
/// `local-work`.
pub proof fn law_local_work_never_archived(
    f: RepoFacts,
    t: Thresholds,
    include_prototypes: bool,
    include_no_remote: bool,
)
    requires
        f.dirty || f.has_stash,
    ensures
        !spec_is_eligible(spec_classify(f, t), include_prototypes, include_no_remote),
{
}

/// Sort keys by last commit date; an unknown date sorts first.
pub open spec fn last_commit_keys(s: Seq<Assessment>) -> Seq<u128> {
    s.map_values(|a: Assessment| opt_day_key(a.last_commit))
}

/// The positions in `ord` whose assessment archive takes.
pub open spec fn eligible_in(s: Seq<Assessment>, ord: Seq<usize>, include_prototypes: bool, include_no_remote: bool) -> Seq<
    usize,
> {
    ord.filter(|i: usize| spec_is_eligible(s[i as int].verdict, include_prototypes, include_no_remote))
}

/// The assessments that archive takes, as positions in `assessments`, oldest
/// last commit first (unknown dates first, equal dates in input order).
pub fn archive_candidates(
    assessments: &Vec<Assessment>,
    include_prototypes: bool,
    include_no_remote: bool,
) -> (c: Vec<usize>)
    ensures
        exists|ord: Seq<usize>|
            #[trigger] is_stable_order(last_commit_keys(assessments@), ord, false) && c@ == eligible_in(
                assessments@,
                ord,
                include_prototypes,
                include_no_remote,
            ),
{
    let mut keys: Vec<u128> = Vec::new();
    let mut k: usize = 0;
    while k < assessments.len()
        invariant
            k <= assessments.len(),
            keys@ == last_commit_keys(assessments@.take(k as int)),
        decreases assessments.len() - k,
    {
        keys.push(opt_day_key_exec(assessments[k].last_commit));
        k = k + 1;
        assert(keys@ =~= last_commit_keys(assessments@.take(k as int)));
    }
    assert(assessments@.take(k as int) =~= assessments@);
    let ord = stable_order(&keys, false);
    let ghost pred = |i: usize|
        spec_is_eligible(assessments@[i as int].verdict, include_prototypes, include_no_remote);
    let mut c: Vec<usize> = Vec::new();
    let mut j: usize = 0;
    while j < ord.len()
        invariant
            j <= ord.len(),
            ord.len() == assessments.len(),
            forall|i: int| 0 <= i < ord.len() ==> (#[trigger] ord@[i]) < assessments.len(),
            pred == (|i: usize|
                spec_is_eligible(assessments@[i as int].verdict, include_prototypes, include_no_remote)),
            c@ == ord@.take(j as int).filter(pred),
        decreases ord.len() - j,
    {
        let i = ord[j];
        proof {
            assert(ord@.take(j + 1) =~= ord@.take(j as int).push(i));
            ord@.take(j as int).lemma_filter_push(i, pred);
        }
        if is_eligible(assessments[i].verdict, include_prototypes, include_no_remote) {
            c.push(i);
        }
        j = j + 1;
    }
    assert(ord@.take(j as int) =~= ord@);
    assert(is_stable_order(last_commit_keys(assessments@), ord@, false));
    c
}

/// The total size of the assessments at the given positions.
pub open spec fn size_at(s: Seq<Assessment>, idx: Seq<usize>) -> int
    decreases idx.len(),
{
    if idx.len() == 0 {
        0
    } else {
        size_at(s, idx.drop_last()) + s[idx.last() as int].size
    }
}

/// The bytes that archiving the repositories at `idx` frees (a `u128` sum,
/// so it cannot overflow).
pub fn total_size_at(assessments: &Vec<Assessment>, idx: &Vec<usize>) -> (t: u128)
    requires
        forall|i: int| 0 <= i < idx.len() ==> (#[trigger] idx@[i]) < assessments.len(),
    ensures
        t == size_at(assessments@, idx@),
{
    let mut t: u128 = 0;
    let mut k: usize = 0;
    while k < idx.len()
        invariant
            k <= idx.len(),
            forall|i: int| 0 <= i < idx.len() ==> (#[trigger] idx@[i]) < assessments.len(),
            t == size_at(assessments@, idx@.take(k as int)),
            t <= k * 0x1_0000_0000_0000_0000,
        decreases idx.len() - k,
    {
        assert(idx@.take(k + 1).drop_last() =~= idx@.take(k as int));
        t = t + assessments[idx[k]].size as u128;
        k = k + 1;
    }
    assert(idx@.take(k as int) =~= idx@);
    t
}

/// The archive candidates are exactly the assessments archive takes, each
/// once, oldest last commit first.
pub proof fn law_candidates_oldest_first(
    s: Seq<Assessment>,
    ord: Seq<usize>,
    include_prototypes: bool,
    include_no_remote: bool,
)
    requires
        s.len() <= usize::MAX,
        is_stable_order(last_commit_keys(s), ord, false),
    ensures
        forall|k: int|
            0 <= k < eligible_in(s, ord, include_prototypes, include_no_remote).len() ==> spec_is_eligible(
                s[#[trigger] eligible_in(s, ord, include_prototypes, include_no_remote)[k] as int].verdict,
                include_prototypes,
                include_no_remote,
            ),
        forall|i: int, j: int|
            0 <= i < j < eligible_in(s, ord, include_prototypes, include_no_remote).len() ==> opt_day_key(
                s[#[trigger] eligible_in(s, ord, include_prototypes, include_no_remote)[i] as int].last_commit,
            ) <= opt_day_key(
                s[#[trigger] eligible_in(s, ord, include_prototypes, include_no_remote)[j] as int].last_commit,
            ),
        forall|x: usize|
            x < s.len() && spec_is_eligible(s[x as int].verdict, include_prototypes, include_no_remote)
                ==> #[trigger] eligible_in(s, ord, include_prototypes, include_no_remote).contains(x),
{
    broadcast use vstd::seq_lib::group_filter_ensures;

    let pred = |i: usize| spec_is_eligible(s[i as int].verdict, include_prototypes, include_no_remote);
    let c = eligible_in(s, ord, include_prototypes, include_no_remote);
    let keys = last_commit_keys(s);
    lemma_filter_keeps_order(keys, ord, false, pred);
    assert forall|i: int, j: int| 0 <= i < j < c.len() implies opt_day_key(
        s[#[trigger] c[i] as int].last_commit,
    ) <= opt_day_key(s[#[trigger] c[j] as int].last_commit) by {
        assert(before(keys[c[i] as int], keys[c[j] as int], false));
        assert(c.contains(c[i]) && c.contains(c[j]));
        ord.lemma_filter_contains_rev(pred, c[i]);
        ord.lemma_filter_contains_rev(pred, c[j]);
    }
    assert forall|x: usize|
        x < s.len() && spec_is_eligible(s[x as int].verdict, include_prototypes, include_no_remote) implies #[trigger] c.contains(
        x,
    ) by {
        lemma_all_indices_present(keys, ord, false, x);
        let q = choose|q: int| 0 <= q < ord.len() && ord[q] == x;
        ord.lemma_filter_contains(pred, q);
    }
}

// ---------------------------------------------------------------------------
// Verification by clone
// ---------------------------------------------------------------------------

/// Why a verification clone does not match the repository it was made from.
#[derive(Debug)]
pub enum RefCheckError {
    /// The source's HEAD is known and the clone has none, or another one.
    HeadMismatch,
    /// The clone holds no refs at all.
    NoRefs,
    /// The clone lacks this local branch of the source.
    MissingBranch(String),
}

/// The full ref name of a local branch.
pub open spec fn heads_ref(name: Seq<char>) -> Seq<char> {
    "refs/heads/"@ + name
}

pub open spec fn has_ref(refs: Seq<(Seq<char>, Seq<char>)>, name: Seq<char>) -> bool {
    exists|j: int| 0 <= j < refs.len() && (#[trigger] refs[j]).0 == name
}

/// The source's HEAD is known and the clone does not have that HEAD.
pub open spec fn head_mismatch(a: Assessment, v: VerifiedRefs) -> bool {
    match a.head_sha {
        Some(h) => !(v.head matches Some(vh) && vh@ == h@),
        None => false,
    }
}

/// The `i`th branch of the source is not among the clone's refs.
pub open spec fn branch_missing(a: Assessment, v: VerifiedRefs, i: int) -> bool {
    !has_ref(pair_views(v.refs@), heads_ref(a.branches@[i].name@))
}

/// The verification clone `v` matches the assessed source `a`: where the
/// source's HEAD is known the clone has the same HEAD, the clone holds refs,
/// and it holds every local branch of the source.
pub open spec fn refs_match(a: Assessment, v: VerifiedRefs) -> bool {
    &&& !head_mismatch(a, v)
    &&& v.refs.len() > 0
    &&& forall|i: int| 0 <= i < a.branches.len() ==> !#[trigger] branch_missing(a, v, i)
}

/// Compares a verification clone with the assessed source: where the source's
/// HEAD is known the clone has the same one, the clone holds refs, and every local branch of the
/// source is among them. The first failing check, in that order, is the
/// error; for branches, the first missing one.
pub fn compare_refs(a: &Assessment, verified: &VerifiedRefs) -> (r: Result<(), RefCheckError>)
    ensures
        match r {
            Ok(()) => refs_match(*a, *verified),
            Err(RefCheckError::HeadMismatch) => head_mismatch(*a, *verified),
            Err(RefCheckError::NoRefs) => !head_mismatch(*a, *verified) && verified.refs.len() == 0,
            Err(RefCheckError::MissingBranch(n)) => !head_mismatch(*a, *verified) && verified.refs.len()
                > 0 && exists|i: int|
                0 <= i < a.branches.len() && #[trigger] branch_missing(*a, *verified, i) && n@
                    == a.branches@[i].name@ && forall|j: int|
                    0 <= j < i ==> !branch_missing(*a, *verified, j),
        },
{
    if let Some(head) = &a.head_sha {
        match &verified.head {
            Some(vhead) => {
                if !chars_eq(&chars_of(head.as_str()), &chars_of(vhead.as_str())) {
                    return Err(RefCheckError::HeadMismatch);
                }
            },
            None => {
                return Err(RefCheckError::HeadMismatch);
            },
        }
    }
    if verified.refs.len() == 0 {
        return Err(RefCheckError::NoRefs);
    }
    let ghost refs = pair_views(verified.refs@);
    let prefix = chars_of("refs/heads/");
    proof {
        reveal_strlit("refs/heads/");
    }
    let mut i: usize = 0;
    while i < a.branches.len()
        invariant
            i <= a.branches.len(),
            verified.refs.len() > 0,
            !head_mismatch(*a, *verified),
            refs == pair_views(verified.refs@),
            prefix@ == "refs/heads/"@,
            forall|j: int| 0 <= j < i ==> !#[trigger] branch_missing(*a, *verified, j),
        decreases a.branches.len() - i,
    {
        let want = concat(string_of(prefix.as_slice()).as_str(), a.branches[i].name.as_str());
        let want_c = chars_of(want.as_str());
        let mut found = false;
        let mut j: usize = 0;
        while j < verified.refs.len()
            invariant
                j <= verified.refs.len(),
                i < a.branches.len(),
                verified.refs.len() > 0,
                !head_mismatch(*a, *verified),
                forall|q: int| 0 <= q < i ==> !#[trigger] branch_missing(*a, *verified, q),
                refs == pair_views(verified.refs@),
                want_c@ == heads_ref(a.branches@[i as int].name@),
                found == exists|q: int| 0 <= q < j && (#[trigger] refs[q]).0 == want_c@,
            decreases verified.refs.len() - j,
        {
            assert(refs[j as int].0 == verified.refs@[j as int].0@);
            if chars_eq(&chars_of(verified.refs[j].0.as_str()), &want_c) {
                found = true;
            }
            j = j + 1;
        }
        if !found {
            assert(branch_missing(*a, *verified, i as int));
            return Err(RefCheckError::MissingBranch(a.branches[i].name.clone()));
        }
        i = i + 1;
    }
    Ok(())
}

// ---------------------------------------------------------------------------
// File names
// ---------------------------------------------------------------------------

/// The name an archive is filed under: the repository directory's name, or
/// `repo` when the path has none.
pub open spec fn spec_repo_name(path: Seq<char>) -> Seq<char> {
    match spec_file_name(path) {
        Some(n) => n,
        None => "repo"@,
    }
}

pub fn repo_name(path: &str) -> (r: String)
    ensures
        r@ == spec_repo_name(path@),
{
    match file_name(path) {
        Some(n) => n,
        None => string_of(chars_of("repo").as_slice()),
    }
}

/// The three files of an archive.
pub struct ArchiveFiles {
    pub stem: String,
    pub bundle: String,
    pub extras: String,
    pub manifest: String,
}

/// The files of the archive with stem `stem` in `dir`: `<stem>.bundle`,
/// `<stem>.extras.tar.gz` and `<stem>.json`.
pub open spec fn files_ok(dir: Seq<char>, stem: Seq<char>, f: ArchiveFiles) -> bool {
    &&& f.stem@ == stem
    &&& f.bundle@ == spec_join(dir, stem + ".bundle"@)
    &&& f.extras@ == spec_join(dir, stem + ".extras.tar.gz"@)
    &&& f.manifest@ == spec_join(dir, stem + ".json"@)
}

pub fn files_for_stem(dir: &str, stem: &str) -> (f: ArchiveFiles)
    ensures
        files_ok(dir@, stem@, f),
{
    let b = concat(stem, ".bundle");
    let e = concat(stem, ".extras.tar.gz");
    let m = concat(stem, ".json");
    ArchiveFiles {
        stem: string_of(chars_of(stem).as_slice()),
        bundle: join(dir, b.as_str()),
        extras: join(dir, e.as_str()),
        manifest: join(dir, m.as_str()),
    }
}

/// The files for archiving the repository at `path` at time `stamp`
/// (`%Y%m%d%H%M%S`): the stem is `<repo name>-<stamp>`.
pub fn archive_files(dir: &str, path: &str, stamp: &str) -> (f: ArchiveFiles)
    ensures
        files_ok(dir@, spec_repo_name(path@) + seq!['-'] + stamp@, f),
{
    let name = repo_name(path);
    let dashed = concat(name.as_str(), "-");
    proof {
        reveal_strlit("-");
        assert("-"@ =~= seq!['-']);
    }
    let stem = concat(dashed.as_str(), stamp);
    files_for_stem(dir, stem.as_str())
}

// ---------------------------------------------------------------------------
// Manifest
// ---------------------------------------------------------------------------

/// What archiving a repository produced, besides its assessment and the
/// verification clone's refs.
pub struct ArchiveRecord {
    pub archived_at: String,
    pub verified_at: String,
    pub verifier_version: String,
    pub bundle_sha256: String,
    pub extras_sha256: Option<String>,
    pub stash_shas: Vec<String>,
    pub has_hooks: bool,
    pub has_config: bool,
    pub has_config_worktree: bool,
}

/// A day number as manifest text.
pub open spec fn date_field(d: Option<i32>) -> Option<Seq<char>> {
    match d {
        Some(x) => iso_date(x),
        None => None,
    }
}

fn date_field_exec(d: Option<i32>) -> (r: Option<String>)
    ensures
        opt_view(r) == date_field(d),
{
    match d {
        Some(x) => date_text(x),
        None => None,
    }
}

fn clone_strings(v: &Vec<String>) -> (r: Vec<String>)
    ensures
        r@ == v@,
{
    let mut r: Vec<String> = Vec::new();
    let mut k: usize = 0;
    while k < v.len()
        invariant
            k <= v.len(),
            r@ == v@.take(k as int),
        decreases v.len() - k,
    {
        r.push(v[k].clone());
        k = k + 1;
        assert(r@ =~= v@.take(k as int));
    }
    assert(v@.take(k as int) =~= v@);
    r
}

fn opt_clone(o: &Option<String>) -> (r: Option<String>)
    ensures
        r == *o,
{
    match o {
        Some(s) => Some(s.clone()),
        None => None,
    }
}

/// The manifest of a bundle archive of the assessed repository `a`, whose
/// verification clone holds `verified`.
pub fn build_manifest(a: &Assessment, verified: &VerifiedRefs, rec: ArchiveRecord) -> (m: Manifest)
    ensures
        m.manifest_version == MANIFEST_VERSION,
        m.format == ArchiveFormat::Bundle,
        m.original_path@ == a.path@,
        m.archived_at@ == rec.archived_at@,
        m.archived_by@ == rec.verifier_version@,
        m.size_bytes == a.size,
        opt_view(m.bundle_sha256) == Some(rec.bundle_sha256@),
        opt_view(m.extras_sha256) == opt_view(rec.extras_sha256),
        m.has_extras == rec.extras_sha256 is Some,
        opt_view(m.head_sha) == opt_view(a.head_sha),
        ref_entry_views(m.refs@) == pair_views(verified.refs@),
        remote_entry_views(m.remotes@) == pair_views(a.remotes@),
        opt_view(m.first_commit) == date_field(a.first_commit),
        opt_view(m.last_commit) == date_field(a.last_commit),
        m.commit_count == a.commit_count,
        opt_view(m.verified_at) == Some(rec.verified_at@),
        opt_view(m.verifier_version) == Some(rec.verifier_version@),
        m.stash_count == a.stash_count,
        m.stash_shas@ == rec.stash_shas@,
        m.tag_count == a.tag_count,
        m.has_hooks == rec.has_hooks,
        m.has_config == rec.has_config,
        m.has_config_worktree == rec.has_config_worktree,
        m.submodule_count == a.submodule_count,
{
    let mut refs: Vec<RefEntry> = Vec::new();
    let mut k: usize = 0;
    while k < verified.refs.len()
        invariant
            k <= verified.refs.len(),
            ref_entry_views(refs@) == pair_views(verified.refs@.take(k as int)),
        decreases verified.refs.len() - k,
    {
        let e = RefEntry { name: verified.refs[k].0.clone(), sha: verified.refs[k].1.clone() };
        let ghost before = refs@;
        refs.push(e);
        proof {
            assert(ref_entry_views(refs@) =~= ref_entry_views(before).push((e.name@, e.sha@)));
            assert(verified.refs@.take(k + 1) =~= verified.refs@.take(k as int).push(verified.refs@[k as int]));
            assert(pair_views(verified.refs@.take(k + 1)) =~= pair_views(verified.refs@.take(k as int)).push(
                (verified.refs@[k as int].0@, verified.refs@[k as int].1@),
            ));
        }
        k = k + 1;
    }
    assert(verified.refs@.take(k as int) =~= verified.refs@);
    let mut remotes: Vec<RemoteEntry> = Vec::new();
    let mut k: usize = 0;
    while k < a.remotes.len()
        invariant
            k <= a.remotes.len(),
            remote_entry_views(remotes@) == pair_views(a.remotes@.take(k as int)),
        decreases a.remotes.len() - k,
    {
        let e = RemoteEntry { name: a.remotes[k].0.clone(), url: a.remotes[k].1.clone() };
        let ghost before = remotes@;
        remotes.push(e);
        proof {
            assert(remote_entry_views(remotes@) =~= remote_entry_views(before).push((e.name@, e.url@)));
            assert(a.remotes@.take(k + 1) =~= a.remotes@.take(k as int).push(a.remotes@[k as int]));
            assert(pair_views(a.remotes@.take(k + 1)) =~= pair_views(a.remotes@.take(k as int)).push(
                (a.remotes@[k as int].0@, a.remotes@[k as int].1@),
            ));
        }
        k = k + 1;
    }
    assert(a.remotes@.take(k as int) =~= a.remotes@);
    let has_extras = rec.extras_sha256.is_some();
    let verifier = rec.verifier_version.clone();
    Manifest {
        manifest_version: MANIFEST_VERSION,
        format: ArchiveFormat::Bundle,
        original_path: a.path.clone(),
        archived_at: rec.archived_at,
        archived_by: verifier,
        size_bytes: a.size,
        bundle_sha256: Some(rec.bundle_sha256),
        extras_sha256: rec.extras_sha256,
        head_sha: opt_clone(&a.head_sha),
        refs,
        remotes,
        first_commit: date_field_exec(a.first_commit),
        last_commit: date_field_exec(a.last_commit),
        commit_count: a.commit_count,
        verified_at: Some(rec.verified_at),
        verifier_version: Some(rec.verifier_version),
        has_extras,
        stash_count: a.stash_count,
        stash_shas: clone_strings(&rec.stash_shas),
        tag_count: a.tag_count,
        has_hooks: rec.has_hooks,
        has_config: rec.has_config,
        has_config_worktree: rec.has_config_worktree,
        submodule_count: a.submodule_count,
    }
}

// ---------------------------------------------------------------------------
// Outcome of a run
// ---------------------------------------------------------------------------

/// How a run of archive went: how many repositories were archived and how
/// many failed, and the bytes freed by the archived ones.
pub struct ArchiveTally {
    pub archived: u64,
    pub failed: u64,
    pub freed: u128,
}

pub open spec fn count_ok(ok: Seq<bool>) -> nat
    decreases ok.len(),
{
    if ok.len() == 0 {
        0
    } else {
        count_ok(ok.drop_last()) + if ok.last() {
            1nat
        } else {
            0nat
        }
    }
}

pub open spec fn freed_by(sizes: Seq<u64>, ok: Seq<bool>) -> int
    decreases ok.len(),
{
    if ok.len() == 0 || sizes.len() < ok.len() {
        0
    } else {
        freed_by(sizes, ok.drop_last()) + if ok.last() {
            sizes[ok.len() - 1] as int
        } else {
            0
        }
    }
}

/// Tallies the outcomes of archiving repositories of the given sizes
/// (`ok[i]` tells whether the `i`th succeeded).
pub fn tally(sizes: &Vec<u64>, ok: &Vec<bool>) -> (t: ArchiveTally)
    requires
        sizes.len() == ok.len(),
    ensures
        t.archived == count_ok(ok@),
        t.failed == ok.len() - count_ok(ok@),
        t.freed == freed_by(sizes@, ok@),
{
    let mut archived: u64 = 0;
    let mut freed: u128 = 0;
    let mut k: usize = 0;
    while k < ok.len()
        invariant
            k <= ok.len(),
            sizes.len() == ok.len(),
            archived == count_ok(ok@.take(k as int)),
            archived <= k,
            freed == freed_by(sizes@, ok@.take(k as int)),
            freed <= k * 0x1_0000_0000_0000_0000,
        decreases ok.len() - k,
    {
        assert(ok@.take(k + 1).drop_last() =~= ok@.take(k as int));
        if ok[k] {
            archived = archived + 1;
            freed = freed + sizes[k] as u128;
        }
        k = k + 1;
    }
    assert(ok@.take(k as int) =~= ok@);
    ArchiveTally { archived, failed: (ok.len() as u64) - archived, freed }
}

// ---------------------------------------------------------------------------
// The archiving of one repository
// ---------------------------------------------------------------------------

/// Where the archiving of one repository stands.
#[derive(PartialEq, Eq, Structural, Clone, Copy, Debug)]
pub enum ArchiveState {
    /// Waiting for the stash refs to be created.
    AwaitStashRefs,
    /// Waiting for `git bundle create`.
    AwaitBundle,
    /// Waiting for `git bundle verify`.
    AwaitBundleCheck,
    /// Waiting for the bundle's digest and the extras tar.
    AwaitExtras,
    /// Waiting for the verification clone.
    AwaitClone,
    /// Waiting for the manifest to be written.
    AwaitManifest,
    /// Waiting for the source directory to be removed.
    AwaitRemoval,
    /// Nothing more to do.
    Finished,
}

/// Why the archiving of a repository stopped; in every case the source is
/// left in place.
#[derive(Debug)]
pub enum ArchiveFailure {
    StashRefsFailed,
    BundleFailed,
    BundleInvalid,
    ExtrasFailed,
    CloneFailed,
    /// The verification clone does not match the source.
    RefMismatch(RefCheckError),
    ManifestFailed,
    RemoveFailed,
    /// An outcome arrived that the archiving was not waiting for.
    Unexpected,
}

/// What to do next.
pub enum ArchiveAction {
    /// Point `refs/ward-stash/<i>` at each stash.
    CreateStashRefs,
    /// Run `git bundle create <bundle> --all` (then drop the stash refs).
    CreateBundle,
    /// Run `git bundle verify <bundle>`.
    VerifyBundle,
    /// Hash the bundle and write, check and hash the extras tar.
    CaptureExtras,
    /// Clone the bundle into a temporary directory and list its refs.
    VerifyByClone,
    /// Write the manifest.
    WriteManifest,
    /// Remove the source directory.
    RemoveSource,
    /// The repository is archived.
    Done,
    /// Stop, leaving the source in place.
    Fail(ArchiveFailure),
}

/// What came of the last action.
pub enum ArchiveEvent {
    StashRefs(bool),
    Bundled(bool),
    BundleVerified(bool),
    ExtrasCaptured(bool),
    /// The refs of the verification clone, `None` when the clone failed.
    Cloned(Option<VerifiedRefs>),
    ManifestWritten(bool),
    SourceRemoved(bool),
}

/// The step of archiving `a` from `state` on `event` gives `r`: each action
/// is taken only when the one before succeeded, the verification clone must
/// match the source (`refs_match`), and the source is removed only after
/// the manifest was written.
pub open spec fn archive_step_ok(
    state: ArchiveState,
    a: Assessment,
    event: ArchiveEvent,
    r: (ArchiveState, ArchiveAction),
) -> bool {
    match (state, event) {
        (ArchiveState::AwaitStashRefs, ArchiveEvent::StashRefs(ok)) => if ok {
            r.0 == ArchiveState::AwaitBundle && r.1 is CreateBundle
        } else {
            r.0 == ArchiveState::Finished && (r.1 matches ArchiveAction::Fail(ArchiveFailure::StashRefsFailed))
        },
        (ArchiveState::AwaitBundle, ArchiveEvent::Bundled(ok)) => if ok {
            r.0 == ArchiveState::AwaitBundleCheck && r.1 is VerifyBundle
        } else {
            r.0 == ArchiveState::Finished && (r.1 matches ArchiveAction::Fail(ArchiveFailure::BundleFailed))
        },
        (ArchiveState::AwaitBundleCheck, ArchiveEvent::BundleVerified(ok)) => if ok {
            r.0 == ArchiveState::AwaitExtras && r.1 is CaptureExtras
        } else {
            r.0 == ArchiveState::Finished && (r.1 matches ArchiveAction::Fail(ArchiveFailure::BundleInvalid))
        },
        (ArchiveState::AwaitExtras, ArchiveEvent::ExtrasCaptured(ok)) => if ok {
            r.0 == ArchiveState::AwaitClone && r.1 is VerifyByClone
        } else {
            r.0 == ArchiveState::Finished && (r.1 matches ArchiveAction::Fail(ArchiveFailure::ExtrasFailed))
        },
        (ArchiveState::AwaitClone, ArchiveEvent::Cloned(None)) => r.0 == ArchiveState::Finished && (
        r.1 matches ArchiveAction::Fail(ArchiveFailure::CloneFailed)),
        (ArchiveState::AwaitClone, ArchiveEvent::Cloned(Some(v))) => if refs_match(a, v) {
            r.0 == ArchiveState::AwaitManifest && r.1 is WriteManifest
        } else {
            r.0 == ArchiveState::Finished && (r.1 matches ArchiveAction::Fail(ArchiveFailure::RefMismatch(_)))
        },
        (ArchiveState::AwaitManifest, ArchiveEvent::ManifestWritten(ok)) => if ok {
            r.0 == ArchiveState::AwaitRemoval && r.1 is RemoveSource
        } else {
            r.0 == ArchiveState::Finished && (r.1 matches ArchiveAction::Fail(ArchiveFailure::ManifestFailed))
        },
        (ArchiveState::AwaitRemoval, ArchiveEvent::SourceRemoved(ok)) => r.0 == ArchiveState::Finished && if ok {
            r.1 is Done
        } else {
            r.1 matches ArchiveAction::Fail(ArchiveFailure::RemoveFailed)
        },
        _ => r.0 == ArchiveState::Finished && (r.1 matches ArchiveAction::Fail(ArchiveFailure::Unexpected)),
    }
}

/// The first step of archiving a repository.
pub fn archive_start() -> (r: (ArchiveState, ArchiveAction))
    ensures
        r.0 == ArchiveState::AwaitStashRefs,
        r.1 is CreateStashRefs,
{
    (ArchiveState::AwaitStashRefs, ArchiveAction::CreateStashRefs)
}

/// The next state and action of archiving `a` (see `archive_step_ok`).
pub fn archive_step(state: ArchiveState, a: &Assessment, event: ArchiveEvent) -> (r: (ArchiveState, ArchiveAction))
    ensures
        archive_step_ok(state, *a, event, r),
{
    match (state, event) {
        (ArchiveState::AwaitStashRefs, ArchiveEvent::StashRefs(ok)) => if ok {
            (ArchiveState::AwaitBundle, ArchiveAction::CreateBundle)
        } else {
            (ArchiveState::Finished, ArchiveAction::Fail(ArchiveFailure::StashRefsFailed))
        },
        (ArchiveState::AwaitBundle, ArchiveEvent::Bundled(ok)) => if ok {
            (ArchiveState::AwaitBundleCheck, ArchiveAction::VerifyBundle)
        } else {
            (ArchiveState::Finished, ArchiveAction::Fail(ArchiveFailure::BundleFailed))
        },
        (ArchiveState::AwaitBundleCheck, ArchiveEvent::BundleVerified(ok)) => if ok {
            (ArchiveState::AwaitExtras, ArchiveAction::CaptureExtras)
        } else {
            (ArchiveState::Finished, ArchiveAction::Fail(ArchiveFailure::BundleInvalid))
        },
        (ArchiveState::AwaitExtras, ArchiveEvent::ExtrasCaptured(ok)) => if ok {
            (ArchiveState::AwaitClone, ArchiveAction::VerifyByClone)
        } else {
            (ArchiveState::Finished, ArchiveAction::Fail(ArchiveFailure::ExtrasFailed))
        },
        (ArchiveState::AwaitClone, ArchiveEvent::Cloned(None)) => (
            ArchiveState::Finished,
            ArchiveAction::Fail(ArchiveFailure::CloneFailed),
        ),
        (ArchiveState::AwaitClone, ArchiveEvent::Cloned(Some(v))) => match compare_refs(a, &v) {
            Ok(()) => (ArchiveState::AwaitManifest, ArchiveAction::WriteManifest),
            Err(e) => (ArchiveState::Finished, ArchiveAction::Fail(ArchiveFailure::RefMismatch(e))),
        },
        (ArchiveState::AwaitManifest, ArchiveEvent::ManifestWritten(ok)) => if ok {
            (ArchiveState::AwaitRemoval, ArchiveAction::RemoveSource)
        } else {
            (ArchiveState::Finished, ArchiveAction::Fail(ArchiveFailure::ManifestFailed))
        },
        (ArchiveState::AwaitRemoval, ArchiveEvent::SourceRemoved(ok)) => if ok {
            (ArchiveState::Finished, ArchiveAction::Done)
        } else {
            (ArchiveState::Finished, ArchiveAction::Fail(ArchiveFailure::RemoveFailed))
        },
        _ => (ArchiveState::Finished, ArchiveAction::Fail(ArchiveFailure::Unexpected)),
    }
}

/// `states`, `events` and `actions` are a run of the archiving of `a`: it
/// starts as `archive_start` says, and each state and action follow from the
/// state before and the event that came.
pub open spec fn is_archive_run(
    a: Assessment,
    states: Seq<ArchiveState>,
    events: Seq<ArchiveEvent>,
    actions: Seq<ArchiveAction>,
) -> bool {
    &&& states.len() == events.len() + 1
    &&& actions.len() == states.len()
    &&& states[0] == ArchiveState::AwaitStashRefs
    &&& actions[0] is CreateStashRefs
    &&& forall|i: int| 0 <= i < events.len() ==> #[trigger] run_step(a, states, events, actions, i)
}

/// The `i`th step of a run: from `states[i]` on `events[i]` to
/// `states[i + 1]` and `actions[i + 1]`.
pub open spec fn run_step(
    a: Assessment,
    states: Seq<ArchiveState>,
    events: Seq<ArchiveEvent>,
    actions: Seq<ArchiveAction>,
    i: int,
) -> bool {
    archive_step_ok(states[i], a, events[i], (states[i + 1], actions[i + 1]))
}

/// The event at `j` is a verification clone that matches the source.
pub open spec fn clone_matched(a: Assessment, events: Seq<ArchiveEvent>, j: int) -> bool {
    events[j] matches ArchiveEvent::Cloned(Some(v)) && refs_match(a, v)
}

proof fn lemma_run_evidence(
    a: Assessment,
    states: Seq<ArchiveState>,
    events: Seq<ArchiveEvent>,
    actions: Seq<ArchiveAction>,
    k: int,
)
    requires
        is_archive_run(a, states, events, actions),
        0 <= k < states.len(),
    ensures
        (states[k] == ArchiveState::AwaitExtras || states[k] == ArchiveState::AwaitClone || states[k]
            == ArchiveState::AwaitManifest || states[k] == ArchiveState::AwaitRemoval) ==> exists|i: int|
            0 <= i < k && #[trigger] events[i] == ArchiveEvent::BundleVerified(true),
        (states[k] == ArchiveState::AwaitManifest || states[k] == ArchiveState::AwaitRemoval) ==> exists|
            j: int,
        |
            0 <= j < k && #[trigger] clone_matched(a, events, j) && exists|i: int|
                0 <= i < j && #[trigger] events[i] == ArchiveEvent::BundleVerified(true),
        states[k] == ArchiveState::AwaitRemoval ==> events[k - 1] == ArchiveEvent::ManifestWritten(true),
    decreases k,
{
    if k > 0 {
        lemma_run_evidence(a, states, events, actions, k - 1);
        assert(run_step(a, states, events, actions, k - 1));
        if states[k] == ArchiveState::AwaitManifest {
            assert(clone_matched(a, events, k - 1));
        }
    }
}

/// The source of an archive is removed only after its bundle passed
/// `git bundle verify`, then a verification clone of the bundle matched the
/// source, then the manifest was written: in any run of the archiving, an
/// action that removes the source has all three before it, in that order.
pub proof fn law_proof_before_delete(
    a: Assessment,
    states: Seq<ArchiveState>,
    events: Seq<ArchiveEvent>,
    actions: Seq<ArchiveAction>,
    k: int,
)
    requires
        is_archive_run(a, states, events, actions),
        0 <= k < actions.len(),
        actions[k] is RemoveSource,
    ensures
        exists|i: int, j: int|
            #![trigger events[i], clone_matched(a, events, j)]
            0 <= i < j < k && events[i] == ArchiveEvent::BundleVerified(true) && clone_matched(a, events, j),
        events[k - 1] == ArchiveEvent::ManifestWritten(true),
{
    assert(k > 0);
    assert(run_step(a, states, events, actions, k - 1));
    lemma_run_evidence(a, states, events, actions, k);
    let j = choose|j: int|
        0 <= j < k && #[trigger] clone_matched(a, events, j) && exists|i: int|
            0 <= i < j && #[trigger] events[i] == ArchiveEvent::BundleVerified(true);
    let i = choose|i: int| 0 <= i < j && #[trigger] events[i] == ArchiveEvent::BundleVerified(true);
    assert(0 <= i < j < k && events[i] == ArchiveEvent::BundleVerified(true) && clone_matched(a, events, j));
}

} // verus!
