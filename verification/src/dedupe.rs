//! Duplicate clones: clustering clones of one repository and planning what to
//! do with every clone but the one to keep.
//!
//! Clones belong together when their normalised remote URL and their root
//! commit agree (their fingerprint). In a cluster the clone with the most
//! recent commit is kept; each other clone is converted to a worktree of it
//! when it has local-only branches, removed when it holds no local work, and
//! skipped when it has uncommitted changes or stashes.
use vstd::prelude::*;
use crate::clean::permute;
use crate::git::{opt_view, spec_trimmed_value, trimmed_value};
use crate::order::{is_stable_order, opt_day_key, opt_day_key_exec, stable_order};
use crate::text::{chars_eq, chars_of, slice, string_of, views};

verus! {

/// What ward knows of one clone.
pub struct CloneInfo {
    pub path: String,
    pub size: u64,
    /// Day number of the last commit.
    pub last_commit: Option<i32>,
    pub root_sha: Option<String>,
    pub has_local_only: bool,
    pub has_stash: bool,
    pub dirty: bool,
}

#[derive(PartialEq, Eq, Structural, Clone, Copy, Debug)]
pub enum Action {
    Worktree,
    Remove,
    Skip,
}

pub open spec fn spec_decide_action(c: CloneInfo) -> Action {
    if c.dirty || c.has_stash {
        Action::Skip
    } else if c.has_local_only {
        Action::Worktree
    } else {
        Action::Remove
    }
}

/// Uncommitted work or stashes: skip; local-only branches: worktree; else remove.
pub fn decide_action(c: &CloneInfo) -> (a: Action)
    ensures
        a == spec_decide_action(*c),
{
    if c.dirty || c.has_stash {
        return Action::Skip;
    }
    if c.has_local_only {
        return Action::Worktree;
    }
    Action::Remove
}

/// `key#<first 12 characters of the root commit>`, or `key` alone when the
/// root commit is unknown.
pub open spec fn spec_fingerprint(key: Seq<char>, root_sha: Option<Seq<char>>) -> Seq<char> {
    match root_sha {
        Some(sha) => key + seq!['#'] + sha.take(if sha.len() < 12 { sha.len() as int } else { 12 }),
        None => key,
    }
}

pub fn fingerprint(key: &str, root_sha: &Option<String>) -> (f: String)
    ensures
        f@ == spec_fingerprint(key@, opt_view(*root_sha)),
{
    match root_sha {
        Some(sha) => {
            let s = chars_of(sha.as_str());
            let n = if s.len() < 12 {
                s.len()
            } else {
                12
            };
            let mut out = chars_of(key);
            out.push('#');
            let ghost start = out@;
            let mut j: usize = 0;
            while j < n
                invariant
                    j <= n <= s.len(),
                    out@ == start + s@.take(j as int),
                decreases n - j,
            {
                out.push(s[j]);
                j = j + 1;
                assert(out@ =~= start + s@.take(j as int));
            }
            string_of(out.as_slice())
        },
        None => string_of(chars_of(key).as_slice()),
    }
}

/// A clone with its fingerprint and the remote URL it was found with.
pub struct DupEntry {
    pub fingerprint: String,
    pub url: String,
    pub info: CloneInfo,
}

/// A cluster of duplicate clones: `clones[0]` is kept, `actions[j]` is what
/// happens to `clones[j + 1]`.
pub struct Cluster {
    pub url: String,
    pub clones: Vec<CloneInfo>,
    pub actions: Vec<Action>,
    pub total: u128,
    pub reclaimable: u128,
}

// ---------------------------------------------------------------------------
// Spec of the grouping
// ---------------------------------------------------------------------------

pub open spec fn fp_keys(entries: Seq<DupEntry>) -> Seq<Seq<char>> {
    entries.map_values(|e: DupEntry| e.fingerprint@)
}

/// The keys in the order in which they first occur.
pub open spec fn distinct_keys(keys: Seq<Seq<char>>) -> Seq<Seq<char>>
    decreases keys.len(),
{
    if keys.len() == 0 {
        seq![]
    } else if distinct_keys(keys.drop_last()).contains(keys.last()) {
        distinct_keys(keys.drop_last())
    } else {
        distinct_keys(keys.drop_last()).push(keys.last())
    }
}

/// The indices where key `k` occurs, in increasing order.
pub open spec fn indices_with(keys: Seq<Seq<char>>, k: Seq<char>) -> Seq<usize>
    decreases keys.len(),
{
    if keys.len() == 0 {
        seq![]
    } else if keys.last() == k {
        indices_with(keys.drop_last(), k).push((keys.len() - 1) as usize)
    } else {
        indices_with(keys.drop_last(), k)
    }
}

/// The groups of equal keys, in order of first occurrence, each listing its
/// indices in order.
pub open spec fn key_groups(keys: Seq<Seq<char>>) -> Seq<Seq<usize>> {
    distinct_keys(keys).map_values(|k: Seq<char>| indices_with(keys, k))
}

/// The groups that hold more than one clone.
pub open spec fn dup_groups(keys: Seq<Seq<char>>) -> Seq<Seq<usize>> {
    key_groups(keys).filter(|g: Seq<usize>| g.len() > 1)
}

pub open spec fn size_at(entries: Seq<DupEntry>, g: Seq<usize>) -> int
    decreases g.len(),
{
    if g.len() == 0 {
        0
    } else {
        size_at(entries, g.drop_last()) + entries[g.last() as int].info.size
    }
}

pub open spec fn group_totals(entries: Seq<DupEntry>, gs: Seq<Seq<usize>>) -> Seq<u128> {
    gs.map_values(|g: Seq<usize>| size_at(entries, g) as u128)
}

pub open spec fn commit_keys(entries: Seq<DupEntry>, g: Seq<usize>) -> Seq<u128> {
    g.map_values(|i: usize| opt_day_key(entries[i as int].info.last_commit))
}

/// `c` is the cluster of group `g`: the URL of its first clone, its clones by
/// last commit (latest first, ties in discovery order), the action for each
/// clone but the first, its total size, and its size less the kept clone.
pub open spec fn cluster_of(entries: Seq<DupEntry>, g: Seq<usize>, c: Cluster) -> bool {
    &&& g.len() > 1
    &&& c.url@ == entries[g[0] as int].url@
    &&& exists|ord: Seq<usize>|
        #[trigger] is_stable_order(commit_keys(entries, g), ord, true) && c.clones@ == ord.map_values(
            |j: usize| entries[g[j as int] as int].info,
        )
    &&& c.actions@.len() + 1 == c.clones@.len()
    &&& forall|j: int| 0 <= j < c.actions@.len() ==> #[trigger] c.actions@[j] == spec_decide_action(c.clones@[j + 1])
    &&& c.total == size_at(entries, g)
    &&& c.reclaimable == c.total - c.clones@[0].size
}

/// The clusters of duplicate clones, largest total first (ties in order of
/// first discovery), each as `cluster_of` describes.
pub open spec fn plan_of(entries: Seq<DupEntry>, clusters: Seq<Cluster>) -> bool {
    let gs = dup_groups(fp_keys(entries));
    exists|ord: Seq<usize>|
        #[trigger] is_stable_order(group_totals(entries, gs), ord, true) && clusters.len() == gs.len()
            && forall|c: int| 0 <= c < clusters.len() ==> cluster_of(entries, gs[ord[c] as int], #[trigger] clusters[c])
}

// ---------------------------------------------------------------------------
// Lemmas
// ---------------------------------------------------------------------------

proof fn lemma_indices_with_bound(keys: Seq<Seq<char>>, k: Seq<char>)
    requires
        keys.len() <= usize::MAX,
    ensures
        forall|j: int|
            0 <= j < indices_with(keys, k).len() ==> (#[trigger] indices_with(keys, k)[j]) < keys.len()
                && keys[indices_with(keys, k)[j] as int] == k,
        forall|i: int, j: int|
            0 <= i < j < indices_with(keys, k).len() ==> indices_with(keys, k)[i] < indices_with(keys, k)[j],
        indices_with(keys, k).no_duplicates(),
        forall|i: int| 0 <= i < keys.len() && keys[i] == k ==> indices_with(keys, k).contains(i as usize),
    decreases keys.len(),
{
    let w = indices_with(keys, k);
    if keys.len() > 0 {
        let d = keys.drop_last();
        lemma_indices_with_bound(d, k);
        let r = indices_with(d, k);
        let n = (keys.len() - 1) as usize;
        assert forall|j: int| 0 <= j < w.len() implies (#[trigger] w[j]) < keys.len() && keys[w[j] as int] == k by {
            if j < r.len() {
                assert(w[j] == r[j]);
                assert(d[r[j] as int] == keys[r[j] as int]);
            } else {
                assert(keys.last() == k);
                assert(w[j] == n);
            }
        }
        assert forall|i: int, j: int| 0 <= i < j < w.len() implies w[i] < w[j] by {
            assert(w[i] == r[i]);
            if j < r.len() {
                assert(w[j] == r[j]);
            } else {
                assert(w[j] == n);
            }
        }
        assert forall|i: int| 0 <= i < keys.len() && keys[i] == k implies w.contains(i as usize) by {
            if i < keys.len() - 1 {
                assert(d[i] == k);
                let q = choose|q: int| 0 <= q < r.len() && r[q] == i as usize;
                assert(w[q] == i as usize);
            } else {
                assert(w[w.len() - 1] == i as usize);
            }
        }
    }
}

proof fn lemma_distinct_keys(keys: Seq<Seq<char>>)
    ensures
        distinct_keys(keys).no_duplicates(),
        forall|k: Seq<char>| distinct_keys(keys).contains(k) <==> keys.contains(k),
    decreases keys.len(),
{
    if keys.len() > 0 {
        let dl = keys.drop_last();
        let x = keys.last();
        lemma_distinct_keys(dl);
        let d = distinct_keys(dl);
        let e = distinct_keys(keys);
        assert forall|k: Seq<char>| e.contains(k) implies keys.contains(k) by {
            let q = choose|q: int| 0 <= q < e.len() && e[q] == k;
            if q < d.len() {
                assert(e[q] == d[q]);
                assert(d.contains(k));
                assert(dl.contains(k));
                let i = choose|i: int| 0 <= i < dl.len() && dl[i] == k;
                assert(keys[i] == k);
            } else {
                assert(k == x);
                assert(keys[keys.len() - 1] == k);
            }
        }
        assert forall|k: Seq<char>| keys.contains(k) implies e.contains(k) by {
            let i = choose|i: int| 0 <= i < keys.len() && keys[i] == k;
            if i < keys.len() - 1 {
                assert(dl[i] == k);
                assert(dl.contains(k));
                assert(d.contains(k));
                let q = choose|q: int| 0 <= q < d.len() && d[q] == k;
                if d.contains(x) {
                    assert(e[q] == k);
                } else {
                    assert(e[q] == k);
                }
            } else {
                if d.contains(x) {
                    assert(k == x);
                } else {
                    assert(e[d.len() as int] == k);
                }
            }
        }
        if !d.contains(x) {
            assert forall|i: int, j: int| 0 <= i < j < e.len() implies e[i] != e[j] by {
                if j == d.len() {
                    assert(e[i] == d[i]);
                }
            }
        }
    }
}

/// Adding one key to the end: how the groups change.
proof fn lemma_indices_with_push(keys: Seq<Seq<char>>, x: Seq<char>, k: Seq<char>)
    ensures
        indices_with(keys.push(x), k) == (if x == k {
            indices_with(keys, k).push(keys.len() as usize)
        } else {
            indices_with(keys, k)
        }),
{
    assert(keys.push(x).drop_last() =~= keys);
}

// ---------------------------------------------------------------------------
// Planning
// ---------------------------------------------------------------------------

/// The index lists of the groups of equal fingerprints (see `key_groups`).
fn group_indices(keys: &Vec<Vec<char>>) -> (gs: Vec<Vec<usize>>)
    ensures
        gs@.map_values(|g: Vec<usize>| g@) == key_groups(views(keys@)),
{
    let ghost kv = views(keys@);
    let mut dkeys: Vec<Vec<char>> = Vec::new();
    let mut gs: Vec<Vec<usize>> = Vec::new();
    let mut i: usize = 0;
    while i < keys.len()
        invariant
            i <= keys.len(),
            kv == views(keys@),
            views(dkeys@) == distinct_keys(kv.take(i as int)),
            gs.len() == dkeys.len(),
            forall|g: int| 0 <= g < gs.len() ==> (#[trigger] gs@[g])@ == indices_with(kv.take(i as int), views(dkeys@)[g]),
        decreases keys.len() - i,
    {
        let ghost pre = kv.take(i as int);
        let ghost post = kv.take(i + 1);
        assert(post =~= pre.push(kv[i as int]));
        assert(kv[i as int] == keys@[i as int]@);
        assert(post.drop_last() =~= pre);
        // find the group of keys[i]
        let mut g: usize = 0;
        let mut found = false;
        while g < dkeys.len() && !found
            invariant
                g <= dkeys.len(),
                found ==> g < dkeys.len() && views(dkeys@)[g as int] == kv[i as int],
                !found ==> forall|h: int| 0 <= h < g ==> views(dkeys@)[h] != kv[i as int],
                i < keys.len(),
                kv == views(keys@),
                kv[i as int] == keys@[i as int]@,
            decreases dkeys.len() - g + (if found { 0int } else { 1int }),
        {
            assert(views(dkeys@)[g as int] == dkeys@[g as int]@);
            if chars_eq(&dkeys[g], &keys[i]) {
                found = true;
            } else {
                g = g + 1;
            }
        }
        let ghost old_gs = gs@;
        if found {
            proof {
                assert(distinct_keys(pre).contains(kv[i as int]));
                assert(distinct_keys(post) == distinct_keys(pre));
            }
            let mut grp = gs.remove(g);
            grp.push(i);
            gs.insert(g, grp);
            proof {
                assert forall|h: int| 0 <= h < gs.len() implies (#[trigger] gs@[h])@ == indices_with(
                    post,
                    views(dkeys@)[h],
                ) by {
                    lemma_indices_with_push(pre, kv[i as int], views(dkeys@)[h]);
                    if h != g {
                        assert(gs@[h] == old_gs[h]);
                        lemma_distinct_keys(pre);
                        assert(views(dkeys@)[h] != kv[i as int]) by {
                            if views(dkeys@)[h] == kv[i as int] {
                                assert(views(dkeys@)[h] == views(dkeys@)[g as int]);
                            }
                        }
                    }
                }
            }
        } else {
            proof {
                assert(!distinct_keys(pre).contains(kv[i as int])) by {
                    if distinct_keys(pre).contains(kv[i as int]) {
                        let h = choose|h: int| 0 <= h < distinct_keys(pre).len() && distinct_keys(pre)[h] == kv[i as int];
                        assert(views(dkeys@)[h] != kv[i as int]);
                    }
                }
                assert(distinct_keys(post) == distinct_keys(pre).push(kv[i as int]));
            }
            let k = keys[i].clone();
            assert(views(dkeys@.push(k)) =~= views(dkeys@).push(kv[i as int]));
            dkeys.push(k);
            let mut grp: Vec<usize> = Vec::new();
            grp.push(i);
            gs.push(grp);
            proof {
                assert forall|h: int| 0 <= h < gs.len() implies (#[trigger] gs@[h])@ == indices_with(
                    post,
                    views(dkeys@)[h],
                ) by {
                    lemma_indices_with_push(pre, kv[i as int], views(dkeys@)[h]);
                    if h < gs.len() - 1 {
                        assert(gs@[h] == old_gs[h]);
                        lemma_distinct_keys(pre);
                        assert(views(dkeys@)[h] != kv[i as int]) by {
                            assert(distinct_keys(pre)[h] == views(dkeys@)[h]);
                        }
                    } else {
                        assert(indices_with(pre, kv[i as int]) =~= Seq::<usize>::empty()) by {
                            lemma_indices_with_bound(pre, kv[i as int]);
                            lemma_distinct_keys(pre);
                            if indices_with(pre, kv[i as int]).len() > 0 {
                                let j = indices_with(pre, kv[i as int])[0];
                                assert(pre[j as int] == kv[i as int]);
                                assert(pre.contains(kv[i as int]));
                            }
                        }
                        assert(gs@[h]@ =~= seq![i]);
                    }
                }
            }
        }
        i = i + 1;
    }
    assert(kv.take(i as int) =~= kv);
    assert(gs@.map_values(|g: Vec<usize>| g@) =~= key_groups(kv));
    gs
}

/// The groups with more than one member, in order.
fn keep_duplicates(gs: Vec<Vec<usize>>) -> (r: Vec<Vec<usize>>)
    ensures
        r@.map_values(|g: Vec<usize>| g@) == gs@.map_values(|g: Vec<usize>| g@).filter(
            |g: Seq<usize>| g.len() > 1,
        ),
{
    let ghost pred = |g: Seq<usize>| g.len() > 1;
    let ghost src = gs@.map_values(|g: Vec<usize>| g@);
    let mut r: Vec<Vec<usize>> = Vec::new();
    let mut gs = gs;
    let ghost n = gs.len();
    while gs.len() > 0
        invariant
            gs@.len() <= src.len(),
            gs@.map_values(|g: Vec<usize>| g@) == src.skip(src.len() - gs.len()),
            pred == (|g: Seq<usize>| g.len() > 1),
            r@.map_values(|g: Vec<usize>| g@) == src.take(src.len() - gs.len()).filter(pred),
        decreases gs.len(),
    {
        let ghost k = src.len() - gs.len();
        let ghost before = gs@;
        let g = gs.remove(0);
        proof {
            assert(before.map_values(|g: Vec<usize>| g@)[0] == g@);
            assert(src[k] == g@);
            assert(src.take(k + 1) =~= src.take(k).push(g@));
            src.take(k).lemma_filter_push(g@, pred);
            assert(gs@ =~= before.skip(1));
            assert(gs@.map_values(|g: Vec<usize>| g@) =~= before.map_values(|g: Vec<usize>| g@).skip(1));
            assert(gs@.map_values(|g: Vec<usize>| g@) =~= src.skip(src.len() - gs.len()));
        }
        if g.len() > 1 {
            assert(r@.push(g).map_values(|g: Vec<usize>| g@) =~= r@.map_values(|g: Vec<usize>| g@).push(g@));
            r.push(g);
        }
    }
    assert(src.take(src.len() as int) =~= src);
    r
}

impl Clone for CloneInfo {
    fn clone(&self) -> (c: Self)
        ensures
            c == *self,
    {
        CloneInfo {
            path: self.path.clone(),
            size: self.size,
            last_commit: self.last_commit,
            root_sha: match &self.root_sha {
                Some(s) => Some(s.clone()),
                None => None,
            },
            has_local_only: self.has_local_only,
            has_stash: self.has_stash,
            dirty: self.dirty,
        }
    }
}

proof fn lemma_size_at_member(entries: Seq<DupEntry>, g: Seq<usize>, j: int)
    requires
        0 <= j < g.len(),
    ensures
        entries[g[j] as int].info.size <= size_at(entries, g),
        size_at(entries, g) >= 0,
    decreases g.len(),
{
    lemma_size_at_nonneg(entries, g.drop_last());
    if j < g.len() - 1 {
        lemma_size_at_member(entries, g.drop_last(), j);
        assert(g.drop_last()[j] == g[j]);
    }
}

proof fn lemma_size_at_nonneg(entries: Seq<DupEntry>, g: Seq<usize>)
    ensures
        size_at(entries, g) >= 0,
    decreases g.len(),
{
    if g.len() > 0 {
        lemma_size_at_nonneg(entries, g.drop_last());
    }
}

/// The total size of the clones at the indices `g`.
fn group_size(entries: &Vec<DupEntry>, g: &Vec<usize>) -> (t: u128)
    requires
        forall|j: int| 0 <= j < g.len() ==> (#[trigger] g@[j]) < entries.len(),
    ensures
        t == size_at(entries@, g@),
{
    let mut t: u128 = 0;
    let mut k: usize = 0;
    while k < g.len()
        invariant
            k <= g.len(),
            forall|j: int| 0 <= j < g.len() ==> (#[trigger] g@[j]) < entries.len(),
            t == size_at(entries@, g@.take(k as int)),
            t <= k * 0x1_0000_0000_0000_0000,
        decreases g.len() - k,
    {
        assert(g@.take(k + 1).drop_last() =~= g@.take(k as int));
        t = t + entries[g[k]].info.size as u128;
        k = k + 1;
    }
    assert(g@.take(k as int) =~= g@);
    t
}

/// The cluster of the group `g` (see `cluster_of`).
fn build_cluster(entries: &Vec<DupEntry>, g: &Vec<usize>) -> (c: Cluster)
    requires
        g.len() > 1,
        forall|j: int| 0 <= j < g.len() ==> (#[trigger] g@[j]) < entries.len(),
    ensures
        cluster_of(entries@, g@, c),
{
    let mut keys: Vec<u128> = Vec::new();
    let mut k: usize = 0;
    while k < g.len()
        invariant
            k <= g.len(),
            forall|j: int| 0 <= j < g.len() ==> (#[trigger] g@[j]) < entries.len(),
            keys@ == commit_keys(entries@, g@).take(k as int),
        decreases g.len() - k,
    {
        keys.push(opt_day_key_exec(entries[g[k]].info.last_commit));
        k = k + 1;
        assert(keys@ =~= commit_keys(entries@, g@).take(k as int));
    }
    assert(commit_keys(entries@, g@).take(k as int) =~= commit_keys(entries@, g@));
    let ord = stable_order(&keys, true);
    let mut clones: Vec<CloneInfo> = Vec::new();
    let mut k: usize = 0;
    while k < ord.len()
        invariant
            k <= ord.len(),
            ord.len() == g.len(),
            forall|j: int| 0 <= j < g.len() ==> (#[trigger] g@[j]) < entries.len(),
            forall|j: int| 0 <= j < ord.len() ==> (#[trigger] ord@[j]) < g.len(),
            clones@ == ord@.take(k as int).map_values(|j: usize| entries@[g@[j as int] as int].info),
        decreases ord.len() - k,
    {
        let x = entries[g[ord[k]]].info.clone();
        clones.push(x);
        k = k + 1;
        assert(clones@ =~= ord@.take(k as int).map_values(|j: usize| entries@[g@[j as int] as int].info));
    }
    assert(ord@.take(k as int) =~= ord@);
    let mut actions: Vec<Action> = Vec::new();
    let mut k: usize = 1;
    while k < clones.len()
        invariant
            1 <= k <= clones.len(),
            actions.len() + 1 == k,
            forall|j: int| 0 <= j < actions.len() ==> #[trigger] actions@[j] == spec_decide_action(clones@[j + 1]),
        decreases clones.len() - k,
    {
        actions.push(decide_action(&clones[k]));
        k = k + 1;
    }
    let total = group_size(entries, g);
    proof {
        lemma_size_at_member(entries@, g@, ord@[0] as int);
    }
    let reclaimable = total - clones[0].size as u128;
    let url = entries[g[0]].url.clone();
    Cluster { url, clones, actions, total, reclaimable }
}

/// Plans the duplicate clusters of the clones found (see `plan_of`).
pub fn plan_clusters(entries: &Vec<DupEntry>) -> (clusters: Vec<Cluster>)
    ensures
        plan_of(entries@, clusters@),
{
    let ghost src = entries@;
    let mut keys: Vec<Vec<char>> = Vec::new();
    let mut i: usize = 0;
    while i < entries.len()
        invariant
            i <= entries.len(),
            views(keys@) == fp_keys(entries@).take(i as int),
        decreases entries.len() - i,
    {
        let k = chars_of(entries[i].fingerprint.as_str());
        assert(views(keys@.push(k)) =~= views(keys@).push(k@));
        keys.push(k);
        i = i + 1;
        assert(views(keys@) =~= fp_keys(entries@).take(i as int));
    }
    assert(fp_keys(entries@).take(i as int) =~= fp_keys(entries@));
    let groups = group_indices(&keys);
    let dups = keep_duplicates(groups);
    let ghost gs = dup_groups(fp_keys(src));
    assert(dups@.map_values(|g: Vec<usize>| g@) == gs);
    proof {
        assert forall|c: int| 0 <= c < gs.len() implies (#[trigger] gs[c]).len() > 1 by {
            let kg = key_groups(fp_keys(src));
            assert(gs.contains(gs[c]));
            kg.lemma_filter_contains_rev(|g: Seq<usize>| g.len() > 1, gs[c]);
            broadcast use vstd::seq_lib::group_filter_ensures;
        }
        assert forall|c: int, j: int| 0 <= c < gs.len() && 0 <= j < gs[c].len() implies (#[trigger] gs[c][j])
            < src.len() by {
            let kg = key_groups(fp_keys(src));
            kg.lemma_filter_contains_rev(|g: Seq<usize>| g.len() > 1, gs[c]);
            let m = choose|m: int| 0 <= m < kg.len() && kg[m] == gs[c];
            lemma_indices_with_bound(fp_keys(src), distinct_keys(fp_keys(src))[m]);
            assert(gs.contains(gs[c]));
            kg.lemma_filter_contains_rev(|g: Seq<usize>| g.len() > 1, gs[c]);
            
        }
    }
    let mut totals: Vec<u128> = Vec::new();
    let mut c: usize = 0;
    while c < dups.len()
        invariant
            c <= dups.len(),
            entries@ == src,
            dups@.map_values(|g: Vec<usize>| g@) == gs,
            forall|c: int, j: int| 0 <= c < gs.len() && 0 <= j < gs[c].len() ==> (#[trigger] gs[c][j]) < src.len(),
            totals@ == group_totals(src, gs).take(c as int),
        decreases dups.len() - c,
    {
        assert(dups@[c as int]@ == gs[c as int]);
        let t = group_size(entries, &dups[c]);
        totals.push(t);
        c = c + 1;
        assert(totals@ =~= group_totals(src, gs).take(c as int));
    }
    assert(group_totals(src, gs).take(c as int) =~= group_totals(src, gs));
    let ord = stable_order(&totals, true);
    let mut clusters: Vec<Cluster> = Vec::new();
    let mut c: usize = 0;
    while c < ord.len()
        invariant
            c <= ord.len(),
            entries@ == src,
            is_stable_order(group_totals(src, gs), ord@, true),
            dups@.map_values(|g: Vec<usize>| g@) == gs,
            forall|c: int, j: int| 0 <= c < gs.len() && 0 <= j < gs[c].len() ==> (#[trigger] gs[c][j]) < src.len(),
            forall|c: int| 0 <= c < gs.len() ==> (#[trigger] gs[c]).len() > 1,
            clusters.len() == c,
            forall|d: int| 0 <= d < c ==> cluster_of(src, gs[ord@[d] as int], #[trigger] clusters@[d]),
        decreases ord.len() - c,
    {
        let gi = ord[c];
        assert(group_totals(src, gs).len() == gs.len());
        assert(ord@[c as int] < gs.len());
        assert(dups@[gi as int]@ == gs[gi as int]);
        assert(gs[gi as int][0] < src.len() && gs[gi as int].len() > 1);
        let cl = build_cluster(entries, &dups[gi]);
        clusters.push(cl);
        c = c + 1;
    }
    assert(is_stable_order(group_totals(src, gs), ord@, true));
    clusters
}

// ---------------------------------------------------------------------------
// Laws of the plan
// ---------------------------------------------------------------------------

/// The clone that is kept has the most recent last commit of its cluster.
pub proof fn law_keeper_is_latest(entries: Seq<DupEntry>, g: Seq<usize>, c: Cluster, j: int)
    requires
        cluster_of(entries, g, c),
        0 <= j < c.clones@.len(),
    ensures
        opt_day_key(c.clones@[j].last_commit) <= opt_day_key(c.clones@[0].last_commit),
{
    let ord = choose|ord: Seq<usize>|
        #[trigger] is_stable_order(commit_keys(entries, g), ord, true) && c.clones@ == ord.map_values(
            |i: usize| entries[g[i as int] as int].info,
        );
    if j > 0 {
        assert(crate::order::before(
            commit_keys(entries, g)[ord[0] as int],
            commit_keys(entries, g)[ord[j] as int],
            true,
        ));
    }
}

/// A clone with uncommitted changes or stashes is skipped: never removed and
/// never converted. A clone is removed only when it is clean, has no stash and
/// no local-only branch. The kept clone gets no action at all.
pub proof fn law_local_work_never_removed(c: Cluster, j: int)
    requires
        c.actions@.len() + 1 == c.clones@.len(),
        forall|j: int| 0 <= j < c.actions@.len() ==> #[trigger] c.actions@[j] == spec_decide_action(c.clones@[j + 1]),
        0 <= j < c.actions@.len(),
    ensures
        (c.clones@[j + 1].dirty || c.clones@[j + 1].has_stash) ==> c.actions@[j] == Action::Skip,
        c.actions@[j] == Action::Remove ==> !c.clones@[j + 1].dirty && !c.clones@[j + 1].has_stash
            && !c.clones@[j + 1].has_local_only,
{
    assert(c.actions@[j] == spec_decide_action(c.clones@[j + 1]));
}

/// What a cluster reclaims is its total less the clone that is kept.
pub proof fn law_reclaimable(entries: Seq<DupEntry>, g: Seq<usize>, c: Cluster)
    requires
        cluster_of(entries, g, c),
    ensures
        c.reclaimable + c.clones@[0].size == c.total,
        c.clones@.len() == g.len(),
{
    let ord = choose|ord: Seq<usize>|
        #[trigger] is_stable_order(commit_keys(entries, g), ord, true) && c.clones@ == ord.map_values(
            |i: usize| entries[g[i as int] as int].info,
        );
}

/// The members of a duplicate group share one fingerprint, every group has at
/// least two members, and every clone whose fingerprint occurs more than once
/// is in a group.
pub proof fn law_groups_share_fingerprint(keys: Seq<Seq<char>>, c: int, j: int, i: int)
    requires
        keys.len() <= usize::MAX,
    ensures
        0 <= c < dup_groups(keys).len() && 0 <= j < dup_groups(keys)[c].len() ==> dup_groups(keys)[c][j]
            < keys.len() && keys[dup_groups(keys)[c][j] as int] == keys[dup_groups(keys)[c][0] as int]
            && dup_groups(keys)[c].len() > 1,
        0 <= i < keys.len() && indices_with(keys, keys[i]).len() > 1 ==> exists|d: int|
            0 <= d < dup_groups(keys).len() && #[trigger] dup_groups(keys)[d].contains(i as usize),
{
    broadcast use vstd::seq_lib::group_filter_ensures;

    let kg = key_groups(keys);
    let pred = |g: Seq<usize>| g.len() > 1;
    let gs = dup_groups(keys);
    if 0 <= c < gs.len() && 0 <= j < gs[c].len() {
        assert(gs.contains(gs[c]));
        kg.lemma_filter_contains_rev(pred, gs[c]);
        let m = choose|m: int| 0 <= m < kg.len() && kg[m] == gs[c];
        lemma_indices_with_bound(keys, distinct_keys(keys)[m]);
    }
    if 0 <= i < keys.len() && indices_with(keys, keys[i]).len() > 1 {
        lemma_distinct_keys(keys);
        assert(keys.contains(keys[i]));
        let m = choose|m: int| 0 <= m < distinct_keys(keys).len() && distinct_keys(keys)[m] == keys[i];
        assert(kg[m] == indices_with(keys, keys[i]));
        kg.lemma_filter_contains(pred, m);
        let d = choose|d: int| 0 <= d < gs.len() && gs[d] == kg[m];
        lemma_indices_with_bound(keys, keys[i]);
        assert(gs[d].contains(i as usize));
    }
}

// ---------------------------------------------------------------------------
// Carrying out the plan
// ---------------------------------------------------------------------------

/// Why each action was chosen, as the plan explains it.
pub fn action_reason(a: Action) -> (s: &'static str)
    ensures
        s@ == (match a {
            Action::Worktree => "has local-only branches, preserve via worktree"@,
            Action::Remove => "no local work, safe to remove"@,
            Action::Skip => "uncommitted work or stashes present"@,
        }),
{
    match a {
        Action::Worktree => "has local-only branches, preserve via worktree",
        Action::Remove => "no local work, safe to remove",
        Action::Skip => "uncommitted work or stashes present",
    }
}

/// A clone without a known root commit is clustered by its URL alone, which
/// the plan warns about.
pub fn weak_fingerprint(c: &CloneInfo) -> (b: bool)
    ensures
        b == c.root_sha is None,
{
    c.root_sha.is_none()
}

/// Where the conversion of a clone into a worktree of its keeper stands.
pub enum ConvertState {
    /// Waiting for the clone's current branch.
    AwaitBranch,
    /// Waiting for the push of this branch from the clone.
    AwaitPush(String),
    /// Waiting for the keeper's fetch of this branch.
    AwaitFetch(String),
    /// Waiting for the clone's directory to be removed.
    AwaitRemove(String),
    /// Waiting for the worktree of this branch to be added.
    AwaitAdd(String),
    /// Nothing more to do.
    Finished,
}

/// Why a conversion stopped.
pub enum ConvertFailure {
    /// A git command could not be run.
    CommandFailed,
    /// The clone is on a detached HEAD; nothing is touched.
    DetachedHead,
    /// The keeper could not fetch the branch (git's message).
    FetchFailed(String),
    /// The clone's directory could not be removed.
    RemoveFailed,
    /// `git worktree add` failed (git's message).
    AddFailed(String),
    /// An outcome arrived that the conversion was not waiting for.
    Unexpected,
}

/// What to do next in a conversion.
pub enum ConvertAction {
    /// Run `git branch --show-current` in the clone.
    ShowBranch,
    /// Run `git push --set-upstream origin <branch>` in the clone.
    Push(String),
    /// Run `git fetch origin <branch>` in the keeper; `push_failed` asks for
    /// a note that the push did not succeed.
    Fetch { branch: String, push_failed: bool },
    /// Remove the clone's directory.
    RemoveTarget,
    /// Run `git worktree add <clone path> <branch>` in the keeper.
    AddWorktree(String),
    /// The clone is now a worktree of the keeper.
    Done,
    /// Stop.
    Fail(ConvertFailure),
}

/// What came of the last action.
pub enum ConvertEvent {
    /// The output of `git branch --show-current`, `None` when it could not run.
    Branch(Option<String>),
    /// Whether the push succeeded, `None` when it could not run.
    Pushed(Option<bool>),
    /// Whether the fetch succeeded and what it wrote to stderr, `None` when
    /// it could not run.
    Fetched(Option<(bool, String)>),
    /// Whether the clone's directory was removed.
    Removed(bool),
    /// Whether the worktree was added and what git wrote to stderr, `None`
    /// when it could not run.
    Added(Option<(bool, String)>),
}

/// The first step of a conversion.
pub fn convert_start() -> (r: (ConvertState, ConvertAction))
    ensures
        r.0 is AwaitBranch,
        r.1 is ShowBranch,
{
    (ConvertState::AwaitBranch, ConvertAction::ShowBranch)
}

/// The conversion step from `state` on `event` gives `r`. The branch is the
/// trimmed output of `git branch --show-current`; an empty one means a
/// detached HEAD, which stops the conversion. A failed push only earns a
/// note. The clone's directory is removed only after the keeper fetched the
/// branch, and the worktree is added only after that.
pub open spec fn step_ok(state: ConvertState, event: ConvertEvent, r: (ConvertState, ConvertAction)) -> bool {
    match (state, event) {
        (ConvertState::AwaitBranch, ConvertEvent::Branch(None)) => r.0 is Finished && (r.1 matches ConvertAction::Fail(
            ConvertFailure::CommandFailed,
        )),
        (ConvertState::AwaitBranch, ConvertEvent::Branch(Some(out))) => match spec_trimmed_value(out@) {
            Some(b) => (r.0 matches ConvertState::AwaitPush(x) && x@ == b) && (r.1 matches ConvertAction::Push(y)
                && y@ == b),
            None => r.0 is Finished && (r.1 matches ConvertAction::Fail(ConvertFailure::DetachedHead)),
        },
        (ConvertState::AwaitPush(b), ConvertEvent::Pushed(p)) => (r.0 matches ConvertState::AwaitFetch(x) && x@
            == b@) && (r.1 matches ConvertAction::Fetch { branch, push_failed } && branch@ == b@ && push_failed
            == (p == Some(false))),
        (ConvertState::AwaitFetch(_), ConvertEvent::Fetched(None)) => r.0 is Finished && (r.1 matches ConvertAction::Fail(
            ConvertFailure::CommandFailed,
        )),
        (ConvertState::AwaitFetch(b), ConvertEvent::Fetched(Some((ok, err)))) => if ok {
            (r.0 matches ConvertState::AwaitRemove(x) && x@ == b@) && r.1 is RemoveTarget
        } else {
            r.0 is Finished && (r.1 matches ConvertAction::Fail(ConvertFailure::FetchFailed(e)) && e@ == err@)
        },
        (ConvertState::AwaitRemove(b), ConvertEvent::Removed(ok)) => if ok {
            (r.0 matches ConvertState::AwaitAdd(x) && x@ == b@) && (r.1 matches ConvertAction::AddWorktree(y) && y@
                == b@)
        } else {
            r.0 is Finished && (r.1 matches ConvertAction::Fail(ConvertFailure::RemoveFailed))
        },
        (ConvertState::AwaitAdd(_), ConvertEvent::Added(None)) => r.0 is Finished && (r.1 matches ConvertAction::Fail(
            ConvertFailure::CommandFailed,
        )),
        (ConvertState::AwaitAdd(_), ConvertEvent::Added(Some((ok, err)))) => r.0 is Finished && if ok {
            r.1 is Done
        } else {
            r.1 matches ConvertAction::Fail(ConvertFailure::AddFailed(e)) && e@ == err@
        },
        _ => r.0 is Finished && (r.1 matches ConvertAction::Fail(ConvertFailure::Unexpected)),
    }
}

/// The next state and action of a conversion, given what came of the last
/// action (see `step_ok`).
pub fn convert_step(state: ConvertState, event: ConvertEvent) -> (r: (ConvertState, ConvertAction))
    ensures
        step_ok(state, event, r),
{
    match (state, event) {
        (ConvertState::AwaitBranch, ConvertEvent::Branch(None)) => (
            ConvertState::Finished,
            ConvertAction::Fail(ConvertFailure::CommandFailed),
        ),
        (ConvertState::AwaitBranch, ConvertEvent::Branch(Some(out))) => match trimmed_value(out.as_str()) {
            Some(b) => {
                let b2 = b.clone();
                (ConvertState::AwaitPush(b), ConvertAction::Push(b2))
            },
            None => (ConvertState::Finished, ConvertAction::Fail(ConvertFailure::DetachedHead)),
        },
        (ConvertState::AwaitPush(b), ConvertEvent::Pushed(p)) => {
            let push_failed = match p {
                Some(ok) => !ok,
                None => false,
            };
            let b2 = b.clone();
            (ConvertState::AwaitFetch(b), ConvertAction::Fetch { branch: b2, push_failed })
        },
        (ConvertState::AwaitFetch(_), ConvertEvent::Fetched(None)) => (
            ConvertState::Finished,
            ConvertAction::Fail(ConvertFailure::CommandFailed),
        ),
        (ConvertState::AwaitFetch(b), ConvertEvent::Fetched(Some((ok, err)))) => if ok {
            (ConvertState::AwaitRemove(b), ConvertAction::RemoveTarget)
        } else {
            (ConvertState::Finished, ConvertAction::Fail(ConvertFailure::FetchFailed(err)))
        },
        (ConvertState::AwaitRemove(b), ConvertEvent::Removed(ok)) => if ok {
            let b2 = b.clone();
            (ConvertState::AwaitAdd(b), ConvertAction::AddWorktree(b2))
        } else {
            (ConvertState::Finished, ConvertAction::Fail(ConvertFailure::RemoveFailed))
        },
        (ConvertState::AwaitAdd(_), ConvertEvent::Added(None)) => (
            ConvertState::Finished,
            ConvertAction::Fail(ConvertFailure::CommandFailed),
        ),
        (ConvertState::AwaitAdd(_), ConvertEvent::Added(Some((ok, err)))) => if ok {
            (ConvertState::Finished, ConvertAction::Done)
        } else {
            (ConvertState::Finished, ConvertAction::Fail(ConvertFailure::AddFailed(err)))
        },
        _ => (ConvertState::Finished, ConvertAction::Fail(ConvertFailure::Unexpected)),
    }
}

/// How carrying out a plan went.
pub struct PlanTally {
    pub converted: u64,
    pub removed: u64,
    pub skipped: u64,
}

pub open spec fn count_done(actions: Seq<Action>, ok: Seq<bool>, a: Action) -> nat
    decreases actions.len(),
{
    if actions.len() == 0 || ok.len() < actions.len() {
        0
    } else {
        count_done(actions.drop_last(), ok, a) + if actions.last() == a && ok[actions.len() - 1] {
            1nat
        } else {
            0nat
        }
    }
}

/// Tallies a carried-out plan: `ok[i]` tells whether the `i`th action
/// succeeded. A skip, and any action that failed, counts as skipped.
pub fn tally_plan(actions: &Vec<Action>, ok: &Vec<bool>) -> (t: PlanTally)
    requires
        actions.len() == ok.len(),
    ensures
        t.converted == count_done(actions@, ok@, Action::Worktree),
        t.removed == count_done(actions@, ok@, Action::Remove),
        t.skipped == actions.len() - t.converted - t.removed,
{
    let mut converted: u64 = 0;
    let mut removed: u64 = 0;
    let mut k: usize = 0;
    while k < actions.len()
        invariant
            k <= actions.len(),
            actions.len() == ok.len(),
            converted == count_done(actions@.take(k as int), ok@, Action::Worktree),
            removed == count_done(actions@.take(k as int), ok@, Action::Remove),
            converted + removed <= k,
        decreases actions.len() - k,
    {
        assert(actions@.take(k + 1).drop_last() =~= actions@.take(k as int));
        if ok[k] {
            match actions[k] {
                Action::Worktree => {
                    converted = converted + 1;
                },
                Action::Remove => {
                    removed = removed + 1;
                },
                Action::Skip => {},
            }
        }
        k = k + 1;
    }
    assert(actions@.take(k as int) =~= actions@);
    PlanTally { converted, removed, skipped: (actions.len() as u64) - converted - removed }
}

/// A conversion removes the clone's directory only right after the keeper
/// fetched the clone's branch; in particular a clone on a detached HEAD is
/// never removed.
pub proof fn law_clone_removed_only_after_fetch(
    state: ConvertState,
    event: ConvertEvent,
    next: (ConvertState, ConvertAction),
)
    requires
        step_ok(state, event, next),
        next.1 is RemoveTarget,
    ensures
        state is AwaitFetch,
        event matches ConvertEvent::Fetched(Some((ok, _))) && ok,
{
}

/// `states`, `events` and `actions` are a run of a conversion: it starts as
/// `convert_start` says, and each state and action follow from the state
/// before and the event that came.
pub open spec fn is_convert_run(states: Seq<ConvertState>, events: Seq<ConvertEvent>, actions: Seq<ConvertAction>) -> bool {
    &&& states.len() == events.len() + 1
    &&& actions.len() == states.len()
    &&& states[0] is AwaitBranch
    &&& actions[0] is ShowBranch
    &&& forall|i: int| 0 <= i < events.len() ==> #[trigger] convert_run_step(states, events, actions, i)
}

/// The `i`th step of a conversion run.
pub open spec fn convert_run_step(
    states: Seq<ConvertState>,
    events: Seq<ConvertEvent>,
    actions: Seq<ConvertAction>,
    i: int,
) -> bool {
    step_ok(states[i], events[i], (states[i + 1], actions[i + 1]))
}

/// The event at `i` shows the clone on a branch (not a detached HEAD).
pub open spec fn branch_shown(events: Seq<ConvertEvent>, i: int) -> bool {
    events[i] matches ConvertEvent::Branch(Some(out)) && spec_trimmed_value(out@) is Some
}

/// The event at `j` is a fetch by the keeper that succeeded.
pub open spec fn fetch_succeeded(events: Seq<ConvertEvent>, j: int) -> bool {
    events[j] matches ConvertEvent::Fetched(Some((ok, _))) && ok
}

proof fn lemma_convert_evidence(
    states: Seq<ConvertState>,
    events: Seq<ConvertEvent>,
    actions: Seq<ConvertAction>,
    k: int,
)
    requires
        is_convert_run(states, events, actions),
        0 <= k < states.len(),
    ensures
        (states[k] is AwaitPush || states[k] is AwaitFetch || states[k] is AwaitRemove || states[k] is AwaitAdd)
            ==> exists|i: int| 0 <= i < k && #[trigger] branch_shown(events, i),
        (states[k] is AwaitRemove || states[k] is AwaitAdd) ==> exists|j: int|
            0 <= j < k && #[trigger] fetch_succeeded(events, j) && exists|i: int|
                0 <= i < j && #[trigger] branch_shown(events, i),
    decreases k,
{
    if k > 0 {
        lemma_convert_evidence(states, events, actions, k - 1);
        assert(convert_run_step(states, events, actions, k - 1));
        if states[k] is AwaitPush {
            assert(branch_shown(events, k - 1));
        }
        if states[k] is AwaitRemove {
            assert(fetch_succeeded(events, k - 1));
        }
    }
}

/// In any run of a conversion, the clone's directory is removed only after
/// git showed the clone on a branch and, later, the keeper fetched that
/// branch.
pub proof fn law_branch_fetched_before_clone_removed(
    states: Seq<ConvertState>,
    events: Seq<ConvertEvent>,
    actions: Seq<ConvertAction>,
    k: int,
)
    requires
        is_convert_run(states, events, actions),
        0 <= k < actions.len(),
        actions[k] is RemoveTarget,
    ensures
        exists|i: int, j: int|
            #![trigger branch_shown(events, i), fetch_succeeded(events, j)]
            0 <= i < j < k && branch_shown(events, i) && fetch_succeeded(events, j),
{
    assert(k > 0);
    assert(convert_run_step(states, events, actions, k - 1));
    lemma_convert_evidence(states, events, actions, k);
    let j = choose|j: int|
        0 <= j < k && #[trigger] fetch_succeeded(events, j) && exists|i: int|
            0 <= i < j && #[trigger] branch_shown(events, i);
    let i = choose|i: int| 0 <= i < j && #[trigger] branch_shown(events, i);
    assert(0 <= i < j < k && branch_shown(events, i) && fetch_succeeded(events, j));
}

} // verus!
