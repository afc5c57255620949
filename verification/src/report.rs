//! Summaries of a set of assessments: how many repositories, and how many
//! bytes, each verdict covers.
use vstd::prelude::*;
use crate::assess::{spec_verdict_key, verdict_key, Assessment, Verdict};

verus! {

/// The verdicts in the order of their keys (`archive`, `keep`, `local-work`,
/// `no-remote`, `prototype`, `worktree`), the order summaries list them in.
pub open spec fn key_order() -> Seq<Verdict> {
    seq![
        Verdict::Archive,
        Verdict::KeepAsIs,
        Verdict::HasLocalWork,
        Verdict::NoRemote,
        Verdict::Prototype,
        Verdict::Worktree,
    ]
}

/// How many of the assessments have verdict `v`.
pub open spec fn verdict_count(s: Seq<Assessment>, v: Verdict) -> nat
    decreases s.len(),
{
    if s.len() == 0 {
        0
    } else {
        verdict_count(s.drop_last(), v) + if s.last().verdict == v {
            1nat
        } else {
            0nat
        }
    }
}

/// The total size of the assessments with verdict `v`.
pub open spec fn verdict_size(s: Seq<Assessment>, v: Verdict) -> int
    decreases s.len(),
{
    if s.len() == 0 {
        0
    } else {
        verdict_size(s.drop_last(), v) + if s.last().verdict == v {
            s.last().size as int
        } else {
            0
        }
    }
}

/// One line of a verdict summary.
pub struct VerdictSummary {
    pub key: &'static str,
    pub count: u64,
    pub size: u128,
}

pub open spec fn summary_view(e: VerdictSummary) -> (Seq<char>, nat, int) {
    (e.key@, e.count as nat, e.size as int)
}

pub open spec fn summary_views(v: Seq<VerdictSummary>) -> Seq<(Seq<char>, nat, int)> {
    v.map_values(|e: VerdictSummary| summary_view(e))
}

/// The summary line of verdict `v`.
pub open spec fn line_of(s: Seq<Assessment>, v: Verdict) -> (Seq<char>, nat, int) {
    (spec_verdict_key(v), verdict_count(s, v), verdict_size(s, v))
}

/// The verdicts that occur, each with its count and total size, in key order.
pub open spec fn spec_histogram(s: Seq<Assessment>) -> Seq<(Seq<char>, nat, int)> {
    key_order().filter(|v: Verdict| verdict_count(s, v) > 0).map_values(|v: Verdict| line_of(s, v))
}

fn key_index(v: Verdict) -> (i: usize)
    ensures
        i < 6,
        key_order()[i as int] == v,
{
    match v {
        Verdict::Archive => 0,
        Verdict::KeepAsIs => 1,
        Verdict::HasLocalWork => 2,
        Verdict::NoRemote => 3,
        Verdict::Prototype => 4,
        Verdict::Worktree => 5,
    }
}

fn verdict_at(i: usize) -> (v: Verdict)
    requires
        i < 6,
    ensures
        v == key_order()[i as int],
{
    if i == 0 {
        Verdict::Archive
    } else if i == 1 {
        Verdict::KeepAsIs
    } else if i == 2 {
        Verdict::HasLocalWork
    } else if i == 3 {
        Verdict::NoRemote
    } else if i == 4 {
        Verdict::Prototype
    } else {
        Verdict::Worktree
    }
}

/// The verdict summary of the assessments: for each verdict that occurs, in
/// key order, its key, how many repositories have it and their total size.
pub fn verdict_histogram(assessments: &Vec<Assessment>) -> (r: Vec<VerdictSummary>)
    ensures
        summary_views(r@) == spec_histogram(assessments@),
{
    let ghost s = assessments@;
    let mut counts: Vec<u64> = vec![0, 0, 0, 0, 0, 0];
    let mut sizes: Vec<u128> = vec![0, 0, 0, 0, 0, 0];
    let mut k: usize = 0;
    while k < assessments.len()
        invariant
            k <= assessments.len(),
            s == assessments@,
            counts.len() == 6,
            sizes.len() == 6,
            forall|j: int|
                0 <= j < 6 ==> #[trigger] counts@[j] == verdict_count(s.take(k as int), key_order()[j]),
            forall|j: int| 0 <= j < 6 ==> #[trigger] counts@[j] <= k,
            forall|j: int|
                0 <= j < 6 ==> #[trigger] sizes@[j] == verdict_size(s.take(k as int), key_order()[j]),
            forall|j: int| 0 <= j < 6 ==> #[trigger] sizes@[j] <= k * 0x1_0000_0000_0000_0000,
        decreases assessments.len() - k,
    {
        let v = assessments[k].verdict;
        let i = key_index(v);
        let size = assessments[k].size;
        assert(s.take(k + 1).drop_last() =~= s.take(k as int));
        assert(s.take(k + 1).last() == s[k as int]);
        let c = counts[i];
        let z = sizes[i];
        counts.set(i, c + 1);
        sizes.set(i, z + size as u128);
        k = k + 1;
        assert forall|j: int| 0 <= j < 6 implies #[trigger] counts@[j] == verdict_count(
            s.take(k as int),
            key_order()[j],
        ) && sizes@[j] == verdict_size(s.take(k as int), key_order()[j]) by {
            if j != i {
                assert(key_order()[j] != v);
            }
        }
    }
    assert(s.take(k as int) =~= s);
    let ghost pred = |v: Verdict| verdict_count(s, v) > 0;
    let mut r: Vec<VerdictSummary> = Vec::new();
    let mut j: usize = 0;
    while j < 6
        invariant
            j <= 6,
            s == assessments@,
            counts.len() == 6,
            sizes.len() == 6,
            forall|q: int| 0 <= q < 6 ==> #[trigger] counts@[q] == verdict_count(s, key_order()[q]),
            forall|q: int| 0 <= q < 6 ==> #[trigger] sizes@[q] == verdict_size(s, key_order()[q]),
            pred == (|v: Verdict| verdict_count(s, v) > 0),
            summary_views(r@) == key_order().take(j as int).filter(pred).map_values(
                |v: Verdict| line_of(s, v),
            ),
        decreases 6 - j,
    {
        let v = verdict_at(j);
        let ghost before = r@;
        proof {
            assert(key_order().take(j + 1) =~= key_order().take(j as int).push(v));
            key_order().take(j as int).lemma_filter_push(v, pred);
        }
        if counts[j] > 0 {
            r.push(VerdictSummary { key: verdict_key(v), count: counts[j], size: sizes[j] });
            assert(summary_views(r@) =~= summary_views(before).push(line_of(s, v)));
        }
        j = j + 1;
        assert(summary_views(r@) =~= key_order().take(j as int).filter(pred).map_values(
            |v: Verdict| line_of(s, v),
        ));
    }
    assert(key_order().take(6) =~= key_order());
    r
}

/// How many of the assessments have verdict `v`.
pub fn count_verdict(assessments: &Vec<Assessment>, v: Verdict) -> (n: u64)
    ensures
        n == verdict_count(assessments@, v),
{
    let ghost s = assessments@;
    let mut n: u64 = 0;
    let mut k: usize = 0;
    while k < assessments.len()
        invariant
            k <= assessments.len(),
            s == assessments@,
            n == verdict_count(s.take(k as int), v),
            n <= k,
        decreases assessments.len() - k,
    {
        assert(s.take(k + 1).drop_last() =~= s.take(k as int));
        if assessments[k].verdict == v {
            n = n + 1;
        }
        k = k + 1;
    }
    assert(s.take(k as int) =~= s);
    n
}

} // verus!
