//! The scan report: which assessments it shows, in what order, and the next
//! actions it suggests.
use vstd::prelude::*;
use crate::assess::{spec_label, spec_verdict_key, Assessment, Verdict};
use crate::order::{is_stable_order, stable_order};
use crate::report::{count_verdict, verdict_count};
use crate::text::{
    all_ascii, ascii_lower, ascii_lower_char, ascii_upper, ascii_upper_char, chars_eq, chars_of,
    to_lower, to_lowercase,
};

verus! {

/// `a` is the literal `lit`.
fn is_lit(a: &Vec<char>, lit: &str) -> (b: bool)
    ensures
        b == (a@ == lit@),
{
    chars_eq(a, &chars_of(lit))
}

/// The verdict a `--verdict` argument names, in any letter case:
/// `archive`, `prototype`, `worktree`, `local` or `local-work`, `keep`,
/// `no-remote` or `noremote`.
pub open spec fn spec_parse_verdict(s: Seq<char>) -> Option<Verdict> {
    let l = to_lower(s);
    if l == "archive"@ {
        Some(Verdict::Archive)
    } else if l == "prototype"@ {
        Some(Verdict::Prototype)
    } else if l == "worktree"@ {
        Some(Verdict::Worktree)
    } else if l == "local"@ || l == "local-work"@ {
        Some(Verdict::HasLocalWork)
    } else if l == "keep"@ {
        Some(Verdict::KeepAsIs)
    } else if l == "no-remote"@ || l == "noremote"@ {
        Some(Verdict::NoRemote)
    } else {
        None
    }
}

pub fn parse_verdict(s: &str) -> (r: Option<Verdict>)
    ensures
        r == spec_parse_verdict(s@),
{
    let l = chars_of(to_lowercase(s).as_str());
    if is_lit(&l, "archive") {
        Some(Verdict::Archive)
    } else if is_lit(&l, "prototype") {
        Some(Verdict::Prototype)
    } else if is_lit(&l, "worktree") {
        Some(Verdict::Worktree)
    } else if is_lit(&l, "local") || is_lit(&l, "local-work") {
        Some(Verdict::HasLocalWork)
    } else if is_lit(&l, "keep") {
        Some(Verdict::KeepAsIs)
    } else if is_lit(&l, "no-remote") || is_lit(&l, "noremote") {
        Some(Verdict::NoRemote)
    } else {
        None
    }
}

/// A character of a verdict key: a lower-case ASCII letter or `-`.
spec fn key_char(c: char) -> bool {
    ('a' <= c && c <= 'z') || c == '-'
}

/// A word of lower-case ASCII letters and `-` is ASCII, its own lower-case
/// form, and the lower-case form of its upper-case form.
proof fn lemma_key_word(s: Seq<char>)
    requires
        forall|i: int| 0 <= i < s.len() ==> key_char(#[trigger] s[i]),
    ensures
        all_ascii(s),
        all_ascii(ascii_upper(s)),
        to_lower(s) == s,
        to_lower(ascii_upper(s)) == s,
{
    assert forall|i: int| 0 <= i < s.len() implies (#[trigger] s[i] as u32) < 128
        && ascii_lower_char(s[i]) == s[i] && (ascii_upper_char(s[i]) as u32) < 128
        && ascii_lower_char(ascii_upper_char(s[i])) == s[i] by {
        assert(key_char(s[i]));
    }
    let u = ascii_upper(s);
    assert(all_ascii(u));
    assert(ascii_lower(s) =~= s);
    assert(ascii_lower(u) =~= s);
}

/// Each verdict is read back from its key, and from its key in upper case,
/// which is its label: `parse_verdict(verdict_key(v)) == Some(v)`, and the
/// same for the upper-case key.
pub proof fn law_verdict_key_round_trip(v: Verdict)
    ensures
        spec_parse_verdict(spec_verdict_key(v)) == Some(v),
        ascii_upper(spec_verdict_key(v)) == spec_label(v),
        spec_parse_verdict(ascii_upper(spec_verdict_key(v))) == Some(v),
{
    reveal_strlit("archive");
    reveal_strlit("prototype");
    reveal_strlit("worktree");
    reveal_strlit("local");
    reveal_strlit("local-work");
    reveal_strlit("keep");
    reveal_strlit("no-remote");
    reveal_strlit("noremote");
    reveal_strlit("ARCHIVE");
    reveal_strlit("PROTOTYPE");
    reveal_strlit("WORKTREE");
    reveal_strlit("LOCAL-WORK");
    reveal_strlit("KEEP");
    reveal_strlit("NO-REMOTE");
    let k = spec_verdict_key(v);
    assert forall|i: int| 0 <= i < k.len() implies key_char(#[trigger] k[i]) by {}
    lemma_key_word(k);
    assert(ascii_upper(k) =~= spec_label(v));
    if v == Verdict::NoRemote {
        // the two nine-letter keys differ in their first letter
        assert(k[0] != "prototype"@[0]);
    }
}

/// Scan shows an assessment when it has the requested verdict (if one was
/// requested) and, with `--prototypes`, when it is a prototype.
pub open spec fn spec_shown(a: Assessment, filter: Option<Verdict>, prototypes_only: bool) -> bool {
    (match filter {
        Some(v) => a.verdict == v,
        None => true,
    }) && (!prototypes_only || a.verdict == Verdict::Prototype)
}

pub open spec fn size_keys(s: Seq<Assessment>) -> Seq<u128> {
    s.map_values(|a: Assessment| a.size as u128)
}

/// The positions in `ord` of the assessments that scan shows.
pub open spec fn shown_in(s: Seq<Assessment>, ord: Seq<usize>, filter: Option<Verdict>, prototypes_only: bool) -> Seq<
    usize,
> {
    ord.filter(|i: usize| spec_shown(s[i as int], filter, prototypes_only))
}

/// The assessments that scan shows, as positions in `assessments`, largest
/// first (equal sizes keep their order).
pub fn scan_rows(assessments: &Vec<Assessment>, filter: Option<Verdict>, prototypes_only: bool) -> (r: Vec<
    usize,
>)
    ensures
        exists|ord: Seq<usize>|
            #[trigger] is_stable_order(size_keys(assessments@), ord, true) && r@ == shown_in(
                assessments@,
                ord,
                filter,
                prototypes_only,
            ),
{
    let mut keys: Vec<u128> = Vec::new();
    let mut k: usize = 0;
    while k < assessments.len()
        invariant
            k <= assessments.len(),
            keys@ == size_keys(assessments@.take(k as int)),
        decreases assessments.len() - k,
    {
        keys.push(assessments[k].size as u128);
        k = k + 1;
        assert(keys@ =~= size_keys(assessments@.take(k as int)));
    }
    assert(assessments@.take(k as int) =~= assessments@);
    let ord = stable_order(&keys, true);
    let ghost pred = |i: usize| spec_shown(assessments@[i as int], filter, prototypes_only);
    let mut r: Vec<usize> = Vec::new();
    let mut j: usize = 0;
    while j < ord.len()
        invariant
            j <= ord.len(),
            ord.len() == assessments.len(),
            forall|i: int| 0 <= i < ord.len() ==> (#[trigger] ord@[i]) < assessments.len(),
            pred == (|i: usize| spec_shown(assessments@[i as int], filter, prototypes_only)),
            r@ == ord@.take(j as int).filter(pred),
        decreases ord.len() - j,
    {
        let i = ord[j];
        proof {
            assert(ord@.take(j + 1) =~= ord@.take(j as int).push(i));
            ord@.take(j as int).lemma_filter_push(i, pred);
        }
        let v = assessments[i].verdict;
        let keep_v = match filter {
            Some(f) => v == f,
            None => true,
        };
        if keep_v && (!prototypes_only || v == Verdict::Prototype) {
            r.push(i);
        }
        j = j + 1;
    }
    assert(ord@.take(j as int) =~= ord@);
    assert(is_stable_order(size_keys(assessments@), ord@, true));
    r
}

/// What scan suggests doing next: archive the stale repositories and the
/// prototypes, look at the repositories without a remote; when there is
/// nothing to archive, the workspace is clean.
pub struct NextActions {
    pub archive: u64,
    pub prototype: u64,
    pub no_remote: u64,
    pub clean: bool,
}

pub fn next_actions(assessments: &Vec<Assessment>) -> (n: NextActions)
    ensures
        n.archive == verdict_count(assessments@, Verdict::Archive),
        n.prototype == verdict_count(assessments@, Verdict::Prototype),
        n.no_remote == verdict_count(assessments@, Verdict::NoRemote),
        n.clean == (n.archive == 0 && n.prototype == 0),
{
    let archive = count_verdict(assessments, Verdict::Archive);
    let prototype = count_verdict(assessments, Verdict::Prototype);
    let no_remote = count_verdict(assessments, Verdict::NoRemote);
    NextActions { archive, prototype, no_remote, clean: archive == 0 && prototype == 0 }
}

} // verus!
