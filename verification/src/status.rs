//! The status report: how much of a workspace is build artefacts, which
//! repositories have gone longest without a commit, and how many are ready
//! to archive.
use vstd::prelude::*;
use crate::archive::last_commit_keys;
use crate::assess::{Assessment, Verdict};
use crate::clean::{
    names_rule, spec_builtin_rules, spec_builtin_rules_a, spec_builtin_rules_b, spec_builtin_rules_c,
    RuleView,
};
use crate::order::{is_stable_order, opt_day_key_exec, stable_order};
use crate::report::{count_verdict, verdict_count};
use crate::text::{chars_eq, chars_of};

verus! {

/// The directory names that status counts as build artefacts.
pub open spec fn artifact_dirs() -> Seq<Seq<char>> {
    seq![
        "target"@,
        "node_modules"@,
        ".next"@,
        "dist"@,
        "__pycache__"@,
        ".gradle"@,
        "build"@,
        ".turbo"@,
        ".vite"@,
        ".parcel-cache"@,
        ".swc"@,
        ".pnpm-store"@,
        ".venv"@,
        ".export-venv"@,
        "venv"@,
        ".ruff_cache"@,
        ".mypy_cache"@,
        ".pytest_cache"@,
        ".tox"@,
        ".nox"@,
        "zig-cache"@,
        "zig-out"@,
        ".dart_tool"@,
        "DerivedData"@,
    ]
}

fn artifact_dir_names() -> (r: Vec<&'static str>)
    ensures
        r@.map_values(|s: &str| s@) == artifact_dirs(),
{
    let r = vec![
        "target",
        "node_modules",
        ".next",
        "dist",
        "__pycache__",
        ".gradle",
        "build",
        ".turbo",
        ".vite",
        ".parcel-cache",
        ".swc",
        ".pnpm-store",
        ".venv",
        ".export-venv",
        "venv",
        ".ruff_cache",
        ".mypy_cache",
        ".pytest_cache",
        ".tox",
        ".nox",
        "zig-cache",
        "zig-out",
        ".dart_tool",
        "DerivedData",
    ];
    assert(r@.map_values(|s: &str| s@) =~= artifact_dirs());
    r
}

/// Whether `name` is one of the artefact directory names.
pub fn is_artifact_dir(name: &str) -> (b: bool)
    ensures
        b == artifact_dirs().contains(name@),
{
    let names = artifact_dir_names();
    let n = chars_of(name);
    let mut k: usize = 0;
    while k < names.len()
        invariant
            k <= names.len(),
            n@ == name@,
            names@.map_values(|s: &str| s@) == artifact_dirs(),
            forall|j: int| 0 <= j < k ==> artifact_dirs()[j] != name@,
        decreases names.len() - k,
    {
        assert(artifact_dirs()[k as int] == names@[k as int]@);
        if chars_eq(&chars_of(names[k]), &n) {
            return true;
        }
        k = k + 1;
    }
    assert(!artifact_dirs().contains(name@)) by {
        if artifact_dirs().contains(name@) {
            let j = choose|j: int| 0 <= j < artifact_dirs().len() && artifact_dirs()[j] == name@;
            assert(j < k);
        }
    }
    false
}

/// What the disk-usage walk does with an entry.
#[derive(PartialEq, Eq, Structural, Clone, Copy, Debug)]
pub enum UsageStep {
    /// Not a directory: nothing to do.
    Ignore,
    /// An artefact directory: add its size, do not walk into it.
    Artefact,
    /// A hidden directory below the root: do not walk into it.
    Prune,
    /// Walk into it.
    Descend,
}

pub open spec fn spec_usage_step(name: Seq<char>, depth: nat, is_dir: bool) -> UsageStep {
    if !is_dir {
        UsageStep::Ignore
    } else if artifact_dirs().contains(name) {
        UsageStep::Artefact
    } else if name.len() > 0 && name[0] == '.' && depth > 0 {
        UsageStep::Prune
    } else {
        UsageStep::Descend
    }
}

/// A built-in `clean` rule for a directory of a fixed name that needs no
/// sibling and no child.
pub open spec fn unconditional_dir_rule(r: RuleView) -> bool {
    !r.any_name && !r.is_file && r.requires_sibling.len() == 0 && r.requires_child.len() == 0
}

/// Every directory that `clean` always treats as a build artefact (a
/// built-in rule with no sibling or child requirement names it) is counted
/// as build artefacts by status, at any depth: `node_modules`,
/// `__pycache__`, `.venv` and the like.
pub proof fn law_status_counts_unconditional_clean_artefacts(i: int, depth: nat)
    requires
        0 <= i < spec_builtin_rules().len(),
        unconditional_dir_rule(spec_builtin_rules()[i]),
    ensures
        artifact_dirs().contains(spec_builtin_rules()[i].name),
        spec_usage_step(spec_builtin_rules()[i].name, depth, true) == UsageStep::Artefact,
{
    let r = spec_builtin_rules();
    assert(r =~= spec_builtin_rules_a() + spec_builtin_rules_b() + spec_builtin_rules_c());
    if i == 0 {
        assert(!unconditional_dir_rule(r[0]));
    } else if i == 1 {
        assert(artifact_dirs()[1] == r[1].name);
    } else if i == 2 {
        assert(artifact_dirs()[2] == r[2].name);
    } else if i == 3 {
        assert(artifact_dirs()[7] == r[3].name);
    } else if i == 4 {
        assert(artifact_dirs()[8] == r[4].name);
    } else if i == 5 {
        assert(artifact_dirs()[9] == r[5].name);
    } else if i == 6 {
        assert(artifact_dirs()[10] == r[6].name);
    } else if i == 7 {
        assert(artifact_dirs()[11] == r[7].name);
    } else if i == 8 {
        assert(!unconditional_dir_rule(r[8]));
    } else if i == 9 {
        assert(!unconditional_dir_rule(r[9]));
    } else if i == 10 {
        assert(artifact_dirs()[5] == r[10].name);
    } else if i == 11 {
        assert(artifact_dirs()[4] == r[11].name);
    } else if i == 12 {
        assert(artifact_dirs()[12] == r[12].name);
    } else if i == 13 {
        assert(artifact_dirs()[13] == r[13].name);
    } else if i == 14 {
        assert(!unconditional_dir_rule(r[14]));
    } else if i == 15 {
        assert(artifact_dirs()[15] == r[15].name);
    } else if i == 16 {
        assert(artifact_dirs()[16] == r[16].name);
    } else if i == 17 {
        assert(artifact_dirs()[17] == r[17].name);
    } else if i == 18 {
        assert(artifact_dirs()[18] == r[18].name);
    } else if i == 19 {
        assert(artifact_dirs()[19] == r[19].name);
    } else if i == 20 {
        assert(!unconditional_dir_rule(r[20]));
    } else if i == 21 {
        assert(artifact_dirs()[20] == r[21].name);
    } else if i == 22 {
        assert(artifact_dirs()[21] == r[22].name);
    } else if i == 23 {
        assert(artifact_dirs()[22] == r[23].name);
    } else if i == 24 {
        assert(artifact_dirs()[23] == r[24].name);
    } else if i == 25 {
        assert(!unconditional_dir_rule(r[25]));
    } else if i == 26 {
        assert(!unconditional_dir_rule(r[26]));
    } else if i == 27 {
        assert(!unconditional_dir_rule(r[27]));
    } else if i == 28 {
        assert(!unconditional_dir_rule(r[28]));
    } else if i == 29 {
        assert(!unconditional_dir_rule(r[29]));
    } else if i == 30 {
        assert(!unconditional_dir_rule(r[30]));
    }
}

/// Every directory that status counts as build artefacts is named by a
/// built-in `clean` rule.
pub proof fn law_status_artefacts_are_clean_artefacts(j: int)
    requires
        0 <= j < artifact_dirs().len(),
    ensures
        names_rule(spec_builtin_rules(), artifact_dirs()[j]),
{
    let r = spec_builtin_rules();
    assert(r =~= spec_builtin_rules_a() + spec_builtin_rules_b() + spec_builtin_rules_c());
    if j == 0 {
        assert(!r[0].any_name && r[0].name == artifact_dirs()[0]);
    } else if j == 1 {
        assert(!r[1].any_name && r[1].name == artifact_dirs()[1]);
    } else if j == 2 {
        assert(!r[2].any_name && r[2].name == artifact_dirs()[2]);
    } else if j == 3 {
        assert(!r[8].any_name && r[8].name == artifact_dirs()[3]);
    } else if j == 4 {
        assert(!r[11].any_name && r[11].name == artifact_dirs()[4]);
    } else if j == 5 {
        assert(!r[10].any_name && r[10].name == artifact_dirs()[5]);
    } else if j == 6 {
        assert(!r[9].any_name && r[9].name == artifact_dirs()[6]);
    } else if j == 7 {
        assert(!r[3].any_name && r[3].name == artifact_dirs()[7]);
    } else if j == 8 {
        assert(!r[4].any_name && r[4].name == artifact_dirs()[8]);
    } else if j == 9 {
        assert(!r[5].any_name && r[5].name == artifact_dirs()[9]);
    } else if j == 10 {
        assert(!r[6].any_name && r[6].name == artifact_dirs()[10]);
    } else if j == 11 {
        assert(!r[7].any_name && r[7].name == artifact_dirs()[11]);
    } else if j == 12 {
        assert(!r[12].any_name && r[12].name == artifact_dirs()[12]);
    } else if j == 13 {
        assert(!r[13].any_name && r[13].name == artifact_dirs()[13]);
    } else if j == 14 {
        assert(!r[14].any_name && r[14].name == artifact_dirs()[14]);
    } else if j == 15 {
        assert(!r[15].any_name && r[15].name == artifact_dirs()[15]);
    } else if j == 16 {
        assert(!r[16].any_name && r[16].name == artifact_dirs()[16]);
    } else if j == 17 {
        assert(!r[17].any_name && r[17].name == artifact_dirs()[17]);
    } else if j == 18 {
        assert(!r[18].any_name && r[18].name == artifact_dirs()[18]);
    } else if j == 19 {
        assert(!r[19].any_name && r[19].name == artifact_dirs()[19]);
    } else if j == 20 {
        assert(!r[21].any_name && r[21].name == artifact_dirs()[20]);
    } else if j == 21 {
        assert(!r[22].any_name && r[22].name == artifact_dirs()[21]);
    } else if j == 22 {
        assert(!r[23].any_name && r[23].name == artifact_dirs()[22]);
    } else if j == 23 {
        assert(!r[24].any_name && r[24].name == artifact_dirs()[23]);
    }
}

/// Status also counts the directories that `clean` takes only beside a
/// project file: `target`, `dist`, `build` and `venv`.
pub proof fn law_status_counts_project_outputs(depth: nat)
    ensures
        spec_usage_step("target"@, depth, true) == UsageStep::Artefact,
        spec_usage_step("dist"@, depth, true) == UsageStep::Artefact,
        spec_usage_step("build"@, depth, true) == UsageStep::Artefact,
        spec_usage_step("venv"@, depth, true) == UsageStep::Artefact,
{
    assert(artifact_dirs()[0] == "target"@);
    assert(artifact_dirs()[3] == "dist"@);
    assert(artifact_dirs()[6] == "build"@);
    assert(artifact_dirs()[14] == "venv"@);
}

/// The disk-usage walk ignores files, walks into the root and into every
/// directory whose name does not start with `.` unless it is an artefact
/// directory, and leaves hidden directories below the root (`.git` and the
/// like) alone unless they are artefact directories.
pub proof fn law_usage_walk(name: Seq<char>, depth: nat, is_dir: bool)
    ensures
        !is_dir ==> spec_usage_step(name, depth, is_dir) == UsageStep::Ignore,
        is_dir && !artifact_dirs().contains(name) && name.len() > 0 && name[0] == '.' && depth > 0
            ==> spec_usage_step(name, depth, is_dir) == UsageStep::Prune,
        is_dir && !artifact_dirs().contains(name) && (depth == 0 || name.len() == 0 || name[0] != '.')
            ==> spec_usage_step(name, depth, is_dir) == UsageStep::Descend,
        spec_usage_step(name, depth, is_dir) == UsageStep::Artefact ==> is_dir && artifact_dirs().contains(
            name,
        ),
{
}

/// The step for the walk entry `name` at `depth` (the root is at 0).
pub fn usage_step(name: &str, depth: usize, is_dir: bool) -> (r: UsageStep)
    ensures
        r == spec_usage_step(name@, depth as nat, is_dir),
{
    if !is_dir {
        return UsageStep::Ignore;
    }
    if is_artifact_dir(name) {
        return UsageStep::Artefact;
    }
    let c = chars_of(name);
    if c.len() > 0 && c[0] == '.' && depth > 0 {
        UsageStep::Prune
    } else {
        UsageStep::Descend
    }
}

/// The share of `total` that `part` is, in whole percent rounded down; 0
/// for an empty total.
pub fn percent(part: u64, total: u64) -> (r: u128)
    ensures
        r == (if total > 0 {
            (part * 100) / (total as int)
        } else {
            0
        }),
{
    if total > 0 {
        (part as u128 * 100) / (total as u128)
    } else {
        0
    }
}

/// The bytes that are not build artefacts (never below zero).
pub fn source_size(total: u64, artefacts: u64) -> (r: u64)
    ensures
        r == (if total >= artefacts {
            total - artefacts
        } else {
            0
        }),
{
    if total >= artefacts {
        total - artefacts
    } else {
        0
    }
}

/// How many of the stalest repositories status lists.
pub const STALEST_SHOWN: usize = 5;

/// The positions in `ord` of assessments with a known last commit, at most
/// five of them.
pub open spec fn stalest_in(s: Seq<Assessment>, ord: Seq<usize>) -> Seq<usize> {
    let dated = ord.filter(|i: usize| s[i as int].last_commit is Some);
    if dated.len() <= STALEST_SHOWN {
        dated
    } else {
        dated.take(STALEST_SHOWN as int)
    }
}

/// The repositories that have gone longest without a commit, as positions
/// in `assessments`: those with a known last commit, oldest first (equal
/// dates in input order), at most five.
pub fn stalest(assessments: &Vec<Assessment>) -> (r: Vec<usize>)
    ensures
        exists|ord: Seq<usize>|
            #[trigger] is_stable_order(last_commit_keys(assessments@), ord, false) && r@ == stalest_in(
                assessments@,
                ord,
            ),
{
    let mut keys: Vec<u128> = Vec::new();
    let mut k: usize = 0;
    while k < assessments.len()
        invariant
            k <= assessments.len(),
            keys@ == last_commit_keys(assessments@.take(k as int)),
        decreases assessments.len() - k,
    {
        keys.push(opt_day_key_exec(assessments[k].last_commit));
        k = k + 1;
        assert(keys@ =~= last_commit_keys(assessments@.take(k as int)));
    }
    assert(assessments@.take(k as int) =~= assessments@);
    let ord = stable_order(&keys, false);
    let ghost pred = |i: usize| assessments@[i as int].last_commit is Some;
    let mut dated: Vec<usize> = Vec::new();
    let mut j: usize = 0;
    while j < ord.len()
        invariant
            j <= ord.len(),
            ord.len() == assessments.len(),
            forall|i: int| 0 <= i < ord.len() ==> (#[trigger] ord@[i]) < assessments.len(),
            pred == (|i: usize| assessments@[i as int].last_commit is Some),
            dated@ == ord@.take(j as int).filter(pred),
        decreases ord.len() - j,
    {
        let i = ord[j];
        proof {
            assert(ord@.take(j + 1) =~= ord@.take(j as int).push(i));
            ord@.take(j as int).lemma_filter_push(i, pred);
        }
        if assessments[i].last_commit.is_some() {
            dated.push(i);
        }
        j = j + 1;
    }
    assert(ord@.take(j as int) =~= ord@);
    assert(is_stable_order(last_commit_keys(assessments@), ord@, false));
    let mut r: Vec<usize> = Vec::new();
    let mut q: usize = 0;
    while q < dated.len() && q < STALEST_SHOWN
        invariant
            q <= dated.len(),
            q <= STALEST_SHOWN,
            r@ == dated@.take(q as int),
            dated@ == ord@.filter(pred),
            pred == (|i: usize| assessments@[i as int].last_commit is Some),
            is_stable_order(last_commit_keys(assessments@), ord@, false),
        decreases dated.len() - q,
    {
        r.push(dated[q]);
        q = q + 1;
        assert(r@ =~= dated@.take(q as int));
    }
    assert(dated@.len() <= STALEST_SHOWN ==> dated@.take(q as int) =~= dated@);
    assert(r@ == stalest_in(assessments@, ord@));
    r
}

/// How many repositories are ready for archive: archive verdicts and
/// prototypes.
pub fn archivable_count(assessments: &Vec<Assessment>) -> (n: u64)
    ensures
        n == verdict_count(assessments@, Verdict::Archive) + verdict_count(assessments@, Verdict::Prototype),
{
    let len = assessments.len();
    let a = count_verdict(assessments, Verdict::Archive);
    let p = count_verdict(assessments, Verdict::Prototype);
    proof {
        lemma_counts_bounded(assessments@, Verdict::Archive, Verdict::Prototype);
        assert(a + p <= len);
    }
    a + p
}

/// Two different verdicts together count no more repositories than there are.
proof fn lemma_counts_bounded(s: Seq<Assessment>, v: Verdict, w: Verdict)
    requires
        v != w,
    ensures
        verdict_count(s, v) + verdict_count(s, w) <= s.len(),
    decreases s.len(),
{
    if s.len() > 0 {
        lemma_counts_bounded(s.drop_last(), v, w);
    }
}

} // verus!
