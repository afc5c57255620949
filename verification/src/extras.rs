//! The extras tar: what of a repository's local state travels beside its
//! bundle (untracked files, custom hooks, `.git/config` and
//! `.git/config.worktree`), the names its entries carry, and where each entry
//! goes back on restore.
use vstd::prelude::*;
use crate::git::pair_views;
use crate::paths::{join, spec_join};
use crate::text::{chars_eq, chars_of, concat, has_prefix, slice, starts_with, string_of};

verus! {

/// What an entry of the extras tar holds.
#[derive(PartialEq, Eq, Structural, Clone, Copy, Debug)]
pub enum ExtrasKind {
    /// A file of the work tree that git does not track.
    Untracked,
    /// A hook script.
    Hook,
    /// A file of the `.git` directory (`config`, `config.worktree`).
    GitFile,
}

/// The directory of the tar that holds each kind.
pub open spec fn kind_prefix(k: ExtrasKind) -> Seq<char> {
    match k {
        ExtrasKind::Untracked => "untracked/"@,
        ExtrasKind::Hook => "hooks/"@,
        ExtrasKind::GitFile => "git/"@,
    }
}

fn kind_prefix_exec(k: ExtrasKind) -> (s: &'static str)
    ensures
        s@ == kind_prefix(k),
{
    match k {
        ExtrasKind::Untracked => "untracked/",
        ExtrasKind::Hook => "hooks/",
        ExtrasKind::GitFile => "git/",
    }
}

/// The name of the tar entry for the file `rel` of kind `k`.
pub fn entry_name(k: ExtrasKind, rel: &str) -> (r: String)
    ensures
        r@ == kind_prefix(k) + rel@,
{
    concat(kind_prefix_exec(k), rel)
}

/// What a tar entry named `name` is: its kind and the path under that kind's
/// directory; `None` for an entry under none of them.
pub open spec fn spec_entry_kind(name: Seq<char>) -> Option<(ExtrasKind, Seq<char>)> {
    if starts_with(name, "untracked/"@) {
        Some((ExtrasKind::Untracked, name.skip(10)))
    } else if starts_with(name, "hooks/"@) {
        Some((ExtrasKind::Hook, name.skip(6)))
    } else if starts_with(name, "git/"@) {
        Some((ExtrasKind::GitFile, name.skip(4)))
    } else {
        None
    }
}

pub fn entry_kind(name: &str) -> (r: Option<(ExtrasKind, String)>)
    ensures
        match r {
            Some((k, rel)) => spec_entry_kind(name@) == Some((k, rel@)),
            None => spec_entry_kind(name@) is None,
        },
{
    proof {
        reveal_strlit("untracked/");
        reveal_strlit("hooks/");
        reveal_strlit("git/");
    }
    let c = chars_of(name);
    if has_prefix(&c, &chars_of("untracked/")) {
        let rest = slice(&c, 10, c.len());
        assert(rest@ =~= name@.skip(10));
        Some((ExtrasKind::Untracked, string_of(rest.as_slice())))
    } else if has_prefix(&c, &chars_of("hooks/")) {
        let rest = slice(&c, 6, c.len());
        assert(rest@ =~= name@.skip(6));
        Some((ExtrasKind::Hook, string_of(rest.as_slice())))
    } else if has_prefix(&c, &chars_of("git/")) {
        let rest = slice(&c, 4, c.len());
        assert(rest@ =~= name@.skip(4));
        Some((ExtrasKind::GitFile, string_of(rest.as_slice())))
    } else {
        None
    }
}

/// Reading back the name of an entry gives the kind and path it was
/// written with.
pub proof fn law_entry_round_trip(k: ExtrasKind, rel: Seq<char>)
    ensures
        spec_entry_kind(kind_prefix(k) + rel) == Some((k, rel)),
{
    reveal_strlit("untracked/");
    reveal_strlit("hooks/");
    reveal_strlit("git/");
    let n = kind_prefix(k) + rel;
    match k {
        ExtrasKind::Untracked => {
            assert(n.take(10) =~= "untracked/"@);
            assert(n.skip(10) =~= rel);
        },
        ExtrasKind::Hook => {
            assert(n.take(6) =~= "hooks/"@);
            assert(n[0] == 'h');
            assert(n.skip(6) =~= rel);
        },
        ExtrasKind::GitFile => {
            assert(n.take(4) =~= "git/"@);
            assert(n[0] == 'g');
            assert(n.skip(4) =~= rel);
        },
    }
}

/// Where a restored entry goes in the repository at `repo`: untracked files
/// into the work tree, hooks into `.git/hooks`, the others into `.git`.
pub open spec fn spec_restore_target(repo: Seq<char>, k: ExtrasKind, rel: Seq<char>) -> Seq<char> {
    match k {
        ExtrasKind::Untracked => spec_join(repo, rel),
        ExtrasKind::Hook => spec_join(spec_join(repo, ".git/hooks"@), rel),
        ExtrasKind::GitFile => spec_join(spec_join(repo, ".git"@), rel),
    }
}

pub fn restore_target(repo: &str, k: ExtrasKind, rel: &str) -> (r: String)
    ensures
        r@ == spec_restore_target(repo@, k, rel@),
{
    match k {
        ExtrasKind::Untracked => join(repo, rel),
        ExtrasKind::Hook => join(join(repo, ".git/hooks").as_str(), rel),
        ExtrasKind::GitFile => join(join(repo, ".git").as_str(), rel),
    }
}

/// An entry of the extras tar: its name in the tar and the path of the file
/// it is read from, relative to the repository.
pub struct ExtrasEntry {
    pub name: String,
    pub source: String,
}

pub open spec fn extras_views(v: Seq<ExtrasEntry>) -> Seq<(Seq<char>, Seq<char>)> {
    v.map_values(|e: ExtrasEntry| (e.name@, e.source@))
}

/// The entries for the untracked files `untracked` (paths in the work tree),
/// the hook scripts `hooks` (name, and the path it is read from, which may
/// lie outside the repository when `core.hooksPath` points there), and
/// `.git/config` and `.git/config.worktree` when they exist, in that order.
pub open spec fn spec_extras_plan(
    untracked: Seq<Seq<char>>,
    hooks: Seq<(Seq<char>, Seq<char>)>,
    has_config: bool,
    has_config_worktree: bool,
) -> Seq<(Seq<char>, Seq<char>)> {
    untracked.map_values(|u: Seq<char>| (kind_prefix(ExtrasKind::Untracked) + u, u)) + hooks.map_values(
        |h: (Seq<char>, Seq<char>)| (kind_prefix(ExtrasKind::Hook) + h.0, h.1),
    ) + (if has_config {
        seq![(kind_prefix(ExtrasKind::GitFile) + "config"@, ".git/config"@)]
    } else {
        seq![]
    }) + (if has_config_worktree {
        seq![(kind_prefix(ExtrasKind::GitFile) + "config.worktree"@, ".git/config.worktree"@)]
    } else {
        seq![]
    })
}

/// The plan captures everything it is given, in order: an entry
/// `untracked/<path>` read from `<path>` for each untracked file, then an
/// entry `hooks/<name>` read from its path for each hook, then
/// `git/config` read from `.git/config` when that file exists, then
/// `git/config.worktree` read from `.git/config.worktree` when that exists,
/// and nothing else.
pub proof fn law_extras_plan_captures_everything(
    untracked: Seq<Seq<char>>,
    hooks: Seq<(Seq<char>, Seq<char>)>,
    has_config: bool,
    has_config_worktree: bool,
)
    ensures
        ({
            let plan = spec_extras_plan(untracked, hooks, has_config, has_config_worktree);
            let n = untracked.len() + hooks.len() as int;
            &&& plan.len() == n + (if has_config { 1int } else { 0int }) + (if has_config_worktree {
                1int
            } else {
                0int
            })
            &&& forall|i: int|
                0 <= i < untracked.len() ==> #[trigger] plan[i] == ("untracked/"@ + untracked[i], untracked[i])
            &&& forall|j: int|
                0 <= j < hooks.len() ==> #[trigger] plan[untracked.len() + j] == ("hooks/"@ + hooks[j].0, hooks[j].1)
            &&& has_config ==> plan[n] == ("git/config"@, ".git/config"@)
            &&& has_config_worktree ==> plan.last() == ("git/config.worktree"@, ".git/config.worktree"@)
            &&& has_config_worktree ==> plan.contains(("git/config.worktree"@, ".git/config.worktree"@))
        }),
{
    reveal_strlit("untracked/");
    reveal_strlit("hooks/");
    reveal_strlit("git/");
    reveal_strlit("config");
    reveal_strlit("config.worktree");
    reveal_strlit("git/config");
    reveal_strlit("git/config.worktree");
    assert("git/"@ + "config"@ =~= "git/config"@);
    assert("git/"@ + "config.worktree"@ =~= "git/config.worktree"@);
    let plan = spec_extras_plan(untracked, hooks, has_config, has_config_worktree);
    let n = untracked.len() + hooks.len() as int;
    let a = untracked.map_values(|u: Seq<char>| (kind_prefix(ExtrasKind::Untracked) + u, u));
    let b = hooks.map_values(|h: (Seq<char>, Seq<char>)| (kind_prefix(ExtrasKind::Hook) + h.0, h.1));
    assert forall|j: int| 0 <= j < hooks.len() implies #[trigger] plan[untracked.len() + j] == (
    "hooks/"@ + hooks[j].0, hooks[j].1) by {
        assert((a + b)[untracked.len() + j] == b[j]);
    }
    if has_config_worktree {
        assert(plan[plan.len() - 1] == plan.last());
        assert(plan.contains(plan.last()));
    }
}

/// What goes into the extras tar (see `spec_extras_plan`).
pub fn extras_plan(
    untracked: &Vec<String>,
    hooks: &Vec<(String, String)>,
    has_config: bool,
    has_config_worktree: bool,
) -> (r: Vec<ExtrasEntry>)
    ensures
        extras_views(r@) == spec_extras_plan(
            untracked@.map_values(|s: String| s@),
            pair_views(hooks@),
            has_config,
            has_config_worktree,
        ),
{
    let ghost uv = untracked@.map_values(|s: String| s@);
    let ghost hv = pair_views(hooks@);
    let mut r: Vec<ExtrasEntry> = Vec::new();
    let mut k: usize = 0;
    while k < untracked.len()
        invariant
            k <= untracked.len(),
            uv == untracked@.map_values(|s: String| s@),
            extras_views(r@) == uv.take(k as int).map_values(
                |u: Seq<char>| (kind_prefix(ExtrasKind::Untracked) + u, u),
            ),
        decreases untracked.len() - k,
    {
        let e = ExtrasEntry {
            name: entry_name(ExtrasKind::Untracked, untracked[k].as_str()),
            source: untracked[k].clone(),
        };
        let ghost before = r@;
        r.push(e);
        proof {
            assert(extras_views(r@) =~= extras_views(before).push((e.name@, e.source@)));
            assert(uv.take(k + 1) =~= uv.take(k as int).push(uv[k as int]));
        }
        k = k + 1;
        assert(extras_views(r@) =~= uv.take(k as int).map_values(
            |u: Seq<char>| (kind_prefix(ExtrasKind::Untracked) + u, u),
        ));
    }
    assert(uv.take(k as int) =~= uv);
    let ghost first = extras_views(r@);
    let mut j: usize = 0;
    while j < hooks.len()
        invariant
            j <= hooks.len(),
            hv == pair_views(hooks@),
            extras_views(r@) == first + hv.take(j as int).map_values(
                |h: (Seq<char>, Seq<char>)| (kind_prefix(ExtrasKind::Hook) + h.0, h.1),
            ),
        decreases hooks.len() - j,
    {
        let e = ExtrasEntry { name: entry_name(ExtrasKind::Hook, hooks[j].0.as_str()), source: hooks[j].1.clone() };
        let ghost before = r@;
        r.push(e);
        proof {
            assert(extras_views(r@) =~= extras_views(before).push((e.name@, e.source@)));
            assert(hv.take(j + 1) =~= hv.take(j as int).push(hv[j as int]));
        }
        j = j + 1;
        assert(extras_views(r@) =~= first + hv.take(j as int).map_values(
            |h: (Seq<char>, Seq<char>)| (kind_prefix(ExtrasKind::Hook) + h.0, h.1),
        ));
    }
    assert(hv.take(j as int) =~= hv);
    let ghost second = extras_views(r@);
    if has_config {
        let e = ExtrasEntry {
            name: entry_name(ExtrasKind::GitFile, "config"),
            source: string_of(chars_of(".git/config").as_slice()),
        };
        r.push(e);
        assert(extras_views(r@) =~= second + seq![(e.name@, e.source@)]);
    } else {
        assert(extras_views(r@) =~= second + Seq::<(Seq<char>, Seq<char>)>::empty());
    }
    let ghost third = extras_views(r@);
    if has_config_worktree {
        let e = ExtrasEntry {
            name: entry_name(ExtrasKind::GitFile, "config.worktree"),
            source: string_of(chars_of(".git/config.worktree").as_slice()),
        };
        r.push(e);
        assert(extras_views(r@) =~= third + seq![(e.name@, e.source@)]);
    } else {
        assert(extras_views(r@) =~= third + Seq::<(Seq<char>, Seq<char>)>::empty());
    }
    r
}

/// The names of the entries of a plan, in order.
pub open spec fn plan_names(plan: Seq<ExtrasEntry>) -> Seq<Seq<char>> {
    plan.map_values(|e: ExtrasEntry| e.name@)
}

/// Whether the entry names read back from a written extras tar are exactly
/// those of the plan it was written from, in the same order.
pub fn extras_match(plan: &Vec<ExtrasEntry>, names_read: &Vec<String>) -> (b: bool)
    ensures
        b == (names_read@.map_values(|s: String| s@) == plan_names(plan@)),
{
    let ghost read = names_read@.map_values(|s: String| s@);
    let ghost want = plan_names(plan@);
    if names_read.len() != plan.len() {
        assert(read.len() != want.len());
        return false;
    }
    let mut k: usize = 0;
    while k < plan.len()
        invariant
            k <= plan.len(),
            names_read.len() == plan.len(),
            read == names_read@.map_values(|s: String| s@),
            want == plan_names(plan@),
            forall|i: int| 0 <= i < k ==> read[i] == want[i],
        decreases plan.len() - k,
    {
        if !chars_eq(&chars_of(names_read[k].as_str()), &chars_of(plan[k].name.as_str())) {
            assert(read[k as int] != want[k as int]);
            return false;
        }
        k = k + 1;
    }
    assert(read =~= want);
    true
}

} // verus!
