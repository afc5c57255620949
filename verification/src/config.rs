//! ward's configuration (`~/.ward/config.toml`) and the exclusion list that a
//! run builds from it and from the command line.
//!
//! Reading and writing the TOML file is the caller's part; here are the values
//! it holds, their defaults, and what ward derives from them.
use vstd::prelude::*;
use crate::paths::{join, path_starts_with, resolves_as, spec_join, spec_path_starts_with};
use crate::text::{chars_of, slice, string_of, string_views};

verus! {

/// `[workspace]`: the default root to scan.
pub struct Workspace {
    pub root: Option<String>,
}

/// `[thresholds]`: the limits by which repositories are classified.
pub struct Thresholds {
    pub archive_stale_days: i64,
    pub prototype_max_commits: u64,
    pub prototype_max_authors: u64,
    pub prototype_max_lifetime_days: i64,
}

/// `[[artefact_rules]]`: a user-defined build-artefact directory name.
pub struct CustomArtefactRule {
    pub name: String,
    pub ecosystem: String,
    pub requires_sibling: Vec<String>,
}

/// `[exclude]`: paths never to touch.
pub struct Exclude {
    pub paths: Vec<String>,
}

pub struct Config {
    pub workspace: Workspace,
    pub thresholds: Thresholds,
    pub artefact_rules: Vec<CustomArtefactRule>,
    pub exclude: Exclude,
}

/// The exclusion options of the command line: `--exclude PATH` (repeatable)
/// and `--skip-active-sessions`.
pub struct ExcludeOpts {
    pub exclude: Vec<String>,
    pub skip_active_sessions: bool,
}

/// The paths that a run leaves alone, with everything under them.
pub struct Exclusions {
    paths: Vec<String>,
}

impl Default for Workspace {
    fn default() -> (w: Self)
        ensures
            w.root is None,
    {
        Workspace { root: None }
    }
}

impl Default for Thresholds {
    fn default() -> (t: Self)
        ensures
            t.archive_stale_days == 90,
            t.prototype_max_commits == 10,
            t.prototype_max_authors == 1,
            t.prototype_max_lifetime_days == 30,
    {
        Thresholds {
            archive_stale_days: 90,
            prototype_max_commits: 10,
            prototype_max_authors: 1,
            prototype_max_lifetime_days: 30,
        }
    }
}

impl Clone for Thresholds {
    fn clone(&self) -> (t: Self)
        ensures
            t == *self,
    {
        Thresholds {
            archive_stale_days: self.archive_stale_days,
            prototype_max_commits: self.prototype_max_commits,
            prototype_max_authors: self.prototype_max_authors,
            prototype_max_lifetime_days: self.prototype_max_lifetime_days,
        }
    }
}

impl Default for Exclude {
    fn default() -> (e: Self)
        ensures
            e.paths@.len() == 0,
    {
        Exclude { paths: Vec::new() }
    }
}

impl Default for Config {
    fn default() -> (c: Self)
        ensures
            c.workspace.root is None,
            c.thresholds.archive_stale_days == 90,
            c.thresholds.prototype_max_commits == 10,
            c.thresholds.prototype_max_authors == 1,
            c.thresholds.prototype_max_lifetime_days == 30,
            c.artefact_rules@.len() == 0,
            c.exclude.paths@.len() == 0,
    {
        Config {
            workspace: Workspace::default(),
            thresholds: Thresholds::default(),
            artefact_rules: Vec::new(),
            exclude: Exclude::default(),
        }
    }
}

impl Default for ExcludeOpts {
    fn default() -> (o: Self)
        ensures
            o.exclude@.len() == 0,
            !o.skip_active_sessions,
    {
        ExcludeOpts { exclude: Vec::new(), skip_active_sessions: false }
    }
}

/// `~/x` is `x` under `home`, `~` is `home`, anything else is itself.
pub open spec fn spec_expand_tilde(s: Seq<char>, home: Seq<char>) -> Seq<char> {
    if s.len() >= 2 && s[0] == '~' && s[1] == '/' {
        spec_join(home, s.skip(2))
    } else if s == seq!['~'] {
        home
    } else {
        s
    }
}

/// Expands a leading `~` to the home directory `home`.
pub fn expand_tilde(s: &str, home: &str) -> (r: String)
    ensures
        r@ == spec_expand_tilde(s@, home@),
{
    let cs = chars_of(s);
    if cs.len() >= 2 && cs[0] == '~' && cs[1] == '/' {
        let rest = slice(&cs, 2, cs.len());
        let rest_s = string_of(rest.as_slice());
        assert(rest_s@ =~= s@.skip(2));
        join(home, rest_s.as_str())
    } else if cs.len() == 1 && cs[0] == '~' {
        assert(s@ =~= seq!['~']);
        string_of(chars_of(home).as_slice())
    } else {
        proof {
            if s@ == seq!['~'] {
                assert(s@[0] == '~');
            }
        }
        string_of(cs.as_slice())
    }
}

/// `p` with `~` expanded, then made canonical by a lookup that answers as
/// `d`; when the lookup finds nothing, the expanded path itself.
pub open spec fn spec_canonical(p: Seq<char>, home: Seq<char>, d: spec_fn(Seq<char>) -> Option<Seq<char>>) -> Seq<
    char,
> {
    match d(spec_expand_tilde(p, home)) {
        Some(c) => c,
        None => spec_expand_tilde(p, home),
    }
}

/// An `--exclude` path as the exclusion list holds it: `~` expanded, then
/// made canonical by `resolve` (which stands for `Path::canonicalize`); when
/// that fails, the expanded path itself.
pub fn canonicalise<F: Fn(&str) -> Option<String>>(p: &str, home: &str, resolve: &F) -> (r: String)
    requires
        forall|q: &str| #[trigger] call_requires(*resolve, (q,)),
    ensures
        forall|d: spec_fn(Seq<char>) -> Option<Seq<char>>|
            #[trigger] resolves_as(resolve, d) ==> r@ == spec_canonical(p@, home@, d),
{
    let e = expand_tilde(p, home);
    match resolve(e.as_str()) {
        Some(c) => c,
        None => e,
    }
}

/// ward's own directory under the home directory.
pub open spec fn spec_ward_home(home: Seq<char>) -> Seq<char> {
    spec_join(home, ".ward"@)
}

impl Config {
    /// Where the configuration file lives: `~/.ward/config.toml`.
    pub fn path(home: &str) -> (p: String)
        ensures
            p@ == spec_join(spec_ward_home(home@), "config.toml"@),
    {
        let ward = join(home, ".ward");
        join(ward.as_str(), "config.toml")
    }

    /// The configured workspace root, with `~` expanded.
    pub fn workspace_root(&self, home: &str) -> (r: Option<String>)
        ensures
            r is Some == self.workspace.root is Some,
            r is Some ==> r->0@ == spec_expand_tilde(self.workspace.root->0@, home@),
    {
        match &self.workspace.root {
            Some(s) => Some(expand_tilde(s.as_str(), home)),
            None => None,
        }
    }
}

impl View for Exclusions {
    type V = Seq<Seq<char>>;

    closed spec fn view(&self) -> Seq<Seq<char>> {
        string_views(self.paths@)
    }
}

impl Exclusions {
    /// The exclusion list of a run: the configured `[exclude]` paths with `~`
    /// expanded, then the `--exclude` paths made canonical by `resolve` (see
    /// `canonicalise`), in order, then, with `--skip-active-sessions`, the
    /// repositories of the active sessions (`active`).
    pub fn build<F: Fn(&str) -> Option<String>>(
        cfg: &Config,
        opts: &ExcludeOpts,
        home: &str,
        resolve: &F,
        active: Vec<String>,
    ) -> (e: Self)
        requires
            forall|q: &str| #[trigger] call_requires(*resolve, (q,)),
        ensures
            e@.len() == cfg.exclude.paths.len() + opts.exclude.len() + (if opts.skip_active_sessions {
                active.len() as int
            } else {
                0
            }),
            forall|d: spec_fn(Seq<char>) -> Option<Seq<char>>|
                #[trigger] resolves_as(resolve, d) ==> e@ == cfg.exclude.paths@.map_values(
                    |p: String| spec_expand_tilde(p@, home@),
                ) + opts.exclude@.map_values(|p: String| spec_canonical(p@, home@, d)) + (
                if opts.skip_active_sessions {
                    string_views(active@)
                } else {
                    Seq::<Seq<char>>::empty()
                }),
    {
        let mut paths: Vec<String> = Vec::new();
        let mut k: usize = 0;
        while k < cfg.exclude.paths.len()
            invariant
                k <= cfg.exclude.paths.len(),
                string_views(paths@) == cfg.exclude.paths@.take(k as int).map_values(
                    |p: String| spec_expand_tilde(p@, home@),
                ),
            decreases cfg.exclude.paths.len() - k,
        {
            let e = expand_tilde(cfg.exclude.paths[k].as_str(), home);
            assert(string_views(paths@.push(e)) =~= string_views(paths@).push(e@));
            paths.push(e);
            k = k + 1;
            assert(string_views(paths@) =~= cfg.exclude.paths@.take(k as int).map_values(
                |p: String| spec_expand_tilde(p@, home@),
            ));
        }
        assert(cfg.exclude.paths@.take(k as int) =~= cfg.exclude.paths@);
        let ghost base = string_views(paths@);
        let mut j: usize = 0;
        while j < opts.exclude.len()
            invariant
                j <= opts.exclude.len(),
                forall|q: &str| #[trigger] call_requires(*resolve, (q,)),
                base.len() == cfg.exclude.paths.len(),
                paths.len() == base.len() + j,
                string_views(paths@).take(base.len() as int) == base,
                forall|d: spec_fn(Seq<char>) -> Option<Seq<char>>|
                    #[trigger] resolves_as(resolve, d) ==> string_views(paths@).skip(base.len() as int)
                        == opts.exclude@.take(j as int).map_values(|p: String| spec_canonical(p@, home@, d)),
            decreases opts.exclude.len() - j,
        {
            let c = canonicalise(opts.exclude[j].as_str(), home, resolve);
            let ghost before = string_views(paths@);
            paths.push(c);
            proof {
                assert(string_views(paths@) =~= before.push(c@));
                assert(string_views(paths@).take(base.len() as int) =~= before.take(base.len() as int));
                assert forall|d: spec_fn(Seq<char>) -> Option<Seq<char>>|
                    #[trigger] resolves_as(resolve, d) implies string_views(paths@).skip(base.len() as int)
                        == opts.exclude@.take(j + 1).map_values(|p: String| spec_canonical(p@, home@, d)) by {
                    assert(string_views(paths@).skip(base.len() as int) =~= before.skip(base.len() as int).push(c@));
                    assert(opts.exclude@.take(j + 1) =~= opts.exclude@.take(j as int).push(opts.exclude@[j as int]));
                    assert(opts.exclude@.take(j + 1).map_values(|p: String| spec_canonical(p@, home@, d))
                        =~= opts.exclude@.take(j as int).map_values(|p: String| spec_canonical(p@, home@, d)).push(
                        spec_canonical(opts.exclude@[j as int]@, home@, d),
                    ));
                }
            }
            j = j + 1;
        }
        assert(opts.exclude@.take(j as int) =~= opts.exclude@);
        let ghost mid = string_views(paths@);
        let mut active = active;
        let ghost act_v = string_views(active@);
        if opts.skip_active_sessions {
            paths.append(&mut active);
            assert(string_views(paths@) =~= mid + act_v);
        } else {
            assert(string_views(paths@) =~= mid + Seq::<Seq<char>>::empty());
        }
        proof {
            assert forall|d: spec_fn(Seq<char>) -> Option<Seq<char>>|
                #[trigger] resolves_as(resolve, d) implies string_views(paths@) == base + opts.exclude@.map_values(
                    |p: String| spec_canonical(p@, home@, d),
                ) + (if opts.skip_active_sessions {
                    act_v
                } else {
                    Seq::<Seq<char>>::empty()
                }) by {
                assert(mid =~= mid.take(base.len() as int) + mid.skip(base.len() as int));
            }
        }
        Exclusions { paths }
    }

    pub fn is_empty(&self) -> (b: bool)
        ensures
            b == (self@.len() == 0),
    {
        self.paths.len() == 0
    }

    /// Whether `path` lies at or under one of the excluded paths.
    pub fn is_excluded(&self, path: &str) -> (b: bool)
        ensures
            b == exists|i: int|
                0 <= i < self@.len() && spec_path_starts_with(path@, #[trigger] self@[i]),
    {
        let mut k: usize = 0;
        while k < self.paths.len()
            invariant
                k <= self.paths.len(),
                forall|i: int| 0 <= i < k ==> !spec_path_starts_with(path@, #[trigger] self@[i]),
            decreases self.paths.len() - k,
        {
            assert(self@[k as int] == self.paths@[k as int]@);
            if path_starts_with(path, self.paths[k].as_str()) {
                return true;
            }
            k = k + 1;
        }
        false
    }
}

} // verus!
