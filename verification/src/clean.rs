//! Build artefacts: which directory (or file) entries ward treats as
//! regenerable, the age filter of `--older-than`, and the order of the report.
use vstd::prelude::*;
use crate::config::{Config, CustomArtefactRule};
use crate::git::opt_view;
use crate::order::{is_stable_order, stable_order};
use crate::text::{
    chars_eq, chars_of, ends_with, has_suffix, parse_i64, parse_i64_chars, slice, string_of,
    string_views, trim, trim_chars,
};

verus! {

/// A kind of artefact: an entry of a given name (or of any name), optionally
/// with a sibling matching one of `requires_sibling` (a name, or `*suffix`)
/// and a child named one of `requires_child`.
pub struct ArtifactRule {
    pub name: String,
    pub any_name: bool,
    pub ecosystem: String,
    pub requires_sibling: Vec<String>,
    pub requires_child: Vec<String>,
    pub is_file: bool,
}

pub struct RuleView {
    pub name: Seq<char>,
    pub any_name: bool,
    pub ecosystem: Seq<char>,
    pub requires_sibling: Seq<Seq<char>>,
    pub requires_child: Seq<Seq<char>>,
    pub is_file: bool,
}

impl View for ArtifactRule {
    type V = RuleView;

    open spec fn view(&self) -> RuleView {
        RuleView {
            name: self.name@,
            any_name: self.any_name,
            ecosystem: self.ecosystem@,
            requires_sibling: string_views(self.requires_sibling@),
            requires_child: string_views(self.requires_child@),
            is_file: self.is_file,
        }
    }
}

pub open spec fn rule_views(v: Seq<ArtifactRule>) -> Seq<RuleView> {
    v.map_values(|r: ArtifactRule| r@)
}

pub open spec fn dir_rule(name: Seq<char>, eco: Seq<char>, sib: Seq<Seq<char>>) -> RuleView {
    RuleView {
        name,
        any_name: false,
        ecosystem: eco,
        requires_sibling: sib,
        requires_child: seq![],
        is_file: false,
    }
}

pub open spec fn spec_builtin_rules_a() -> Seq<RuleView> {
    seq![
        dir_rule("target"@, "rust"@, seq!["Cargo.toml"@]),
        dir_rule("node_modules"@, "node"@, seq![]),
        dir_rule(".next"@, "nextjs"@, seq![]),
        dir_rule(".turbo"@, "turbo"@, seq![]),
        dir_rule(".vite"@, "vite"@, seq![]),
        dir_rule(".parcel-cache"@, "parcel"@, seq![]),
        dir_rule(".swc"@, "swc"@, seq![]),
        dir_rule(".pnpm-store"@, "pnpm"@, seq![]),
        dir_rule(
            "dist"@,
            "node"@,
            seq![
                "package.json"@,
                "webpack.config.js"@,
                "vite.config.ts"@,
                "vite.config.js"@,
                "rollup.config.js"@,
            ],
        ),
        dir_rule(
            "build"@,
            "gradle/cmake"@,
            seq!["build.gradle"@, "build.gradle.kts"@, "CMakeLists.txt"@],
        ),
    ]
}

pub open spec fn spec_builtin_rules_b() -> Seq<RuleView> {
    seq![
        dir_rule(".gradle"@, "gradle"@, seq![]),
        dir_rule("__pycache__"@, "python"@, seq![]),
        dir_rule(".venv"@, "python"@, seq![]),
        dir_rule(".export-venv"@, "python"@, seq![]),
        dir_rule("venv"@, "python"@, seq!["pyproject.toml"@, "requirements.txt"@, "setup.py"@]),
        dir_rule(".ruff_cache"@, "python"@, seq![]),
        dir_rule(".mypy_cache"@, "python"@, seq![]),
        dir_rule(".pytest_cache"@, "python"@, seq![]),
        dir_rule(".tox"@, "python"@, seq![]),
        dir_rule(".nox"@, "python"@, seq![]),
    ]
}

pub open spec fn spec_builtin_rules_c() -> Seq<RuleView> {
    seq![
        dir_rule("out"@, "go"@, seq!["go.mod"@]),
        dir_rule("zig-cache"@, "zig"@, seq![]),
        dir_rule("zig-out"@, "zig"@, seq![]),
        dir_rule(".dart_tool"@, "dart"@, seq![]),
        dir_rule("DerivedData"@, "xcode"@, seq![]),
        dir_rule("_build"@, "elixir"@, seq!["mix.exs"@]),
        dir_rule("deps"@, "elixir"@, seq!["mix.exs"@]),
        dir_rule("bin"@, "dotnet"@, seq!["*.csproj"@, "*.fsproj"@, "*.vbproj"@]),
        dir_rule("obj"@, "dotnet"@, seq!["*.csproj"@, "*.fsproj"@, "*.vbproj"@]),
        RuleView {
            name: seq![],
            any_name: true,
            ecosystem: "python"@,
            requires_sibling: seq![],
            requires_child: seq!["pyvenv.cfg"@],
            is_file: false,
        },
        RuleView {
            name: "erl_crash.dump"@,
            any_name: false,
            ecosystem: "erlang"@,
            requires_sibling: seq![],
            requires_child: seq![],
            is_file: true,
        },
    ]
}

/// The artefacts ward knows of, in the order it tries them.
pub open spec fn spec_builtin_rules() -> Seq<RuleView> {
    spec_builtin_rules_a() + spec_builtin_rules_b() + spec_builtin_rules_c()
}

pub open spec fn custom_rule_view(c: CustomArtefactRule) -> RuleView {
    dir_rule(c.name@, c.ecosystem@, string_views(c.requires_sibling@))
}

/// The built-in rules followed by the configured ones.
pub open spec fn spec_all_rules(cfg: Config) -> Seq<RuleView> {
    spec_builtin_rules() + cfg.artefact_rules@.map_values(|c: CustomArtefactRule| custom_rule_view(c))
}

fn owned(s: &str) -> (r: String)
    ensures
        r@ == s@,
{
    string_of(chars_of(s).as_slice())
}

fn mk_dir(name: &str, eco: &str, sib: Vec<String>) -> (r: ArtifactRule)
    ensures
        r@ == dir_rule(name@, eco@, string_views(sib@)),
{
    let r = ArtifactRule {
        name: owned(name),
        any_name: false,
        ecosystem: owned(eco),
        requires_sibling: sib,
        requires_child: Vec::new(),
        is_file: false,
    };
    assert(string_views(r.requires_child@) =~= Seq::<Seq<char>>::empty());
    r
}

fn names0() -> (v: Vec<String>)
    ensures
        string_views(v@) == Seq::<Seq<char>>::empty(),
{
    let v: Vec<String> = Vec::new();
    assert(string_views(v@) =~= Seq::<Seq<char>>::empty());
    v
}

fn names1(a: &str) -> (v: Vec<String>)
    ensures
        string_views(v@) == seq![a@],
{
    let mut v: Vec<String> = Vec::new();
    v.push(owned(a));
    assert(string_views(v@) =~= seq![a@]);
    v
}

fn names3(a: &str, b: &str, c: &str) -> (v: Vec<String>)
    ensures
        string_views(v@) == seq![a@, b@, c@],
{
    let mut v: Vec<String> = Vec::new();
    v.push(owned(a));
    v.push(owned(b));
    v.push(owned(c));
    assert(string_views(v@) =~= seq![a@, b@, c@]);
    v
}

fn names5(a: &str, b: &str, c: &str, d: &str, e: &str) -> (v: Vec<String>)
    ensures
        string_views(v@) == seq![a@, b@, c@, d@, e@],
{
    let mut v: Vec<String> = Vec::new();
    v.push(owned(a));
    v.push(owned(b));
    v.push(owned(c));
    v.push(owned(d));
    v.push(owned(e));
    assert(string_views(v@) =~= seq![a@, b@, c@, d@, e@]);
    v
}

fn push_rule(rules: &mut Vec<ArtifactRule>, r: ArtifactRule)
    ensures
        rule_views(final(rules)@) == rule_views(old(rules)@).push(r@),
{
    rules.push(r);
    assert(rule_views(rules@) =~= rule_views(old(rules)@).push(r@));
}

fn builtin_rules_a(rules: &mut Vec<ArtifactRule>)
    ensures
        rule_views(final(rules)@) == rule_views(old(rules)@) + spec_builtin_rules_a(),
{
    let ghost start = rule_views(old(rules)@);
    push_rule(rules, mk_dir("target", "rust", names1("Cargo.toml")));
    push_rule(rules, mk_dir("node_modules", "node", names0()));
    push_rule(rules, mk_dir(".next", "nextjs", names0()));
    push_rule(rules, mk_dir(".turbo", "turbo", names0()));
    push_rule(rules, mk_dir(".vite", "vite", names0()));
    push_rule(rules, mk_dir(".parcel-cache", "parcel", names0()));
    push_rule(rules, mk_dir(".swc", "swc", names0()));
    push_rule(rules, mk_dir(".pnpm-store", "pnpm", names0()));
    push_rule(
        rules,
        mk_dir(
            "dist",
            "node",
            names5(
                "package.json",
                "webpack.config.js",
                "vite.config.ts",
                "vite.config.js",
                "rollup.config.js",
            ),
        ),
    );
    push_rule(
        rules,
        mk_dir("build", "gradle/cmake", names3("build.gradle", "build.gradle.kts", "CMakeLists.txt")),
    );
    assert(rule_views(rules@) =~= start + spec_builtin_rules_a());
}

fn builtin_rules_b(rules: &mut Vec<ArtifactRule>)
    ensures
        rule_views(final(rules)@) == rule_views(old(rules)@) + spec_builtin_rules_b(),
{
    let ghost start = rule_views(old(rules)@);
    push_rule(rules, mk_dir(".gradle", "gradle", names0()));
    push_rule(rules, mk_dir("__pycache__", "python", names0()));
    push_rule(rules, mk_dir(".venv", "python", names0()));
    push_rule(rules, mk_dir(".export-venv", "python", names0()));
    push_rule(
        rules,
        mk_dir("venv", "python", names3("pyproject.toml", "requirements.txt", "setup.py")),
    );
    push_rule(rules, mk_dir(".ruff_cache", "python", names0()));
    push_rule(rules, mk_dir(".mypy_cache", "python", names0()));
    push_rule(rules, mk_dir(".pytest_cache", "python", names0()));
    push_rule(rules, mk_dir(".tox", "python", names0()));
    push_rule(rules, mk_dir(".nox", "python", names0()));
    assert(rule_views(rules@) =~= start + spec_builtin_rules_b());
}

fn builtin_rules_c(rules: &mut Vec<ArtifactRule>)
    ensures
        rule_views(final(rules)@) == rule_views(old(rules)@) + spec_builtin_rules_c(),
{
    let ghost start = rule_views(old(rules)@);
    push_rule(rules, mk_dir("out", "go", names1("go.mod")));
    push_rule(rules, mk_dir("zig-cache", "zig", names0()));
    push_rule(rules, mk_dir("zig-out", "zig", names0()));
    push_rule(rules, mk_dir(".dart_tool", "dart", names0()));
    push_rule(rules, mk_dir("DerivedData", "xcode", names0()));
    push_rule(rules, mk_dir("_build", "elixir", names1("mix.exs")));
    push_rule(rules, mk_dir("deps", "elixir", names1("mix.exs")));
    push_rule(rules, mk_dir("bin", "dotnet", names3("*.csproj", "*.fsproj", "*.vbproj")));
    push_rule(rules, mk_dir("obj", "dotnet", names3("*.csproj", "*.fsproj", "*.vbproj")));
    let venv_marker = ArtifactRule {
        name: String::new(),
        any_name: true,
        ecosystem: owned("python"),
        requires_sibling: names0(),
        requires_child: names1("pyvenv.cfg"),
        is_file: false,
    };
    push_rule(rules, venv_marker);
    let crash_dump = ArtifactRule {
        name: owned("erl_crash.dump"),
        any_name: false,
        ecosystem: owned("erlang"),
        requires_sibling: names0(),
        requires_child: names0(),
        is_file: true,
    };
    push_rule(rules, crash_dump);
    assert(rule_views(rules@) =~= start + spec_builtin_rules_c());
}

/// The rules `clean` applies: the built-in rules, then those of the configuration.
pub fn all_rules(cfg: &Config) -> (rules: Vec<ArtifactRule>)
    ensures
        rule_views(rules@) == spec_all_rules(*cfg),
{
    let mut rules: Vec<ArtifactRule> = Vec::new();
    builtin_rules_a(&mut rules);
    builtin_rules_b(&mut rules);
    builtin_rules_c(&mut rules);
    assert(rule_views(rules@) =~= spec_builtin_rules());
    let ghost n = rules.len();
    let mut k: usize = 0;
    while k < cfg.artefact_rules.len()
        invariant
            k <= cfg.artefact_rules.len(),
            rules.len() == n + k,
            rule_views(rules@) == spec_builtin_rules() + cfg.artefact_rules@.take(k as int).map_values(
                |c: CustomArtefactRule| custom_rule_view(c),
            ),
        decreases cfg.artefact_rules.len() - k,
    {
        let c = &cfg.artefact_rules[k];
        let mut sib: Vec<String> = Vec::new();
        let mut j: usize = 0;
        while j < c.requires_sibling.len()
            invariant
                j <= c.requires_sibling.len(),
                string_views(sib@) == string_views(c.requires_sibling@.take(j as int)),
            decreases c.requires_sibling.len() - j,
        {
            let x = c.requires_sibling[j].clone();
            assert(string_views(sib@.push(x)) =~= string_views(sib@).push(x@));
            assert(c.requires_sibling@.take(j + 1) =~= c.requires_sibling@.take(j as int).push(x));
            assert(string_views(c.requires_sibling@.take(j + 1)) =~= string_views(
                c.requires_sibling@.take(j as int),
            ).push(x@));
            sib.push(x);
            j = j + 1;
            assert(string_views(sib@) =~= string_views(c.requires_sibling@.take(j as int)));
        }
        assert(c.requires_sibling@.take(j as int) =~= c.requires_sibling@);
        let r = ArtifactRule {
            name: c.name.clone(),
            any_name: false,
            ecosystem: c.ecosystem.clone(),
            requires_sibling: sib,
            requires_child: Vec::new(),
            is_file: false,
        };
        assert(string_views(r.requires_child@) =~= Seq::<Seq<char>>::empty());
        assert(r@ == custom_rule_view(*c));
        assert(rule_views(rules@.push(r)) =~= rule_views(rules@).push(r@));
        rules.push(r);
        k = k + 1;
        assert(rule_views(rules@) =~= spec_builtin_rules() + cfg.artefact_rules@.take(k as int).map_values(
            |c: CustomArtefactRule| custom_rule_view(c),
        ));
    }
    assert(cfg.artefact_rules@.take(k as int) =~= cfg.artefact_rules@);
    rules
}

// ---------------------------------------------------------------------------
// Matching entries
// ---------------------------------------------------------------------------

/// A sibling pattern: `*suffix` matches names ending in `suffix`; anything
/// else matches that name only.
pub open spec fn pattern_matches(pattern: Seq<char>, name: Seq<char>) -> bool {
    if pattern.len() > 0 && pattern[0] == '*' {
        ends_with(name, pattern.drop_first())
    } else {
        name == pattern
    }
}

pub open spec fn sibling_ok(r: RuleView, siblings: Seq<Seq<char>>) -> bool {
    r.requires_sibling.len() == 0 || exists|i: int, j: int|
        0 <= i < r.requires_sibling.len() && 0 <= j < siblings.len() && pattern_matches(
            #[trigger] r.requires_sibling[i],
            #[trigger] siblings[j],
        )
}

pub open spec fn child_ok(r: RuleView, children: Seq<Seq<char>>) -> bool {
    r.requires_child.len() == 0 || exists|i: int, j: int|
        0 <= i < r.requires_child.len() && 0 <= j < children.len() && #[trigger] r.requires_child[i]
            == #[trigger] children[j]
}

/// Whether a rule takes the entry `name` (a directory when `is_dir`), given the
/// names beside it (`siblings`) and, for a directory, inside it (`children`).
pub open spec fn rule_matches(
    r: RuleView,
    name: Seq<char>,
    is_dir: bool,
    siblings: Seq<Seq<char>>,
    children: Seq<Seq<char>>,
) -> bool {
    &&& r.is_file == !is_dir
    &&& (r.any_name || r.name == name)
    &&& sibling_ok(r, siblings)
    &&& child_ok(r, children)
}

/// What the artefact walk does at an entry.
#[derive(PartialEq, Eq, Structural, Clone, Copy, Debug)]
pub enum EntryStep {
    /// A file that is no artefact: nothing to do.
    Skip,
    /// A directory that is no artefact: look inside.
    Descend,
    /// A hidden directory below the root that no rule names: do not look inside.
    Prune,
    /// The entry is an artefact of the rule at this index; do not look inside.
    Artefact(usize),
}

pub open spec fn names_rule(rules: Seq<RuleView>, name: Seq<char>) -> bool {
    exists|i: int| 0 <= i < rules.len() && !(#[trigger] rules[i]).any_name && rules[i].name == name
}

/// The step at an entry: hidden directories below the root are left alone
/// unless a rule names them; otherwise the first rule that takes the entry
/// makes it an artefact.
pub open spec fn step_ok(
    rules: Seq<RuleView>,
    name: Seq<char>,
    is_dir: bool,
    depth: nat,
    siblings: Seq<Seq<char>>,
    children: Seq<Seq<char>>,
    step: EntryStep,
) -> bool {
    let hidden_skip = is_dir && name.len() > 0 && name[0] == '.' && depth > 0 && !names_rule(
        rules,
        name,
    );
    if hidden_skip {
        step == EntryStep::Prune
    } else {
        match step {
            EntryStep::Artefact(i) => {
                &&& i < rules.len()
                &&& rule_matches(rules[i as int], name, is_dir, siblings, children)
                &&& forall|j: int|
                    0 <= j < i ==> !rule_matches(#[trigger] rules[j], name, is_dir, siblings, children)
            },
            EntryStep::Descend => is_dir && forall|j: int|
                0 <= j < rules.len() ==> !rule_matches(#[trigger] rules[j], name, is_dir, siblings, children),
            EntryStep::Skip => !is_dir && forall|j: int|
                0 <= j < rules.len() ==> !rule_matches(#[trigger] rules[j], name, is_dir, siblings, children),
            EntryStep::Prune => false,
        }
    }
}

fn pattern_matches_exec(pattern: &Vec<char>, name: &Vec<char>) -> (b: bool)
    ensures
        b == pattern_matches(pattern@, name@),
{
    if pattern.len() > 0 && pattern[0] == '*' {
        let suffix = slice(pattern, 1, pattern.len());
        assert(suffix@ =~= pattern@.drop_first());
        has_suffix(name, &suffix)
    } else {
        chars_eq(name, pattern)
    }
}

fn rule_matches_exec(
    r: &ArtifactRule,
    name: &Vec<char>,
    is_dir: bool,
    siblings: &Vec<Vec<char>>,
    children: &Vec<Vec<char>>,
) -> (b: bool)
    ensures
        b == rule_matches(r@, name@, is_dir, crate::text::views(siblings@), crate::text::views(children@)),
{
    let ghost sv = crate::text::views(siblings@);
    let ghost cv = crate::text::views(children@);
    if r.is_file != !is_dir {
        return false;
    }
    if !r.any_name {
        if !chars_eq(&chars_of(r.name.as_str()), name) {
            return false;
        }
    }
    // sibling requirement
    let mut sib_ok = r.requires_sibling.len() == 0;
    let mut i: usize = 0;
    while i < r.requires_sibling.len() && !sib_ok
        invariant
            i <= r.requires_sibling.len(),
            sv == crate::text::views(siblings@),
            sib_ok ==> sibling_ok(r@, sv),
            !sib_ok ==> r@.requires_sibling.len() > 0,
            !sib_ok ==> forall|a: int, b: int|
                0 <= a < i && 0 <= b < sv.len() ==> !pattern_matches(
                    #[trigger] r@.requires_sibling[a],
                    #[trigger] sv[b],
                ),
        decreases r.requires_sibling.len() - i,
    {
        let p = chars_of(r.requires_sibling[i].as_str());
        assert(r@.requires_sibling[i as int] == p@);
        let mut j: usize = 0;
        while j < siblings.len() && !sib_ok
            invariant
                j <= siblings.len(),
                i < r.requires_sibling.len(),
                sv == crate::text::views(siblings@),
                r@.requires_sibling[i as int] == p@,
                sib_ok ==> sibling_ok(r@, sv),
                !sib_ok ==> forall|b: int| 0 <= b < j ==> !pattern_matches(p@, #[trigger] sv[b]),
            decreases siblings.len() - j,
        {
            assert(sv[j as int] == siblings@[j as int]@);
            if pattern_matches_exec(&p, &siblings[j]) {
                sib_ok = true;
                assert(pattern_matches(r@.requires_sibling[i as int], sv[j as int]));
            }
            j = j + 1;
        }
        i = i + 1;
    }
    if !sib_ok {
        return false;
    }
    // child requirement
    let mut ch_ok = r.requires_child.len() == 0;
    let mut i: usize = 0;
    while i < r.requires_child.len() && !ch_ok
        invariant
            i <= r.requires_child.len(),
            cv == crate::text::views(children@),
            ch_ok ==> child_ok(r@, cv),
            !ch_ok ==> r@.requires_child.len() > 0,
            !ch_ok ==> forall|a: int, b: int|
                0 <= a < i && 0 <= b < cv.len() ==> #[trigger] r@.requires_child[a] != #[trigger] cv[b],
        decreases r.requires_child.len() - i,
    {
        let p = chars_of(r.requires_child[i].as_str());
        assert(r@.requires_child[i as int] == p@);
        let mut j: usize = 0;
        while j < children.len() && !ch_ok
            invariant
                j <= children.len(),
                i < r.requires_child.len(),
                cv == crate::text::views(children@),
                r@.requires_child[i as int] == p@,
                ch_ok ==> child_ok(r@, cv),
                !ch_ok ==> forall|b: int| 0 <= b < j ==> p@ != #[trigger] cv[b],
            decreases children.len() - j,
        {
            assert(cv[j as int] == children@[j as int]@);
            if chars_eq(&p, &children[j]) {
                ch_ok = true;
                assert(r@.requires_child[i as int] == cv[j as int]);
            }
            j = j + 1;
        }
        i = i + 1;
    }
    ch_ok
}

/// The artefact walk at one entry (see `step_ok`, which pins the answer down).
pub fn entry_step(
    rules: &Vec<ArtifactRule>,
    name: &str,
    is_dir: bool,
    depth: usize,
    siblings: &Vec<String>,
    children: &Vec<String>,
) -> (step: EntryStep)
    ensures
        step_ok(
            rule_views(rules@),
            name@,
            is_dir,
            depth as nat,
            string_views(siblings@),
            string_views(children@),
            step,
        ),
{
    let ghost rv = rule_views(rules@);
    let nm = chars_of(name);
    let mut sib: Vec<Vec<char>> = Vec::new();
    let mut k: usize = 0;
    while k < siblings.len()
        invariant
            k <= siblings.len(),
            crate::text::views(sib@) == string_views(siblings@).take(k as int),
        decreases siblings.len() - k,
    {
        let x = chars_of(siblings[k].as_str());
        assert(crate::text::views(sib@.push(x)) =~= crate::text::views(sib@).push(x@));
        assert(string_views(siblings@).take(k + 1) =~= string_views(siblings@).take(k as int).push(x@));
        sib.push(x);
        k = k + 1;
        assert(crate::text::views(sib@) =~= string_views(siblings@).take(k as int));
    }
    assert(string_views(siblings@).take(k as int) =~= string_views(siblings@));
    let mut chl: Vec<Vec<char>> = Vec::new();
    let mut k: usize = 0;
    while k < children.len()
        invariant
            k <= children.len(),
            crate::text::views(chl@) == string_views(children@).take(k as int),
        decreases children.len() - k,
    {
        let x = chars_of(children[k].as_str());
        assert(crate::text::views(chl@.push(x)) =~= crate::text::views(chl@).push(x@));
        assert(string_views(children@).take(k + 1) =~= string_views(children@).take(k as int).push(x@));
        chl.push(x);
        k = k + 1;
        assert(crate::text::views(chl@) =~= string_views(children@).take(k as int));
    }
    assert(string_views(children@).take(k as int) =~= string_views(children@));
    if is_dir && nm.len() > 0 && nm[0] == '.' && depth > 0 {
        // hidden: pruned unless some rule names it
        let mut named = false;
        let mut i: usize = 0;
        while i < rules.len() && !named
            invariant
                i <= rules.len(),
                rv == rule_views(rules@),
                nm@ == name@,
                named ==> names_rule(rv, name@),
                !named ==> forall|j: int|
                    0 <= j < i ==> !(!(#[trigger] rv[j]).any_name && rv[j].name == name@),
            decreases rules.len() - i,
        {
            assert(rv[i as int] == rules@[i as int]@);
            if !rules[i].any_name {
                if chars_eq(&chars_of(rules[i].name.as_str()), &nm) {
                    assert(!rv[i as int].any_name && rv[i as int].name == name@);
                    named = true;
                }
            }
            i = i + 1;
        }
        if !named {
            return EntryStep::Prune;
        }
    }
    let mut i: usize = 0;
    while i < rules.len()
        invariant
            i <= rules.len(),
            rv == rule_views(rules@),
            nm@ == name@,
            !(is_dir && name@.len() > 0 && name@[0] == '.' && depth > 0 && !names_rule(rv, name@)),
            crate::text::views(sib@) == string_views(siblings@),
            crate::text::views(chl@) == string_views(children@),
            forall|j: int|
                0 <= j < i ==> !rule_matches(
                    #[trigger] rv[j],
                    name@,
                    is_dir,
                    string_views(siblings@),
                    string_views(children@),
                ),
        decreases rules.len() - i,
    {
        assert(rv[i as int] == rules@[i as int]@);
        if rule_matches_exec(&rules[i], &nm, is_dir, &sib, &chl) {
            return EntryStep::Artefact(i);
        }
        i = i + 1;
    }
    if is_dir {
        EntryStep::Descend
    } else {
        EntryStep::Skip
    }
}

// ---------------------------------------------------------------------------
// Laws of the built-in rules
// ---------------------------------------------------------------------------

/// The position of the built-in rule that names `name`, or -1.
spec fn builtin_index(name: Seq<char>) -> int {
    if name == "target"@ {
        0
    } else if name == "node_modules"@ {
        1
    } else if name == ".next"@ {
        2
    } else if name == ".turbo"@ {
        3
    } else if name == ".vite"@ {
        4
    } else if name == ".parcel-cache"@ {
        5
    } else if name == ".swc"@ {
        6
    } else if name == ".pnpm-store"@ {
        7
    } else if name == "dist"@ {
        8
    } else if name == "build"@ {
        9
    } else if name == ".gradle"@ {
        10
    } else if name == "__pycache__"@ {
        11
    } else if name == ".venv"@ {
        12
    } else if name == ".export-venv"@ {
        13
    } else if name == "venv"@ {
        14
    } else if name == ".ruff_cache"@ {
        15
    } else if name == ".mypy_cache"@ {
        16
    } else if name == ".pytest_cache"@ {
        17
    } else if name == ".tox"@ {
        18
    } else if name == ".nox"@ {
        19
    } else if name == "out"@ {
        20
    } else if name == "zig-cache"@ {
        21
    } else if name == "zig-out"@ {
        22
    } else if name == ".dart_tool"@ {
        23
    } else if name == "DerivedData"@ {
        24
    } else if name == "_build"@ {
        25
    } else if name == "deps"@ {
        26
    } else if name == "bin"@ {
        27
    } else if name == "obj"@ {
        28
    } else if name == "erl_crash.dump"@ {
        30
    } else {
        -1
    }
}

/// Two texts that differ at a position are different.
proof fn lemma_text_differs(a: Seq<char>, b: Seq<char>, i: int)
    requires
        0 <= i < a.len(),
        i < b.len(),
        a[i] != b[i],
    ensures
        a != b,
{
}

/// Each built-in rule of a fixed name is found at its position by its name,
/// so no two of them share a name.
#[verifier::spinoff_prover]
#[verifier::rlimit(100)]
proof fn lemma_builtin_index(j: int)
    requires
        0 <= j < spec_builtin_rules().len(),
        !spec_builtin_rules()[j].any_name,
    ensures
        builtin_index(spec_builtin_rules()[j].name) == j,
{
    reveal_strlit("target");
    reveal_strlit("node_modules");
    reveal_strlit(".next");
    reveal_strlit(".turbo");
    reveal_strlit(".vite");
    reveal_strlit(".parcel-cache");
    reveal_strlit(".swc");
    reveal_strlit(".pnpm-store");
    reveal_strlit("dist");
    reveal_strlit("build");
    reveal_strlit(".gradle");
    reveal_strlit("__pycache__");
    reveal_strlit(".venv");
    reveal_strlit(".export-venv");
    reveal_strlit("venv");
    reveal_strlit(".ruff_cache");
    reveal_strlit(".mypy_cache");
    reveal_strlit(".pytest_cache");
    reveal_strlit(".tox");
    reveal_strlit(".nox");
    reveal_strlit("out");
    reveal_strlit("zig-cache");
    reveal_strlit("zig-out");
    reveal_strlit(".dart_tool");
    reveal_strlit("DerivedData");
    reveal_strlit("_build");
    reveal_strlit("deps");
    reveal_strlit("bin");
    reveal_strlit("obj");
    reveal_strlit("erl_crash.dump");
    reveal_strlit("Cargo.toml");
    reveal_strlit("package.json");
    reveal_strlit("webpack.config.js");
    reveal_strlit("vite.config.ts");
    reveal_strlit("vite.config.js");
    reveal_strlit("rollup.config.js");
    reveal_strlit("build.gradle");
    reveal_strlit("build.gradle.kts");
    reveal_strlit("CMakeLists.txt");
    reveal_strlit("pyproject.toml");
    reveal_strlit("requirements.txt");
    reveal_strlit("setup.py");
    reveal_strlit("go.mod");
    reveal_strlit("mix.exs");
    reveal_strlit("*.csproj");
    reveal_strlit("*.fsproj");
    reveal_strlit("*.vbproj");
    reveal_strlit("pyvenv.cfg");
    let r = spec_builtin_rules();
    assert(r =~= spec_builtin_rules_a() + spec_builtin_rules_b() + spec_builtin_rules_c());
    if j == 0 {
        assert(r[0].name == "target"@);
        assert(builtin_index("target"@) == 0);
    } else if j == 1 {
        assert(r[1].name == "node_modules"@);
        assert(builtin_index("node_modules"@) == 1);
    } else if j == 2 {
        assert(r[2].name == ".next"@);
        assert(builtin_index(".next"@) == 2);
    } else if j == 3 {
        assert(r[3].name == ".turbo"@);
        lemma_text_differs(".turbo"@, "target"@, 0);
        assert(builtin_index(".turbo"@) == 3);
    } else if j == 4 {
        assert(r[4].name == ".vite"@);
        lemma_text_differs(".vite"@, ".next"@, 1);
        assert(builtin_index(".vite"@) == 4);
    } else if j == 5 {
        assert(r[5].name == ".parcel-cache"@);
        assert(builtin_index(".parcel-cache"@) == 5);
    } else if j == 6 {
        assert(r[6].name == ".swc"@);
        assert(builtin_index(".swc"@) == 6);
    } else if j == 7 {
        assert(r[7].name == ".pnpm-store"@);
        assert(builtin_index(".pnpm-store"@) == 7);
    } else if j == 8 {
        assert(r[8].name == "dist"@);
        lemma_text_differs("dist"@, ".swc"@, 0);
        assert(builtin_index("dist"@) == 8);
    } else if j == 9 {
        assert(r[9].name == "build"@);
        lemma_text_differs("build"@, ".next"@, 0);
        lemma_text_differs("build"@, ".vite"@, 0);
        assert(builtin_index("build"@) == 9);
    } else if j == 10 {
        assert(r[10].name == ".gradle"@);
        assert(builtin_index(".gradle"@) == 10);
    } else if j == 11 {
        assert(r[11].name == "__pycache__"@);
        lemma_text_differs("__pycache__"@, ".pnpm-store"@, 0);
        assert(builtin_index("__pycache__"@) == 11);
    } else if j == 12 {
        assert(r[12].name == ".venv"@);
        lemma_text_differs(".venv"@, ".next"@, 1);
        lemma_text_differs(".venv"@, ".vite"@, 2);
        lemma_text_differs(".venv"@, "build"@, 0);
        assert(builtin_index(".venv"@) == 12);
    } else if j == 13 {
        assert(r[13].name == ".export-venv"@);
        lemma_text_differs(".export-venv"@, "node_modules"@, 0);
        assert(builtin_index(".export-venv"@) == 13);
    } else if j == 14 {
        assert(r[14].name == "venv"@);
        lemma_text_differs("venv"@, ".swc"@, 0);
        lemma_text_differs("venv"@, "dist"@, 0);
        assert(builtin_index("venv"@) == 14);
    } else if j == 15 {
        assert(r[15].name == ".ruff_cache"@);
        lemma_text_differs(".ruff_cache"@, ".pnpm-store"@, 1);
        lemma_text_differs(".ruff_cache"@, "__pycache__"@, 0);
        assert(builtin_index(".ruff_cache"@) == 15);
    } else if j == 16 {
        assert(r[16].name == ".mypy_cache"@);
        lemma_text_differs(".mypy_cache"@, ".pnpm-store"@, 1);
        lemma_text_differs(".mypy_cache"@, "__pycache__"@, 0);
        lemma_text_differs(".mypy_cache"@, ".ruff_cache"@, 1);
        assert(builtin_index(".mypy_cache"@) == 16);
    } else if j == 17 {
        assert(r[17].name == ".pytest_cache"@);
        lemma_text_differs(".pytest_cache"@, ".parcel-cache"@, 2);
        assert(builtin_index(".pytest_cache"@) == 17);
    } else if j == 18 {
        assert(r[18].name == ".tox"@);
        lemma_text_differs(".tox"@, ".swc"@, 1);
        lemma_text_differs(".tox"@, "dist"@, 0);
        lemma_text_differs(".tox"@, "venv"@, 0);
        assert(builtin_index(".tox"@) == 18);
    } else if j == 19 {
        assert(r[19].name == ".nox"@);
        lemma_text_differs(".nox"@, ".swc"@, 1);
        lemma_text_differs(".nox"@, "dist"@, 0);
        lemma_text_differs(".nox"@, "venv"@, 0);
        lemma_text_differs(".nox"@, ".tox"@, 1);
        assert(builtin_index(".nox"@) == 19);
    } else if j == 20 {
        assert(r[20].name == "out"@);
        assert(builtin_index("out"@) == 20);
    } else if j == 21 {
        assert(r[21].name == "zig-cache"@);
        assert(builtin_index("zig-cache"@) == 21);
    } else if j == 22 {
        assert(r[22].name == "zig-out"@);
        lemma_text_differs("zig-out"@, ".gradle"@, 0);
        assert(builtin_index("zig-out"@) == 22);
    } else if j == 23 {
        assert(r[23].name == ".dart_tool"@);
        assert(builtin_index(".dart_tool"@) == 23);
    } else if j == 24 {
        assert(r[24].name == "DerivedData"@);
        lemma_text_differs("DerivedData"@, ".pnpm-store"@, 0);
        lemma_text_differs("DerivedData"@, "__pycache__"@, 0);
        lemma_text_differs("DerivedData"@, ".ruff_cache"@, 0);
        lemma_text_differs("DerivedData"@, ".mypy_cache"@, 0);
        assert(builtin_index("DerivedData"@) == 24);
    } else if j == 25 {
        assert(r[25].name == "_build"@);
        lemma_text_differs("_build"@, "target"@, 0);
        lemma_text_differs("_build"@, ".turbo"@, 0);
        assert(builtin_index("_build"@) == 25);
    } else if j == 26 {
        assert(r[26].name == "deps"@);
        lemma_text_differs("deps"@, ".swc"@, 0);
        lemma_text_differs("deps"@, "dist"@, 1);
        lemma_text_differs("deps"@, "venv"@, 0);
        lemma_text_differs("deps"@, ".tox"@, 0);
        lemma_text_differs("deps"@, ".nox"@, 0);
        assert(builtin_index("deps"@) == 26);
    } else if j == 27 {
        assert(r[27].name == "bin"@);
        lemma_text_differs("bin"@, "out"@, 0);
        assert(builtin_index("bin"@) == 27);
    } else if j == 28 {
        assert(r[28].name == "obj"@);
        lemma_text_differs("obj"@, "out"@, 1);
        lemma_text_differs("obj"@, "bin"@, 0);
        assert(builtin_index("obj"@) == 28);
    } else if j == 29 {
        assert(r[29].any_name);
    } else if j == 30 {
        assert(r[30].name == "erl_crash.dump"@);
        assert(builtin_index("erl_crash.dump"@) == 30);
    }
}

/// Only the virtual-environment rule takes a directory of any name.
proof fn lemma_builtin_fixed_names(j: int)
    requires
        0 <= j < spec_builtin_rules().len(),
        j != 29,
    ensures
        !spec_builtin_rules()[j].any_name,
{
    let r = spec_builtin_rules();
    assert(r =~= spec_builtin_rules_a() + spec_builtin_rules_b() + spec_builtin_rules_c());
    if j == 0 {
        assert(!r[0].any_name);
    } else if j == 1 {
        assert(!r[1].any_name);
    } else if j == 2 {
        assert(!r[2].any_name);
    } else if j == 3 {
        assert(!r[3].any_name);
    } else if j == 4 {
        assert(!r[4].any_name);
    } else if j == 5 {
        assert(!r[5].any_name);
    } else if j == 6 {
        assert(!r[6].any_name);
    } else if j == 7 {
        assert(!r[7].any_name);
    } else if j == 8 {
        assert(!r[8].any_name);
    } else if j == 9 {
        assert(!r[9].any_name);
    } else if j == 10 {
        assert(!r[10].any_name);
    } else if j == 11 {
        assert(!r[11].any_name);
    } else if j == 12 {
        assert(!r[12].any_name);
    } else if j == 13 {
        assert(!r[13].any_name);
    } else if j == 14 {
        assert(!r[14].any_name);
    } else if j == 15 {
        assert(!r[15].any_name);
    } else if j == 16 {
        assert(!r[16].any_name);
    } else if j == 17 {
        assert(!r[17].any_name);
    } else if j == 18 {
        assert(!r[18].any_name);
    } else if j == 19 {
        assert(!r[19].any_name);
    } else if j == 20 {
        assert(!r[20].any_name);
    } else if j == 21 {
        assert(!r[21].any_name);
    } else if j == 22 {
        assert(!r[22].any_name);
    } else if j == 23 {
        assert(!r[23].any_name);
    } else if j == 24 {
        assert(!r[24].any_name);
    } else if j == 25 {
        assert(!r[25].any_name);
    } else if j == 26 {
        assert(!r[26].any_name);
    } else if j == 27 {
        assert(!r[27].any_name);
    } else if j == 28 {
        assert(!r[28].any_name);
    } else if j == 30 {
        assert(!r[30].any_name);
    }
}

/// When the built-in directory rule at `k` takes an entry, it is the first
/// rule that does: no earlier built-in rule names the same directory, and the
/// configured rules come after the built-in ones.
proof fn lemma_first_rule_wins(
    cfg: Config,
    k: int,
    name: Seq<char>,
    depth: nat,
    siblings: Seq<Seq<char>>,
    children: Seq<Seq<char>>,
    step: EntryStep,
)
    requires
        0 <= k < 29,
        spec_builtin_rules()[k].name == name,
        rule_matches(spec_builtin_rules()[k], name, true, siblings, children),
        step_ok(spec_all_rules(cfg), name, true, depth, siblings, children, step),
    ensures
        step == EntryStep::Artefact(k as usize),
{
    let b = spec_builtin_rules();
    let r = spec_all_rules(cfg);
    assert(b.len() == 31);
    assert(r[k] == b[k]);
    lemma_builtin_fixed_names(k);
    assert(names_rule(r, name));
    assert forall|j: int| 0 <= j < k implies !rule_matches(#[trigger] r[j], name, true, siblings, children) by {
        assert(r[j] == b[j]);
        lemma_builtin_fixed_names(j);
        if rule_matches(r[j], name, true, siblings, children) {
            lemma_builtin_index(j);
            lemma_builtin_index(k);
        }
    }
    match step {
        EntryStep::Artefact(i) => {
            if (i as int) < k {
                assert(!rule_matches(r[i as int], name, true, siblings, children));
            } else if (i as int) > k {
                assert(!rule_matches(r[k], name, true, siblings, children));
            }
        },
        EntryStep::Descend => {
            assert(!rule_matches(r[k], name, true, siblings, children));
        },
        _ => {},
    }
}

/// Without the project file it needs beside it, and without a `pyvenv.cfg`
/// inside, a built-in directory rule's directory is walked into, not taken.
proof fn lemma_gated_dir_descends(
    k: int,
    name: Seq<char>,
    depth: nat,
    siblings: Seq<Seq<char>>,
    children: Seq<Seq<char>>,
    step: EntryStep,
)
    requires
        0 <= k < 29,
        spec_builtin_rules()[k].name == name,
        name.len() > 0 && name[0] != '.',
        !sibling_ok(spec_builtin_rules()[k], siblings),
        !children.contains("pyvenv.cfg"@),
        step_ok(spec_builtin_rules(), name, true, depth, siblings, children, step),
    ensures
        step == EntryStep::Descend,
{
    reveal_strlit("pyvenv.cfg");
    let b = spec_builtin_rules();
    assert(b =~= spec_builtin_rules_a() + spec_builtin_rules_b() + spec_builtin_rules_c());
    assert forall|j: int| 0 <= j < b.len() implies !rule_matches(#[trigger] b[j], name, true, siblings, children) by {
        if j == 29 {
            assert(b[29].requires_child =~= seq!["pyvenv.cfg"@]);
            if child_ok(b[29], children) {
                let (a, c) = choose|a: int, c: int|
                    0 <= a < b[29].requires_child.len() && 0 <= c < children.len() && b[29].requires_child[a]
                        == children[c];
                assert(children.contains(children[c]));
            }
        } else if j == 30 {
            assert(b[30].is_file);
        } else if j != k {
            lemma_builtin_fixed_names(j);
            lemma_builtin_fixed_names(k);
            if b[j].name == name {
                lemma_builtin_index(j);
                lemma_builtin_index(k);
            }
        }
    }
    match step {
        EntryStep::Artefact(i) => {
            assert(!rule_matches(b[i as int], name, true, siblings, children));
        },
        _ => {},
    }
}

/// Some entry of `names` is one of `wanted`.
pub open spec fn some_named(names: Seq<Seq<char>>, wanted: Seq<Seq<char>>) -> bool {
    exists|j: int, m: int| 0 <= j < names.len() && 0 <= m < wanted.len() && #[trigger] names[j] == #[trigger] wanted[m]
}

/// Some entry of `names` ends with one of `suffixes`.
pub open spec fn some_ends_with(names: Seq<Seq<char>>, suffixes: Seq<Seq<char>>) -> bool {
    exists|j: int, m: int|
        0 <= j < names.len() && 0 <= m < suffixes.len() && ends_with(#[trigger] names[j], #[trigger] suffixes[m])
}

/// The directories that `clean` always takes as build artefacts, whatever
/// lies beside or inside them and at any depth (a hidden one below the root
/// included): `node_modules` (node), `__pycache__`, `.venv` and the Python
/// caches (python), and the others listed here with their ecosystems.
pub proof fn law_builtin_artefact_dirs(
    cfg: Config,
    name: Seq<char>,
    depth: nat,
    siblings: Seq<Seq<char>>,
    children: Seq<Seq<char>>,
    step: EntryStep,
)
    requires
        step_ok(spec_all_rules(cfg), name, true, depth, siblings, children, step),
    ensures
        name == "node_modules"@ ==> step is Artefact && spec_all_rules(cfg)[step->0 as int].name == "node_modules"@
            && spec_all_rules(cfg)[step->0 as int].ecosystem == "node"@,
        name == ".next"@ ==> step is Artefact && spec_all_rules(cfg)[step->0 as int].name == ".next"@
            && spec_all_rules(cfg)[step->0 as int].ecosystem == "nextjs"@,
        name == ".turbo"@ ==> step is Artefact && spec_all_rules(cfg)[step->0 as int].name == ".turbo"@
            && spec_all_rules(cfg)[step->0 as int].ecosystem == "turbo"@,
        name == ".vite"@ ==> step is Artefact && spec_all_rules(cfg)[step->0 as int].name == ".vite"@
            && spec_all_rules(cfg)[step->0 as int].ecosystem == "vite"@,
        name == ".parcel-cache"@ ==> step is Artefact && spec_all_rules(cfg)[step->0 as int].name == ".parcel-cache"@
            && spec_all_rules(cfg)[step->0 as int].ecosystem == "parcel"@,
        name == ".swc"@ ==> step is Artefact && spec_all_rules(cfg)[step->0 as int].name == ".swc"@
            && spec_all_rules(cfg)[step->0 as int].ecosystem == "swc"@,
        name == ".pnpm-store"@ ==> step is Artefact && spec_all_rules(cfg)[step->0 as int].name == ".pnpm-store"@
            && spec_all_rules(cfg)[step->0 as int].ecosystem == "pnpm"@,
        name == ".gradle"@ ==> step is Artefact && spec_all_rules(cfg)[step->0 as int].name == ".gradle"@
            && spec_all_rules(cfg)[step->0 as int].ecosystem == "gradle"@,
        name == "__pycache__"@ ==> step is Artefact && spec_all_rules(cfg)[step->0 as int].name == "__pycache__"@
            && spec_all_rules(cfg)[step->0 as int].ecosystem == "python"@,
        name == ".venv"@ ==> step is Artefact && spec_all_rules(cfg)[step->0 as int].name == ".venv"@
            && spec_all_rules(cfg)[step->0 as int].ecosystem == "python"@,
        name == ".export-venv"@ ==> step is Artefact && spec_all_rules(cfg)[step->0 as int].name == ".export-venv"@
            && spec_all_rules(cfg)[step->0 as int].ecosystem == "python"@,
        name == ".ruff_cache"@ ==> step is Artefact && spec_all_rules(cfg)[step->0 as int].name == ".ruff_cache"@
            && spec_all_rules(cfg)[step->0 as int].ecosystem == "python"@,
        name == ".mypy_cache"@ ==> step is Artefact && spec_all_rules(cfg)[step->0 as int].name == ".mypy_cache"@
            && spec_all_rules(cfg)[step->0 as int].ecosystem == "python"@,
        name == ".pytest_cache"@ ==> step is Artefact && spec_all_rules(cfg)[step->0 as int].name == ".pytest_cache"@
            && spec_all_rules(cfg)[step->0 as int].ecosystem == "python"@,
        name == ".tox"@ ==> step is Artefact && spec_all_rules(cfg)[step->0 as int].name == ".tox"@
            && spec_all_rules(cfg)[step->0 as int].ecosystem == "python"@,
        name == ".nox"@ ==> step is Artefact && spec_all_rules(cfg)[step->0 as int].name == ".nox"@
            && spec_all_rules(cfg)[step->0 as int].ecosystem == "python"@,
        name == "zig-cache"@ ==> step is Artefact && spec_all_rules(cfg)[step->0 as int].name == "zig-cache"@
            && spec_all_rules(cfg)[step->0 as int].ecosystem == "zig"@,
        name == "zig-out"@ ==> step is Artefact && spec_all_rules(cfg)[step->0 as int].name == "zig-out"@
            && spec_all_rules(cfg)[step->0 as int].ecosystem == "zig"@,
        name == ".dart_tool"@ ==> step is Artefact && spec_all_rules(cfg)[step->0 as int].name == ".dart_tool"@
            && spec_all_rules(cfg)[step->0 as int].ecosystem == "dart"@,
        name == "DerivedData"@ ==> step is Artefact && spec_all_rules(cfg)[step->0 as int].name == "DerivedData"@
            && spec_all_rules(cfg)[step->0 as int].ecosystem == "xcode"@,
{
    let b = spec_builtin_rules();
    assert(b =~= spec_builtin_rules_a() + spec_builtin_rules_b() + spec_builtin_rules_c());
    assert(spec_all_rules(cfg).len() >= 31);
    if name == "node_modules"@ {
        assert(b[1].name == "node_modules"@ && b[1].ecosystem == "node"@);
        lemma_first_rule_wins(cfg, 1, name, depth, siblings, children, step);
    }
    if name == ".next"@ {
        assert(b[2].name == ".next"@ && b[2].ecosystem == "nextjs"@);
        lemma_first_rule_wins(cfg, 2, name, depth, siblings, children, step);
    }
    if name == ".turbo"@ {
        assert(b[3].name == ".turbo"@ && b[3].ecosystem == "turbo"@);
        lemma_first_rule_wins(cfg, 3, name, depth, siblings, children, step);
    }
    if name == ".vite"@ {
        assert(b[4].name == ".vite"@ && b[4].ecosystem == "vite"@);
        lemma_first_rule_wins(cfg, 4, name, depth, siblings, children, step);
    }
    if name == ".parcel-cache"@ {
        assert(b[5].name == ".parcel-cache"@ && b[5].ecosystem == "parcel"@);
        lemma_first_rule_wins(cfg, 5, name, depth, siblings, children, step);
    }
    if name == ".swc"@ {
        assert(b[6].name == ".swc"@ && b[6].ecosystem == "swc"@);
        lemma_first_rule_wins(cfg, 6, name, depth, siblings, children, step);
    }
    if name == ".pnpm-store"@ {
        assert(b[7].name == ".pnpm-store"@ && b[7].ecosystem == "pnpm"@);
        lemma_first_rule_wins(cfg, 7, name, depth, siblings, children, step);
    }
    if name == ".gradle"@ {
        assert(b[10].name == ".gradle"@ && b[10].ecosystem == "gradle"@);
        lemma_first_rule_wins(cfg, 10, name, depth, siblings, children, step);
    }
    if name == "__pycache__"@ {
        assert(b[11].name == "__pycache__"@ && b[11].ecosystem == "python"@);
        lemma_first_rule_wins(cfg, 11, name, depth, siblings, children, step);
    }
    if name == ".venv"@ {
        assert(b[12].name == ".venv"@ && b[12].ecosystem == "python"@);
        lemma_first_rule_wins(cfg, 12, name, depth, siblings, children, step);
    }
    if name == ".export-venv"@ {
        assert(b[13].name == ".export-venv"@ && b[13].ecosystem == "python"@);
        lemma_first_rule_wins(cfg, 13, name, depth, siblings, children, step);
    }
    if name == ".ruff_cache"@ {
        assert(b[15].name == ".ruff_cache"@ && b[15].ecosystem == "python"@);
        lemma_first_rule_wins(cfg, 15, name, depth, siblings, children, step);
    }
    if name == ".mypy_cache"@ {
        assert(b[16].name == ".mypy_cache"@ && b[16].ecosystem == "python"@);
        lemma_first_rule_wins(cfg, 16, name, depth, siblings, children, step);
    }
    if name == ".pytest_cache"@ {
        assert(b[17].name == ".pytest_cache"@ && b[17].ecosystem == "python"@);
        lemma_first_rule_wins(cfg, 17, name, depth, siblings, children, step);
    }
    if name == ".tox"@ {
        assert(b[18].name == ".tox"@ && b[18].ecosystem == "python"@);
        lemma_first_rule_wins(cfg, 18, name, depth, siblings, children, step);
    }
    if name == ".nox"@ {
        assert(b[19].name == ".nox"@ && b[19].ecosystem == "python"@);
        lemma_first_rule_wins(cfg, 19, name, depth, siblings, children, step);
    }
    if name == "zig-cache"@ {
        assert(b[21].name == "zig-cache"@ && b[21].ecosystem == "zig"@);
        lemma_first_rule_wins(cfg, 21, name, depth, siblings, children, step);
    }
    if name == "zig-out"@ {
        assert(b[22].name == "zig-out"@ && b[22].ecosystem == "zig"@);
        lemma_first_rule_wins(cfg, 22, name, depth, siblings, children, step);
    }
    if name == ".dart_tool"@ {
        assert(b[23].name == ".dart_tool"@ && b[23].ecosystem == "dart"@);
        lemma_first_rule_wins(cfg, 23, name, depth, siblings, children, step);
    }
    if name == "DerivedData"@ {
        assert(b[24].name == "DerivedData"@ && b[24].ecosystem == "xcode"@);
        lemma_first_rule_wins(cfg, 24, name, depth, siblings, children, step);
    }
}

/// The directories that `clean` takes only beside a project file are build
/// artefacts when such a file is beside them: `target` beside `Cargo.toml`
/// (rust), `dist` beside `package.json` or a bundler configuration (node),
/// `build` beside a Gradle or CMake file, `venv` beside a Python project
/// file, `out` beside `go.mod`, `_build` and `deps` beside `mix.exs`, and
/// `bin` and `obj` beside a .NET project file.
pub proof fn law_project_artefact_dirs(
    cfg: Config,
    name: Seq<char>,
    depth: nat,
    siblings: Seq<Seq<char>>,
    children: Seq<Seq<char>>,
    step: EntryStep,
)
    requires
        step_ok(spec_all_rules(cfg), name, true, depth, siblings, children, step),
    ensures
        name == "target"@ && some_named(siblings, seq!["Cargo.toml"@]) ==> step is Artefact && spec_all_rules(cfg)[step->0 as int].name == "target"@
            && spec_all_rules(cfg)[step->0 as int].ecosystem == "rust"@,
        name == "dist"@ && some_named(siblings, seq!["package.json"@, "webpack.config.js"@, "vite.config.ts"@, "vite.config.js"@, "rollup.config.js"@]) ==> step is Artefact && spec_all_rules(cfg)[step->0 as int].name == "dist"@
            && spec_all_rules(cfg)[step->0 as int].ecosystem == "node"@,
        name == "build"@ && some_named(siblings, seq!["build.gradle"@, "build.gradle.kts"@, "CMakeLists.txt"@]) ==> step is Artefact && spec_all_rules(cfg)[step->0 as int].name == "build"@
            && spec_all_rules(cfg)[step->0 as int].ecosystem == "gradle/cmake"@,
        name == "venv"@ && some_named(siblings, seq!["pyproject.toml"@, "requirements.txt"@, "setup.py"@]) ==> step is Artefact && spec_all_rules(cfg)[step->0 as int].name == "venv"@
            && spec_all_rules(cfg)[step->0 as int].ecosystem == "python"@,
        name == "out"@ && some_named(siblings, seq!["go.mod"@]) ==> step is Artefact && spec_all_rules(cfg)[step->0 as int].name == "out"@
            && spec_all_rules(cfg)[step->0 as int].ecosystem == "go"@,
        name == "_build"@ && some_named(siblings, seq!["mix.exs"@]) ==> step is Artefact && spec_all_rules(cfg)[step->0 as int].name == "_build"@
            && spec_all_rules(cfg)[step->0 as int].ecosystem == "elixir"@,
        name == "deps"@ && some_named(siblings, seq!["mix.exs"@]) ==> step is Artefact && spec_all_rules(cfg)[step->0 as int].name == "deps"@
            && spec_all_rules(cfg)[step->0 as int].ecosystem == "elixir"@,
        name == "bin"@ && some_ends_with(siblings, seq![".csproj"@, ".fsproj"@, ".vbproj"@]) ==> step is Artefact && spec_all_rules(cfg)[step->0 as int].name == "bin"@
            && spec_all_rules(cfg)[step->0 as int].ecosystem == "dotnet"@,
        name == "obj"@ && some_ends_with(siblings, seq![".csproj"@, ".fsproj"@, ".vbproj"@]) ==> step is Artefact && spec_all_rules(cfg)[step->0 as int].name == "obj"@
            && spec_all_rules(cfg)[step->0 as int].ecosystem == "dotnet"@,
{
    reveal_strlit("*.csproj");
    reveal_strlit("*.fsproj");
    reveal_strlit("*.vbproj");
    reveal_strlit(".csproj");
    reveal_strlit(".fsproj");
    reveal_strlit(".vbproj");
    reveal_strlit("CMakeLists.txt");
    reveal_strlit("Cargo.toml");
    reveal_strlit("_build");
    reveal_strlit("bin");
    reveal_strlit("build");
    reveal_strlit("build.gradle");
    reveal_strlit("build.gradle.kts");
    reveal_strlit("deps");
    reveal_strlit("dist");
    reveal_strlit("go.mod");
    reveal_strlit("mix.exs");
    reveal_strlit("obj");
    reveal_strlit("out");
    reveal_strlit("package.json");
    reveal_strlit("pyproject.toml");
    reveal_strlit("requirements.txt");
    reveal_strlit("rollup.config.js");
    reveal_strlit("setup.py");
    reveal_strlit("target");
    reveal_strlit("venv");
    reveal_strlit("vite.config.js");
    reveal_strlit("vite.config.ts");
    reveal_strlit("webpack.config.js");
    let b = spec_builtin_rules();
    assert(b =~= spec_builtin_rules_a() + spec_builtin_rules_b() + spec_builtin_rules_c());
    if name == "target"@ && some_named(siblings, seq!["Cargo.toml"@]) {
        let (j, m) = choose|j: int, m: int| 0 <= j < siblings.len() && 0 <= m < 1 && siblings[j] == seq!["Cargo.toml"@][m];
        assert(b[0].requires_sibling =~= seq!["Cargo.toml"@]);
        assert(pattern_matches(b[0].requires_sibling[m], siblings[j]));
        lemma_first_rule_wins(cfg, 0, name, depth, siblings, children, step);
    }
    if name == "dist"@ && some_named(siblings, seq!["package.json"@, "webpack.config.js"@, "vite.config.ts"@, "vite.config.js"@, "rollup.config.js"@]) {
        let (j, m) = choose|j: int, m: int| 0 <= j < siblings.len() && 0 <= m < 5 && siblings[j] == seq!["package.json"@, "webpack.config.js"@, "vite.config.ts"@, "vite.config.js"@, "rollup.config.js"@][m];
        assert(b[8].requires_sibling =~= seq!["package.json"@, "webpack.config.js"@, "vite.config.ts"@, "vite.config.js"@, "rollup.config.js"@]);
        assert(pattern_matches(b[8].requires_sibling[m], siblings[j]));
        lemma_first_rule_wins(cfg, 8, name, depth, siblings, children, step);
    }
    if name == "build"@ && some_named(siblings, seq!["build.gradle"@, "build.gradle.kts"@, "CMakeLists.txt"@]) {
        let (j, m) = choose|j: int, m: int| 0 <= j < siblings.len() && 0 <= m < 3 && siblings[j] == seq!["build.gradle"@, "build.gradle.kts"@, "CMakeLists.txt"@][m];
        assert(b[9].requires_sibling =~= seq!["build.gradle"@, "build.gradle.kts"@, "CMakeLists.txt"@]);
        assert(pattern_matches(b[9].requires_sibling[m], siblings[j]));
        lemma_first_rule_wins(cfg, 9, name, depth, siblings, children, step);
    }
    if name == "venv"@ && some_named(siblings, seq!["pyproject.toml"@, "requirements.txt"@, "setup.py"@]) {
        let (j, m) = choose|j: int, m: int| 0 <= j < siblings.len() && 0 <= m < 3 && siblings[j] == seq!["pyproject.toml"@, "requirements.txt"@, "setup.py"@][m];
        assert(b[14].requires_sibling =~= seq!["pyproject.toml"@, "requirements.txt"@, "setup.py"@]);
        assert(pattern_matches(b[14].requires_sibling[m], siblings[j]));
        lemma_first_rule_wins(cfg, 14, name, depth, siblings, children, step);
    }
    if name == "out"@ && some_named(siblings, seq!["go.mod"@]) {
        let (j, m) = choose|j: int, m: int| 0 <= j < siblings.len() && 0 <= m < 1 && siblings[j] == seq!["go.mod"@][m];
        assert(b[20].requires_sibling =~= seq!["go.mod"@]);
        assert(pattern_matches(b[20].requires_sibling[m], siblings[j]));
        lemma_first_rule_wins(cfg, 20, name, depth, siblings, children, step);
    }
    if name == "_build"@ && some_named(siblings, seq!["mix.exs"@]) {
        let (j, m) = choose|j: int, m: int| 0 <= j < siblings.len() && 0 <= m < 1 && siblings[j] == seq!["mix.exs"@][m];
        assert(b[25].requires_sibling =~= seq!["mix.exs"@]);
        assert(pattern_matches(b[25].requires_sibling[m], siblings[j]));
        lemma_first_rule_wins(cfg, 25, name, depth, siblings, children, step);
    }
    if name == "deps"@ && some_named(siblings, seq!["mix.exs"@]) {
        let (j, m) = choose|j: int, m: int| 0 <= j < siblings.len() && 0 <= m < 1 && siblings[j] == seq!["mix.exs"@][m];
        assert(b[26].requires_sibling =~= seq!["mix.exs"@]);
        assert(pattern_matches(b[26].requires_sibling[m], siblings[j]));
        lemma_first_rule_wins(cfg, 26, name, depth, siblings, children, step);
    }
    if name == "bin"@ && some_ends_with(siblings, seq![".csproj"@, ".fsproj"@, ".vbproj"@]) {
        let (j, m) = choose|j: int, m: int| 0 <= j < siblings.len() && 0 <= m < 3 && ends_with(siblings[j], seq![".csproj"@, ".fsproj"@, ".vbproj"@][m]);
        assert(b[27].requires_sibling =~= seq!["*.csproj"@, "*.fsproj"@, "*.vbproj"@]);
        assert(b[27].requires_sibling[m].drop_first() =~= seq![".csproj"@, ".fsproj"@, ".vbproj"@][m]);
        assert(pattern_matches(b[27].requires_sibling[m], siblings[j]));
        lemma_first_rule_wins(cfg, 27, name, depth, siblings, children, step);
    }
    if name == "obj"@ && some_ends_with(siblings, seq![".csproj"@, ".fsproj"@, ".vbproj"@]) {
        let (j, m) = choose|j: int, m: int| 0 <= j < siblings.len() && 0 <= m < 3 && ends_with(siblings[j], seq![".csproj"@, ".fsproj"@, ".vbproj"@][m]);
        assert(b[28].requires_sibling =~= seq!["*.csproj"@, "*.fsproj"@, "*.vbproj"@]);
        assert(b[28].requires_sibling[m].drop_first() =~= seq![".csproj"@, ".fsproj"@, ".vbproj"@][m]);
        assert(pattern_matches(b[28].requires_sibling[m], siblings[j]));
        lemma_first_rule_wins(cfg, 28, name, depth, siblings, children, step);
    }
}

/// Without such a project file beside it (and without a `pyvenv.cfg`
/// inside), the built-in rules leave such a directory alone and the walk
/// goes into it: a `target` directory with no `Cargo.toml` beside it is no
/// rust artefact.
pub proof fn law_project_dirs_need_project_file(
    name: Seq<char>,
    depth: nat,
    siblings: Seq<Seq<char>>,
    children: Seq<Seq<char>>,
    step: EntryStep,
)
    requires
        step_ok(spec_builtin_rules(), name, true, depth, siblings, children, step),
        !children.contains("pyvenv.cfg"@),
    ensures
        name == "target"@ && !some_named(siblings, seq!["Cargo.toml"@]) ==> step == EntryStep::Descend,
        name == "dist"@ && !some_named(siblings, seq!["package.json"@, "webpack.config.js"@, "vite.config.ts"@, "vite.config.js"@, "rollup.config.js"@]) ==> step == EntryStep::Descend,
        name == "build"@ && !some_named(siblings, seq!["build.gradle"@, "build.gradle.kts"@, "CMakeLists.txt"@]) ==> step == EntryStep::Descend,
        name == "venv"@ && !some_named(siblings, seq!["pyproject.toml"@, "requirements.txt"@, "setup.py"@]) ==> step == EntryStep::Descend,
        name == "out"@ && !some_named(siblings, seq!["go.mod"@]) ==> step == EntryStep::Descend,
        name == "_build"@ && !some_named(siblings, seq!["mix.exs"@]) ==> step == EntryStep::Descend,
        name == "deps"@ && !some_named(siblings, seq!["mix.exs"@]) ==> step == EntryStep::Descend,
        name == "bin"@ && !some_ends_with(siblings, seq![".csproj"@, ".fsproj"@, ".vbproj"@]) ==> step == EntryStep::Descend,
        name == "obj"@ && !some_ends_with(siblings, seq![".csproj"@, ".fsproj"@, ".vbproj"@]) ==> step == EntryStep::Descend,
{
    reveal_strlit("*.csproj");
    reveal_strlit("*.fsproj");
    reveal_strlit("*.vbproj");
    reveal_strlit(".csproj");
    reveal_strlit(".fsproj");
    reveal_strlit(".vbproj");
    reveal_strlit("CMakeLists.txt");
    reveal_strlit("Cargo.toml");
    reveal_strlit("_build");
    reveal_strlit("bin");
    reveal_strlit("build");
    reveal_strlit("build.gradle");
    reveal_strlit("build.gradle.kts");
    reveal_strlit("deps");
    reveal_strlit("dist");
    reveal_strlit("go.mod");
    reveal_strlit("mix.exs");
    reveal_strlit("obj");
    reveal_strlit("out");
    reveal_strlit("package.json");
    reveal_strlit("pyproject.toml");
    reveal_strlit("requirements.txt");
    reveal_strlit("rollup.config.js");
    reveal_strlit("setup.py");
    reveal_strlit("target");
    reveal_strlit("venv");
    reveal_strlit("vite.config.js");
    reveal_strlit("vite.config.ts");
    reveal_strlit("webpack.config.js");
    let b = spec_builtin_rules();
    assert(b =~= spec_builtin_rules_a() + spec_builtin_rules_b() + spec_builtin_rules_c());
    if name == "target"@ && !some_named(siblings, seq!["Cargo.toml"@]) {
        assert(b[0].requires_sibling =~= seq!["Cargo.toml"@]);
        if sibling_ok(b[0], siblings) {
            let (a, c) = choose|a: int, c: int| 0 <= a < b[0].requires_sibling.len() && 0 <= c < siblings.len() && pattern_matches(b[0].requires_sibling[a], siblings[c]);
            assert(siblings[c] == seq!["Cargo.toml"@][a]);
        }
        lemma_gated_dir_descends(0, name, depth, siblings, children, step);
    }
    if name == "dist"@ && !some_named(siblings, seq!["package.json"@, "webpack.config.js"@, "vite.config.ts"@, "vite.config.js"@, "rollup.config.js"@]) {
        assert(b[8].requires_sibling =~= seq!["package.json"@, "webpack.config.js"@, "vite.config.ts"@, "vite.config.js"@, "rollup.config.js"@]);
        if sibling_ok(b[8], siblings) {
            let (a, c) = choose|a: int, c: int| 0 <= a < b[8].requires_sibling.len() && 0 <= c < siblings.len() && pattern_matches(b[8].requires_sibling[a], siblings[c]);
            assert(siblings[c] == seq!["package.json"@, "webpack.config.js"@, "vite.config.ts"@, "vite.config.js"@, "rollup.config.js"@][a]);
        }
        lemma_gated_dir_descends(8, name, depth, siblings, children, step);
    }
    if name == "build"@ && !some_named(siblings, seq!["build.gradle"@, "build.gradle.kts"@, "CMakeLists.txt"@]) {
        assert(b[9].requires_sibling =~= seq!["build.gradle"@, "build.gradle.kts"@, "CMakeLists.txt"@]);
        if sibling_ok(b[9], siblings) {
            let (a, c) = choose|a: int, c: int| 0 <= a < b[9].requires_sibling.len() && 0 <= c < siblings.len() && pattern_matches(b[9].requires_sibling[a], siblings[c]);
            assert(siblings[c] == seq!["build.gradle"@, "build.gradle.kts"@, "CMakeLists.txt"@][a]);
        }
        lemma_gated_dir_descends(9, name, depth, siblings, children, step);
    }
    if name == "venv"@ && !some_named(siblings, seq!["pyproject.toml"@, "requirements.txt"@, "setup.py"@]) {
        assert(b[14].requires_sibling =~= seq!["pyproject.toml"@, "requirements.txt"@, "setup.py"@]);
        if sibling_ok(b[14], siblings) {
            let (a, c) = choose|a: int, c: int| 0 <= a < b[14].requires_sibling.len() && 0 <= c < siblings.len() && pattern_matches(b[14].requires_sibling[a], siblings[c]);
            assert(siblings[c] == seq!["pyproject.toml"@, "requirements.txt"@, "setup.py"@][a]);
        }
        lemma_gated_dir_descends(14, name, depth, siblings, children, step);
    }
    if name == "out"@ && !some_named(siblings, seq!["go.mod"@]) {
        assert(b[20].requires_sibling =~= seq!["go.mod"@]);
        if sibling_ok(b[20], siblings) {
            let (a, c) = choose|a: int, c: int| 0 <= a < b[20].requires_sibling.len() && 0 <= c < siblings.len() && pattern_matches(b[20].requires_sibling[a], siblings[c]);
            assert(siblings[c] == seq!["go.mod"@][a]);
        }
        lemma_gated_dir_descends(20, name, depth, siblings, children, step);
    }
    if name == "_build"@ && !some_named(siblings, seq!["mix.exs"@]) {
        assert(b[25].requires_sibling =~= seq!["mix.exs"@]);
        if sibling_ok(b[25], siblings) {
            let (a, c) = choose|a: int, c: int| 0 <= a < b[25].requires_sibling.len() && 0 <= c < siblings.len() && pattern_matches(b[25].requires_sibling[a], siblings[c]);
            assert(siblings[c] == seq!["mix.exs"@][a]);
        }
        lemma_gated_dir_descends(25, name, depth, siblings, children, step);
    }
    if name == "deps"@ && !some_named(siblings, seq!["mix.exs"@]) {
        assert(b[26].requires_sibling =~= seq!["mix.exs"@]);
        if sibling_ok(b[26], siblings) {
            let (a, c) = choose|a: int, c: int| 0 <= a < b[26].requires_sibling.len() && 0 <= c < siblings.len() && pattern_matches(b[26].requires_sibling[a], siblings[c]);
            assert(siblings[c] == seq!["mix.exs"@][a]);
        }
        lemma_gated_dir_descends(26, name, depth, siblings, children, step);
    }
    if name == "bin"@ && !some_ends_with(siblings, seq![".csproj"@, ".fsproj"@, ".vbproj"@]) {
        assert(b[27].requires_sibling =~= seq!["*.csproj"@, "*.fsproj"@, "*.vbproj"@]);
        if sibling_ok(b[27], siblings) {
            let (a, c) = choose|a: int, c: int| 0 <= a < b[27].requires_sibling.len() && 0 <= c < siblings.len() && pattern_matches(b[27].requires_sibling[a], siblings[c]);
            assert(b[27].requires_sibling[a].drop_first() =~= seq![".csproj"@, ".fsproj"@, ".vbproj"@][a]);
            assert(ends_with(siblings[c], seq![".csproj"@, ".fsproj"@, ".vbproj"@][a]));
        }
        lemma_gated_dir_descends(27, name, depth, siblings, children, step);
    }
    if name == "obj"@ && !some_ends_with(siblings, seq![".csproj"@, ".fsproj"@, ".vbproj"@]) {
        assert(b[28].requires_sibling =~= seq!["*.csproj"@, "*.fsproj"@, "*.vbproj"@]);
        if sibling_ok(b[28], siblings) {
            let (a, c) = choose|a: int, c: int| 0 <= a < b[28].requires_sibling.len() && 0 <= c < siblings.len() && pattern_matches(b[28].requires_sibling[a], siblings[c]);
            assert(b[28].requires_sibling[a].drop_first() =~= seq![".csproj"@, ".fsproj"@, ".vbproj"@][a]);
            assert(ends_with(siblings[c], seq![".csproj"@, ".fsproj"@, ".vbproj"@][a]));
        }
        lemma_gated_dir_descends(28, name, depth, siblings, children, step);
    }
}

/// A configured rule takes a directory that it names and no built-in rule
/// names, when the sibling it asks for (if any) is there and no earlier
/// configured rule names the same directory: the entry is an artefact of
/// that rule's ecosystem.
pub proof fn law_custom_rule_applies(
    cfg: Config,
    m: int,
    name: Seq<char>,
    depth: nat,
    siblings: Seq<Seq<char>>,
    children: Seq<Seq<char>>,
    step: EntryStep,
)
    requires
        step_ok(spec_all_rules(cfg), name, true, depth, siblings, children, step),
        0 <= m < cfg.artefact_rules.len(),
        cfg.artefact_rules@[m].name@ == name,
        forall|q: int| 0 <= q < m ==> (#[trigger] cfg.artefact_rules@[q]).name@ != name,
        !names_rule(spec_builtin_rules(), name),
        !children.contains("pyvenv.cfg"@),
        cfg.artefact_rules@[m].requires_sibling.len() == 0 || some_named(
            siblings,
            string_views(cfg.artefact_rules@[m].requires_sibling@),
        ),
    ensures
        step is Artefact,
        spec_all_rules(cfg)[step->0 as int].name == name,
        spec_all_rules(cfg)[step->0 as int].ecosystem == cfg.artefact_rules@[m].ecosystem@,
{
    reveal_strlit("pyvenv.cfg");
    let b = spec_builtin_rules();
    assert(b =~= spec_builtin_rules_a() + spec_builtin_rules_b() + spec_builtin_rules_c());
    let r = spec_all_rules(cfg);
    let cs = cfg.artefact_rules@.map_values(|c: CustomArtefactRule| custom_rule_view(c));
    let k = b.len() + m;
    assert(r[k] == cs[m]);
    let c = cfg.artefact_rules@[m];
    assert(r[k] == custom_rule_view(c));
    if c.requires_sibling.len() > 0 {
        let sv = string_views(c.requires_sibling@);
        let (j, q) = choose|j: int, q: int| 0 <= j < siblings.len() && 0 <= q < sv.len() && siblings[j] == sv[q];
        let pat = sv[q];
        if pat.len() > 0 && pat[0] == '*' {
            assert(siblings[j].skip(siblings[j].len() - pat.drop_first().len()) =~= pat.drop_first());
        }
        assert(pattern_matches(r[k].requires_sibling[q], siblings[j]));
    }
    assert(rule_matches(r[k], name, true, siblings, children));
    assert(names_rule(r, name));
    assert forall|j: int| 0 <= j < k implies !rule_matches(#[trigger] r[j], name, true, siblings, children) by {
        if j < b.len() {
            assert(r[j] == b[j]);
            if j == 29 {
                assert(b[29].requires_child =~= seq!["pyvenv.cfg"@]);
                if child_ok(b[29], children) {
                    let (a, d) = choose|a: int, d: int|
                        0 <= a < b[29].requires_child.len() && 0 <= d < children.len() && b[29].requires_child[a]
                            == children[d];
                    assert(children.contains(children[d]));
                }
            } else if j == 30 {
                assert(b[30].is_file);
            } else {
                lemma_builtin_fixed_names(j);
            }
        } else {
            let q = j - b.len();
            assert(r[j] == cs[q]);
            assert(cfg.artefact_rules@[q].name@ != name);
        }
    }
    match step {
        EntryStep::Artefact(i) => {
            if (i as int) < k {
                assert(!rule_matches(r[i as int], name, true, siblings, children));
            } else if (i as int) > k {
                assert(!rule_matches(r[k], name, true, siblings, children));
            }
        },
        EntryStep::Descend => {
            assert(!rule_matches(r[k], name, true, siblings, children));
        },
        _ => {},
    }
}

// ---------------------------------------------------------------------------
// --older-than, report order, totals
// ---------------------------------------------------------------------------

#[derive(PartialEq, Eq, Structural, Clone, Copy, Debug)]
pub enum DurationError {
    /// Neither `<n>d` nor `<n>w`.
    InvalidFormat,
    /// The number does not parse as an `i64`.
    InvalidNumber,
    /// `<n>w` is more days than an `i64` holds.
    OutOfRange,
}

/// `--older-than`: `<n>d` is n days, `<n>w` is 7n days, after trimming.
pub open spec fn spec_parse_duration(s: Seq<char>) -> Result<i64, DurationError> {
    let t = trim(s);
    if t.len() > 0 && t.last() == 'd' {
        match parse_i64(t.drop_last()) {
            Some(n) => Ok(n),
            None => Err(DurationError::InvalidNumber),
        }
    } else if t.len() > 0 && t.last() == 'w' {
        match parse_i64(t.drop_last()) {
            Some(n) => if i64::MIN <= 7 * n <= i64::MAX {
                Ok((7 * n) as i64)
            } else {
                Err(DurationError::OutOfRange)
            },
            None => Err(DurationError::InvalidNumber),
        }
    } else {
        Err(DurationError::InvalidFormat)
    }
}

/// Parses an `--older-than` duration (`30d`, `4w`) into days.
pub fn parse_duration(s: &str) -> (r: Result<i64, DurationError>)
    ensures
        r == spec_parse_duration(s@),
{
    let t = trim_chars(&chars_of(s));
    if t.len() > 0 && (t[t.len() - 1] == 'd' || t[t.len() - 1] == 'w') {
        let num = slice(&t, 0, t.len() - 1);
        assert(num@ =~= t@.drop_last());
        match parse_i64_chars(&num) {
            Some(n) => {
                if t[t.len() - 1] == 'd' {
                    Ok(n)
                } else {
                    match n.checked_mul(7) {
                        Some(d) => Ok(d),
                        None => Err(DurationError::OutOfRange),
                    }
                }
            },
            None => Err(DurationError::InvalidNumber),
        }
    } else {
        Err(DurationError::InvalidFormat)
    }
}

/// A build artefact found on disk.
pub struct Artifact {
    pub path: String,
    pub size: u64,
    pub ecosystem: String,
    /// Day number of the last change to the project the artefact belongs to.
    pub last_modified: Option<i32>,
}

/// Kept by `--older-than`: the project is known to be older than `cutoff`
/// days before `today`, or its age is unknown.
pub open spec fn older_than(a: Artifact, today: i32, days: i64) -> bool {
    match a.last_modified {
        Some(d) => d < today - days,
        None => true,
    }
}

/// The artefacts that `--older-than <days>` keeps, in their order.
pub fn keep_older_than(arts: Vec<Artifact>, today: i32, days: i64) -> (r: Vec<Artifact>)
    ensures
        r@ == arts@.filter(|a: Artifact| older_than(a, today, days)),
{
    let ghost pred = |a: Artifact| older_than(a, today, days);
    let ghost src = arts@;
    let mut r: Vec<Artifact> = Vec::new();
    let mut arts = arts;
    while arts.len() > 0
        invariant
            arts@.len() <= src.len(),
            arts@ == src.skip(src.len() - arts.len()),
            pred == (|a: Artifact| older_than(a, today, days)),
            r@ == src.take(src.len() - arts.len()).filter(pred),
        decreases arts.len(),
    {
        let ghost k = src.len() - arts.len();
        let a = arts.remove(0);
        proof {
            assert(src[k] == a);
            assert(src.take(k + 1) =~= src.take(k).push(a));
            src.take(k).lemma_filter_push(a, pred);
            assert(arts@ =~= src.skip(src.len() - arts.len()));
        }
        let keep = match a.last_modified {
            Some(d) => (d as i128) < (today as i128) - (days as i128),
            None => true,
        };
        if keep {
            r.push(a);
        }
    }
    assert(src.take(src.len() as int) =~= src);
    r
}

pub open spec fn size_keys(s: Seq<Artifact>) -> Seq<u128> {
    s.map_values(|a: Artifact| a.size as u128)
}

/// The artefacts ordered by size, largest first (equal sizes keep their order).
pub fn sort_by_size_desc(arts: Vec<Artifact>) -> (r: Vec<Artifact>)
    ensures
        exists|ord: Seq<usize>|
            #[trigger] is_stable_order(size_keys(arts@), ord, true) && r@
                == ord.map_values(|i: usize| arts@[i as int]),
{
    let mut keys: Vec<u128> = Vec::new();
    let mut k: usize = 0;
    while k < arts.len()
        invariant
            k <= arts.len(),
            keys@ == arts@.take(k as int).map_values(|a: Artifact| a.size as u128),
        decreases arts.len() - k,
    {
        keys.push(arts[k].size as u128);
        k = k + 1;
        assert(keys@ =~= arts@.take(k as int).map_values(|a: Artifact| a.size as u128));
    }
    assert(arts@.take(k as int) =~= arts@);
    let ord = stable_order(&keys, true);
    let ghost src = arts@;
    let r = permute(arts, &ord);
    assert(is_stable_order(size_keys(src), ord@, true));
    r
}

/// `arts` rearranged as `ord` lists them.
pub(crate) fn permute<T>(arts: Vec<T>, ord: &Vec<usize>) -> (r: Vec<T>)
    requires
        ord@.len() == arts@.len(),
        forall|i: int| 0 <= i < ord.len() ==> (#[trigger] ord@[i]) < arts.len(),
        ord@.no_duplicates(),
    ensures
        r@ == ord@.map_values(|i: usize| arts@[i as int]),
{
    let ghost src = arts@;
    let mut slots: Vec<Option<T>> = Vec::new();
    let mut arts = arts;
    while arts.len() > 0
        invariant
            arts@.len() <= src.len(),
            arts@ == src.skip(src.len() - arts.len()),
            slots.len() == src.len() - arts.len(),
            forall|i: int| 0 <= i < slots.len() ==> (#[trigger] slots@[i]) == Some(src[i]),
        decreases arts.len(),
    {
        let a = arts.remove(0);
        assert(arts@ =~= src.skip(src.len() - arts.len()));
        slots.push(Some(a));
    }
    let mut r: Vec<T> = Vec::new();
    let mut k: usize = 0;
    while k < ord.len()
        invariant
            k <= ord.len(),
            ord@.len() == src.len(),
            slots.len() == src.len(),
            forall|i: int| 0 <= i < ord.len() ==> (#[trigger] ord@[i]) < src.len(),
            ord@.no_duplicates(),
            forall|i: int|
                0 <= i < slots.len() ==> ((#[trigger] slots@[i]) is Some <==> !ord@.take(k as int).contains(
                    i as usize,
                )),
            forall|i: int| 0 <= i < slots.len() && (#[trigger] slots@[i]) is Some ==> slots@[i]->0 == src[i],
            r@ == ord@.take(k as int).map_values(|i: usize| src[i as int]),
        decreases ord.len() - k,
    {
        let j = ord[k];
        assert(!ord@.take(k as int).contains(j)) by {
            if ord@.take(k as int).contains(j) {
                let q = choose|q: int| 0 <= q < k && ord@.take(k as int)[q] == j;
                assert(ord@[q] == ord@[k as int]);
            }
        }
        let ghost before = slots@;
        let taken = slots.remove(j);
        slots.insert(j, None);
        proof {
            assert(slots@ =~= before.update(j as int, None));
            assert(taken == before[j as int]);
            assert(ord@.take(k + 1) =~= ord@.take(k as int).push(j));
            assert forall|i: int| 0 <= i < slots.len() implies ((#[trigger] slots@[i]) is Some
                <==> !ord@.take(k + 1).contains(i as usize)) by {
                if i == j {
                    assert(ord@.take(k + 1)[k as int] == j);
                } else {
                    assert(slots@[i] == before[i]);
                    let t1 = ord@.take(k + 1);
                    if t1.contains(i as usize) {
                        let q = choose|q: int| 0 <= q < t1.len() && t1[q] == i as usize;
                        assert(q < k);
                        assert(ord@.take(k as int)[q] == i as usize);
                    }
                    if ord@.take(k as int).contains(i as usize) {
                        let q = choose|q: int| 0 <= q < k && ord@.take(k as int)[q] == i as usize;
                        assert(ord@.take(k + 1)[q] == i as usize);
                    }
                }
            }
        }
        let a = taken.unwrap();
        r.push(a);
        k = k + 1;
        assert(r@ =~= ord@.take(k as int).map_values(|i: usize| src[i as int]));
    }
    assert(ord@.take(k as int) =~= ord@);
    r
}

/// The total size of the artefacts (no overflow: a `u128` sum).
pub open spec fn sum_sizes(s: Seq<Artifact>) -> int
    decreases s.len(),
{
    if s.len() == 0 {
        0
    } else {
        sum_sizes(s.drop_last()) + s.last().size
    }
}

pub fn total_size(arts: &Vec<Artifact>) -> (t: u128)
    ensures
        t == sum_sizes(arts@),
{
    let mut t: u128 = 0;
    let mut k: usize = 0;
    while k < arts.len()
        invariant
            k <= arts.len(),
            t == sum_sizes(arts@.take(k as int)),
            t <= k * 0x1_0000_0000_0000_0000,
        decreases arts.len() - k,
    {
        assert(arts@.take(k + 1).drop_last() =~= arts@.take(k as int));
        t = t + arts[k].size as u128;
        k = k + 1;
    }
    assert(arts@.take(k as int) =~= arts@);
    t
}

/// How an artefact's size is highlighted: over 1 GiB, over 100 MiB, or less.
#[derive(PartialEq, Eq, Structural, Clone, Copy, Debug)]
pub enum SizeTone {
    Large,
    Medium,
    Small,
}

pub fn size_tone(size: u64) -> (t: SizeTone)
    ensures
        t == (if size > 1024 * 1024 * 1024 {
            SizeTone::Large
        } else if size > 100 * 1024 * 1024 {
            SizeTone::Medium
        } else {
            SizeTone::Small
        }),
{
    if size > 1024 * 1024 * 1024 {
        SizeTone::Large
    } else if size > 100 * 1024 * 1024 {
        SizeTone::Medium
    } else {
        SizeTone::Small
    }
}

/// The bytes freed by removing the artefacts, `ok[i]` telling whether the
/// `i`th removal succeeded.
pub open spec fn removed_size(s: Seq<Artifact>, ok: Seq<bool>) -> int
    decreases s.len(),
{
    if s.len() == 0 || ok.len() < s.len() {
        0
    } else {
        removed_size(s.drop_last(), ok) + if ok[s.len() - 1] {
            s.last().size as int
        } else {
            0
        }
    }
}

pub fn removed_total(arts: &Vec<Artifact>, ok: &Vec<bool>) -> (t: u128)
    requires
        arts.len() == ok.len(),
    ensures
        t == removed_size(arts@, ok@),
{
    let mut t: u128 = 0;
    let mut k: usize = 0;
    while k < arts.len()
        invariant
            k <= arts.len(),
            arts.len() == ok.len(),
            t == removed_size(arts@.take(k as int), ok@),
            t <= k * 0x1_0000_0000_0000_0000,
        decreases arts.len() - k,
    {
        assert(arts@.take(k + 1).drop_last() =~= arts@.take(k as int));
        if ok[k] {
            t = t + arts[k].size as u128;
        }
        k = k + 1;
    }
    assert(arts@.take(k as int) =~= arts@);
    t
}

} // verus!
