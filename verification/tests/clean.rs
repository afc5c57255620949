use ward::clean::{all_rules, entry_step, ArtifactRule, EntryStep};
use ward::config::Config;

fn names(v: &[&str]) -> Vec<String> {
    v.iter().map(|s| s.to_string()).collect()
}

fn ecosystem_of(rules: &[ArtifactRule], step: EntryStep) -> Option<String> {
    match step {
        EntryStep::Artefact(i) => Some(rules[i].ecosystem.clone()),
        _ => None,
    }
}

#[test]
fn detects_elixir_build_and_deps() {
    let rules = all_rules(&Config::default());
    let siblings = names(&["_build", "deps", "mix.exs"]);
    let b = entry_step(&rules, "_build", true, 2, &siblings, &names(&["dev"]));
    let d = entry_step(&rules, "deps", true, 2, &siblings, &names(&["phoenix"]));
    assert_eq!(ecosystem_of(&rules, b).as_deref(), Some("elixir"));
    assert_eq!(ecosystem_of(&rules, d).as_deref(), Some("elixir"));
    if let EntryStep::Artefact(i) = b {
        assert_eq!(rules[i].name, "_build");
    }
}

#[test]
fn detects_dotnet_bin_and_obj() {
    let rules = all_rules(&Config::default());
    let siblings = names(&["bin", "obj", "WebApp.csproj"]);
    let b = entry_step(&rules, "bin", true, 2, &siblings, &names(&["Debug"]));
    let o = entry_step(&rules, "obj", true, 2, &siblings, &names(&["Debug"]));
    assert_eq!(ecosystem_of(&rules, b).as_deref(), Some("dotnet"));
    assert_eq!(ecosystem_of(&rules, o).as_deref(), Some("dotnet"));
}

#[test]
fn bin_without_csproj_is_not_detected() {
    let rules = all_rules(&Config::default());
    let step = entry_step(&rules, "bin", true, 2, &names(&["bin"]), &names(&["run.sh"]));
    assert_eq!(step, EntryStep::Descend);
}

#[test]
fn detects_venv_by_marker_with_unusual_name() {
    let rules = all_rules(&Config::default());
    let step = entry_step(
        &rules,
        "myproj",
        true,
        2,
        &names(&["myproj"]),
        &names(&["bin", "lib", "pyvenv.cfg"]),
    );
    assert_eq!(ecosystem_of(&rules, step).as_deref(), Some("python"));
}

#[test]
fn detects_erl_crash_dump_file() {
    let rules = all_rules(&Config::default());
    let step = entry_step(&rules, "erl_crash.dump", false, 2, &names(&["erl_crash.dump"]), &Vec::new());
    assert_eq!(ecosystem_of(&rules, step).as_deref(), Some("erlang"));
}

#[test]
fn target_needs_cargo_toml() {
    let rules = all_rules(&Config::default());
    let with = entry_step(&rules, "target", true, 2, &names(&["Cargo.toml", "src", "target"]), &Vec::new());
    let without = entry_step(&rules, "target", true, 2, &names(&["target"]), &Vec::new());
    assert_eq!(ecosystem_of(&rules, with).as_deref(), Some("rust"));
    assert_eq!(without, EntryStep::Descend);
}

#[test]
fn hidden_dirs_are_pruned_unless_named_by_a_rule() {
    let rules = all_rules(&Config::default());
    assert_eq!(entry_step(&rules, ".cache", true, 1, &Vec::new(), &Vec::new()), EntryStep::Prune);
    let venv = entry_step(&rules, ".venv", true, 1, &names(&[".venv"]), &Vec::new());
    assert_eq!(ecosystem_of(&rules, venv).as_deref(), Some("python"));
    assert_eq!(entry_step(&rules, ".hidden-root", true, 0, &Vec::new(), &Vec::new()), EntryStep::Descend);
}

#[test]
fn plain_files_are_skipped() {
    let rules = all_rules(&Config::default());
    assert_eq!(entry_step(&rules, "main.rs", false, 3, &Vec::new(), &Vec::new()), EntryStep::Skip);
}

#[test]
fn custom_rules_come_after_builtin_ones() {
    let mut cfg = Config::default();
    cfg.artefact_rules.push(ward::config::CustomArtefactRule {
        name: "my-build".to_string(),
        ecosystem: "custom".to_string(),
        requires_sibling: names(&["Makefile"]),
    });
    let rules = all_rules(&cfg);
    let step = entry_step(&rules, "my-build", true, 1, &names(&["Makefile", "my-build"]), &Vec::new());
    assert_eq!(ecosystem_of(&rules, step).as_deref(), Some("custom"));
    assert_eq!(rules.last().map(|r| r.name.clone()), Some("my-build".to_string()));
}
