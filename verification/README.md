# ward

A workspace lifecycle manager for local git repositories: it classifies each
repository (archive, prototype, keep, local-work, no-remote), archives stale
ones as verified `git bundle` files with a manifest and an extras tar,
restores them after re-checking their digests, plans the consolidation of
duplicate clones, and sweeps out build artefacts.

## Layout

- `src/` is the verified library. Every decision ward makes lives there with
  a contract proved by Verus: the classification (`assess`), the parsers of
  git's output (`git`, `dates`, `bundle`), paths and exclusions (`paths`,
  `config`), artefact detection (`clean`), duplicate clusters and the
  worktree conversion steps (`dedupe`), archive candidates, verification
  checks and manifests (`archive`, `manifest`), restore decisions
  (`restore`), the assessment cache (`cache`), session slugs (`sessions`),
  and the reports (`report`, `scan`, `status`). The laws of the library are
  its public proof functions (`law_*`).
- `app/` is the command-line program around it: argument handling, running
  git, walking and changing the file system, serialising to JSON and TOML,
  and printing.
- `tests/` exercises the library on concrete inputs.

The agent-session directory used by `--skip-active-sessions` is read from
the `WARD_SESSIONS_DIR` environment variable.
