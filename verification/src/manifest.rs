//! The archive manifest: the JSON record written beside each archive.
use vstd::prelude::*;

verus! {

/// The manifest schema version written by this library.
pub const MANIFEST_VERSION: u32 = 3;

/// What the primary artefact of an archive is.
#[derive(PartialEq, Eq, Structural, Clone, Copy, Debug)]
pub enum ArchiveFormat {
    Bundle,
    Tarball,
}

/// A ref of the archived repository and the commit it points at.
pub struct RefEntry {
    pub name: String,
    pub sha: String,
}

/// A configured remote of the archived repository.
pub struct RemoteEntry {
    pub name: String,
    pub url: String,
}

/// Everything recorded about an archive.
pub struct Manifest {
    pub manifest_version: u32,
    pub format: ArchiveFormat,
    pub original_path: String,
    pub archived_at: String,
    pub archived_by: String,
    pub size_bytes: u64,
    pub bundle_sha256: Option<String>,
    pub extras_sha256: Option<String>,
    pub head_sha: Option<String>,
    pub refs: Vec<RefEntry>,
    pub remotes: Vec<RemoteEntry>,
    pub first_commit: Option<String>,
    pub last_commit: Option<String>,
    pub commit_count: u64,
    pub verified_at: Option<String>,
    pub verifier_version: Option<String>,
    pub has_extras: bool,
    pub stash_count: u64,
    pub stash_shas: Vec<String>,
    pub tag_count: u64,
    pub has_hooks: bool,
    pub has_config: bool,
    pub has_config_worktree: bool,
    pub submodule_count: u64,
}

pub open spec fn ref_entry_views(v: Seq<RefEntry>) -> Seq<(Seq<char>, Seq<char>)> {
    v.map_values(|e: RefEntry| (e.name@, e.sha@))
}

pub open spec fn remote_entry_views(v: Seq<RemoteEntry>) -> Seq<(Seq<char>, Seq<char>)> {
    v.map_values(|e: RemoteEntry| (e.name@, e.url@))
}

} // verus!
