//! Restoring: which files make up a named archive, how an archive's digests
//! are checked against its manifest, and when a restore is refused.
use vstd::prelude::*;
use crate::git::opt_view;
use crate::manifest::{ArchiveFormat, Manifest};
use crate::order::{is_stable_order, text_order, text_ranks};
use crate::paths::{answers_as, join, spec_file_name, spec_join, file_name};
use crate::text::{chars_eq, chars_of, concat, ends_with, has_suffix, slice, string_of};

verus! {

// ---------------------------------------------------------------------------
// Files of a named archive
// ---------------------------------------------------------------------------

/// The stem of the archive named `name`. A `.json` suffix is taken off first;
/// each later step takes its suffix off what the step before left, and when
/// that suffix is not there it goes back to `name` itself.
pub open spec fn spec_archive_stem(name: Seq<char>) -> Seq<char> {
    let s1 = if ends_with(name, ".json"@) {
        name.take(name.len() - 5)
    } else {
        name
    };
    let s2 = if ends_with(s1, ".bundle"@) {
        s1.take(s1.len() - 7)
    } else {
        name
    };
    if ends_with(s2, ".tar.gz"@) {
        s2.take(s2.len() - 7)
    } else {
        name
    }
}

fn strip_or_name(s: &Vec<char>, suffix: &str, name: &Vec<char>) -> (r: Vec<char>)
    ensures
        r@ == (if ends_with(s@, suffix@) {
            s@.take(s@.len() - suffix@.len())
        } else {
            name@
        }),
{
    let p = chars_of(suffix);
    if has_suffix(s, &p) {
        let r = slice(s, 0, s.len() - p.len());
        assert(r@ =~= s@.take(s@.len() - suffix@.len()));
        r
    } else {
        name.clone()
    }
}

pub fn archive_stem(name: &str) -> (r: String)
    ensures
        r@ == spec_archive_stem(name@),
{
    proof {
        reveal_strlit(".json");
        reveal_strlit(".bundle");
        reveal_strlit(".tar.gz");
    }
    let n = chars_of(name);
    let s1 = strip_or_name(&n, ".json", &n);
    let s2 = strip_or_name(&s1, ".bundle", &n);
    let s3 = strip_or_name(&s2, ".tar.gz", &n);
    string_of(s3.as_slice())
}

/// The files of an archive: the bundle (or, for a tarball archive, the
/// tarball), the extras tar, and the manifest.
pub struct RestorePaths {
    pub primary: String,
    pub extras: String,
    pub manifest: String,
}

/// The files of the archive named `name` in `dir`, when a bundle file for
/// its stem exists (`bundle_exists`) or not.
pub open spec fn spec_restore_paths(dir: Seq<char>, name: Seq<char>, bundle_exists: bool) -> (
    Seq<char>,
    Seq<char>,
    Seq<char>,
) {
    let stem = spec_archive_stem(name);
    (
        if bundle_exists {
            spec_join(dir, stem + ".bundle"@)
        } else {
            spec_join(dir, stem + ".tar.gz"@)
        },
        spec_join(dir, stem + ".extras.tar.gz"@),
        spec_join(dir, stem + ".json"@),
    )
}

/// The files of the archive named `name` in `dir`; `exists` tells whether a
/// path exists, and is asked about the bundle path only.
pub fn archive_paths<F: Fn(&str) -> bool>(dir: &str, name: &str, path_exists: &F) -> (r: RestorePaths)
    requires
        forall|p: &str| #[trigger] call_requires(*path_exists, (p,)),
    ensures
        forall|d: spec_fn(Seq<char>) -> bool|
            #[trigger] answers_as(path_exists, d) ==> (r.primary@, r.extras@, r.manifest@)
                == spec_restore_paths(
                dir@,
                name@,
                d(spec_join(dir@, spec_archive_stem(name@) + ".bundle"@)),
            ),
        r.primary@ == spec_restore_paths(dir@, name@, true).0 || r.primary@ == spec_restore_paths(
            dir@,
            name@,
            false,
        ).0,
        r.extras@ == spec_restore_paths(dir@, name@, true).1,
        r.manifest@ == spec_restore_paths(dir@, name@, true).2,
{
    let stem = archive_stem(name);
    let bundle = join(dir, concat(stem.as_str(), ".bundle").as_str());
    let tar = join(dir, concat(stem.as_str(), ".tar.gz").as_str());
    let extras = join(dir, concat(stem.as_str(), ".extras.tar.gz").as_str());
    let manifest = join(dir, concat(stem.as_str(), ".json").as_str());
    let has_bundle = path_exists(bundle.as_str());
    let primary = if has_bundle {
        bundle
    } else {
        tar
    };
    RestorePaths { primary, extras, manifest }
}

/// The stem of a manifest file: the file name without its `.json` extension,
/// `None` for a path whose extension is not `json` (a name with no dot past
/// its first character has no extension).
pub open spec fn spec_manifest_stem(path: Seq<char>) -> Option<Seq<char>> {
    match spec_file_name(path) {
        Some(n) => if n.len() > 5 && ends_with(n, ".json"@) {
            Some(n.take(n.len() - 5))
        } else {
            None
        },
        None => None,
    }
}

pub fn manifest_stem(path: &str) -> (r: Option<String>)
    ensures
        opt_view(r) == spec_manifest_stem(path@),
{
    proof {
        reveal_strlit(".json");
    }
    match file_name(path) {
        Some(n) => {
            let c = chars_of(n.as_str());
            let suffix = chars_of(".json");
            if c.len() > 5 && has_suffix(&c, &suffix) {
                let s = slice(&c, 0, c.len() - 5);
                assert(s@ =~= n@.take(n@.len() - 5));
                Some(string_of(s.as_slice()))
            } else {
                None
            }
        },
        None => None,
    }
}

// ---------------------------------------------------------------------------
// Digests
// ---------------------------------------------------------------------------

/// A digest compared with the one a manifest recorded.
#[derive(PartialEq, Eq, Structural, Clone, Copy, Debug)]
pub enum HashCheck {
    Match,
    Mismatch,
    NotRecorded,
}

pub open spec fn spec_check_hash(expected: Option<Seq<char>>, computed: Seq<char>) -> HashCheck {
    match expected {
        Some(e) => if e == computed {
            HashCheck::Match
        } else {
            HashCheck::Mismatch
        },
        None => HashCheck::NotRecorded,
    }
}

pub fn check_hash(expected: &Option<String>, computed: &str) -> (r: HashCheck)
    ensures
        r == spec_check_hash(opt_view(*expected), computed@),
{
    match expected {
        Some(e) => if chars_eq(&chars_of(e.as_str()), &chars_of(computed)) {
            HashCheck::Match
        } else {
            HashCheck::Mismatch
        },
        None => HashCheck::NotRecorded,
    }
}

/// The digest a manifest recorded for its primary artefact; both formats
/// keep it in `bundle_sha256`.
pub fn expected_archive_hash(m: &Manifest) -> (r: Option<String>)
    ensures
        opt_view(r) == opt_view(m.bundle_sha256),
{
    match &m.bundle_sha256 {
        Some(s) => Some(s.clone()),
        None => None,
    }
}

/// What became of the extras tar in a check.
#[derive(PartialEq, Eq, Structural, Clone, Copy, Debug)]
pub enum ExtrasCheck {
    /// The manifest records no extras.
    NotExpected,
    /// The manifest records extras but the file is missing.
    Missing,
    /// The file is there; its digest against the recorded one.
    Checked(HashCheck),
}

pub open spec fn spec_check_extras(m: Manifest, extras_sha: Option<Seq<char>>) -> ExtrasCheck {
    if !m.has_extras {
        ExtrasCheck::NotExpected
    } else {
        match extras_sha {
            Some(got) => ExtrasCheck::Checked(spec_check_hash(opt_view(m.extras_sha256), got)),
            None => ExtrasCheck::Missing,
        }
    }
}

/// Checks the extras tar: `extras_sha` is its digest, `None` when the file
/// is missing.
pub fn check_extras(m: &Manifest, extras_sha: &Option<String>) -> (r: ExtrasCheck)
    ensures
        r == spec_check_extras(*m, opt_view(*extras_sha)),
{
    if !m.has_extras {
        ExtrasCheck::NotExpected
    } else {
        match extras_sha {
            Some(got) => ExtrasCheck::Checked(check_hash(&m.extras_sha256, got.as_str())),
            None => ExtrasCheck::Missing,
        }
    }
}

// ---------------------------------------------------------------------------
// Restore
// ---------------------------------------------------------------------------

/// Why a restore was refused.
#[derive(PartialEq, Eq, Structural, Clone, Copy, Debug)]
pub enum RestoreRefusal {
    /// Something already exists at the original path.
    TargetExists,
    /// The archive's digest differs from the manifest's.
    ArchiveHashMismatch,
    /// The extras tar's digest differs from the manifest's.
    ExtrasHashMismatch,
}

/// What a restore does: for a bundle, clone it to the original path, set the
/// recorded remotes and, when `extract_extras`, unpack the extras tar into
/// it; for a tarball, unpack it into the original path's parent.
#[derive(PartialEq, Eq, Structural, Clone, Copy, Debug)]
pub struct RestorePlan {
    pub format: ArchiveFormat,
    pub extract_extras: bool,
}

/// The decision on a restore of the archive with manifest `m`: refuse when
/// the original path exists, or when the archive (digest `archive_sha`) or
/// the extras tar (digest `extras_sha`, `None` when the file is missing) no
/// longer has the digest the manifest recorded.
pub open spec fn spec_plan_restore(
    m: Manifest,
    target_exists: bool,
    archive_sha: Seq<char>,
    extras_sha: Option<Seq<char>>,
) -> Result<RestorePlan, RestoreRefusal> {
    if target_exists {
        Err(RestoreRefusal::TargetExists)
    } else if spec_check_hash(opt_view(m.bundle_sha256), archive_sha) == HashCheck::Mismatch {
        Err(RestoreRefusal::ArchiveHashMismatch)
    } else if spec_check_extras(m, extras_sha) == ExtrasCheck::Checked(HashCheck::Mismatch) {
        Err(RestoreRefusal::ExtrasHashMismatch)
    } else {
        Ok(
            RestorePlan {
                format: m.format,
                extract_extras: m.format == ArchiveFormat::Bundle && m.has_extras && extras_sha is Some,
            },
        )
    }
}

pub fn plan_restore(m: &Manifest, target_exists: bool, archive_sha: &str, extras_sha: &Option<String>) -> (r:
    Result<RestorePlan, RestoreRefusal>)
    ensures
        r == spec_plan_restore(*m, target_exists, archive_sha@, opt_view(*extras_sha)),
{
    if target_exists {
        return Err(RestoreRefusal::TargetExists);
    }
    if check_hash(&m.bundle_sha256, archive_sha) == HashCheck::Mismatch {
        return Err(RestoreRefusal::ArchiveHashMismatch);
    }
    if check_extras(m, extras_sha) == ExtrasCheck::Checked(HashCheck::Mismatch) {
        return Err(RestoreRefusal::ExtrasHashMismatch);
    }
    Ok(
        RestorePlan {
            format: m.format,
            extract_extras: m.format == ArchiveFormat::Bundle && m.has_extras && extras_sha.is_some(),
        },
    )
}

/// A restore that goes ahead never writes over an existing path, and the
/// archive and extras tar it uses still have the digests the manifest
/// recorded for them.
pub proof fn law_restore_is_refused_unless_intact(
    m: Manifest,
    target_exists: bool,
    archive_sha: Seq<char>,
    extras_sha: Option<Seq<char>>,
)
    ensures
        spec_plan_restore(m, target_exists, archive_sha, extras_sha) is Ok ==> {
            &&& !target_exists
            &&& (m.bundle_sha256 matches Some(e) ==> e@ == archive_sha)
            &&& (m.has_extras && extras_sha is Some && m.extras_sha256 is Some) ==> m.extras_sha256->0@
                == extras_sha->0
        },
        target_exists ==> spec_plan_restore(m, target_exists, archive_sha, extras_sha) == Err::<
            RestorePlan,
            RestoreRefusal,
        >(RestoreRefusal::TargetExists),
{
}

// ---------------------------------------------------------------------------
// Listing
// ---------------------------------------------------------------------------

/// The tag shown for an archive's format.
pub fn format_tag(f: ArchiveFormat) -> (s: &'static str)
    ensures
        s@ == (match f {
            ArchiveFormat::Bundle => "bundle"@,
            ArchiveFormat::Tarball => "tar"@,
        }),
{
    match f {
        ArchiveFormat::Bundle => "bundle",
        ArchiveFormat::Tarball => "tar",
    }
}

/// Whether the list shows an archive as verified: its manifest records a
/// verification time.
pub fn is_verified(m: &Manifest) -> (b: bool)
    ensures
        b == m.verified_at is Some,
{
    m.verified_at.is_some()
}

/// The first ten characters of the recorded HEAD, or nothing.
pub fn head_prefix(head: &Option<String>) -> (r: String)
    ensures
        r@ == (match head {
            Some(h) => if h@.len() <= 10 {
                h@
            } else {
                h@.take(10)
            },
            None => Seq::<char>::empty(),
        }),
{
    match head {
        Some(h) => {
            let c = chars_of(h.as_str());
            if c.len() <= 10 {
                string_of(c.as_slice())
            } else {
                let s = slice(&c, 0, 10);
                assert(s@ =~= h@.take(10));
                string_of(s.as_slice())
            }
        },
        None => string_of(Vec::<char>::new().as_slice()),
    }
}

/// The archiving times of the manifests.
pub open spec fn archived_at_keys(ms: Seq<Manifest>) -> Seq<Seq<char>> {
    ms.map_values(|m: Manifest| m.archived_at@)
}

/// The order the archive list shows the manifests in, as positions: by
/// archiving time as text (oldest first for RFC 3339 times), equal times in
/// their original order.
pub fn list_order(manifests: &Vec<Manifest>) -> (ord: Vec<usize>)
    ensures
        is_stable_order(text_ranks(archived_at_keys(manifests@)), ord@, false),
{
    let mut keys: Vec<String> = Vec::new();
    let mut k: usize = 0;
    while k < manifests.len()
        invariant
            k <= manifests.len(),
            keys@.map_values(|s: String| s@) == archived_at_keys(manifests@.take(k as int)),
        decreases manifests.len() - k,
    {
        let t = manifests[k].archived_at.clone();
        let ghost before = keys@;
        keys.push(t);
        proof {
            assert(keys@.map_values(|s: String| s@) =~= before.map_values(|s: String| s@).push(t@));
            assert(manifests@.take(k + 1) =~= manifests@.take(k as int).push(manifests@[k as int]));
            assert(archived_at_keys(manifests@.take(k + 1)) =~= archived_at_keys(manifests@.take(k as int)).push(
                manifests@[k as int].archived_at@,
            ));
        }
        k = k + 1;
        assert(keys@.map_values(|s: String| s@) =~= archived_at_keys(manifests@.take(k as int)));
    }
    assert(manifests@.take(k as int) =~= manifests@);
    text_order(&keys)
}

} // verus!
