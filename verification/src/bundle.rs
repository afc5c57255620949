//! Bundle verification: the refs that a clone of a bundle holds, and SHA-256
//! digests of archive files.
use vstd::prelude::*;
use sha2::Digest;
use crate::git::{opt_view, pair_views, parse_ref_list, ref_of_line, spec_trimmed_value, trimmed_value};
use crate::text::lines;

verus! {

/// The refs (name, sha) and the HEAD of a verification clone.
pub struct VerifiedRefs {
    pub refs: Vec<(String, String)>,
    pub head: Option<String>,
}

/// What the verification clone holds, from the output of
/// `git for-each-ref --format=%(refname) %(objectname)` and, when
/// `git rev-parse HEAD` succeeded, its output.
pub fn verified_refs(refs_output: &str, head_output: Option<&str>) -> (v: VerifiedRefs)
    ensures
        pair_views(v.refs@) == lines(refs_output@).filter_map(|l: Seq<char>| ref_of_line(l)),
        opt_view(v.head) == match head_output {
            Some(h) => spec_trimmed_value(h@),
            None => None,
        },
{
    let refs = parse_ref_list(refs_output);
    let head = match head_output {
        Some(h) => trimmed_value(h),
        None => None,
    };
    VerifiedRefs { refs, head }
}

/// The SHA-256 digest of a byte sequence.
pub uninterp spec fn sha256(data: Seq<u8>) -> Seq<u8>;

/// Calls `sha2::Sha256::digest`. The digest depends on the bytes alone and is
/// named `sha256`; it is 32 bytes long (SHA-256's output size). The hash
/// function itself is not stated here.
#[verifier::external_body]
fn sha256_digest(data: &[u8]) -> (r: Vec<u8>)
    ensures
        r@ == sha256(data@),
        r@.len() == 32,
{
    sha2::Sha256::digest(data).to_vec()
}

/// The lower-case hex digit of a value below 16.
pub open spec fn hex_digit(n: u8) -> char {
    if n < 10 {
        ((n + 48) as u8) as char
    } else {
        ((n + 87) as u8) as char
    }
}

/// Lower-case hex text of bytes, two digits per byte, high nibble first.
pub open spec fn hex_lower(data: Seq<u8>) -> Seq<char>
    decreases data.len(),
{
    if data.len() == 0 {
        seq![]
    } else {
        hex_lower(data.drop_last()) + seq![hex_digit(data.last() / 16), hex_digit(data.last() % 16)]
    }
}

/// Calls `hex::encode`, which writes each byte as two lower-case hex digits,
/// high nibble first.
#[verifier::external_body]
fn hex_encode(data: &[u8]) -> (r: String)
    ensures
        r@ == hex_lower(data@),
{
    hex::encode(data)
}

/// The SHA-256 digest of `data` as 64 lower-case hex digits, as archive
/// manifests record it.
pub fn sha256_hex(data: &[u8]) -> (r: String)
    ensures
        r@ == hex_lower(sha256(data@)),
        r@.len() == 64,
{
    let d = sha256_digest(data);
    proof {
        lemma_hex_lower_len(d@);
    }
    hex_encode(d.as_slice())
}

/// Hex text has two digits per byte.
pub proof fn lemma_hex_lower_len(data: Seq<u8>)
    ensures
        hex_lower(data).len() == 2 * data.len(),
    decreases data.len(),
{
    if data.len() > 0 {
        lemma_hex_lower_len(data.drop_last());
    }
}

} // verus!
