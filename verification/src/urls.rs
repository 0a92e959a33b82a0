//! URL resolution and same-domain comparison.
//!
//! Joining a reference against a base and reading a URL's host are done
//! by the `url` crate; both are deterministic functions of the input
//! bytes, so their results are named by uninterpreted spec functions and
//! everything built on top is verified against those names. Two URLs are
//! on the same domain exactly when their host components are equal;
//! parsing serializes named hosts in lower case, so the comparison is
//! case-insensitive.

use vstd::prelude::*;

use crate::bytes::bytes_eq;
use crate::bytes::opt_view;

verus! {

/// The absolute URL, as serialized bytes, that joining `reference`
/// against `base` per standard URL-resolution rules yields; `None` when
/// the base is not a valid absolute URL or the joined result cannot be
/// parsed.
pub uninterp spec fn resolve_of(base: Seq<u8>, reference: Seq<u8>) -> Option<Seq<u8>>;

/// The host component of `url` as parsing serializes it (named hosts in
/// lower case, IP literals in canonical form): `None` when `url` does
/// not parse as an absolute URL or has no host.
pub uninterp spec fn host_of(url: Seq<u8>) -> Option<Seq<u8>>;

/// Relies on `url::Url::parse` and `url::Url::join`: standard URL
/// resolution of `reference` against `base`, a function of the two byte
/// strings alone. Bytes that are not valid UTF-8 resolve to nothing.
#[verifier::external_body]
pub(crate) fn resolve_raw(base: &[u8], reference: &[u8]) -> (r: Option<Vec<u8>>)
    ensures
        opt_view(r) == resolve_of(base@, reference@),
{
    let base = std::str::from_utf8(base).ok()?;
    let reference = std::str::from_utf8(reference).ok()?;
    let joined = url::Url::parse(base).ok()?.join(reference).ok()?;
    Some(joined.as_str().as_bytes().to_vec())
}

/// Relies on `url::Url::parse` and `url::Url::host_str`: the serialized
/// host of a URL, a function of its bytes alone. Bytes that are not
/// valid UTF-8 have no host.
#[verifier::external_body]
pub(crate) fn host_raw(url: &[u8]) -> (r: Option<Vec<u8>>)
    ensures
        opt_view(r) == host_of(url@),
{
    let text = std::str::from_utf8(url).ok()?;
    let parsed = url::Url::parse(text).ok()?;
    Some(parsed.host_str()?.as_bytes().to_vec())
}

/// Resolves a possibly-relative `reference` against the absolute URL
/// `base`; `None` when the base does not parse or the join fails.
pub fn resolve(base: &[u8], reference: &[u8]) -> (r: Option<Vec<u8>>)
    ensures
        opt_view(r) == resolve_of(base@, reference@),
{
    resolve_raw(base, reference)
}

/// The host of `url`, if it parses and has one.
pub fn host(url: &[u8]) -> (r: Option<Vec<u8>>)
    ensures
        opt_view(r) == host_of(url@),
{
    host_raw(url)
}

/// The two URLs' host components are equal (both may also be absent).
pub fn same_domain(a: &[u8], b: &[u8]) -> (r: bool)
    ensures
        r == (host_of(a@) == host_of(b@)),
{
    let da = host_raw(a);
    let db = host_raw(b);
    match (da, db) {
        (Some(x), Some(y)) => bytes_eq(x.as_slice(), y.as_slice()),
        (None, None) => true,
        _ => false,
    }
}

/// Law: URL resolution is idempotent — two resolutions of the same
/// reference against the same base yield the same result.
pub proof fn lemma_resolution_idempotent(
    base: Seq<u8>,
    reference: Seq<u8>,
    r1: Option<Seq<u8>>,
    r2: Option<Seq<u8>>,
)
    requires
        r1 == resolve_of(base, reference),
        r2 == resolve_of(base, reference),
    ensures
        r1 == r2,
{
}

} // verus!
