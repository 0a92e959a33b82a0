//! Deciding whether a URL denotes a downloadable image.
//!
//! The decision is purely syntactic: the URL is lower-cased, its query
//! string is stripped, and the remaining path must end in a recognized
//! raster-image extension while the whole lower-cased URL must not
//! contain `.svg`. Lower-casing is Unicode case mapping, done by the
//! standard library and named by an uninterpreted spec function.

use vstd::prelude::*;

use crate::bytes::contains_seq;
use crate::bytes::ends_with;
use crate::bytes::find_byte;
use crate::bytes::seq_contains;
use crate::bytes::seq_ends_with;
use crate::bytes::spec_find_byte;

verus! {

/// What `str::to_lowercase` returns for the string these bytes spell,
/// as UTF-8 bytes; a function of the input bytes alone.
pub uninterp spec fn lower_of(s: Seq<u8>) -> Seq<u8>;

/// Relies on `str::to_lowercase`: Unicode lowercasing, a function of
/// the input characters alone. Bytes that are not valid UTF-8 come
/// back unchanged.
#[verifier::external_body]
fn to_lowercase(s: &[u8]) -> (r: Vec<u8>)
    ensures
        r@ == lower_of(s@),
{
    match std::str::from_utf8(s) {
        Ok(text) => text.to_lowercase().into_bytes(),
        Err(_) => s.to_vec(),
    }
}

/// The bytes of `.jpg`.
pub open spec fn ext_jpg() -> Seq<u8> {
    seq![46u8, 106u8, 112u8, 103u8]
}

/// The bytes of `.jpeg`.
pub open spec fn ext_jpeg() -> Seq<u8> {
    seq![46u8, 106u8, 112u8, 101u8, 103u8]
}

/// The bytes of `.png`.
pub open spec fn ext_png() -> Seq<u8> {
    seq![46u8, 112u8, 110u8, 103u8]
}

/// The bytes of `.gif`.
pub open spec fn ext_gif() -> Seq<u8> {
    seq![46u8, 103u8, 105u8, 102u8]
}

/// The bytes of `.bmp`.
pub open spec fn ext_bmp() -> Seq<u8> {
    seq![46u8, 98u8, 109u8, 112u8]
}

/// The bytes of `.svg`.
pub open spec fn ext_svg() -> Seq<u8> {
    seq![46u8, 115u8, 118u8, 103u8]
}

/// The position where the query string starts: the index of the first
/// `?`, or the whole length when there is none.
pub open spec fn spec_query_pos(s: Seq<u8>) -> int {
    match spec_find_byte(s, 63u8) {
        Some(i) => i,
        None => s.len() as int,
    }
}

/// `s` with any query string stripped: everything before the first `?`.
pub open spec fn spec_strip_query(s: Seq<u8>) -> Seq<u8> {
    s.subrange(0, spec_query_pos(s))
}

/// `s` ends with one of the recognized raster-image extensions.
pub open spec fn spec_has_image_ext(s: Seq<u8>) -> bool {
    ||| seq_ends_with(s, ext_jpg())
    ||| seq_ends_with(s, ext_jpeg())
    ||| seq_ends_with(s, ext_png())
    ||| seq_ends_with(s, ext_gif())
    ||| seq_ends_with(s, ext_bmp())
}

/// A lower-cased URL passes the image filter: no `.svg` anywhere in it,
/// and a recognized extension at the end of its query-stripped part.
pub open spec fn spec_valid_image_lowered(lower: Seq<u8>) -> bool {
    !seq_contains(lower, ext_svg()) && spec_has_image_ext(spec_strip_query(lower))
}

/// The URL denotes a downloadable image: its lower-cased form passes
/// the image filter.
pub open spec fn spec_is_valid_image(url: Seq<u8>) -> bool {
    spec_valid_image_lowered(lower_of(url))
}

/// `spec_find_byte` returns exactly the first occurrence.
pub proof fn lemma_find_byte_first(s: Seq<u8>, b: u8, i: int)
    requires
        0 <= i < s.len(),
        s[i] == b,
        forall|j: int| 0 <= j < i ==> s[j] != b,
    ensures
        spec_find_byte(s, b) == Some(i),
{
    assert(exists|k: int| 0 <= k < s.len() && s[k] == b);
    let k = choose|k: int|
        0 <= k < s.len() && s[k] == b && forall|j: int| 0 <= j < k ==> s[j] != b;
    if k < i {
        assert(s[k] != b);
    }
    if k > i {
        assert(s[i] != b);
    }
}

/// `spec_find_byte` returns `None` exactly when the byte is absent.
pub proof fn lemma_find_byte_none(s: Seq<u8>, b: u8)
    requires
        forall|j: int| 0 <= j < s.len() ==> s[j] != b,
    ensures
        spec_find_byte(s, b) == None::<int>,
{
}

/// The index at which the query string starts (the first `?`, or the
/// length when there is none).
pub fn query_pos(s: &[u8]) -> (r: usize)
    ensures
        r == spec_query_pos(s@),
        r <= s@.len(),
{
    match find_byte(s, 63) {
        Some(i) => {
            proof {
                lemma_find_byte_first(s@, 63u8, i as int);
            }
            i
        },
        None => {
            proof {
                lemma_find_byte_none(s@, 63u8);
            }
            s.len()
        },
    }
}

/// Whether an already lower-cased URL passes the image filter.
pub fn valid_image_lowered(lower: &[u8]) -> (r: bool)
    ensures
        r == spec_valid_image_lowered(lower@),
{
    let svg: Vec<u8> = vec![46u8, 115u8, 118u8, 103u8];
    if contains_seq(lower, svg.as_slice()) {
        return false;
    }
    let qp = query_pos(lower);
    let path = vstd::slice::slice_subrange(lower, 0, qp);
    let jpg: Vec<u8> = vec![46u8, 106u8, 112u8, 103u8];
    let jpeg: Vec<u8> = vec![46u8, 106u8, 112u8, 101u8, 103u8];
    let png: Vec<u8> = vec![46u8, 112u8, 110u8, 103u8];
    let gif: Vec<u8> = vec![46u8, 103u8, 105u8, 102u8];
    let bmp: Vec<u8> = vec![46u8, 98u8, 109u8, 112u8];
    let found = ends_with(path, jpg.as_slice()) || ends_with(path, jpeg.as_slice())
        || ends_with(path, png.as_slice()) || ends_with(path, gif.as_slice()) || ends_with(
        path,
        bmp.as_slice(),
    );
    found
}

/// Decides whether `url` denotes a downloadable image, judging only the
/// trailing extension of its lower-cased, query-stripped form.
pub fn is_valid_image(url: &[u8]) -> (r: bool)
    ensures
        r == spec_is_valid_image(url@),
{
    let lower = to_lowercase(url);
    valid_image_lowered(lower.as_slice())
}

} // verus!
