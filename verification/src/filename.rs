//! Deriving a safe download filename from a source URL.
//!
//! The name is the URL's final `/`-separated segment, cut at the first
//! `?`, percent-decoded, and truncated to a bounded length while
//! preserving the final extension; a cut that would split a multi-byte
//! character backs off to the preceding character boundary, so a valid
//! UTF-8 name stays valid UTF-8. Percent-decoding itself is done by
//! the `urlencoding` crate; its exact byte-level behaviour is stated by
//! [`spec_percent_decode`] and trusted at the single wrapper below.

use vstd::prelude::*;

use crate::bytes::opt_view;
use crate::bytes::rfind_byte;
use crate::bytes::subvec;
use crate::validate::query_pos;
use crate::validate::spec_strip_query;
use vstd::utf8::valid_utf8;

verus! {

/// Filenames longer than this are truncated.
pub const MAX_FILENAME_LEN: usize = 200;

/// `b` is an ASCII hexadecimal digit.
pub open spec fn is_hex_digit(b: u8) -> bool {
    (48 <= b <= 57) || (65 <= b <= 70) || (97 <= b <= 102)
}

/// The value of an ASCII hexadecimal digit.
pub open spec fn hex_val(b: u8) -> int {
    if 48 <= b <= 57 {
        b - 48
    } else if 65 <= b <= 70 {
        b - 55
    } else {
        b - 87
    }
}

/// Percent-decoding as the `urlencoding` crate does it: each `%` that
/// is followed by two hexadecimal digits becomes the byte they spell; a
/// `%` followed by one hexadecimal digit and a non-digit keeps both
/// characters; any other `%` is kept as it is.
pub open spec fn spec_percent_decode(s: Seq<u8>) -> Seq<u8>
    decreases s.len(),
{
    if s.len() == 0 {
        Seq::empty()
    } else if s[0] != 37 {
        seq![s[0]] + spec_percent_decode(s.skip(1))
    } else if s.len() >= 3 && is_hex_digit(s[1]) && is_hex_digit(s[2]) {
        seq![(hex_val(s[1]) * 16 + hex_val(s[2])) as u8] + spec_percent_decode(s.skip(3))
    } else if s.len() >= 3 && is_hex_digit(s[1]) {
        seq![37u8, s[1]] + spec_percent_decode(s.skip(2))
    } else if s.len() >= 3 {
        seq![37u8] + spec_percent_decode(s.skip(1))
    } else {
        seq![37u8] + s.skip(1)
    }
}

/// Relies on `urlencoding::decode`: percent-decodes the bytes and
/// requires the outcome (and the input) to be valid UTF-8; a function
/// of the input bytes alone.
#[verifier::external_body]
fn percent_decode_utf8(s: &[u8]) -> (r: Option<Vec<u8>>)
    ensures
        (r is Some) == (valid_utf8(s@) && valid_utf8(spec_percent_decode(s@))),
        r matches Some(d) ==> d@ == spec_percent_decode(s@),
{
    let text = std::str::from_utf8(s).ok()?;
    Some(urlencoding::decode(text).ok()?.into_owned().into_bytes())
}

/// The URL's final `/`-separated segment (the whole URL when it has no
/// `/`).
pub open spec fn spec_last_segment(url: Seq<u8>) -> Seq<u8> {
    if exists|i: int| 0 <= i < url.len() && url[i] == 47 {
        let i = choose|i: int|
            0 <= i < url.len() && url[i] == 47 && forall|j: int| i < j < url.len() ==> url[j] != 47;
        url.subrange(i + 1, url.len() as int)
    } else {
        url
    }
}

/// `b` continues a multi-byte UTF-8 character rather than starting
/// one.
pub open spec fn is_continuation_byte(b: u8) -> bool {
    128 <= b < 192
}

/// The nearest cut position at or before `pos` that does not land on a
/// continuation byte: cutting there never splits a multi-byte
/// character of a valid UTF-8 string.
pub open spec fn spec_boundary_before(name: Seq<u8>, pos: int) -> int
    decreases pos,
{
    if pos <= 0 {
        0
    } else if pos >= name.len() {
        pos
    } else if is_continuation_byte(name[pos]) {
        spec_boundary_before(name, pos - 1)
    } else {
        pos
    }
}

/// A decoded name truncated to at most [`MAX_FILENAME_LEN`] bytes: a
/// longer name keeps its final extension (everything from the last
/// `.`) and loses bytes from the name part before it; with no `.` it
/// is simply cut off. Either cut backs off to a character boundary.
pub open spec fn spec_truncate_name(name: Seq<u8>) -> Seq<u8> {
    if name.len() <= MAX_FILENAME_LEN {
        name
    } else if exists|i: int| 0 <= i < name.len() && name[i] == 46 {
        let d = choose|i: int|
            0 <= i < name.len() && name[i] == 46 && forall|j: int|
                i < j < name.len() ==> name[j] != 46;
        let ext_len = name.len() - d;
        let keep: int = if ext_len >= MAX_FILENAME_LEN {
            0
        } else {
            MAX_FILENAME_LEN - ext_len
        };
        name.subrange(0, spec_boundary_before(name, keep)) + name.subrange(d, name.len() as int)
    } else {
        name.subrange(0, spec_boundary_before(name, MAX_FILENAME_LEN as int))
    }
}

/// The filename the downloader stores a URL's bytes under: the final
/// path segment, query-stripped, percent-decoded and truncated; `None`
/// when decoding fails.
pub open spec fn spec_filename(url: Seq<u8>) -> Option<Seq<u8>> {
    let cut = spec_strip_query(spec_last_segment(url));
    if valid_utf8(cut) && valid_utf8(spec_percent_decode(cut)) {
        Some(spec_truncate_name(spec_percent_decode(cut)))
    } else {
        None
    }
}

/// The last occurrence characterizes the `choose` in
/// [`spec_last_segment`].
proof fn lemma_last_segment_at(url: Seq<u8>, i: int)
    requires
        0 <= i < url.len(),
        url[i] == 47,
        forall|j: int| i < j < url.len() ==> url[j] != 47,
    ensures
        spec_last_segment(url) == url.subrange(i + 1, url.len() as int),
{
    assert(exists|k: int| 0 <= k < url.len() && url[k] == 47);
    let k = choose|k: int|
        0 <= k < url.len() && url[k] == 47 && forall|j: int| k < j < url.len() ==> url[j] != 47;
    if k < i {
        assert(url[i] != 47);
    }
    if k > i {
        assert(url[k] != 47);
    }
}

/// Backs a cut position off to the nearest character boundary at or
/// before it.
fn boundary_before(name: &[u8], pos: usize) -> (r: usize)
    requires
        pos <= name@.len(),
    ensures
        r <= pos,
        r as int == spec_boundary_before(name@, pos as int),
{
    let mut p = pos;
    while p > 0 && p < name.len() && 128 <= name[p] && name[p] < 192
        invariant
            p <= pos <= name@.len(),
            spec_boundary_before(name@, pos as int) == spec_boundary_before(name@, p as int),
        decreases p,
    {
        p -= 1;
    }
    p
}

/// Truncates a decoded name to at most [`MAX_FILENAME_LEN`] bytes,
/// preserving the extension after the last `.` when there is one and
/// cutting only at a character boundary.
fn truncate_name(name: Vec<u8>) -> (r: Vec<u8>)
    ensures
        r@ == spec_truncate_name(name@),
{
    if name.len() <= MAX_FILENAME_LEN {
        return name;
    }
    match rfind_byte(name.as_slice(), 46) {
        Some(d) => {
            proof {
                let dd = choose|i: int|
                    0 <= i < name@.len() && name@[i] == 46 && forall|j: int|
                        i < j < name@.len() ==> name@[j] != 46;
                if dd < d as int {
                    assert(name@[d as int] != 46);
                }
                if dd > d as int {
                    assert(name@[dd] != 46);
                }
            }
            let ext_len = name.len() - d;
            let keep: usize = if ext_len >= MAX_FILENAME_LEN {
                0
            } else {
                MAX_FILENAME_LEN - ext_len
            };
            let cut = boundary_before(name.as_slice(), keep);
            let mut out = subvec(name.as_slice(), 0, cut);
            let mut ext = subvec(name.as_slice(), d, name.len());
            out.append(&mut ext);
            out
        },
        None => {
            let cut = boundary_before(name.as_slice(), MAX_FILENAME_LEN);
            subvec(name.as_slice(), 0, cut)
        },
    }
}

/// Derives the destination filename for a source URL; `None` when the
/// percent-decoding of its final segment fails.
pub fn derive_filename(url: &[u8]) -> (r: Option<Vec<u8>>)
    ensures
        opt_view(r) == spec_filename(url@),
{
    let seg_start: usize = match rfind_byte(url, 47) {
        Some(i) => {
            proof {
                lemma_last_segment_at(url@, i as int);
            }
            i + 1
        },
        None => 0,
    };
    let seg = vstd::slice::slice_subrange(url, seg_start, url.len());
    proof {
        if seg_start == 0 {
            assert(seg@ =~= url@);
        }
        assert(seg@ == spec_last_segment(url@));
    }
    let qp = query_pos(seg);
    let cut = vstd::slice::slice_subrange(seg, 0, qp);
    match percent_decode_utf8(cut) {
        Some(name) => Some(truncate_name(name)),
        None => None,
    }
}

} // verus!
