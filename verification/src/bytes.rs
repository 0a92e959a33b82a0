//! Small verified helpers on byte strings.
//!
//! URLs and markup travel through the crate as UTF-8 bytes, so the
//! searching and slicing the other modules need is written once here.

use vstd::prelude::*;

verus! {

/// `pre` is a prefix of `s`.
pub open spec fn seq_starts_with(s: Seq<u8>, pre: Seq<u8>) -> bool {
    pre.len() <= s.len() && s.subrange(0, pre.len() as int) == pre
}

/// `suf` is a suffix of `s`.
pub open spec fn seq_ends_with(s: Seq<u8>, suf: Seq<u8>) -> bool {
    suf.len() <= s.len() && s.subrange(s.len() - suf.len(), s.len() as int) == suf
}

/// `needle` occurs somewhere inside `s`.
pub open spec fn seq_contains(s: Seq<u8>, needle: Seq<u8>) -> bool {
    exists|i: int|
        0 <= i <= s.len() - needle.len() && #[trigger] s.subrange(i, i + needle.len()) == needle
}

/// The index of the first occurrence of `b` in `s`, if any.
pub open spec fn spec_find_byte(s: Seq<u8>, b: u8) -> Option<int> {
    if exists|i: int| 0 <= i < s.len() && s[i] == b {
        let i = choose|i: int| 0 <= i < s.len() && s[i] == b && forall|j: int|
            0 <= j < i ==> s[j] != b;
        Some(i)
    } else {
        None
    }
}

/// The two byte strings are equal.
pub fn bytes_eq(a: &[u8], b: &[u8]) -> (r: bool)
    ensures
        r == (a@ == b@),
{
    if a.len() != b.len() {
        assert(a@ != b@) by {
            assert(a@.len() != b@.len());
        }
        return false;
    }
    let n = a.len();
    let mut i: usize = 0;
    while i < n
        invariant
            n == a@.len() == b@.len(),
            0 <= i <= n,
            forall|j: int| 0 <= j < i ==> a@[j] == b@[j],
        decreases n - i,
    {
        if a[i] != b[i] {
            return false;
        }
        i += 1;
    }
    proof {
        assert(a@ =~= b@);
    }
    true
}

/// The index of the first occurrence of `b` in `s`, or `None`.
pub fn find_byte(s: &[u8], b: u8) -> (r: Option<usize>)
    ensures
        match r {
            Some(i) => 0 <= i < s@.len() && s@[i as int] == b && forall|j: int|
                0 <= j < i ==> s@[j] != b,
            None => forall|j: int| 0 <= j < s@.len() ==> s@[j] != b,
        },
{
    let n = s.len();
    let mut i: usize = 0;
    while i < n
        invariant
            n == s@.len(),
            0 <= i <= n,
            forall|j: int| 0 <= j < i ==> s@[j] != b,
        decreases n - i,
    {
        if s[i] == b {
            return Some(i);
        }
        i += 1;
    }
    None
}

/// The index of the last occurrence of `b` in `s`, or `None`.
pub fn rfind_byte(s: &[u8], b: u8) -> (r: Option<usize>)
    ensures
        match r {
            Some(i) => 0 <= i < s@.len() && s@[i as int] == b && forall|j: int|
                i < j < s@.len() ==> s@[j] != b,
            None => forall|j: int| 0 <= j < s@.len() ==> s@[j] != b,
        },
{
    let n = s.len();
    let mut i: usize = n;
    while i > 0
        invariant
            n == s@.len(),
            0 <= i <= n,
            forall|j: int| i <= j < n ==> s@[j] != b,
        decreases i,
    {
        i -= 1;
        if s[i] == b {
            return Some(i);
        }
    }
    None
}

/// `s` starts with `pre`.
pub fn starts_with(s: &[u8], pre: &[u8]) -> (r: bool)
    ensures
        r == seq_starts_with(s@, pre@),
{
    if pre.len() > s.len() {
        return false;
    }
    let head = vstd::slice::slice_subrange(s, 0, pre.len());
    bytes_eq(head, pre)
}

/// `s` ends with `suf`.
pub fn ends_with(s: &[u8], suf: &[u8]) -> (r: bool)
    ensures
        r == seq_ends_with(s@, suf@),
{
    if suf.len() > s.len() {
        return false;
    }
    let tail = vstd::slice::slice_subrange(s, s.len() - suf.len(), s.len());
    bytes_eq(tail, suf)
}

/// `needle` occurs inside `s`.
pub fn contains_seq(s: &[u8], needle: &[u8]) -> (r: bool)
    ensures
        r == seq_contains(s@, needle@),
{
    if needle.len() > s.len() {
        assert(!seq_contains(s@, needle@));
        return false;
    }
    let last = s.len() - needle.len();
    let mut i: usize = 0;
    while i <= last
        invariant
            needle@.len() <= s@.len(),
            s@.len() <= usize::MAX,
            last == s@.len() - needle@.len(),
            0 <= i <= last + 1,
            forall|k: int| 0 <= k < i ==> #[trigger] s@.subrange(k, k + needle@.len()) != needle@,
        decreases last + 1 - i,
    {
        let window = vstd::slice::slice_subrange(s, i, i + needle.len());
        if bytes_eq(window, needle) {
            return true;
        }
        if i == last {
            assert(forall|k: int|
                0 <= k <= last ==> #[trigger] s@.subrange(k, k + needle@.len()) != needle@);
            return false;
        }
        i += 1;
    }
    false
}

/// The view of an optional byte vector.
pub open spec fn opt_view(o: Option<Vec<u8>>) -> Option<Seq<u8>> {
    match o {
        Some(v) => Some(v@),
        None => None,
    }
}

/// The views of a sequence of byte vectors.
pub open spec fn seq_views(s: Seq<Vec<u8>>) -> Seq<Seq<u8>> {
    s.map_values(|v: Vec<u8>| v@)
}

/// An owned copy of `s`.
pub fn clone_bytes(s: &[u8]) -> (r: Vec<u8>)
    ensures
        r@ == s@,
{
    let r = subvec(s, 0, s.len());
    proof {
        assert(r@ =~= s@);
    }
    r
}

/// An owned copy of `s[from..to]`.
pub fn subvec(s: &[u8], from: usize, to: usize) -> (r: Vec<u8>)
    requires
        0 <= from <= to <= s@.len(),
    ensures
        r@ == s@.subrange(from as int, to as int),
{
    let part = vstd::slice::slice_subrange(s, from, to);
    vstd::slice::slice_to_vec(part)
}

} // verus!
