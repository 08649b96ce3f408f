//! Byte-string helpers shared by the environment bridge and the loader.

use vstd::prelude::*;

verus! {

/// Whether `b` occurs anywhere in `s`.
pub open spec fn has_byte(s: Seq<u8>, b: u8) -> bool {
    exists|i: int| 0 <= i < s.len() && s[i] == b
}

/// Relies on memchr::memchr: the index of the first occurrence of `needle`,
/// or `None` when `haystack` does not hold it.
pub assume_specification[ memchr::memchr ](needle: u8, haystack: &[u8]) -> (r: Option<usize>)
    ensures
        r matches Some(i) ==> i < haystack@.len() && haystack@[i as int] == needle
            && forall|j: int| 0 <= j < i ==> haystack@[j] != needle,
        r is None ==> forall|j: int| 0 <= j < haystack@.len() ==> haystack@[j] != needle,
;

/// Whether `haystack` holds `needle`, found with `memchr`.
pub fn contains_byte(haystack: &[u8], needle: u8) -> (r: bool)
    ensures
        r == has_byte(haystack@, needle),
{
    match memchr::memchr(needle, haystack) {
        Some(i) => {
            assert(haystack@[i as int] == needle);
            true
        },
        None => false,
    }
}

/// What bstr's `Debug` for `BStr` writes for a byte string.
pub uninterp spec fn debug_of(b: Seq<u8>) -> Seq<char>;

/// Relies on bstr's `impl Debug for BStr`: a double-quoted, escaped rendering
/// that depends on the bytes alone.
#[verifier::external_body]
pub(crate) fn debug_bytes(b: &[u8]) -> (r: String)
    ensures
        r@ == debug_of(b@),
{
    format!("{:?}", <&bstr::BStr>::from(b))
}

/// A fresh vector holding the bytes of `b`.
pub fn copy_bytes(b: &[u8]) -> (r: Vec<u8>)
    ensures
        r@ == b@,
{
    let mut r: Vec<u8> = Vec::with_capacity(b.len());
    let mut i: usize = 0;
    while i < b.len()
        invariant
            0 <= i <= b@.len(),
            r@ == b@.subrange(0, i as int),
        decreases b@.len() - i,
    {
        r.push(b[i]);
        i = i + 1;
    }
    assert(r@ =~= b@);
    r
}

/// Whether two byte strings are equal.
pub fn bytes_eq(a: &[u8], b: &[u8]) -> (r: bool)
    ensures
        r == (a@ == b@),
{
    if a.len() != b.len() {
        return false;
    }
    let mut i: usize = 0;
    while i < a.len()
        invariant
            a@.len() == b@.len(),
            0 <= i <= a@.len(),
            forall|j: int| 0 <= j < i ==> a@[j] == b@[j],
        decreases a@.len() - i,
    {
        if a[i] != b[i] {
            return false;
        }
        i = i + 1;
    }
    assert(a@ =~= b@);
    true
}

} // verus!
