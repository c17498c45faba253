//! Byte-substring search, used by the version fingerprint.

use vstd::prelude::*;

verus! {

/// `needle` occurs in `haystack` at position `i`.
pub open spec fn spec_occurs_at(haystack: Seq<u8>, needle: Seq<u8>, i: int) -> bool {
    &&& 0 <= i
    &&& i + needle.len() <= haystack.len()
    &&& haystack.subrange(i, i + needle.len()) == needle
}

/// `needle` occurs somewhere in `haystack`.
pub open spec fn spec_contains(haystack: Seq<u8>, needle: Seq<u8>) -> bool {
    exists|i: int| spec_occurs_at(haystack, needle, i)
}

/// Relies on `memchr::memmem::find`: returns the position of the first
/// occurrence of `needle` in `haystack`, or `None` if there is none.
#[verifier::external_body]
pub fn find_first(haystack: &[u8], needle: &[u8]) -> (r: Option<usize>)
    ensures
        match r {
            Some(i) => spec_occurs_at(haystack@, needle@, i as int) && forall|j: int|
                0 <= j < i ==> !spec_occurs_at(haystack@, needle@, j),
            None => !spec_contains(haystack@, needle@),
        },
{
    memchr::memmem::find(haystack, needle)
}

} // verus!
