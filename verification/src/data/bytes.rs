//! Comparing byte strings.

use vstd::prelude::*;

verus! {

/// Whether the bytes of `part` stand in `text` from position `at` on.
pub fn starts_with_at(text: &[u8], at: usize, part: &[u8]) -> (yes: bool)
    requires
        at + part.len() <= text.len(),
    ensures
        yes == (text@.subrange(at as int, at + part@.len()) == part@),
{
    let mut i: usize = 0;
    while i < part.len()
        invariant
            i <= part.len(),
            at + part.len() <= text.len(),
            forall|k: int| 0 <= k < i ==> text@[at + k] == part@[k],
        decreases part.len() - i,
    {
        if text[at + i] != part[i] {
            assert(text@.subrange(at as int, at + part@.len())[i as int] != part@[i as int]);
            return false;
        }
        i += 1;
    }
    assert(text@.subrange(at as int, at + part@.len()) =~= part@);
    true
}

/// Whether `text` begins with the bytes of `prefix`.
pub fn starts_with(text: &[u8], prefix: &[u8]) -> (yes: bool)
    ensures
        yes == prefix@.is_prefix_of(text@),
{
    if text.len() < prefix.len() {
        return false;
    }
    starts_with_at(text, 0, prefix)
}

/// Whether two byte strings are equal, byte for byte.
pub fn bytes_equal(a: &[u8], b: &[u8]) -> (equal: bool)
    ensures
        equal == (a@ == b@),
{
    if a.len() != b.len() {
        return false;
    }
    assert(a@.subrange(0, b@.len() as int) =~= a@);
    starts_with_at(a, 0, b)
}

} // verus!
