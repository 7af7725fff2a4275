//! Small byte-level helpers shared by the codec and its callers.

use vstd::prelude::*;

verus! {

use vstd::string::StringSliceAdditionalSpecFns;

/// Copies a slice into an array of the specified size.
///
/// The caller must hand in a slice of exactly the array's length.
pub fn cp_array<const N: usize>(slice: &[u8]) -> (r: [u8; N])
    requires
        slice@.len() == N,
    ensures
        r@ == slice@,
{
    let mut out: [u8; N] = [0; N];
    let mut i: usize = 0;
    while i < N
        invariant
            i <= N,
            slice@.len() == N,
            out@.len() == N,
            forall|j: int| 0 <= j < i ==> out@[j] == slice@[j],
        decreases N - i,
    {
        out[i] = slice[i];
        i = i + 1;
    }
    assert(out@ =~= slice@);
    out
}

/// Checks that the given string is pure ASCII and then returns its bytes;
/// a string with any non-ASCII character yields `None`.
pub fn ascii_bytes<'a>(given: &'a str) -> (r: Option<&'a [u8]>)
    ensures
        r is Some <==> vstd::string::is_ascii(given),
        r matches Some(b) ==> b@ == given.spec_bytes(),
{
    if given.is_ascii() {
        Some(given.as_bytes())
    } else {
        None
    }
}

} // verus!
