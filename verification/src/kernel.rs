//! The choice between the search kernels.

use vstd::prelude::*;
use crate::markers::{
    COMMA, NEWLINE, RETURN_CARRIAGE, first_marker, is_first_marker, is_first_needle,
    lemma_first_marker,
};
use crate::simd_read::{search_basic_3, search_char};

verus! {

/// `memchr::memchr3`: returns the index of the first byte of `haystack`
/// that equals one of the three needles, or `None` when no byte does, as
/// its documentation states.
pub assume_specification[ memchr::memchr3 ](
    needle1: u8,
    needle2: u8,
    needle3: u8,
    haystack: &[u8],
) -> (found: Option<usize>)
    ensures
        is_first_needle(haystack@, needle1, needle2, needle3, found),
;

/// A delimiter-search strategy. All of them return the same offsets; they
/// differ in speed only.
#[derive(Clone, Copy, Debug, PartialEq, Eq)]
pub enum Kernel {
    /// Byte-by-byte scan.
    Scalar,
    /// The vectorized library search.
    Vectorized,
    /// The sixteen-lane compare-and-mask kernel.
    Simd,
}

impl Kernel {
    /// The kernel for a machine, chosen once from the outcome of its
    /// capability check: the sixteen-lane kernel where the vector feature is
    /// there, the scalar kernel where it is not.
    pub fn select(simd_available: bool) -> (kernel: Kernel)
        ensures
            kernel == (if simd_available {
                Kernel::Simd
            } else {
                Kernel::Scalar
            }),
    {
        if simd_available {
            Kernel::Simd
        } else {
            Kernel::Scalar
        }
    }

    /// Offset of the first comma, line feed or carriage return in
    /// `haystack`, or `None` when it holds none of them. The answer is a
    /// function of the haystack alone: every kernel returns the same.
    pub fn search(self, haystack: &[u8]) -> (found: Option<usize>)
        ensures
            is_first_marker(haystack@, found),
            found == first_marker(haystack@),
    {
        let found = match self {
            Kernel::Scalar => search_basic_3(COMMA, NEWLINE, RETURN_CARRIAGE, haystack),
            Kernel::Vectorized => memchr::memchr3(COMMA, NEWLINE, RETURN_CARRIAGE, haystack),
            Kernel::Simd => search_char(haystack),
        };
        proof {
            assert(haystack@.len() == haystack.len());
            lemma_first_marker(haystack@, found);
        }
        found
    }
}

} // verus!
