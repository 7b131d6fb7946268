//! Delimiter-search kernels over plain bytes: a scalar scan and a
//! sixteen-lane compare-and-mask kernel with a scalar tail.
//!
//! A vector is an array of sixteen bytes. Each vector operation is a
//! function of its own with its exact lane-wise meaning as contract, so the
//! kernel reads as the usual sequence of broadcast, compare, or, move mask
//! and count of trailing zeros.

use vstd::prelude::*;
use vstd::slice::slice_subrange;
use vstd::std_specs::bits::axiom_u16_trailing_zeros;
use crate::markers::{
    COMMA, NEWLINE, RETURN_CARRIAGE, first_marker, is_first_marker, is_first_needle, is_needle,
    lemma_first_marker, lemma_first_needle_behind, no_needle_before,
};

verus! {

/// Bytes in one vector.
pub const LANES: usize = 16;

/// One vector: sixteen byte lanes, lane `i` at index `i`.
pub type Vector = [u8; 16];

/// Bit `lane` of `mask` is set.
pub open spec fn lane_bit(mask: u16, lane: u16) -> bool {
    (mask >> lane) & 1u16 == 1u16
}

/// The top bit of a lane, the one that `movemask` collects.
pub open spec fn high_bit(lane: u8) -> bool {
    lane & 0x80u8 != 0u8
}

/// Scalar kernel: scans `haystack` byte by byte and stops at the first byte
/// equal to one of the needles.
pub fn search_basic_3(needle1: u8, needle2: u8, needle3: u8, haystack: &[u8]) -> (found: Option<
    usize,
>)
    ensures
        is_first_needle(haystack@, needle1, needle2, needle3, found),
{
    let mut i: usize = 0;
    while i < haystack.len()
        invariant
            i <= haystack@.len(),
            no_needle_before(haystack@, needle1, needle2, needle3, i as int),
        decreases haystack@.len() - i,
    {
        if haystack[i] == needle1 || haystack[i] == needle2 || haystack[i] == needle3 {
            return Some(i);
        }
        i += 1;
    }
    None
}

/// Broadcast: a vector with `byte` in every lane.
pub fn splat(byte: u8) -> (v: Vector)
    ensures
        forall|i: int| 0 <= i < LANES ==> v@[i] == byte,
{
    [byte;16]
}

/// Unaligned load: the sixteen bytes of `haystack` that start at `offset`.
pub fn load(haystack: &[u8], offset: usize) -> (v: Vector)
    requires
        offset + LANES <= haystack@.len(),
    ensures
        forall|i: int| 0 <= i < LANES ==> v@[i] == haystack@[offset + i],
{
    let len = haystack.len();
    let mut v: Vector = [0u8;16];
    let mut i: usize = 0;
    while i < LANES
        invariant
            i <= LANES,
            len == haystack@.len(),
            offset + LANES <= len,
            forall|j: int| 0 <= j < i ==> v@[j] == haystack@[offset + j],
        decreases LANES - i,
    {
        v[i] = haystack[offset + i];
        i += 1;
    }
    v
}

/// Lane-wise equality: `0xFF` in each lane where `a` and `b` agree, `0` in
/// the others.
pub fn lanes_eq(a: &Vector, b: &Vector) -> (m: Vector)
    ensures
        forall|i: int|
            0 <= i < LANES ==> m@[i] == (if a@[i] == b@[i] {
                0xFFu8
            } else {
                0u8
            }),
{
    let mut m: Vector = [0u8;16];
    let mut i: usize = 0;
    while i < LANES
        invariant
            i <= LANES,
            forall|j: int|
                0 <= j < i ==> m@[j] == (if a@[j] == b@[j] {
                    0xFFu8
                } else {
                    0u8
                }),
        decreases LANES - i,
    {
        if a[i] == b[i] {
            m[i] = 0xFF;
        } else {
            m[i] = 0;
        }
        i += 1;
    }
    m
}

/// Lane-wise bitwise or.
pub fn lanes_or(a: &Vector, b: &Vector) -> (m: Vector)
    ensures
        forall|i: int| 0 <= i < LANES ==> m@[i] == a@[i] | b@[i],
{
    let mut m: Vector = [0u8;16];
    let mut i: usize = 0;
    while i < LANES
        invariant
            i <= LANES,
            forall|j: int| 0 <= j < i ==> m@[j] == a@[j] | b@[j],
        decreases LANES - i,
    {
        m[i] = a[i] | b[i];
        i += 1;
    }
    m
}

proof fn lemma_set_lane(mask: u16, lane: u16, j: u16)
    by (bit_vector)
    requires
        lane < 16,
        j < 16,
    ensures
        ((mask | (1u16 << lane)) >> j) & 1u16 == 1u16 <==> (mask >> j) & 1u16 == 1u16 || j
            == lane,
{
}

proof fn lemma_no_lane_set(j: u16)
    by (bit_vector)
    requires
        j < 16,
    ensures
        (0u16 >> j) & 1u16 != 1u16,
{
}

/// Move mask: gathers the top bit of every lane, lane `i` into bit `i`.
pub fn movemask(a: &Vector) -> (mask: u16)
    ensures
        forall|lane: u16| lane < 16 ==> (#[trigger] lane_bit(mask, lane) <==> high_bit(
            a@[lane as int],
        )),
{
    let mut mask: u16 = 0;
    let mut i: u16 = 0;
    proof {
        assert forall|lane: u16| lane < 16 implies !#[trigger] lane_bit(mask, lane) by {
            lemma_no_lane_set(lane);
        }
    }
    while i < 16
        invariant
            i <= 16,
            forall|lane: u16| lane < i ==> (#[trigger] lane_bit(mask, lane) <==> high_bit(
                a@[lane as int],
            )),
            forall|lane: u16| i <= lane < 16 ==> !#[trigger] lane_bit(mask, lane),
        decreases LANES - i,
    {
        let ghost before = mask;
        if a[i as usize] & 0x80 != 0 {
            mask = mask | (1u16 << i);
            proof {
                assert forall|lane: u16| lane < 16 implies (#[trigger] lane_bit(mask, lane)
                    <==> lane_bit(before, lane) || lane == i) by {
                    lemma_set_lane(before, i, lane);
                }
            }
        }
        i += 1;
    }
    mask
}

proof fn lemma_any_lane(x: u8, y: u8, z: u8)
    by (bit_vector)
    requires
        x == 0 || x == 0xFF,
        y == 0 || y == 0xFF,
        z == 0 || z == 0xFF,
    ensures
        ((x | y) | z) & 0x80u8 != 0u8 <==> x == 0xFF || y == 0xFF || z == 0xFF,
{
}

/// Compares one chunk with the three broadcast needles, ors the three
/// results and gathers one bit per lane: bit `i` of the mask is set exactly
/// when byte `i` of the chunk is a needle.
pub fn match_mask(
    chunk: &Vector,
    simd_a: &Vector,
    simd_b: &Vector,
    simd_c: &Vector,
) -> (mask: u16)
    ensures
        forall|lane: u16|
            lane < 16 ==> (#[trigger] lane_bit(mask, lane) <==> (chunk@[lane as int]
                == simd_a@[lane as int] || chunk@[lane as int] == simd_b@[lane as int]
                || chunk@[lane as int] == simd_c@[lane as int])),
{
    let has_a = lanes_eq(chunk, simd_a);
    let has_b = lanes_eq(chunk, simd_b);
    let has_c = lanes_eq(chunk, simd_c);
    let has_a_or_b = lanes_or(&has_a, &has_b);
    let has_any = lanes_or(&has_a_or_b, &has_c);
    let mask = movemask(&has_any);
    proof {
        assert forall|lane: u16| lane < 16 implies (#[trigger] lane_bit(mask, lane) <==> (
        chunk@[lane as int] == simd_a@[lane as int] || chunk@[lane as int]
            == simd_b@[lane as int] || chunk@[lane as int] == simd_c@[lane as int])) by {
            let i = lane as int;
            lemma_any_lane(has_a@[i], has_b@[i], has_c@[i]);
        }
    }
    mask
}

/// Sixteen-lane kernel. Whole chunks of sixteen bytes are compared with the
/// broadcast needles at once; the number of trailing zero bits of a
/// chunk's match mask is the lane of its first needle. What is left behind
/// the last whole chunk goes to the scalar kernel.
pub fn search_simd_3(needle1: u8, needle2: u8, needle3: u8, haystack: &[u8]) -> (found: Option<
    usize,
>)
    ensures
        is_first_needle(haystack@, needle1, needle2, needle3, found),
{
    let len = haystack.len();
    let simd_a = splat(needle1);
    let simd_b = splat(needle2);
    let simd_c = splat(needle3);
    let mut offset: usize = 0;
    while len - offset >= LANES
        invariant
            len == haystack@.len(),
            offset <= len,
            forall|i: int| 0 <= i < LANES ==> simd_a@[i] == needle1,
            forall|i: int| 0 <= i < LANES ==> simd_b@[i] == needle2,
            forall|i: int| 0 <= i < LANES ==> simd_c@[i] == needle3,
            no_needle_before(haystack@, needle1, needle2, needle3, offset as int),
        decreases len - offset,
    {
        let chunk = load(haystack, offset);
        let match_summary = match_mask(&chunk, &simd_a, &simd_b, &simd_c);
        let first_match_idx = match_summary.trailing_zeros();
        proof {
            axiom_u16_trailing_zeros(match_summary);
            assert forall|lane: u16| lane < 16 implies (#[trigger] lane_bit(match_summary, lane)
                <==> is_needle(haystack@[offset + lane], needle1, needle2, needle3)) by {}
            assert forall|lane: u16| lane < first_match_idx implies !#[trigger] lane_bit(
                match_summary,
                lane,
            ) by {}
        }
        if first_match_idx < u16::BITS {
            proof {
                assert(lane_bit(match_summary, first_match_idx as u16));
                assert forall|j: int| 0 <= j < offset + first_match_idx implies !is_needle(
                    #[trigger] haystack@[j],
                    needle1,
                    needle2,
                    needle3,
                ) by {
                    if j >= offset {
                        assert(!lane_bit(match_summary, (j - offset) as u16));
                    }
                }
            }
            return Some(offset + first_match_idx as usize);
        }
        proof {
            assert forall|j: int| 0 <= j < offset + LANES implies !is_needle(
                #[trigger] haystack@[j],
                needle1,
                needle2,
                needle3,
            ) by {
                if j >= offset {
                    assert(!lane_bit(match_summary, (j - offset) as u16));
                }
            }
        }
        offset += LANES;
    }
    let tail = slice_subrange(haystack, offset, len);
    let found_in_tail = search_basic_3(needle1, needle2, needle3, tail);
    proof {
        lemma_first_needle_behind(haystack@, needle1, needle2, needle3, offset, found_in_tail);
    }
    match found_in_tail {
        Some(v) => Some(v + offset),
        None => None,
    }
}

/// Offset of the first comma, line feed or carriage return in `haystack`,
/// found with the sixteen-lane kernel, or `None` when it holds none of
/// them.
pub fn search_char(haystack: &[u8]) -> (found: Option<usize>)
    ensures
        is_first_marker(haystack@, found),
        found == first_marker(haystack@),
{
    let found = search_simd_3(COMMA, NEWLINE, RETURN_CARRIAGE, haystack);
    proof {
        assert(haystack@.len() == haystack.len());
        lemma_first_marker(haystack@, found);
    }
    found
}

} // verus!
