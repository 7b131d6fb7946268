//! The marker bytes of the format and the mathematical statement of what a
//! delimiter search returns.

use vstd::prelude::*;

verus! {

/// Line feed, `\n`: ends a line.
pub const NEWLINE: u8 = 0x0A;

/// Carriage return, `\r`: precedes `NEWLINE` in a two-byte line ending.
pub const RETURN_CARRIAGE: u8 = 0x0D;

/// Comma, `,`: separates two fields of a line.
pub const COMMA: u8 = 0x2C;

/// `b` is one of the three bytes searched for.
pub open spec fn is_needle(b: u8, needle1: u8, needle2: u8, needle3: u8) -> bool {
    b == needle1 || b == needle2 || b == needle3
}

/// None of the first `end` bytes of `s` is a needle.
pub open spec fn no_needle_before(
    s: Seq<u8>,
    needle1: u8,
    needle2: u8,
    needle3: u8,
    end: int,
) -> bool {
    forall|j: int| 0 <= j < end ==> !is_needle(#[trigger] s[j], needle1, needle2, needle3)
}

/// `found` is the answer owed for a search of `s`: the offset of the first
/// needle, or `None` when `s` holds no needle at all.
pub open spec fn is_first_needle(
    s: Seq<u8>,
    needle1: u8,
    needle2: u8,
    needle3: u8,
    found: Option<usize>,
) -> bool {
    match found {
        Some(i) => {
            &&& i < s.len()
            &&& is_needle(s[i as int], needle1, needle2, needle3)
            &&& no_needle_before(s, needle1, needle2, needle3, i as int)
        },
        None => no_needle_before(s, needle1, needle2, needle3, s.len() as int),
    }
}

/// `b` ends a field: a comma or either byte of a line ending.
pub open spec fn is_marker(b: u8) -> bool {
    is_needle(b, COMMA, NEWLINE, RETURN_CARRIAGE)
}

/// `b` belongs to a line ending.
pub open spec fn is_terminator(b: u8) -> bool {
    b == NEWLINE || b == RETURN_CARRIAGE
}

/// `found` is the answer owed for a search of `s` for the three markers.
pub open spec fn is_first_marker(s: Seq<u8>, found: Option<usize>) -> bool {
    is_first_needle(s, COMMA, NEWLINE, RETURN_CARRIAGE, found)
}

/// The index of the first byte at or after `from` that `stop` accepts, or
/// the length of `bytes` when no such byte follows.
pub open spec fn first_stop(bytes: Seq<u8>, from: int, stop: spec_fn(u8) -> bool) -> int
    recommends
        0 <= from <= bytes.len(),
    decreases bytes.len() - from,
{
    if from >= bytes.len() {
        bytes.len() as int
    } else if stop(bytes[from]) {
        from
    } else {
        first_stop(bytes, from + 1, stop)
    }
}

/// Where the field that starts at `from` ends: at the first marker at or
/// after `from`, or at the end of `bytes`.
pub open spec fn field_end(bytes: Seq<u8>, from: int) -> int
    recommends
        0 <= from <= bytes.len(),
{
    first_stop(bytes, from, |b: u8| is_marker(b))
}

/// Where the text of the line that holds `from` ends: at the first
/// terminator byte at or after `from`, or at the end of `bytes`.
pub open spec fn line_end(bytes: Seq<u8>, from: int) -> int
    recommends
        0 <= from <= bytes.len(),
{
    first_stop(bytes, from, |b: u8| is_terminator(b))
}

/// The answer owed for a search of `s` for the three markers, as a
/// function of `s`: the end of the field that starts `s`, unless that field
/// runs to the end of `s`.
pub open spec fn first_marker(s: Seq<u8>) -> Option<usize> {
    if field_end(s, 0) < s.len() {
        Some(field_end(s, 0) as usize)
    } else {
        None
    }
}

/// At most one answer is right: two results that both meet
/// `is_first_needle` for the same haystack and needles are equal.
pub proof fn lemma_first_needle_unique(
    s: Seq<u8>,
    needle1: u8,
    needle2: u8,
    needle3: u8,
    a: Option<usize>,
    b: Option<usize>,
)
    requires
        is_first_needle(s, needle1, needle2, needle3, a),
        is_first_needle(s, needle1, needle2, needle3, b),
    ensures
        a == b,
{
    match (a, b) {
        (Some(i), Some(j)) => {
            if i < j {
                assert(is_needle(s[i as int], needle1, needle2, needle3));
            } else if j < i {
                assert(is_needle(s[j as int], needle1, needle2, needle3));
            }
        },
        (Some(i), None) => {
            assert(is_needle(s[i as int], needle1, needle2, needle3));
        },
        (None, Some(j)) => {
            assert(is_needle(s[j as int], needle1, needle2, needle3));
        },
        (None, None) => {},
    }
}

/// A search of what lies behind `offset` answers for the whole of `s` when
/// no needle lies before `offset`: the offset found there, counted from the
/// start of `s`, is the first needle of `s`.
pub proof fn lemma_first_needle_behind(
    s: Seq<u8>,
    needle1: u8,
    needle2: u8,
    needle3: u8,
    offset: usize,
    found: Option<usize>,
)
    requires
        offset <= s.len() <= usize::MAX,
        no_needle_before(s, needle1, needle2, needle3, offset as int),
        is_first_needle(s.subrange(offset as int, s.len() as int), needle1, needle2, needle3, found),
    ensures
        match found {
            Some(k) => offset + k < s.len() && is_first_needle(
                s,
                needle1,
                needle2,
                needle3,
                Some((offset + k) as usize),
            ),
            None => is_first_needle(s, needle1, needle2, needle3, None),
        },
{
    let rest = s.subrange(offset as int, s.len() as int);
    let end = match found {
        Some(k) => offset + k,
        None => s.len() as int,
    };
    assert forall|j: int| 0 <= j < end implies !is_needle(
        #[trigger] s[j],
        needle1,
        needle2,
        needle3,
    ) by {
        if j >= offset {
            assert(s[j] == rest[j - offset]);
        }
    }
    if let Some(k) = found {
        assert(s[offset + k] == rest[k as int]);
    }
}

/// `first_stop` lies between `from` and the end, skips only bytes that
/// `stop` rejects, and rests on a byte that `stop` accepts unless it reached
/// the end.
pub proof fn lemma_first_stop(bytes: Seq<u8>, from: int, stop: spec_fn(u8) -> bool)
    requires
        0 <= from <= bytes.len(),
    ensures
        from <= first_stop(bytes, from, stop) <= bytes.len(),
        forall|j: int| from <= j < first_stop(bytes, from, stop) ==> !stop(#[trigger] bytes[j]),
        first_stop(bytes, from, stop) < bytes.len() ==> stop(
            bytes[first_stop(bytes, from, stop)],
        ),
    decreases bytes.len() - from,
{
    if from < bytes.len() && !stop(bytes[from]) {
        lemma_first_stop(bytes, from + 1, stop);
    }
}

/// The three facts of `lemma_first_stop` single out one index: whichever
/// `end` has them is `first_stop`.
pub proof fn lemma_first_stop_is(bytes: Seq<u8>, from: int, stop: spec_fn(u8) -> bool, end: int)
    requires
        0 <= from <= end <= bytes.len(),
        forall|j: int| from <= j < end ==> !stop(#[trigger] bytes[j]),
        end < bytes.len() ==> stop(bytes[end]),
    ensures
        first_stop(bytes, from, stop) == end,
    decreases end - from,
{
    if from < end {
        assert(!stop(bytes[from]));
        lemma_first_stop_is(bytes, from + 1, stop, end);
    }
}

/// The relation `is_first_marker` and the function `first_marker` say the
/// same: an answer meets the one exactly when it equals the other.
pub proof fn lemma_first_marker(s: Seq<u8>, found: Option<usize>)
    requires
        s.len() <= usize::MAX,
    ensures
        is_first_marker(s, found) <==> found == first_marker(s),
{
    let stop = |b: u8| is_marker(b);
    lemma_first_stop(s, 0, stop);
    if is_first_marker(s, found) {
        let end = match found {
            Some(k) => k as int,
            None => s.len() as int,
        };
        lemma_first_stop_is(s, 0, stop, end);
    }
}

/// A kernel's answer for the unread remainder of `bytes` locates the end of
/// the field that starts at `from`.
pub proof fn lemma_search_finds_field_end(bytes: Seq<u8>, from: int, found: Option<usize>)
    requires
        0 <= from <= bytes.len(),
        is_first_marker(bytes.subrange(from, bytes.len() as int), found),
    ensures
        match found {
            Some(k) => field_end(bytes, from) == from + k && from + k < bytes.len(),
            None => field_end(bytes, from) == bytes.len(),
        },
{
    let rest = bytes.subrange(from, bytes.len() as int);
    let stop = |b: u8| is_marker(b);
    let end = match found {
        Some(k) => from + k,
        None => bytes.len() as int,
    };
    assert forall|j: int| from <= j < end implies !stop(#[trigger] bytes[j]) by {
        assert(bytes[j] == rest[j - from]);
    }
    if let Some(k) = found {
        assert(bytes[from + k] == rest[k as int]);
    }
    lemma_first_stop_is(bytes, from, stop, end);
}

} // verus!
