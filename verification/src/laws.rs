//! What holds of the cursor whatever the buffer, stated over the model that
//! the contracts of its operations use.

use vstd::prelude::*;
use crate::csv_simd_bespoke::CsvSimdCursor;
use crate::markers::{
    is_first_marker, is_marker, is_terminator, lemma_first_needle_unique, lemma_first_stop,
    COMMA, NEWLINE, RETURN_CARRIAGE,
};
use crate::model::{CursorState, CursorView};

verus! {

/// The kernels are equivalent: on one haystack, two answers that both meet
/// the contract that every kernel has are the same answer.
pub proof fn lemma_kernels_agree(haystack: Seq<u8>, a: Option<usize>, b: Option<usize>)
    requires
        is_first_marker(haystack, a),
        is_first_marker(haystack, b),
    ensures
        a == b,
{
    lemma_first_needle_unique(haystack, COMMA, NEWLINE, RETURN_CARRIAGE, a, b);
}

/// Tokenization does not depend on the kernel: two cursors in the same
/// state over the same buffer, whichever kernels they search with, yield
/// the same value, find the same lines, move to the same states, and a full
/// traversal yields the same pairs of value and line number from both.
pub proof fn lemma_cursors_agree(a: CsvSimdCursor, b: CsvSimdCursor, idx: nat, lines: nat)
    requires
        a@ == b@,
    ensures
        a@.next_value() == b@.next_value(),
        a@.after_next_value() == b@.after_next_value(),
        a@.get_value(idx) == b@.get_value(idx),
        a@.after_get_value(idx) == b@.after_get_value(idx),
        a@.advance_line() == b@.advance_line(),
        a@.after_advance_line() == b@.after_advance_line(),
        a@.advance_by_lines(lines) == b@.advance_by_lines(lines),
        a@.after_lines(lines) == b@.after_lines(lines),
        a@.tokens() == b@.tokens(),
{
}

/// The state machine of the cursor. While scanning, `next_value` yields a
/// field and stays scanning exactly when a comma ended it; `advance_line`
/// goes on scanning on the next line or, finding none, ends. On an exhausted
/// line `next_value` yields nothing and changes nothing, and `advance_line`
/// finds the next line and scans it. At the end neither does anything.
pub proof fn lemma_transitions(v: CursorView)
    requires
        v.wf(),
    ensures
        match v.state() {
            CursorState::Scanning => {
                &&& v.next_value() == Some(v.field())
                &&& v.after_next_value().state() == CursorState::Scanning <==> v.field_end()
                    < v.bytes.len() && v.bytes[v.field_end()] == COMMA
                &&& v.advance_line() ==> v.after_advance_line().state() == CursorState::Scanning
                &&& !v.advance_line() ==> v.after_advance_line().state() == CursorState::AtEnd
            },
            CursorState::LineExhausted => {
                &&& v.next_value() is None
                &&& v.after_next_value() == v
                &&& v.advance_line()
                &&& v.after_advance_line().state() == CursorState::Scanning
                &&& v.after_advance_line().position == v.position
            },
            CursorState::AtEnd => {
                &&& v.next_value() is None
                &&& v.after_next_value() == v
                &&& !v.advance_line()
                &&& v.after_advance_line() == v
            },
        },
{
}

/// Every operation keeps a reachable cursor reachable; in particular the
/// position never leaves the buffer.
pub proof fn lemma_wf_preserved(v: CursorView, idx: nat, n: nat)
    requires
        v.wf(),
    ensures
        v.after_next_value().wf(),
        v.after_fields(n).wf(),
        v.after_get_value(idx).wf(),
        v.after_advance_line().wf(),
        v.after_lines(n).wf(),
    decreases n,
{
    lemma_first_stop(v.bytes, v.position as int, |b: u8| is_marker(b));
    lemma_first_stop(v.bytes, v.position as int, |b: u8| is_terminator(b));
    if n > 0 {
        lemma_wf_preserved(v, idx, (n - 1) as nat);
        lemma_wf_preserved(v.after_fields((n - 1) as nat), idx, 0);
        lemma_wf_preserved(v.after_lines((n - 1) as nat), idx, 0);
    }
    if idx >= v.field_index {
        lemma_fields_grow(v, (idx - v.field_index + 1) as nat);
    }
}

/// Exhaustion is idempotent: once `next_value` has yielded nothing, it
/// yields nothing again, however often it is called, and leaves the cursor
/// as it is; so does `get_value` for every index.
pub proof fn lemma_exhaustion_idempotent(v: CursorView, calls: nat, idx: nat)
    requires
        v.next_value() is None,
    ensures
        v.after_next_value() == v,
        v.after_fields(calls) == v,
        v.after_fields(calls).next_value() is None,
        v.get_value(idx) is None,
        v.after_get_value(idx) == v,
{
    v.lemma_after_fields_exhausted(0, calls);
    if idx >= v.field_index {
        v.lemma_after_fields_exhausted(0, (idx - v.field_index) as nat);
        v.lemma_after_fields_exhausted(0, (idx - v.field_index + 1) as nat);
    }
}

/// The end is terminal: at the end of the buffer `advance_line` finds no
/// line, and no operation leads away from the end, so it never finds one
/// again.
pub proof fn lemma_terminal_idempotent(v: CursorView, calls: nat, idx: nat)
    requires
        v.at_end(),
    ensures
        !v.advance_line(),
        v.after_advance_line().at_end(),
        v.after_next_value().at_end(),
        v.after_get_value(idx).at_end(),
        v.after_fields(calls).at_end(),
        v.after_lines(calls).at_end(),
        !v.after_lines(calls).advance_line(),
        calls > 0 ==> !v.advance_by_lines(calls),
    decreases calls,
{
    if calls > 0 {
        lemma_terminal_idempotent(v, (calls - 1) as nat, idx);
        lemma_terminal_idempotent(v.after_lines((calls - 1) as nat), 0, idx);
        lemma_terminal_idempotent(v.after_fields((calls - 1) as nat), 0, idx);
        assert(v.after_lines(0) == v);
    }
    if idx >= v.field_index {
        lemma_fields_stay_at_end(v, (idx - v.field_index + 1) as nat);
    }
}

proof fn lemma_fields_stay_at_end(v: CursorView, n: nat)
    requires
        v.at_end(),
    ensures
        v.after_fields(n).at_end(),
    decreases n,
{
    if n > 0 {
        lemma_fields_stay_at_end(v, (n - 1) as nat);
    }
}

proof fn lemma_fields_grow(v: CursorView, n: nat)
    requires
        v.wf(),
    ensures
        v.after_fields(n).wf(),
        v.after_fields(n).position >= v.position,
        v.after_fields(n).field_index >= v.field_index,
        v.after_fields(n).line_number == v.line_number,
    decreases n,
{
    if n > 0 {
        lemma_fields_grow(v, (n - 1) as nat);
        let w = v.after_fields((n - 1) as nat);
        lemma_first_stop(w.bytes, w.position as int, |b: u8| is_marker(b));
    }
}

/// Reading fields never moves the cursor back, never lowers the field
/// index and never touches the line number.
pub proof fn lemma_fields_monotonic(v: CursorView, n: nat, idx: nat)
    requires
        v.wf(),
    ensures
        v.after_next_value().position >= v.position,
        v.after_next_value().field_index >= v.field_index,
        v.after_next_value().line_number == v.line_number,
        v.after_fields(n).position >= v.position,
        v.after_fields(n).field_index >= v.field_index,
        v.after_fields(n).line_number == v.line_number,
        v.after_get_value(idx).position >= v.position,
        v.after_get_value(idx).field_index >= v.field_index,
        v.after_get_value(idx).line_number == v.line_number,
{
    lemma_fields_grow(v, 1);
    assert(v.after_fields(1) == v.after_fields(0).after_next_value());
    lemma_fields_grow(v, n);
    if idx >= v.field_index {
        lemma_fields_grow(v, (idx - v.field_index + 1) as nat);
    }
}

/// Advancing lines never moves the cursor back and never lowers the line
/// number. The field index goes back to zero exactly when `advance_line`
/// finds a line, which also counts one line more; when it finds none, both
/// counters keep their values.
pub proof fn lemma_lines_monotonic(v: CursorView, n: nat)
    requires
        v.wf(),
    ensures
        v.after_advance_line().position >= v.position,
        v.advance_line() ==> v.after_advance_line().field_index == 0
            && v.after_advance_line().line_number == v.line_number + 1,
        !v.advance_line() ==> v.after_advance_line().field_index == v.field_index
            && v.after_advance_line().line_number == v.line_number,
        v.after_lines(n).position >= v.position,
        v.after_lines(n).line_number >= v.line_number,
        v.after_lines(n).line_number <= v.line_number + n,
        v.advance_by_lines(n) ==> v.after_lines(n).line_number == v.line_number + n,
    decreases n,
{
    lemma_first_stop(v.bytes, v.position as int, |b: u8| is_terminator(b));
    if n > 0 {
        let m = (n - 1) as nat;
        lemma_lines_monotonic(v, m);
        lemma_wf_preserved(v, 0, m);
        lemma_lines_monotonic(v.after_lines(m), 0);
        if v.advance_by_lines(n) {
            assert(v.after_lines(m).advance_line());
            assert forall|i: nat| i < m implies (#[trigger] v.after_lines(i)).advance_line() by {}
        }
    }
}

} // verus!
