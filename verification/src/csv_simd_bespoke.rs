//! The cursor: field-at-a-time and line-at-a-time navigation over a
//! borrowed byte buffer.

use vstd::prelude::*;
use vstd::slice::slice_subrange;
use crate::kernel::Kernel;
use crate::markers::{
    COMMA, NEWLINE, RETURN_CARRIAGE, is_terminator, lemma_first_stop_is,
    lemma_search_finds_field_end,
};
use crate::laws::{lemma_fields_monotonic, lemma_lines_monotonic, lemma_terminal_idempotent};
use crate::model::{CursorState, CursorView};

verus! {

/// A cursor over an immutable byte buffer. It borrows the buffer for its
/// whole life, never copies it, and hands out fields as slices of it.
///
/// Input is never rejected. A carriage return counts as the first byte of a
/// two-byte line ending whatever follows it, so a lone one takes the byte
/// behind it along.
#[derive(Debug)]
pub struct CsvSimdCursor<'a> {
    file_bytes: &'a [u8],
    cursor_pos: usize,
    eol: bool,
    next_val_idx: usize,
    line_num: usize,
    kernel: Kernel,
}

impl<'a> View for CsvSimdCursor<'a> {
    type V = CursorView;

    closed spec fn view(&self) -> CursorView {
        CursorView {
            bytes: self.file_bytes@,
            position: self.cursor_pos as nat,
            end_of_line: self.eol,
            field_index: self.next_val_idx as nat,
            line_number: self.line_num as nat,
        }
    }
}

impl<'a> Clone for CsvSimdCursor<'a> {
    /// A second cursor over the same buffer, in the same state. From here
    /// on the two move apart: a copy does not share the position.
    fn clone(&self) -> (copy: Self)
        ensures
            copy@ == self@,
            copy.kernel() == self.kernel(),
    {
        proof {
            use_type_invariant(self);
        }
        CsvSimdCursor {
            file_bytes: self.file_bytes,
            cursor_pos: self.cursor_pos,
            eol: self.eol,
            next_val_idx: self.next_val_idx,
            line_num: self.line_num,
            kernel: self.kernel,
        }
    }
}

impl<'a> CsvSimdCursor<'a> {
    /// The kernel that this cursor searches with.
    pub closed spec fn kernel(&self) -> Kernel {
        self.kernel
    }

    /// The cursor is in a state that the operations can reach. This holds
    /// of every cursor there is.
    #[verifier::type_invariant]
    pub open spec fn wf(&self) -> bool {
        self@.wf()
    }

    /// A cursor at the start of `file_bytes` that searches with `kernel`.
    ///
    /// The buffer must be shorter than `usize::MAX` bytes, as every slice
    /// in memory is: a line can hold one field more than it has bytes, and
    /// the field counter is a `usize`.
    pub fn with_kernel(file_bytes: &'a [u8], kernel: Kernel) -> (cursor: CsvSimdCursor<'a>)
        requires
            file_bytes@.len() < usize::MAX,
        ensures
            cursor.wf(),
            cursor@ == CursorView::initial(file_bytes@),
            cursor@.state() == CursorState::Scanning,
            cursor.kernel() == kernel,
    {
        CsvSimdCursor {
            file_bytes,
            cursor_pos: 0,
            eol: false,
            next_val_idx: 0,
            line_num: 0,
            kernel,
        }
    }

    /// A cursor at the start of `file_bytes` that searches with the
    /// vectorized library kernel. The buffer must be shorter than
    /// `usize::MAX` bytes, as for `with_kernel`.
    pub fn new(file_bytes: &'a [u8]) -> (cursor: CsvSimdCursor<'a>)
        requires
            file_bytes@.len() < usize::MAX,
        ensures
            cursor.wf(),
            cursor@ == CursorView::initial(file_bytes@),
            cursor@.state() == CursorState::Scanning,
            cursor.kernel() == Kernel::Vectorized,
    {
        CsvSimdCursor::with_kernel(file_bytes, Kernel::Vectorized)
    }

    /// Replaces the four pieces of state at once.
    fn move_to(&mut self, cursor_pos: usize, eol: bool, next_val_idx: usize, line_num: usize)
        requires
            (CursorView {
                bytes: old(self)@.bytes,
                position: cursor_pos as nat,
                end_of_line: eol,
                field_index: next_val_idx as nat,
                line_number: line_num as nat,
            }).wf(),
        ensures
            final(self)@ == (CursorView {
                bytes: old(self)@.bytes,
                position: cursor_pos as nat,
                end_of_line: eol,
                field_index: next_val_idx as nat,
                line_number: line_num as nat,
            }),
            final(self).kernel() == old(self).kernel(),
    {
        *self = CsvSimdCursor {
            file_bytes: self.file_bytes,
            cursor_pos,
            eol,
            next_val_idx,
            line_num,
            kernel: self.kernel,
        };
    }

    /// Reads the next field of the current line: the bytes up to the next
    /// comma, line ending or end of the buffer. The cursor moves behind the
    /// delimiter: one byte on for a comma or a line feed, two for a
    /// carriage return, but never beyond the end. A comma leaves the line
    /// open; a line ending or the end of the buffer exhausts it. The field
    /// that ends at the end of the buffer is yielded even when it is empty.
    /// Returns `None`, and changes nothing, once the line is exhausted.
    pub fn next_value(&mut self) -> (value: Option<&'a [u8]>)
        ensures
            final(self).wf(),
            final(self)@ == old(self)@.after_next_value(),
            final(self).kernel() == old(self).kernel(),
            value is None <==> old(self)@.end_of_line,
            match value {
                Some(v) => old(self)@.next_value() == Some(v@),
                None => old(self)@.next_value() is None,
            },
            value is None ==> final(self)@ == old(self)@,
            value is Some ==> final(self)@.field_index == old(self)@.field_index + 1,
            final(self)@.position >= old(self)@.position,
            final(self)@.line_number == old(self)@.line_number,
    {
        proof {
            use_type_invariant(&*self);
            lemma_fields_monotonic(self@, 0, 0);
        }
        if self.eol {
            return None;
        }
        let bytes: &'a [u8] = self.file_bytes;
        let len = bytes.len();
        let start = self.cursor_pos;
        let unread = slice_subrange(bytes, start, len);
        let next_point = self.kernel.search(unread);
        proof {
            lemma_search_finds_field_end(bytes@, start as int, next_point);
        }
        match next_point {
            Some(val) => {
                let current_byte = unread[val];
                let new_pos = start + val;
                let value_bytes = slice_subrange(bytes, start, new_pos);
                if current_byte == COMMA {
                    // skip the comma
                    self.move_to(new_pos + 1, false, self.next_val_idx + 1, self.line_num);
                } else if current_byte == RETURN_CARRIAGE {
                    // skip \r\n
                    let behind = if new_pos + 2 <= len {
                        new_pos + 2
                    } else {
                        len
                    };
                    self.move_to(behind, true, self.next_val_idx + 1, self.line_num);
                } else {
                    // skip \n
                    self.move_to(new_pos + 1, true, self.next_val_idx + 1, self.line_num);
                }
                Some(value_bytes)
            },
            None => {
                // hit the end of the buffer: what is left is the last field
                let value_bytes = slice_subrange(bytes, start, len);
                self.move_to(len, true, self.next_val_idx + 1, self.line_num);
                Some(value_bytes)
            },
        }
    }

    /// Moves to the start of the next line and drops what is unread of the
    /// current one. After an exhausted line the cursor already stands
    /// there; in the middle of a line it scans byte by byte for the line
    /// ending and moves behind it. Returns `false` when the buffer holds no
    /// further line; the cursor then rests at the end of the buffer.
    pub fn advance_line(&mut self) -> (advanced: bool)
        ensures
            final(self).wf(),
            final(self)@ == old(self)@.after_advance_line(),
            final(self).kernel() == old(self).kernel(),
            advanced == old(self)@.advance_line(),
            old(self)@.at_end() ==> !advanced,
            advanced ==> final(self)@.field_index == 0 && final(self)@.line_number == old(
                self,
            )@.line_number + 1,
            !advanced ==> final(self)@.state() == CursorState::AtEnd && final(self)@.field_index
                == old(self)@.field_index && final(self)@.line_number == old(self)@.line_number,
            final(self)@.position >= old(self)@.position,
    {
        proof {
            use_type_invariant(&*self);
            lemma_lines_monotonic(self@, 0);
            if self@.at_end() {
                lemma_terminal_idempotent(self@, 0, 0);
            }
        }
        let len = self.file_bytes.len();
        if self.eol {
            if self.cursor_pos != len {
                self.move_to(self.cursor_pos, false, 0, self.line_num + 1);
                return true;
            } else {
                return false;
            }
        }
        let ghost stop = |b: u8| is_terminator(b);
        let mut new_pos = self.cursor_pos;
        while new_pos < len
            invariant
                *self == *old(self),
                self.wf(),
                !self.eol,
                len == self.file_bytes@.len(),
                self.cursor_pos <= new_pos <= len,
                stop == (|b: u8| is_terminator(b)),
                forall|j: int|
                    self.cursor_pos <= j < new_pos ==> !stop(#[trigger] self.file_bytes@[j]),
            decreases len - new_pos,
        {
            let current_byte = self.file_bytes[new_pos];
            if current_byte == RETURN_CARRIAGE || current_byte == NEWLINE {
                proof {
                    lemma_first_stop_is(
                        self.file_bytes@,
                        self.cursor_pos as int,
                        stop,
                        new_pos as int,
                    );
                }
                // skip \r\n or \n
                let behind = if current_byte == RETURN_CARRIAGE && new_pos + 2 <= len {
                    new_pos + 2
                } else {
                    new_pos + 1
                };
                self.move_to(behind, false, 0, self.line_num + 1);
                return true;
            }
            new_pos += 1;
        }
        proof {
            lemma_first_stop_is(self.file_bytes@, self.cursor_pos as int, stop, len as int);
        }
        // hit the end of the buffer, so the cursor moves there
        self.move_to(new_pos, true, self.next_val_idx, self.line_num);
        false
    }

    /// Reads forward to field `idx` of the current line and returns it.
    /// Fields cannot be read twice: `None` comes back, and nothing changes,
    /// when the cursor has passed `idx`. `None` also comes back when the
    /// line runs out before field `idx`; the line is then exhausted.
    pub fn get_value(&mut self, idx: usize) -> (value: Option<&'a [u8]>)
        ensures
            final(self).wf(),
            final(self)@ == old(self)@.after_get_value(idx as nat),
            final(self).kernel() == old(self).kernel(),
            match value {
                Some(v) => old(self)@.get_value(idx as nat) == Some(v@),
                None => old(self)@.get_value(idx as nat) is None,
            },
            idx < old(self)@.field_index ==> value is None && final(self)@ == old(self)@,
            value is Some ==> final(self)@.field_index == idx + 1,
            value is None && idx >= old(self)@.field_index ==> final(self)@.end_of_line,
            final(self)@.field_index >= old(self)@.field_index,
            final(self)@.position >= old(self)@.position,
            final(self)@.line_number == old(self)@.line_number,
    {
        proof {
            use_type_invariant(&*self);
            lemma_fields_monotonic(self@, 0, idx as nat);
        }
        if idx < self.next_val_idx {
            return None;
        }
        let ghost start = self@;
        let ghost mut n: nat = 0;
        let mut r: Option<&'a [u8]> = None;
        while self.next_val_idx <= idx
            invariant
                self.wf(),
                self.kernel() == old(self).kernel(),
                start == old(self)@,
                start.wf(),
                start.field_index <= idx,
                self@ == start.after_fields(n),
                self@.field_index == start.field_index + n,
                n <= idx - start.field_index + 1,
                n > 0 ==> match r {
                    Some(v) => start.after_fields((n - 1) as nat).next_value() == Some(v@),
                    None => false,
                },
            decreases idx + 1 - self.next_val_idx,
        {
            r = self.next_value();
            if r.is_none() {
                proof {
                    start.lemma_after_fields_exhausted(n, (idx - start.field_index) as nat);
                    start.lemma_after_fields_exhausted(n, (idx - start.field_index + 1) as nat);
                    lemma_fields_monotonic(start, 0, idx as nat);
                }
                return None;
            }
            proof {
                n = n + 1;
            }
        }
        r
    }

    /// Calls `advance_line` `lines` times, all of them whatever the earlier
    /// ones returned, and tells whether every call found a line.
    pub fn advance_by_lines(&mut self, lines: usize) -> (advanced: bool)
        ensures
            final(self).wf(),
            final(self)@ == old(self)@.after_lines(lines as nat),
            final(self).kernel() == old(self).kernel(),
            advanced == old(self)@.advance_by_lines(lines as nat),
            advanced ==> final(self)@.line_number == old(self)@.line_number + lines,
            final(self)@.line_number >= old(self)@.line_number,
            final(self)@.position >= old(self)@.position,
    {
        proof {
            use_type_invariant(&*self);
            lemma_lines_monotonic(self@, lines as nat);
        }
        let ghost start = self@;
        let mut still_lines = true;
        let mut i: usize = 0;
        while i < lines
            invariant
                i <= lines,
                self.wf(),
                self.kernel() == old(self).kernel(),
                start == old(self)@,
                self@ == start.after_lines(i as nat),
                still_lines == start.advance_by_lines(i as nat),
            decreases lines - i,
        {
            let advanced = self.advance_line();
            still_lines = still_lines && advanced;
            i += 1;
        }
        still_lines
    }

    /// Whether the cursor stands at the end of the buffer.
    pub fn at_end(&self) -> (ended: bool)
        ensures
            ended == self@.at_end(),
    {
        self.cursor_pos == self.file_bytes.len()
    }

    /// The number of line advances that succeeded so far.
    pub fn get_line_number(&self) -> (line: usize)
        ensures
            line == self@.line_number,
    {
        self.line_num
    }
}

} // verus!
