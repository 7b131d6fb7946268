//! The cursor as a mathematical value, and what each operation makes of it.

use vstd::prelude::*;
use crate::markers::{COMMA, RETURN_CARRIAGE, field_end, is_marker, lemma_first_stop, line_end};

verus! {

/// The three states of a cursor.
pub enum CursorState {
    /// In the middle of a line: a field can be read.
    Scanning,
    /// The line is exhausted and bytes remain: only a line advance reads on.
    LineExhausted,
    /// The line is exhausted at the end of the buffer: nothing reads on.
    AtEnd,
}

/// What a cursor is, apart from how it searches: the buffer and the four
/// pieces of state that navigation reads and writes.
pub struct CursorView {
    /// The whole buffer.
    pub bytes: Seq<u8>,
    /// Offset of the first unread byte.
    pub position: nat,
    /// No further field can be read before the next line advance.
    pub end_of_line: bool,
    /// Fields already read on the current line.
    pub field_index: nat,
    /// Line advances that succeeded.
    pub line_number: nat,
}

impl CursorView {
    /// A fresh cursor at the start of `bytes`.
    pub open spec fn initial(bytes: Seq<u8>) -> CursorView {
        CursorView { bytes, position: 0, end_of_line: false, field_index: 0, line_number: 0 }
    }

    /// What holds of every cursor that the operations can reach. The
    /// position stays inside the buffer; each field read and each line
    /// advance has consumed at least one byte, but for the one field that
    /// ends at the end of the buffer, so both counters fit in a `usize`.
    pub open spec fn wf(self) -> bool {
        &&& self.bytes.len() < usize::MAX
        &&& self.position <= self.bytes.len()
        &&& self.field_index <= self.position + 1
        &&& !self.end_of_line ==> self.field_index <= self.position
        &&& self.line_number <= self.position
        &&& self.end_of_line && self.position < self.bytes.len() ==> self.line_number
            < self.position
    }

    /// Nothing is left to read.
    pub open spec fn at_end(self) -> bool {
        self.position == self.bytes.len()
    }

    /// The state that the cursor is in.
    pub open spec fn state(self) -> CursorState {
        if !self.end_of_line {
            CursorState::Scanning
        } else if self.position < self.bytes.len() {
            CursorState::LineExhausted
        } else {
            CursorState::AtEnd
        }
    }

    /// Where the field at the cursor ends.
    pub open spec fn field_end(self) -> int {
        field_end(self.bytes, self.position as int)
    }

    /// The position just behind the delimiter at `at`: one byte on for a
    /// comma or a line feed, two for a carriage return, whose line feed is
    /// taken for granted, and never beyond the end of the buffer.
    pub open spec fn skip_delimiter(self, at: int) -> nat {
        if at >= self.bytes.len() {
            self.bytes.len()
        } else if self.bytes[at] == RETURN_CARRIAGE && at + 2 <= self.bytes.len() {
            (at + 2) as nat
        } else {
            (at + 1) as nat
        }
    }

    /// Where the text of the current line ends, seen from the cursor.
    pub open spec fn line_end(self) -> int {
        line_end(self.bytes, self.position as int)
    }

    /// The field at the cursor: the bytes from the cursor to the end of the
    /// field, delimiter left out.
    pub open spec fn field(self) -> Seq<u8> {
        self.bytes.subrange(self.position as int, self.field_end())
    }

    /// The value that `next_value` yields: the field at the cursor, or
    /// nothing once the line is exhausted.
    pub open spec fn next_value(self) -> Option<Seq<u8>> {
        if self.end_of_line {
            None
        } else {
            Some(self.field())
        }
    }

    /// The cursor that `next_value` leaves behind. An exhausted line leaves
    /// it as it was. Otherwise it stands behind the field's delimiter, has
    /// one more field read, and the line is exhausted unless that delimiter
    /// was a comma.
    pub open spec fn after_next_value(self) -> CursorView {
        if self.end_of_line {
            self
        } else {
            let end = self.field_end();
            CursorView {
                position: self.skip_delimiter(end),
                end_of_line: end >= self.bytes.len() || self.bytes[end] != COMMA,
                field_index: self.field_index + 1,
                ..self
            }
        }
    }

    /// Whether `advance_line` finds a next line. After an exhausted line
    /// there is one unless the buffer is used up; in the middle of a line
    /// there is one if a line ending still follows.
    pub open spec fn advance_line(self) -> bool {
        if self.end_of_line {
            !self.at_end()
        } else {
            self.line_end() < self.bytes.len()
        }
    }

    /// The cursor that `advance_line` leaves behind. On success it stands
    /// at the start of the next line, with no field read and one more line
    /// counted. Without a next line it rests at the end of the buffer with
    /// the line exhausted, and both counters keep their values.
    pub open spec fn after_advance_line(self) -> CursorView {
        if !self.advance_line() {
            CursorView { position: self.bytes.len(), end_of_line: true, ..self }
        } else {
            CursorView {
                position: if self.end_of_line {
                    self.position
                } else {
                    self.skip_delimiter(self.line_end())
                },
                end_of_line: false,
                field_index: 0,
                line_number: self.line_number + 1,
                ..self
            }
        }
    }

    /// The cursor after `n` calls of `next_value` in a row.
    pub open spec fn after_fields(self, n: nat) -> CursorView
        decreases n,
    {
        if n == 0 {
            self
        } else {
            self.after_fields((n - 1) as nat).after_next_value()
        }
    }

    /// The value that `get_value` yields for field `idx` of the current
    /// line: nothing for a field that the cursor has passed, else what
    /// `next_value` yields once the fields before `idx` have been read.
    pub open spec fn get_value(self, idx: nat) -> Option<Seq<u8>> {
        if idx < self.field_index {
            None
        } else {
            self.after_fields((idx - self.field_index) as nat).next_value()
        }
    }

    /// The cursor that `get_value` leaves behind: unchanged for a field that
    /// it has passed, else as after reading every field up to `idx`.
    pub open spec fn after_get_value(self, idx: nat) -> CursorView {
        if idx < self.field_index {
            self
        } else {
            self.after_fields((idx - self.field_index + 1) as nat)
        }
    }

    /// The cursor after `n` calls of `advance_line` in a row.
    pub open spec fn after_lines(self, n: nat) -> CursorView
        decreases n,
    {
        if n == 0 {
            self
        } else {
            self.after_lines((n - 1) as nat).after_advance_line()
        }
    }

    /// Whether each of `n` calls of `advance_line` in a row finds a line.
    pub open spec fn advance_by_lines(self, n: nat) -> bool {
        forall|i: nat| i < n ==> (#[trigger] self.after_lines(i)).advance_line()
    }

    /// A bound on the calls that a full traversal still makes from here.
    pub open spec fn steps_left(self) -> int {
        3 * (self.bytes.len() - self.position) + if !self.end_of_line {
            1int
        } else if self.position < self.bytes.len() {
            2int
        } else {
            0int
        }
    }

    /// What a full traversal yields from here: each field of the current
    /// line with the line's number, in order, then the same for every line
    /// that `advance_line` still finds.
    pub open spec fn tokens(self) -> Seq<(Seq<u8>, nat)>
        decreases self.steps_left(),
    {
        if self.position > self.bytes.len() {
            Seq::empty()
        } else if !self.end_of_line {
            proof {
                lemma_first_stop(self.bytes, self.position as int, |b: u8| is_marker(b));
            }
            seq![(self.field(), self.line_number)] + self.after_next_value().tokens()
        } else if self.advance_line() {
            self.after_advance_line().tokens()
        } else {
            Seq::empty()
        }
    }

    /// Once a line is exhausted, reading further fields changes nothing.
    pub proof fn lemma_after_fields_exhausted(self, n: nat, m: nat)
        requires
            self.after_fields(n).end_of_line,
            n <= m,
        ensures
            self.after_fields(m) == self.after_fields(n),
        decreases m,
    {
        if n < m {
            self.lemma_after_fields_exhausted(n, (m - 1) as nat);
        }
    }
}

} // verus!
