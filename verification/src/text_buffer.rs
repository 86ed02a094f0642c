//! The text being edited: its rows and the cursor in them.

use crate::row::Row;
use vstd::prelude::*;

verus! {

/// Whether `(cx, cy)` is a place for the cursor in `rows`: on one of the
/// rows, at one of its characters or just behind its last; in a text
/// without rows, at the origin.
pub open spec fn cursor_in(rows: Seq<Row>, cx: usize, cy: usize) -> bool {
    if rows.len() == 0 {
        cx == 0 && cy == 0
    } else {
        cy < rows.len() && cx <= rows[cy as int]@.len()
    }
}

/// A text and the cursor in it.
pub struct TextBuffer {
    rows: Vec<Row>,
    cx: usize,
    cy: usize,
}

impl TextBuffer {
    /// The rows of the text.
    pub closed spec fn rows_view(&self) -> Seq<Row> {
        self.rows@
    }

    /// The character index of the cursor in its row.
    pub closed spec fn spec_cx(&self) -> usize {
        self.cx
    }

    /// The index of the row that the cursor is on.
    pub closed spec fn spec_cy(&self) -> usize {
        self.cy
    }

    /// The invariant of a text: every row is well formed and the cursor
    /// is at a place in the text.
    pub open spec fn wf(&self) -> bool {
        &&& forall|i: int| 0 <= i < self.rows_view().len() ==> (#[trigger] self.rows_view()[i]).wf()
        &&& cursor_in(self.rows_view(), self.cx(), self.cy())
    }

    /// A text without rows.
    pub fn new() -> (buf: TextBuffer)
        ensures
            buf.wf(),
            buf.rows_view().len() == 0,
            buf.cx() == 0,
            buf.cy() == 0,
    {
        TextBuffer { rows: Vec::new(), cx: 0, cy: 0 }
    }

    /// A text of the rows given, with the cursor at its start.
    pub fn from_rows(rows: Vec<Row>) -> (buf: TextBuffer)
        requires
            forall|i: int| 0 <= i < rows@.len() ==> (#[trigger] rows@[i]).wf(),
        ensures
            buf.wf(),
            buf.rows_view() == rows@,
            buf.cx() == 0,
            buf.cy() == 0,
    {
        TextBuffer { rows, cx: 0, cy: 0 }
    }

    /// The rows of the text.
    pub fn rows(&self) -> (rows: &Vec<Row>)
        ensures
            rows@ == self.rows_view(),
    {
        &self.rows
    }

    /// The character index of the cursor in its row.
    #[verifier::when_used_as_spec(spec_cx)]
    pub fn cx(&self) -> (cx: usize)
        ensures
            cx == self.spec_cx(),
    {
        self.cx
    }

    /// The index of the row that the cursor is on.
    #[verifier::when_used_as_spec(spec_cy)]
    pub fn cy(&self) -> (cy: usize)
        ensures
            cy == self.spec_cy(),
    {
        self.cy
    }

    /// The cursor: its character index, then its row.
    pub fn cursor(&self) -> (cursor: (usize, usize))
        ensures
            cursor == (self.cx(), self.cy()),
    {
        (self.cx, self.cy)
    }

    /// Puts the cursor at character `cx` of row `cy`.
    pub fn set_cursor(&mut self, cx: usize, cy: usize)
        requires
            old(self).wf(),
            cursor_in(old(self).rows_view(), cx, cy),
        ensures
            final(self).wf(),
            final(self).rows_view() == old(self).rows_view(),
            final(self).cx() == cx,
            final(self).cy() == cy,
    {
        self.cx = cx;
        self.cy = cy;
    }
}

} // verus!
