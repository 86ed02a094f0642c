//! Which part of the text is highlighted as the current search match.

use vstd::prelude::*;

verus! {

/// A highlighted stretch of one row: the screen columns from `start` up
/// to, not including, `end`.
#[derive(Clone, Copy, PartialEq, Eq, Debug, Structural)]
pub struct MatchSpan {
    pub row: usize,
    pub start: usize,
    pub end: usize,
}

/// The state of the highlighting: the match that is shown, if any, and
/// whether the highlights have to be computed again before the next
/// repaint.
#[derive(Clone, Copy, PartialEq, Eq, Debug, Structural)]
pub struct Highlighting {
    pub needs_update: bool,
    pub matched: Option<MatchSpan>,
}

impl Highlighting {
    /// Highlighting with no match shown.
    pub fn new() -> (hl: Highlighting)
        ensures
            hl == (Highlighting { needs_update: false, matched: None }),
    {
        Highlighting { needs_update: false, matched: None }
    }

    /// Shows the columns from `start` to `end` of row `row` as the match.
    pub fn set_match(&mut self, row: usize, start: usize, end: usize)
        ensures
            *final(self) == (Highlighting {
                matched: Some(MatchSpan { row, start, end }),
                ..*old(self)
            }),
    {
        self.matched = Some(MatchSpan { row, start, end });
    }

    /// Shows no match any more.  Returns the row of the match that was
    /// shown, if one was.
    pub fn clear_previous_match(&mut self) -> (row: Option<usize>)
        ensures
            *final(self) == (Highlighting { matched: None, ..*old(self) }),
            row == match old(self).matched {
                Some(span) => Some(span.row),
                None => None,
            },
    {
        match self.matched {
            Some(span) => {
                self.matched = None;
                Some(span.row)
            },
            None => None,
        }
    }
}

} // verus!
