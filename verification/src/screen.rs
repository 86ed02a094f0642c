//! What the search needs of the screen: its scroll offsets, from which row
//! on it has to be drawn again, and the message in its status line.

use vstd::prelude::*;

verus! {

/// Whether a status message reports success or failure.
#[derive(Clone, Copy, PartialEq, Eq, Debug, Structural)]
pub enum StatusMessageKind {
    Info,
    Error,
}

/// A message for the status line.
#[derive(Debug)]
pub struct StatusMessage {
    pub text: String,
    pub kind: StatusMessageKind,
}

/// The state of the screen.
#[derive(Debug)]
pub struct Screen {
    /// The first row of the text that is shown.
    pub rowoff: usize,
    /// The first column of the text that is shown.
    pub coloff: usize,
    /// The first row that has to be drawn again, if any has.
    pub dirty_start: Option<usize>,
    /// The message in the status line, if there is one.
    pub message: Option<StatusMessage>,
}

/// The screen as a value: its offsets, its first dirty row, and the text
/// and kind of its message.
pub struct ScreenView {
    pub rowoff: usize,
    pub coloff: usize,
    pub dirty_start: Option<usize>,
    pub message: Option<(Seq<char>, StatusMessageKind)>,
}

impl View for Screen {
    type V = ScreenView;

    open spec fn view(&self) -> ScreenView {
        ScreenView {
            rowoff: self.rowoff,
            coloff: self.coloff,
            dirty_start: self.dirty_start,
            message: match self.message {
                Some(m) => Some((m.text@, m.kind)),
                None => None,
            },
        }
    }
}

impl ScreenView {
    /// The screen after the rows from `start` on were marked dirty: the
    /// first dirty row is `start`, unless an earlier one already was.
    pub open spec fn dirty_from(self, start: usize) -> ScreenView {
        ScreenView {
            dirty_start: match self.dirty_start {
                Some(s) if s < start => Some(s),
                _ => Some(start),
            },
            ..self
        }
    }

    /// The screen with another message.
    pub open spec fn with_message(self, text: Seq<char>, kind: StatusMessageKind) -> ScreenView {
        ScreenView { message: Some((text, kind)), ..self }
    }
}

impl Screen {
    /// A screen that shows the text from its top left corner, with nothing
    /// to draw again and no message.
    pub fn new() -> (screen: Screen)
        ensures
            screen@ == (ScreenView { rowoff: 0, coloff: 0, dirty_start: None, message: None }),
    {
        Screen { rowoff: 0, coloff: 0, dirty_start: None, message: None }
    }

    /// Marks the rows from `start` on as to be drawn again.
    pub fn set_dirty_start(&mut self, start: usize)
        ensures
            final(self)@ == old(self)@.dirty_from(start),
    {
        match self.dirty_start {
            Some(s) => {
                if s < start {
                    return ;
                }
            },
            None => {},
        }
        self.dirty_start = Some(start);
    }

    /// Puts a message of success in the status line.
    pub fn set_info_message(&mut self, text: &str)
        ensures
            final(self)@ == old(self)@.with_message(text@, StatusMessageKind::Info),
    {
        self.message = Some(StatusMessage { text: text.to_owned(), kind: StatusMessageKind::Info });
    }

    /// Puts a message of failure in the status line.
    pub fn set_error_message(&mut self, text: &str)
        ensures
            final(self)@ == old(self)@.with_message(text@, StatusMessageKind::Error),
    {
        self.message = Some(
            StatusMessage { text: text.to_owned(), kind: StatusMessageKind::Error },
        );
    }
}

} // verus!
