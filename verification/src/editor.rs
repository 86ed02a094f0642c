//! The editor's own state, cursor and screen size, how key presses change
//! it, and the bytes that draw it on the terminal.

use crate::input::{InputSeq, SpecialKey};
use crate::number::{decimal, push_decimal};
use vstd::prelude::*;
use vstd::string::StringExecFns;
use vstd::utf8::encode_utf8;

verus! {

/// Hides the cursor: `ESC [ ? 2 5 l`.
pub const HIDE_CURSOR: [u8; 6] = [0x1b, 0x5b, 0x3f, 0x32, 0x35, 0x6c];

/// Shows the cursor: `ESC [ ? 2 5 h`.
pub const SHOW_CURSOR: [u8; 6] = [0x1b, 0x5b, 0x3f, 0x32, 0x35, 0x68];

/// Moves the cursor to the top left corner: `ESC [ H`.
pub const CURSOR_HOME: [u8; 3] = [0x1b, 0x5b, 0x48];

/// Erases the rest of the line: `ESC [ K`.
pub const ERASE_LINE: [u8; 3] = [0x1b, 0x5b, 0x4b];

/// Ends a line on a terminal that leaves line feeds as they are.
pub const NEW_LINE: [u8; 2] = [0x0d, 0x0a];

/// Asks the terminal for its size: moves the cursor 9999 columns right and
/// 9999 rows down, where it stops in the bottom right corner, and asks for
/// its position: `ESC [ 9 9 9 9 C ESC [ 9 9 9 9 B ESC [ 6 n`.
pub const SIZE_QUERY: [u8; 18] = [
    0x1b,
    0x5b,
    0x39,
    0x39,
    0x39,
    0x39,
    0x43,
    0x1b,
    0x5b,
    0x39,
    0x39,
    0x39,
    0x39,
    0x42,
    0x1b,
    0x5b,
    0x36,
    0x6e,
];

/// The directions in which the cursor moves.
#[derive(Clone, Copy, PartialEq, Eq, Debug, Structural)]
pub enum CursorDir {
    Left,
    Right,
    Up,
    Down,
}

/// The state of the editor: where the cursor is, counted from zero, and
/// how large the screen is.  A size of zero is one not known yet.
#[derive(Clone, Copy, PartialEq, Eq, Debug, Structural)]
pub struct Editor {
    pub cx: usize,
    pub cy: usize,
    pub screen_rows: usize,
    pub screen_cols: usize,
}

/// The direction in which an input moves the cursor: the arrow keys, and
/// `w`, `a`, `s`, `d` typed without Ctrl.
pub open spec fn direction_of(seq: InputSeq) -> Option<CursorDir> {
    match seq {
        InputSeq::Key(0x77, false) | InputSeq::SpecialKey(SpecialKey::Up) => Some(CursorDir::Up),
        InputSeq::Key(0x61, false) | InputSeq::SpecialKey(SpecialKey::Left) => Some(
            CursorDir::Left,
        ),
        InputSeq::Key(0x73, false) | InputSeq::SpecialKey(SpecialKey::Down) => Some(
            CursorDir::Down,
        ),
        InputSeq::Key(0x64, false) | InputSeq::SpecialKey(SpecialKey::Right) => Some(
            CursorDir::Right,
        ),
        _ => None,
    }
}

/// Whether an input ends the editor: Ctrl-Q.
pub open spec fn is_quit(seq: InputSeq) -> bool {
    seq == InputSeq::Key(0x71, true)
}

/// The text of the welcome line for a version of the editor.
pub open spec fn welcome_text(version: Seq<char>) -> Seq<u8> {
    encode_utf8("Kilo editor -- version "@ + version)
}

/// The welcome line on a screen `cols` columns wide: the welcome text, cut
/// to the width of the screen and centred behind a `~`.
pub open spec fn welcome_line(cols: usize, version: Seq<char>) -> Seq<u8> {
    let text = welcome_text(version);
    let shown = if text.len() > cols {
        text.take(cols as int)
    } else {
        text
    };
    let padding = (cols - shown.len()) / 2;
    if padding > 0 {
        seq![0x7eu8] + Seq::new((padding - 1) as nat, |i: int| 0x20u8) + shown
    } else {
        shown
    }
}

/// What is drawn for row `y` of a screen: the welcome line a third of the
/// way down, a `~` in every other row; then the rest of the line is
/// erased, and every row but the last ends the line.
pub open spec fn drawn_row(rows: usize, cols: usize, version: Seq<char>, y: int) -> Seq<u8> {
    (if y == rows / 3 {
        welcome_line(cols, version)
    } else {
        seq![0x7eu8]
    }) + ERASE_LINE@ + (if y < rows - 1 {
        NEW_LINE@
    } else {
        Seq::empty()
    })
}

/// What is drawn for the first `n` rows of a screen.
pub open spec fn drawn_rows(rows: usize, cols: usize, version: Seq<char>, n: int) -> Seq<u8>
    decreases n,
{
    if n <= 0 {
        Seq::empty()
    } else {
        drawn_rows(rows, cols, version, n - 1) + drawn_row(rows, cols, version, n - 1)
    }
}

/// The bytes that put the cursor at a row and a column, both counted from
/// one: `ESC [ row ; col H`.
pub open spec fn cursor_position(row: nat, col: nat) -> Seq<u8> {
    seq![0x1bu8, 0x5bu8] + decimal(row) + seq![0x3bu8] + decimal(col) + seq![0x48u8]
}

/// All the bytes of one repaint: the cursor is hidden and sent home, the
/// rows are drawn, the cursor is put where the editor has it and shown
/// again.
pub open spec fn screen_text(editor: Editor, version: Seq<char>) -> Seq<u8> {
    HIDE_CURSOR@ + CURSOR_HOME@ + drawn_rows(
        editor.screen_rows,
        editor.screen_cols,
        version,
        editor.screen_rows as int,
    ) + cursor_position((editor.cy + 1) as nat, (editor.cx + 1) as nat) + SHOW_CURSOR@
}

/// Appends `bytes` to `buf`.
fn push_all(buf: &mut Vec<u8>, bytes: &[u8])
    ensures
        final(buf)@ == old(buf)@ + bytes@,
{
    let mut i: usize = 0;
    while i < bytes.len()
        invariant
            0 <= i <= bytes@.len(),
            buf@ == old(buf)@ + bytes@.take(i as int),
        decreases bytes@.len() - i,
    {
        buf.push(bytes[i]);
        proof {
            assert(bytes@.take(i + 1) =~= bytes@.take(i as int).push(bytes@[i as int]));
        }
        i += 1;
    }
    proof {
        assert(bytes@.take(bytes@.len() as int) =~= bytes@);
    }
}

impl Editor {
    /// An editor with the cursor in the top left corner.  `size` is the
    /// size of the screen as columns and rows; without one the size is not
    /// known yet.
    pub fn new(size: Option<(usize, usize)>) -> (editor: Editor)
        ensures
            editor.cx == 0,
            editor.cy == 0,
            size matches Some(s) ==> editor.screen_cols == s.0 && editor.screen_rows == s.1,
            size is None ==> editor.screen_cols == 0 && editor.screen_rows == 0,
    {
        let (screen_cols, screen_rows) = match size {
            Some(s) => s,
            None => (0, 0),
        };
        Editor { cx: 0, cy: 0, screen_cols, screen_rows }
    }

    /// The editor after the cursor has moved one step in direction `dir`.
    /// The cursor stops at zero and at the largest `usize`.
    pub open spec fn moved(self, dir: CursorDir) -> Editor {
        match dir {
            CursorDir::Up => Editor {
                cy: if self.cy == 0 {
                    0
                } else {
                    (self.cy - 1) as usize
                },
                ..self
            },
            CursorDir::Down => Editor {
                cy: if self.cy == usize::MAX {
                    usize::MAX
                } else {
                    (self.cy + 1) as usize
                },
                ..self
            },
            CursorDir::Left => Editor {
                cx: if self.cx == 0 {
                    0
                } else {
                    (self.cx - 1) as usize
                },
                ..self
            },
            CursorDir::Right => Editor {
                cx: if self.cx == usize::MAX {
                    usize::MAX
                } else {
                    (self.cx + 1) as usize
                },
                ..self
            },
        }
    }

    /// Moves the cursor one step in direction `dir`.
    pub fn move_cursor(&mut self, dir: CursorDir)
        ensures
            *final(self) == old(self).moved(dir),
    {
        match dir {
            CursorDir::Up => self.cy = self.cy.saturating_sub(1),
            CursorDir::Down => self.cy = self.cy.saturating_add(1),
            CursorDir::Left => self.cx = self.cx.saturating_sub(1),
            CursorDir::Right => self.cx = self.cx.saturating_add(1),
        }
    }

    /// Acts on one input: moves the cursor for a key that moves it.
    /// Returns whether the input asks the editor to end.
    pub fn process_sequence(&mut self, seq: InputSeq) -> (exit: bool)
        ensures
            exit == is_quit(seq),
            *final(self) == match direction_of(seq) {
                Some(dir) => old(self).moved(dir),
                None => *old(self),
            },
    {
        let mut exit = false;
        match seq {
            InputSeq::Key(0x77, false) | InputSeq::SpecialKey(SpecialKey::Up) => {
                self.move_cursor(CursorDir::Up)
            },
            InputSeq::Key(0x61, false) | InputSeq::SpecialKey(SpecialKey::Left) => {
                self.move_cursor(CursorDir::Left)
            },
            InputSeq::Key(0x73, false) | InputSeq::SpecialKey(SpecialKey::Down) => {
                self.move_cursor(CursorDir::Down)
            },
            InputSeq::Key(0x64, false) | InputSeq::SpecialKey(SpecialKey::Right) => {
                self.move_cursor(CursorDir::Right)
            },
            InputSeq::Key(0x71, true) => exit = true,
            _ => {},
        }
        exit
    }

    /// Whether the size of the screen is known.
    pub fn has_screen_size(&self) -> (known: bool)
        ensures
            known == (self.screen_cols > 0 && self.screen_rows > 0),
    {
        self.screen_cols > 0 && self.screen_rows > 0
    }

    /// The bytes to send to the terminal to learn the size of the screen;
    /// nothing where the size is known.  The terminal answers with a cursor
    /// report, which `accept_size` takes.
    pub fn size_query(&self) -> (query: Vec<u8>)
        ensures
            query@ == if self.screen_cols > 0 && self.screen_rows > 0 {
                Seq::<u8>::empty()
            } else {
                SIZE_QUERY@
            },
    {
        let mut query: Vec<u8> = Vec::new();
        if !self.has_screen_size() {
            push_all(&mut query, SIZE_QUERY.as_slice());
        }
        query
    }

    /// Takes an input that came after the size was asked for.  A cursor
    /// report sets the size of the screen; any other input is passed over.
    /// Returns whether the size was set.
    pub fn accept_size(&mut self, seq: InputSeq) -> (done: bool)
        ensures
            seq matches InputSeq::Cursor(r, c) ==> done && *final(self) == (Editor {
                screen_rows: r,
                screen_cols: c,
                ..*old(self)
            }),
            !(seq is Cursor) ==> !done && *final(self) == *old(self),
    {
        match seq {
            InputSeq::Cursor(r, c) => {
                self.screen_cols = c;
                self.screen_rows = r;
                true
            },
            _ => false,
        }
    }

    /// Appends to `buf` what is drawn for the rows of the screen.
    pub fn write_rows(&self, version: &str, buf: &mut Vec<u8>)
        ensures
            final(buf)@ == old(buf)@ + drawn_rows(
                self.screen_rows,
                self.screen_cols,
                version@,
                self.screen_rows as int,
            ),
    {
        let text = String::from_str("Kilo editor -- version ").concat(version);
        let text_bytes = text.as_str().as_bytes();
        for y in 0..self.screen_rows
            invariant
                text_bytes@ == welcome_text(version@),
                buf@ == old(buf)@ + drawn_rows(
                    self.screen_rows,
                    self.screen_cols,
                    version@,
                    y as int,
                ),
        {
            let ghost before = buf@;
            if y == self.screen_rows / 3 {
                let welcome = if text_bytes.len() > self.screen_cols {
                    vstd::slice::slice_subrange(text_bytes, 0, self.screen_cols)
                } else {
                    text_bytes
                };
                proof {
                    assert(text_bytes@.subrange(0, self.screen_cols as int) =~= text_bytes@.take(
                        self.screen_cols as int,
                    ));
                }
                let padding = (self.screen_cols - welcome.len()) / 2;
                if padding > 0 {
                    buf.push(0x7e);
                    for i in 0..padding - 1
                        invariant
                            buf@ == before + seq![0x7eu8] + Seq::new(i as nat, |k: int| 0x20u8),
                    {
                        buf.push(0x20);
                        proof {
                            assert(buf@ =~= before + seq![0x7eu8] + Seq::new(
                                (i + 1) as nat,
                                |k: int| 0x20u8,
                            ));
                        }
                    }
                }
                push_all(buf, welcome);
                proof {
                    assert(buf@ =~= before + welcome_line(self.screen_cols, version@));
                }
            } else {
                buf.push(0x7e);
                proof {
                    assert(buf@ =~= before + seq![0x7eu8]);
                }
            }
            push_all(buf, ERASE_LINE.as_slice());
            if y < self.screen_rows - 1 {
                push_all(buf, NEW_LINE.as_slice());
            }
            proof {
                assert(buf@ =~= before + drawn_row(
                    self.screen_rows,
                    self.screen_cols,
                    version@,
                    y as int,
                ));
                assert(buf@ =~= old(buf)@ + drawn_rows(
                    self.screen_rows,
                    self.screen_cols,
                    version@,
                    y + 1,
                ));
            }
        }
    }

    /// The bytes that repaint the screen.
    pub fn refresh_screen(&self, version: &str) -> (frame: Vec<u8>)
        ensures
            frame@ == screen_text(*self, version@),
    {
        let mut buf: Vec<u8> = Vec::new();
        push_all(&mut buf, HIDE_CURSOR.as_slice());
        push_all(&mut buf, CURSOR_HOME.as_slice());
        self.write_rows(version, &mut buf);
        buf.push(0x1b);
        buf.push(0x5b);
        push_decimal(&mut buf, self.cy as u128 + 1);
        buf.push(0x3b);
        push_decimal(&mut buf, self.cx as u128 + 1);
        buf.push(0x48);
        push_all(&mut buf, SHOW_CURSOR.as_slice());
        proof {
            assert(buf@ =~= screen_text(*self, version@));
        }
        buf
    }
}

} // verus!
