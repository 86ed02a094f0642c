//! Incremental search: each key typed at the search prompt looks for the
//! query again, row by row, around the whole text.

use crate::highlight::{Highlighting, MatchSpan};
use crate::input::{InputSeq, SpecialKey};
use crate::row::Row;
use crate::screen::{Screen, ScreenView, StatusMessageKind};
use crate::text_buffer::{cursor_in, TextBuffer};
use crate::utf8::{
    byte_offset, char_index, lemma_boundary_is_offset, lemma_byte_offset_end,
    lemma_byte_offset_gap, lemma_char_index, lemma_encode_match,
};
use crate::width::render_column;
use vstd::prelude::*;
use vstd::string::StrSliceExecFns;
use vstd::utf8::{
    encode_utf8, encode_utf8_valid_utf8, is_char_boundary,
    is_char_boundary_iff_not_is_continuation_byte, is_char_boundary_start_end_of_seq,
};

verus! {

/// The direction in which the rows are searched.
#[derive(Clone, Copy, PartialEq, Eq, Debug, Structural)]
pub enum FindDir {
    Back,
    Forward,
}

/// What a search remembers from one key to the next: the row of the last
/// match, if there was one, and the direction.
#[derive(Clone, Copy, PartialEq, Eq, Debug, Structural)]
pub struct FindState {
    pub last_match: Option<usize>,
    pub dir: FindDir,
}

impl Default for FindState {
    /// The state in which a search begins: forward, with no match yet.
    fn default() -> (state: FindState)
        ensures
            state == (FindState { last_match: None, dir: FindDir::Forward }),
    {
        FindState { last_match: None, dir: FindDir::Forward }
    }
}

/// Whether `pattern` stands in `text` at index `i`.
pub open spec fn matches_at(text: Seq<u8>, pattern: Seq<u8>, i: int) -> bool {
    0 <= i && i + pattern.len() <= text.len() && text.subrange(i, i + pattern.len()) == pattern
}

/// The least index from `from` on at which `pattern` stands in `text`.
pub open spec fn first_match_from(text: Seq<u8>, pattern: Seq<u8>, from: int) -> Option<int>
    decreases text.len() - from,
{
    if from < 0 || from + pattern.len() > text.len() {
        None
    } else if matches_at(text, pattern, from) {
        Some(from)
    } else if from + pattern.len() == text.len() {
        None
    } else {
        first_match_from(text, pattern, from + 1)
    }
}

/// The least index at which `pattern` stands in `text`.
pub open spec fn first_match(text: Seq<u8>, pattern: Seq<u8>) -> Option<int> {
    first_match_from(text, pattern, 0)
}

/// The byte offset at which `query` first stands in a row, by its bytes.
pub open spec fn match_in(row: Seq<char>, query: Seq<char>) -> Option<int> {
    first_match(encode_utf8(row), encode_utf8(query))
}

/// The row that is searched after row `y` of `len` rows: the next one in
/// the direction, and the one at the other end of the text after the last.
pub open spec fn next_line(y: int, dir: FindDir, len: int) -> int {
    match dir {
        FindDir::Forward => if y == len - 1 {
            0
        } else {
            y + 1
        },
        FindDir::Back => if y == 0 {
            len - 1
        } else {
            y - 1
        },
    }
}

/// The first of `count` rows, searched from row `y` on in direction `dir`,
/// that holds `query`.
pub open spec fn find_row(rows: Seq<Row>, query: Seq<char>, y: int, dir: FindDir, count: nat)
    -> Option<int>
    decreases count,
{
    if count == 0 {
        None
    } else if match_in(rows[y]@, query) is Some {
        Some(y)
    } else {
        find_row(rows, query, next_line(y, dir, rows.len() as int), dir, (count - 1) as nat)
    }
}

/// The number of rows between row `from` and row `to` in direction `dir`,
/// around the ends of a text of `len` rows.
pub open spec fn steps_to(from: int, to: int, dir: FindDir, len: int) -> int {
    match dir {
        FindDir::Forward => if to >= from {
            to - from
        } else {
            len - from + to
        },
        FindDir::Back => if to <= from {
            from - to
        } else {
            len + from - to
        },
    }
}

/// A row that is found is a row of the text and holds the query.
pub proof fn lemma_find_row_matches(
    rows: Seq<Row>,
    query: Seq<char>,
    y: int,
    dir: FindDir,
    count: nat,
)
    requires
        0 <= y < rows.len(),
    ensures
        find_row(rows, query, y, dir, count) matches Some(found) ==> 0 <= found < rows.len()
            && match_in(rows[found]@, query) is Some,
    decreases count,
{
    if count > 0 && match_in(rows[y]@, query) is None {
        lemma_find_row_matches(
            rows,
            query,
            next_line(y, dir, rows.len() as int),
            dir,
            (count - 1) as nat,
        );
    }
}

/// A row that holds the query is reached, unless one before it is found,
/// when at least as many rows are searched as lie on the way to it.
pub proof fn lemma_find_row_reaches(
    rows: Seq<Row>,
    query: Seq<char>,
    y: int,
    dir: FindDir,
    count: nat,
    target: int,
)
    requires
        0 <= y < rows.len(),
        0 <= target < rows.len(),
        match_in(rows[target]@, query) is Some,
        steps_to(y, target, dir, rows.len() as int) < count,
    ensures
        find_row(rows, query, y, dir, count) is Some,
    decreases count,
{
    if match_in(rows[y]@, query) is None {
        lemma_find_row_reaches(
            rows,
            query,
            next_line(y, dir, rows.len() as int),
            dir,
            (count - 1) as nat,
            target,
        );
    }
}

/// A search once around the text, from any row and in either direction,
/// passes every row: it finds a row exactly when some row holds the query.
pub proof fn lemma_find_row_complete(rows: Seq<Row>, query: Seq<char>, from: int, dir: FindDir)
    requires
        0 <= from < rows.len(),
    ensures
        find_row(rows, query, from, dir, rows.len()) is Some <==> exists|y: int|
            0 <= y < rows.len() && match_in(#[trigger] rows[y]@, query) is Some,
{
    lemma_find_row_matches(rows, query, from, dir, rows.len());
    if exists|y: int| 0 <= y < rows.len() && match_in(#[trigger] rows[y]@, query) is Some {
        let y = choose|y: int| 0 <= y < rows.len() && match_in(#[trigger] rows[y]@, query) is Some;
        lemma_find_row_reaches(rows, query, from, dir, rows.len(), y);
    }
}

/// What a key does to the state of the search.  The keys for the next
/// match (right, down, Ctrl-F, Ctrl-N) and for the previous one (left, up,
/// Ctrl-B, Ctrl-P) set the direction.  Any other key starts the search
/// anew: forward, with no last match.
pub open spec fn state_after_key(state: FindState, seq: InputSeq) -> FindState {
    match seq {
        InputSeq::SpecialKey(SpecialKey::Right) | InputSeq::SpecialKey(SpecialKey::Down)
        | InputSeq::Key(0x66, true) | InputSeq::Key(0x6e, true) => FindState {
            dir: FindDir::Forward,
            ..state
        },
        InputSeq::SpecialKey(SpecialKey::Left) | InputSeq::SpecialKey(SpecialKey::Up)
        | InputSeq::Key(0x62, true) | InputSeq::Key(0x70, true) => FindState {
            dir: FindDir::Back,
            ..state
        },
        _ => FindState { last_match: None, dir: FindDir::Forward },
    }
}

/// The row at which a search starts: the one after the last match, or the
/// row of the cursor where there was no match.
pub open spec fn start_row(state: FindState, cy: int, len: int) -> int {
    match state.last_match {
        Some(y) => next_line(y as int, state.dir, len),
        None => cy,
    }
}

/// All that a search changes, as one value.
pub struct SearchView {
    pub state: FindState,
    pub cx: usize,
    pub cy: usize,
    pub screen: ScreenView,
    pub hl: Highlighting,
    pub saved_cx: usize,
    pub saved_cy: usize,
    pub saved_coloff: usize,
    pub saved_rowoff: usize,
}

impl SearchView {
    /// First step of every key: with a match behind it, the search takes
    /// the highlight of that match away and has its row drawn again.
    pub open spec fn cleared(self) -> SearchView {
        match (self.state.last_match, self.hl.matched) {
            (Some(_), Some(span)) => SearchView {
                hl: Highlighting { needs_update: true, matched: None },
                screen: self.screen.dirty_from(span.row),
                ..self
            },
            _ => self,
        }
    }

    /// The end of the search.  Canceled, it puts the cursor and the scroll
    /// offsets back where they were when it began and has the whole screen
    /// drawn again.  Else it reports whether there is a match.
    pub open spec fn ended(self, canceled: bool) -> SearchView {
        if canceled {
            SearchView {
                cx: self.saved_cx,
                cy: self.saved_cy,
                screen: (ScreenView {
                    coloff: self.saved_coloff,
                    rowoff: self.saved_rowoff,
                    ..self.screen
                }).dirty_from(self.saved_rowoff),
                ..self
            }
        } else if self.state.last_match is Some {
            SearchView {
                screen: self.screen.with_message("Found"@, StatusMessageKind::Info),
                ..self
            }
        } else {
            SearchView {
                screen: self.screen.with_message("Not Found"@, StatusMessageKind::Error),
                ..self
            }
        }
    }

    /// The search after it has found `query` in row `y`: the cursor is at
    /// the character where the match starts, and the screen columns of the
    /// match are highlighted; the row offset is one that no screen can
    /// have, so that the next repaint scrolls to the cursor.
    pub open spec fn jumped(self, rows: Seq<Row>, query: Seq<char>, y: int) -> SearchView {
        let cx = char_index(rows[y]@, match_in(rows[y]@, query)->0);
        SearchView {
            state: FindState { last_match: Some(y as usize), ..self.state },
            cx: cx as usize,
            cy: y as usize,
            screen: (ScreenView { rowoff: rows.len() as usize, ..self.screen }).dirty_from(
                y as usize,
            ),
            hl: Highlighting {
                needs_update: true,
                matched: Some(
                    MatchSpan {
                        row: y as usize,
                        start: render_column(rows[y]@, cx) as usize,
                        end: render_column(rows[y]@, cx + query.len()) as usize,
                    },
                ),
            },
            ..self
        }
    }

    /// One key of the search that does not end it: the key sets the
    /// direction or starts anew, then the rows are searched once around
    /// the text.
    pub open spec fn searched(self, rows: Seq<Row>, query: Seq<char>, seq: InputSeq)
        -> SearchView {
        let state = state_after_key(self.state, seq);
        let from = start_row(state, self.cy as int, rows.len() as int);
        let turned = SearchView { state, ..self };
        match find_row(rows, query, from, state.dir, rows.len()) {
            Some(y) => turned.jumped(rows, query, y),
            None => turned,
        }
    }
}

/// Ending a search by canceling it puts the cursor and the scroll offsets
/// back exactly where they were when the search began, whatever the search
/// did in between.
pub proof fn lemma_cancel_restores(v: SearchView)
    ensures
        v.cleared().ended(true).cx == v.saved_cx,
        v.cleared().ended(true).cy == v.saved_cy,
        v.cleared().ended(true).screen.coloff == v.saved_coloff,
        v.cleared().ended(true).screen.rowoff == v.saved_rowoff,
{
}

/// No key changes what the search has saved of the cursor and the scroll
/// offsets.
pub proof fn lemma_saved_kept(
    v: SearchView,
    rows: Seq<Row>,
    query: Seq<char>,
    seq: InputSeq,
    canceled: bool,
)
    ensures
        ({
            let w = v.cleared().searched(rows, query, seq);
            w.saved_cx == v.saved_cx && w.saved_cy == v.saved_cy && w.saved_coloff
                == v.saved_coloff && w.saved_rowoff == v.saved_rowoff
        }),
        ({
            let w = v.cleared().ended(canceled);
            w.saved_cx == v.saved_cx && w.saved_cy == v.saved_cy && w.saved_coloff
                == v.saved_coloff && w.saved_rowoff == v.saved_rowoff
        }),
{
}

/// The least index at which `pattern` stands in `text`, if it stands in it.
pub fn find(text: &[u8], pattern: &[u8]) -> (at: Option<usize>)
    ensures
        first_match(text@, pattern@) == match at {
            Some(i) => Some(i as int),
            None => None,
        },
{
    if pattern.len() > text.len() {
        return None;
    }
    let last = text.len() - pattern.len();
    let mut i: usize = 0;
    while i <= last
        invariant
            0 <= i <= last + 1,
            last == text@.len() - pattern@.len(),
            pattern@.len() <= text@.len() <= usize::MAX,
            first_match(text@, pattern@) == first_match_from(text@, pattern@, i as int),
        decreases last + 1 - i,
    {
        let mut j: usize = 0;
        while j < pattern.len() && text[i + j] == pattern[j]
            invariant
                0 <= j <= pattern@.len(),
                i + pattern@.len() <= text@.len() <= usize::MAX,
                text@.subrange(i as int, i + j) == pattern@.take(j as int),
            decreases pattern@.len() - j,
        {
            proof {
                assert(text@.subrange(i as int, i + j + 1) =~= text@.subrange(i as int, i + j).push(
                    text@[i + j],
                ));
                assert(pattern@.take(j + 1) =~= pattern@.take(j as int).push(pattern@[j as int]));
            }
            j += 1;
        }
        if j == pattern.len() {
            proof {
                assert(pattern@.take(j as int) =~= pattern@);
            }
            return Some(i);
        }
        proof {
            if matches_at(text@, pattern@, i as int) {
                let there = text@.subrange(i as int, i + pattern@.len());
                assert(there[j as int] == pattern@[j as int]);
            }
        }
        i += 1;
    }
    None
}

/// Where the bytes of a text that is not empty stand in another, a
/// character starts.
pub proof fn lemma_match_is_boundary(text: Seq<char>, query: Seq<char>, i: int)
    requires
        matches_at(encode_utf8(text), encode_utf8(query), i),
        query.len() > 0 || i == 0,
    ensures
        is_char_boundary(encode_utf8(text), i),
{
    let t = encode_utf8(text);
    let q = encode_utf8(query);
    encode_utf8_valid_utf8(text);
    encode_utf8_valid_utf8(query);
    is_char_boundary_start_end_of_seq(t);
    if 0 < i < t.len() {
        lemma_byte_offset_gap(query, 0, query.len() as int);
        lemma_byte_offset_end(query);
        is_char_boundary_start_end_of_seq(q);
        is_char_boundary_iff_not_is_continuation_byte(q, 0);
        assert(t.subrange(i, i + q.len())[0] == q[0]);
        is_char_boundary_iff_not_is_continuation_byte(t, i);
    }
}

/// Where a query is found in a row, its characters stand in the row from
/// the character on that starts at the byte where the match is.
pub proof fn lemma_match_is_text(row: Seq<char>, query: Seq<char>)
    requires
        match_in(row, query) is Some,
    ensures
        is_char_boundary(encode_utf8(row), match_in(row, query)->0),
        ({
            let cx = char_index(row, match_in(row, query)->0);
            &&& 0 <= cx
            &&& cx + query.len() <= row.len()
            &&& byte_offset(row, cx) == match_in(row, query)->0
            &&& row.subrange(cx, cx + query.len()) == query
        }),
{
    let at = match_in(row, query)->0;
    lemma_first_match(encode_utf8(row), encode_utf8(query), 0);
    lemma_byte_offset_gap(query, 0, query.len() as int);
    lemma_byte_offset_end(query);
    lemma_match_is_boundary(row, query, at);
    let cx = lemma_boundary_is_offset(row, at);
    lemma_char_index(row, cx);
    lemma_encode_match(row, query, cx);
}

/// `first_match_from` gives the least index from `from` on at which the
/// pattern stands, and none exactly when it stands at no such index.
pub proof fn lemma_first_match(text: Seq<u8>, pattern: Seq<u8>, from: int)
    requires
        0 <= from,
    ensures
        first_match_from(text, pattern, from) matches Some(i) ==> from <= i && matches_at(
            text,
            pattern,
            i,
        ),
        forall|j: int|
            from <= j && (first_match_from(text, pattern, from) matches Some(i) ==> j < i)
                ==> !#[trigger] matches_at(text, pattern, j),
        pattern.len() == 0 && from <= text.len() ==> first_match_from(text, pattern, from)
            == Some(from),
    decreases text.len() - from,
{
    if from + pattern.len() < text.len() && !matches_at(text, pattern, from) {
        lemma_first_match(text, pattern, from + 1);
    }
    if pattern.len() == 0 && from <= text.len() {
        assert(text.subrange(from, from + 0) =~= pattern);
    }
}

/// The search that runs while the search prompt is open.  It holds the
/// screen, the text and the highlighting for as long as it lasts.
pub struct TextSearch<'a> {
    pub screen: &'a mut Screen,
    pub buf: &'a mut TextBuffer,
    pub hl: &'a mut Highlighting,
    pub state: FindState,
    pub saved_cx: usize,
    pub saved_cy: usize,
    pub saved_coloff: usize,
    pub saved_rowoff: usize,
}

impl<'a> View for TextSearch<'a> {
    type V = SearchView;

    open spec fn view(&self) -> SearchView {
        SearchView {
            state: self.state,
            cx: self.buf.cx(),
            cy: self.buf.cy(),
            screen: self.screen@,
            hl: *self.hl,
            saved_cx: self.saved_cx,
            saved_cy: self.saved_cy,
            saved_coloff: self.saved_coloff,
            saved_rowoff: self.saved_rowoff,
        }
    }
}

/// The row after `y` in direction `dir`, around the ends of the text.
fn next_row(y: usize, dir: FindDir, len: usize) -> (next: usize)
    requires
        y < len,
    ensures
        next == next_line(y as int, dir, len as int),
        next < len,
{
    match dir {
        FindDir::Forward => if y == len - 1 {
            0
        } else {
            y + 1
        },
        FindDir::Back => if y == 0 {
            len - 1
        } else {
            y - 1
        },
    }
}

impl<'a> TextSearch<'a> {
    /// The invariant of a search: the text is well formed, the cursor that
    /// the search has saved is at a place in the text, and the last match
    /// is in one of its rows.
    pub open spec fn wf(&self) -> bool {
        &&& self.buf.wf()
        &&& cursor_in(self.buf.rows_view(), self.saved_cx, self.saved_cy)
        &&& (self.state.last_match matches Some(y) ==> y < self.buf.rows_view().len())
    }

    /// Begins a search: saves the cursor and the scroll offsets, to put
    /// them back if the search is canceled.
    pub fn new(
        screen: &'a mut Screen,
        buf: &'a mut TextBuffer,
        hl: &'a mut Highlighting,
    ) -> (search: TextSearch<'a>)
        requires
            old(buf).wf(),
        ensures
            search.wf(),
            search.buf.rows_view() == old(buf).rows_view(),
            search@ == (SearchView {
                state: FindState { last_match: None, dir: FindDir::Forward },
                cx: old(buf).cx(),
                cy: old(buf).cy(),
                screen: old(screen)@,
                hl: *old(hl),
                saved_cx: old(buf).cx(),
                saved_cy: old(buf).cy(),
                saved_coloff: old(screen).coloff,
                saved_rowoff: old(screen).rowoff,
            }),
            *final(search.screen) == *final(screen),
            *final(search.buf) == *final(buf),
            *final(search.hl) == *final(hl),
    {
        TextSearch {
            saved_cx: buf.cx(),
            saved_cy: buf.cy(),
            saved_coloff: screen.coloff,
            saved_rowoff: screen.rowoff,
            screen,
            buf,
            hl,
            state: FindState::default(),
        }
    }

    /// Ends the search.
    fn on_end(&mut self, canceled: bool)
        requires
            old(self).wf(),
        ensures
            final(self).wf(),
            final(self).buf.rows_view() == old(self).buf.rows_view(),
            final(self)@ == old(self)@.ended(canceled),
            *final(final(self).screen) == *final(old(self).screen),
            *final(final(self).buf) == *final(old(self).buf),
            *final(final(self).hl) == *final(old(self).hl),
    {
        if canceled {
            self.buf.set_cursor(self.saved_cx, self.saved_cy);
            self.screen.coloff = self.saved_coloff;
            self.screen.rowoff = self.saved_rowoff;
            self.screen.set_dirty_start(self.screen.rowoff);
        } else if self.state.last_match.is_some() {
            self.screen.set_info_message("Found");
        } else {
            self.screen.set_error_message("Not Found");
        }
    }

    /// Takes one key typed at the search prompt.  `input` is the query as
    /// it stands after the key, `seq` the key, and `end` whether the key
    /// closes the prompt; a prompt closed with an empty query is a search
    /// canceled.
    pub fn on_key(&mut self, input: &str, seq: InputSeq, end: bool)
        requires
            old(self).wf(),
        ensures
            final(self).wf(),
            final(self).buf.rows_view() == old(self).buf.rows_view(),
            end ==> final(self)@ == old(self)@.cleared().ended(input@.len() == 0),
            !end ==> final(self)@ == old(self)@.cleared().searched(
                old(self).buf.rows_view(),
                input@,
                seq,
            ),
            final(self).saved_cx == old(self).saved_cx,
            final(self).saved_cy == old(self).saved_cy,
            final(self).saved_coloff == old(self).saved_coloff,
            final(self).saved_rowoff == old(self).saved_rowoff,
            *final(final(self).screen) == *final(old(self).screen),
            *final(final(self).buf) == *final(old(self).buf),
            *final(final(self).hl) == *final(old(self).hl),
    {
        if self.state.last_match.is_some() {
            match self.hl.clear_previous_match() {
                Some(matched_line) => {
                    self.hl.needs_update = true;
                    self.screen.set_dirty_start(matched_line);
                },
                None => {},
            }
        }
        if end {
            self.on_end(input.is_empty());
            return ;
        }
        match seq {
            InputSeq::SpecialKey(SpecialKey::Right) | InputSeq::SpecialKey(SpecialKey::Down)
            | InputSeq::Key(0x66, true) | InputSeq::Key(0x6e, true) => {
                self.state.dir = FindDir::Forward;
            },
            InputSeq::SpecialKey(SpecialKey::Left) | InputSeq::SpecialKey(SpecialKey::Up)
            | InputSeq::Key(0x62, true) | InputSeq::Key(0x70, true) => {
                self.state.dir = FindDir::Back;
            },
            _ => {
                self.state = FindState::default();
            },
        }
        let ghost rows = self.buf.rows_view();
        let ghost turned = self@;
        let row_len = self.buf.rows().len();
        let dir = self.state.dir;
        let mut y = match self.state.last_match {
            Some(y) => next_row(y, dir, row_len),
            None => self.buf.cy(),
        };
        let ghost from = y as int;
        let mut tried: usize = 0;
        while tried < row_len
            invariant_except_break
                self@ == turned,
            invariant
                self.wf(),
                dir == turned.state.dir,
                rows == self.buf.rows_view(),
                row_len == rows.len(),
                0 <= tried <= row_len,
                row_len > 0 ==> y < row_len,
                find_row(rows, input@, from, dir, row_len as nat) == find_row(
                    rows,
                    input@,
                    y as int,
                    dir,
                    (row_len - tried) as nat,
                ),
                *final(self.screen) == *final(old(self).screen),
                *final(self.buf) == *final(old(self).buf),
                *final(self.hl) == *final(old(self).hl),
            ensures
                self.wf(),
                rows == self.buf.rows_view(),
                self@ == match find_row(rows, input@, from, dir, row_len as nat) {
                    Some(found) => turned.jumped(rows, input@, found),
                    None => turned,
                },
                *final(self.screen) == *final(old(self).screen),
                *final(self.buf) == *final(old(self).buf),
                *final(self.hl) == *final(old(self).hl),
            decreases row_len - tried,
        {
            let row = &self.buf.rows()[y];
            match find(row.buffer().as_bytes(), input.as_bytes()) {
                Some(byte_idx) => {
                    proof {
                        lemma_match_is_text(row@, input@);
                        row.lemma_len_bounds();
                    }
                    let idx = row.char_idx_of(byte_idx);
                    self.buf.set_cursor(idx, y);
                    let row = &self.buf.rows()[y];
                    let start = row.rx_from_cx(self.buf.cx());
                    let end = row.rx_from_cx(self.buf.cx() + input.unicode_len());
                    self.screen.rowoff = row_len;
                    self.state.last_match = Some(y);
                    self.hl.set_match(y, start, end);
                    self.hl.needs_update = true;
                    self.screen.set_dirty_start(y);
                    break ;
                },
                None => {},
            }
            y = next_row(y, dir, row_len);
            tried += 1;
        }
    }
}

} // verus!
