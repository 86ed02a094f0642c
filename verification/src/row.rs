//! One line of text, with the form in which it is drawn and a cache of
//! the byte offsets of its characters.

use crate::strings::drain_range;
use crate::utf8::{
    byte_offset, char_index, char_len, lemma_boundary_is_offset, lemma_byte_offset_end,
    lemma_byte_offset_gap, lemma_byte_offset_increasing, lemma_byte_offset_step,
    lemma_char_index, lemma_encode_concat, lemma_encode_injective, lemma_encode_single,
    lemma_encode_splice, lemma_encode_split, lemma_offset_is_boundary,
    lemma_single_byte_offsets, utf8_len,
};
use crate::width::{
    char_index_at, char_index_from, lemma_column_round_trip, lemma_render_column_prefix,
    printable, render_column, rendered, width_cjk, TAB_STOP,
};
use vstd::prelude::*;
use vstd::string::StringExecFns;
use vstd::utf8::{encode_utf8, is_char_boundary};

verus! {

/// The longest text, in bytes, that a row holds.  Up to this length every
/// screen column of the row fits a `usize`, tabs included.
pub const MAX_ROW_BYTES: usize = usize::MAX / 8;

/// Text that a row can hold: no control characters but tabs, and at most
/// `MAX_ROW_BYTES` bytes.
pub open spec fn row_text(chars: Seq<char>) -> bool {
    &&& forall|i: int| 0 <= i < chars.len() ==> printable(#[trigger] chars[i])
    &&& encode_utf8(chars).len() <= MAX_ROW_BYTES
}

/// The cache of byte offsets that belongs to a text: empty where every
/// character takes one byte, else the offset of each character.
pub open spec fn index_cache(chars: Seq<char>) -> Seq<usize> {
    if encode_utf8(chars).len() == chars.len() {
        Seq::empty()
    } else {
        Seq::new(chars.len(), |i: int| byte_offset(chars, i) as usize)
    }
}

/// The cache of a text is empty exactly when every character of the text
/// takes one byte.  Else it has one entry for each character, the entries
/// ascend strictly, and the last is less than the length of the text in
/// bytes.
pub proof fn lemma_index_cache_shape(chars: Seq<char>)
    requires
        encode_utf8(chars).len() <= usize::MAX,
    ensures
        index_cache(chars).len() == 0 || index_cache(chars).len() == chars.len(),
        index_cache(chars).len() == 0 <==> forall|i: int|
            0 <= i < chars.len() ==> char_len(#[trigger] chars[i]) == 1,
        forall|i: int, j: int|
            0 <= i < j < index_cache(chars).len() ==> index_cache(chars)[i] < index_cache(
                chars,
            )[j],
        index_cache(chars).len() > 0 ==> index_cache(chars).last() < encode_utf8(chars).len(),
{
    let cache = index_cache(chars);
    let n = chars.len() as int;
    lemma_byte_offset_end(chars);
    if encode_utf8(chars).len() == chars.len() {
        assert forall|i: int| 0 <= i < chars.len() implies char_len(#[trigger] chars[i]) == 1 by {
            lemma_single_byte_offsets(chars, i);
            lemma_single_byte_offsets(chars, i + 1);
            lemma_byte_offset_step(chars, i);
        }
    } else {
        assert forall|i: int, j: int| 0 <= i < j < cache.len() implies cache[i] < cache[j] by {
            lemma_byte_offset_increasing(chars, i, j);
            lemma_byte_offset_gap(chars, j, n);
        }
        lemma_byte_offset_increasing(chars, n - 1, n);
        if forall|i: int| 0 <= i < chars.len() ==> char_len(#[trigger] chars[i]) == 1 {
            lemma_single_bytes(chars, n);
        }
    }
}

/// Where each of the first `k` characters takes one byte, the offset of
/// character `k` is `k`.
proof fn lemma_single_bytes(chars: Seq<char>, k: int)
    requires
        0 <= k <= chars.len(),
        forall|i: int| 0 <= i < k ==> char_len(#[trigger] chars[i]) == 1,
    ensures
        byte_offset(chars, k) == k,
    decreases k,
{
    lemma_byte_offset_end(chars);
    if k > 0 {
        lemma_single_bytes(chars, k - 1);
        lemma_byte_offset_step(chars, k - 1);
    }
}

/// Whether `line` is a text that a row can hold.
pub fn is_row_text(line: &str) -> (ok: bool)
    ensures
        ok == row_text(line@),
{
    if line.as_bytes().len() > MAX_ROW_BYTES {
        return false;
    }
    let it = line.chars();
    for c in iter: it
        invariant
            iter.seq() == line@,
            encode_utf8(line@).len() <= MAX_ROW_BYTES,
            forall|i: int| 0 <= i < iter.index() ==> printable(#[trigger] line@[i]),
    {
        if c != '\t' && (c < ' ' || ('\u{7f}' <= c && c < '\u{a0}')) {
            return false;
        }
    }
    true
}

/// A line of text.  Its view is the sequence of its characters.
pub struct Row {
    buf: String,
    render: String,
    dirty: bool,
    indices: Vec<usize>,
}

impl View for Row {
    type V = Seq<char>;

    closed spec fn view(&self) -> Seq<char> {
        self.buf@
    }
}

impl Row {
    /// The drawn form of the row as it is stored.
    pub closed spec fn render_view(&self) -> Seq<char> {
        self.render@
    }

    /// The cache of byte offsets as it is stored.
    pub closed spec fn indices_view(&self) -> Seq<usize> {
        self.indices@
    }

    /// Whether the row is waiting to be drawn again.
    pub closed spec fn is_dirty(&self) -> bool {
        self.dirty
    }

    /// The invariant of a row: its text is one a row can hold, and the
    /// drawn form and the cache are those of the text.
    pub closed spec fn wf(&self) -> bool {
        &&& row_text(self.buf@)
        &&& self.render@ == rendered(self.buf@)
        &&& self.indices@ == index_cache(self.buf@)
    }

    /// The length of the text in bytes.
    pub open spec fn byte_len(&self) -> nat {
        encode_utf8(self@).len()
    }

    /// A row has no more characters than bytes, and no more bytes than
    /// `MAX_ROW_BYTES`.
    pub proof fn lemma_len_bounds(&self)
        requires
            self.wf(),
        ensures
            self@.len() <= self.byte_len() <= MAX_ROW_BYTES,
            row_text(self@),
    {
        lemma_byte_offset_gap(self@, 0, self@.len() as int);
        lemma_byte_offset_end(self@);
    }

    /// What the invariant says of the stored parts of a row: the drawn form
    /// is that of the text, and the cache is that of the text.
    pub proof fn lemma_wf(&self)
        requires
            self.wf(),
        ensures
            row_text(self@),
            self.render_view() == rendered(self@),
            self.indices_view() == index_cache(self@),
    {
    }

    /// The cache of a row is empty exactly when every character takes one
    /// byte; else it holds one offset for each character, ascending
    /// strictly, the last of them less than the length of the row in bytes.
    pub proof fn lemma_cache(&self)
        requires
            self.wf(),
        ensures
            self.indices_view().len() == 0 || self.indices_view().len() == self@.len(),
            self.indices_view().len() == 0 <==> forall|i: int|
                0 <= i < self@.len() ==> char_len(#[trigger] self@[i]) == 1,
            forall|i: int, j: int|
                0 <= i < j < self.indices_view().len() ==> self.indices_view()[i]
                    < self.indices_view()[j],
            self.indices_view().len() > 0 ==> self.indices_view().last() < self.byte_len(),
    {
        self.lemma_len_bounds();
        lemma_index_cache_shape(self@);
    }

    /// The column of a character index leads back to an index that starts
    /// at the same column.
    pub proof fn lemma_round_trip(&self, cx: int)
        requires
            self.wf(),
            0 <= cx <= self@.len(),
        ensures
            0 <= char_index_at(self@, render_column(self@, cx)) <= self@.len(),
            render_column(self@, char_index_at(self@, render_column(self@, cx))) == render_column(
                self@,
                cx,
            ),
    {
        lemma_column_round_trip(self@, cx);
    }

    /// Computes the drawn form and the cache anew from the text and marks
    /// the row dirty.
    fn update_render(&mut self)
        requires
            row_text(old(self).buf@),
        ensures
            final(self).wf(),
            final(self).buf@ == old(self).buf@,
            final(self).dirty,
    {
        let ghost chars = self.buf@;
        let mut render = String::new();
        let mut index: usize = 0;
        let mut num_chars: usize = 0;
        let it = self.buf.as_str().chars();
        for c in iter: it
            invariant
                iter.seq() == chars,
                row_text(chars),
                num_chars == iter.index(),
                index == render_column(chars, iter.index()),
                index <= TAB_STOP * iter.index(),
                render@ == rendered(chars.take(iter.index())),
        {
            let ghost i = iter.index();
            proof {
                lemma_byte_offset_gap(chars, 0, chars.len() as int);
                lemma_byte_offset_end(chars);
                assert(chars.take(i + 1).drop_last() =~= chars.take(i));
                assert(chars.take(i + 1).last() == chars[i]);
                lemma_render_column_prefix(chars, i, i);
                assert(printable(chars[i]));
            }
            if c == '\t' {
                let ghost start = index;
                let ghost base = render@;
                loop
                    invariant_except_break
                        start <= index < start + (TAB_STOP - start % TAB_STOP),
                        render@ == base + Seq::new((index - start) as nat, |k: int| ' '),
                    invariant
                        start <= TAB_STOP * i,
                        TAB_STOP * (i + 1) <= usize::MAX,
                    ensures
                        index == start + (TAB_STOP - start % TAB_STOP),
                        render@ == base + Seq::new(
                            (TAB_STOP - start % TAB_STOP) as nat,
                            |k: int| ' ',
                        ),
                    decreases start + TAB_STOP - index,
                {
                    render.push(' ');
                    index += 1;
                    proof {
                        assert(render@ =~= base + Seq::new((index - start) as nat, |k: int| ' '));
                    }
                    if index % TAB_STOP == 0 {
                        break ;
                    }
                }
            } else {
                render.push(c);
                let w = width_cjk(c);
                index += w.unwrap();
            }
            num_chars += 1;
        }
        proof {
            assert(chars.take(chars.len() as int) =~= chars);
        }
        let byte_len = self.buf.as_str().len();
        let mut indices: Vec<usize> = Vec::new();
        if num_chars != byte_len {
            let mut idx: usize = 0;
            let it = self.buf.as_str().chars();
            for c in iter: it
                invariant
                    iter.seq() == chars,
                    byte_len == encode_utf8(chars).len(),
                    idx == byte_offset(chars, iter.index()),
                    indices@ == Seq::new(
                        iter.index() as nat,
                        |i: int| byte_offset(chars, i) as usize,
                    ),
            {
                let ghost i = iter.index();
                proof {
                    lemma_byte_offset_step(chars, i);
                    lemma_byte_offset_gap(chars, i + 1, chars.len() as int);
                    lemma_byte_offset_end(chars);
                }
                indices.push(idx);
                idx += utf8_len(c);
                proof {
                    assert(indices@ =~= Seq::new(
                        (i + 1) as nat,
                        |k: int| byte_offset(chars, k) as usize,
                    ));
                }
            }
        }
        self.render = render;
        self.indices = indices;
        self.dirty = true;
        proof {
            lemma_byte_offset_end(chars);
            assert(self.indices@ =~= index_cache(chars));
        }
    }

    /// A row that holds `line`.  A new row is dirty.
    pub fn new(line: &str) -> (row: Row)
        requires
            row_text(line@),
        ensures
            row.wf(),
            row@ == line@,
            row.is_dirty(),
    {
        let mut row = Row {
            buf: line.to_owned(),
            render: String::new(),
            dirty: false,
            indices: Vec::new(),
        };
        row.update_render();
        row
    }

    /// The text of the row.
    pub fn buffer(&self) -> (s: &str)
        ensures
            s@ == self@,
    {
        self.buf.as_str()
    }

    /// The drawn form of the row: its text with every tab expanded.
    pub fn render(&self) -> (s: &str)
        requires
            self.wf(),
        ensures
            s@ == rendered(self@),
            s@ == self.render_view(),
    {
        self.render.as_str()
    }

    /// Whether the row has changed since it was last drawn.
    pub fn dirty(&self) -> (d: bool)
        ensures
            d == self.is_dirty(),
    {
        self.dirty
    }

    /// Sets or clears the mark that the row has to be drawn again.  The
    /// renderer clears it after it has drawn the row.
    pub fn set_dirty(&mut self, dirty: bool)
        ensures
            final(self).is_dirty() == dirty,
            final(self)@ == old(self)@,
            final(self).render_view() == old(self).render_view(),
            final(self).indices_view() == old(self).indices_view(),
            final(self).wf() == old(self).wf(),
    {
        self.dirty = dirty;
    }

    /// The cache of byte offsets: empty where every character takes one
    /// byte, else the offset of each character.
    pub fn indices(&self) -> (v: &Vec<usize>)
        requires
            self.wf(),
        ensures
            v@ == index_cache(self@),
            v@ == self.indices_view(),
    {
        &self.indices
    }

    /// The number of characters in the row.
    pub fn len(&self) -> (n: usize)
        requires
            self.wf(),
        ensures
            n == self@.len(),
    {
        if self.indices.is_empty() {
            self.buf.as_str().len()
        } else {
            self.indices.len()
        }
    }

    /// Inserts `c` in front of the character with index `at`; appends it
    /// where the row has no such character.
    pub fn insert_char(&mut self, at: usize, c: char)
        requires
            old(self).wf(),
            printable(c),
            old(self).byte_len() + char_len(c) <= MAX_ROW_BYTES,
        ensures
            final(self).wf(),
            final(self).is_dirty(),
            final(self)@ == if at < old(self)@.len() {
                old(self)@.insert(at as int, c)
            } else {
                old(self)@.push(c)
            },
    {
        let ghost chars = self@;
        if self.len() <= at {
            self.buf.push(c);
            proof {
                lemma_encode_concat(chars, seq![c]);
                lemma_encode_single(c);
                assert(chars.push(c) =~= chars + seq![c]);
            }
        } else {
            let idx = self.byte_idx_of(at);
            proof {
                lemma_offset_is_boundary(chars, at as int);
            }
            self.buf.insert(idx, c);
            proof {
                lemma_encode_single(c);
                lemma_encode_splice(chars, at as int, at as int, seq![c]);
                lemma_encode_injective(
                    self.buf@,
                    chars.take(at as int) + seq![c] + chars.skip(at as int),
                );
                assert(chars.take(at as int) + seq![c] + chars.skip(at as int) =~= chars.insert(
                    at as int,
                    c,
                ));
            }
        }
        self.update_render();
    }

    /// Inserts `s` in front of the character with index `at`; appends it
    /// where the row has no such character.
    pub fn insert_str(&mut self, at: usize, s: &str)
        requires
            old(self).wf(),
            forall|i: int| 0 <= i < s@.len() ==> printable(#[trigger] s@[i]),
            old(self).byte_len() + encode_utf8(s@).len() <= MAX_ROW_BYTES,
        ensures
            final(self).wf(),
            final(self).is_dirty(),
            final(self)@ == if at < old(self)@.len() {
                old(self)@.take(at as int) + s@ + old(self)@.skip(at as int)
            } else {
                old(self)@ + s@
            },
    {
        let ghost chars = self@;
        if self.len() <= at {
            self.buf.append(s);
            proof {
                lemma_encode_concat(chars, s@);
            }
        } else {
            let idx = self.byte_idx_of(at);
            proof {
                lemma_offset_is_boundary(chars, at as int);
            }
            self.buf.insert_str(idx, s);
            proof {
                lemma_encode_splice(chars, at as int, at as int, s@);
                lemma_encode_injective(
                    self.buf@,
                    chars.take(at as int) + s@ + chars.skip(at as int),
                );
            }
        }
        self.update_render();
    }

    /// Removes the character with index `at`; does nothing where the row
    /// has no such character.
    pub fn delete_char(&mut self, at: usize)
        requires
            old(self).wf(),
        ensures
            final(self).wf(),
            at < old(self)@.len() ==> final(self)@ == old(self)@.remove(at as int),
            at < old(self)@.len() ==> final(self).is_dirty(),
            at >= old(self)@.len() ==> *final(self) == *old(self),
    {
        if at < self.len() {
            let ghost chars = self@;
            let from = self.byte_idx_of(at);
            let to = self.byte_idx_of(at + 1);
            proof {
                lemma_offset_is_boundary(chars, at as int);
                lemma_offset_is_boundary(chars, at + 1);
                lemma_encode_splice(chars, at as int, at + 1, Seq::empty());
            }
            drain_range(&mut self.buf, from, to);
            proof {
                let rest = chars.take(at as int) + Seq::<char>::empty() + chars.skip(at + 1);
                assert(encode_utf8(Seq::<char>::empty()) =~= Seq::<u8>::empty());
                assert(encode_utf8(self.buf@) =~= encode_utf8(rest));
                lemma_encode_injective(self.buf@, rest);
                assert(rest =~= chars.remove(at as int));
            }
            self.update_render();
        }
    }

    /// Appends `s`.  An empty `s` leaves the row as it is, not even dirty.
    pub fn append(&mut self, s: &str)
        requires
            old(self).wf(),
            forall|i: int| 0 <= i < s@.len() ==> printable(#[trigger] s@[i]),
            old(self).byte_len() + encode_utf8(s@).len() <= MAX_ROW_BYTES,
        ensures
            final(self).wf(),
            final(self)@ == old(self)@ + s@,
            s@.len() > 0 ==> final(self).is_dirty(),
            s@.len() == 0 ==> *final(self) == *old(self),
    {
        if s.is_empty() {
            proof {
                assert(self@ + s@ =~= self@);
            }
            return ;
        }
        proof {
            lemma_encode_concat(self@, s@);
        }
        self.buf.append(s);
        self.update_render();
    }

    /// Drops the characters from index `at` on; does nothing where the row
    /// has no character with that index.
    pub fn truncate(&mut self, at: usize)
        requires
            old(self).wf(),
        ensures
            final(self).wf(),
            at < old(self)@.len() ==> final(self)@ == old(self)@.take(at as int),
            at < old(self)@.len() ==> final(self).is_dirty(),
            at >= old(self)@.len() ==> *final(self) == *old(self),
    {
        if at < self.len() {
            let ghost chars = self@;
            let idx = self.byte_idx_of(at);
            proof {
                lemma_offset_is_boundary(chars, at as int);
                lemma_encode_split(chars, at as int);
            }
            self.buf.truncate(idx);
            proof {
                lemma_encode_injective(self.buf@, chars.take(at as int));
            }
            self.update_render();
        }
    }

    /// Removes the characters from index `start` up to, not including,
    /// index `end`; does nothing unless `start < end` and the row has all
    /// of them.
    pub fn remove(&mut self, start: usize, end: usize)
        requires
            old(self).wf(),
        ensures
            final(self).wf(),
            start < end <= old(self)@.len() ==> final(self)@ == old(self)@.take(start as int)
                + old(self)@.skip(end as int),
            start < end <= old(self)@.len() ==> final(self).is_dirty(),
            !(start < end <= old(self)@.len()) ==> *final(self) == *old(self),
    {
        if start < end && end <= self.len() {
            let ghost chars = self@;
            let start_idx = self.byte_idx_of(start);
            let end_idx = self.byte_idx_of(end);
            proof {
                lemma_offset_is_boundary(chars, start as int);
                lemma_offset_is_boundary(chars, end as int);
                lemma_encode_splice(chars, start as int, end as int, Seq::empty());
            }
            drain_range(&mut self.buf, start_idx, end_idx);
            proof {
                let rest = chars.take(start as int) + Seq::<char>::empty() + chars.skip(
                    end as int,
                );
                assert(encode_utf8(Seq::<char>::empty()) =~= Seq::<u8>::empty());
                assert(encode_utf8(self.buf@) =~= encode_utf8(rest));
                lemma_encode_injective(self.buf@, rest);
                assert(rest =~= chars.take(start as int) + chars.skip(end as int));
            }
            self.update_render();
        }
    }

    /// The byte offset of the character with index `char_idx`; the length
    /// of the text in bytes for the index just past the last character.
    pub fn byte_idx_of(&self, char_idx: usize) -> (idx: usize)
        requires
            self.wf(),
            char_idx <= self@.len(),
        ensures
            idx == byte_offset(self@, char_idx as int),
    {
        let len = self.indices.len();
        if len == 0 {
            proof {
                lemma_single_byte_offsets(self@, char_idx as int);
            }
            char_idx
        } else if len == char_idx {
            proof {
                lemma_byte_offset_end(self@);
            }
            self.buf.as_str().len()
        } else {
            proof {
                lemma_byte_offset_gap(self@, char_idx as int, self@.len() as int);
                lemma_byte_offset_end(self@);
            }
            self.indices[char_idx]
        }
    }

    /// The index of the character that starts at byte offset `byte_idx`;
    /// the number of characters for the offset of the end of the text.
    pub fn char_idx_of(&self, byte_idx: usize) -> (idx: usize)
        requires
            self.wf(),
            is_char_boundary(encode_utf8(self@), byte_idx as int),
        ensures
            idx <= self@.len(),
            idx == char_index(self@, byte_idx as int),
            byte_offset(self@, idx as int) == byte_idx,
    {
        let ghost k = lemma_boundary_is_offset(self@, byte_idx as int);
        proof {
            lemma_char_index(self@, k);
        }
        let len = self.indices.len();
        if len == 0 {
            proof {
                lemma_single_byte_offsets(self@, k);
            }
            return byte_idx;
        }
        let mut i: usize = 0;
        while i < len
            invariant
                self.wf(),
                len == self.indices@.len(),
                len == self@.len(),
                0 <= i <= len,
                0 <= k <= len,
                byte_offset(self@, k) == byte_idx,
                k == char_index(self@, byte_idx as int),
                i <= k,
            decreases len - i,
        {
            if self.indices[i] == byte_idx {
                proof {
                    if (i as int) < k {
                        lemma_byte_offset_increasing(self@, i as int, k);
                    }
                }
                return i;
            }
            i += 1;
        }
        len
    }

    /// The characters from index `start` up to, not including, index `end`.
    pub fn slice(&self, start: usize, end: usize) -> (s: &str)
        requires
            self.wf(),
            start <= end <= self@.len(),
        ensures
            s@ == self@.subrange(start as int, end as int),
    {
        let from = self.byte_idx_of(start);
        let to = self.byte_idx_of(end);
        proof {
            lemma_offset_is_boundary(self@, end as int);
            lemma_encode_split(self@, end as int);
        }
        let (head, _) = self.buf.as_str().split_at(to);
        proof {
            lemma_encode_injective(head@, self@.take(end as int));
            assert(head@.take(start as int) =~= self@.take(start as int));
            lemma_offset_is_boundary(head@, start as int);
            lemma_encode_split(head@, start as int);
        }
        let (_, s) = head.split_at(from);
        proof {
            lemma_encode_injective(s@, head@.skip(start as int));
            assert(head@.skip(start as int) =~= self@.subrange(start as int, end as int));
        }
        s
    }

    /// The characters from index `start` to the end.
    pub fn slice_from(&self, start: usize) -> (s: &str)
        requires
            self.wf(),
            start <= self@.len(),
        ensures
            s@ == self@.skip(start as int),
    {
        let s = self.slice(start, self.len());
        proof {
            assert(self@.subrange(start as int, self@.len() as int) =~= self@.skip(start as int));
        }
        s
    }

    /// The characters before index `end`.
    pub fn slice_to(&self, end: usize) -> (s: &str)
        requires
            self.wf(),
            end <= self@.len(),
        ensures
            s@ == self@.take(end as int),
    {
        let s = self.slice(0, end);
        proof {
            assert(self@.subrange(0, end as int) =~= self@.take(end as int));
        }
        s
    }

    /// The characters from index `start` up to and including index `end`.
    pub fn slice_inclusive(&self, start: usize, end: usize) -> (s: &str)
        requires
            self.wf(),
            start <= end < self@.len(),
        ensures
            s@ == self@.subrange(start as int, end + 1),
    {
        proof {
            self.lemma_len_bounds();
        }
        self.slice(start, end + 1)
    }

    /// The characters up to and including index `end`.
    pub fn slice_to_inclusive(&self, end: usize) -> (s: &str)
        requires
            self.wf(),
            end < self@.len(),
        ensures
            s@ == self@.take(end + 1),
    {
        proof {
            self.lemma_len_bounds();
        }
        self.slice_to(end + 1)
    }

    /// The character with index `at`, if the row has one.
    pub fn char_at_checked(&self, at: usize) -> (c: Option<char>)
        requires
            self.wf(),
        ensures
            c == if at < self@.len() {
                Some(self@[at as int])
            } else {
                None
            },
    {
        if at >= self.len() {
            return None;
        }
        let tail = self.slice_from(at);
        let mut it = tail.chars();
        it.next()
    }

    /// The character with index `at`.
    pub fn char_at(&self, at: usize) -> (c: char)
        requires
            self.wf(),
            at < self@.len(),
        ensures
            c == self@[at as int],
    {
        self.char_at_checked(at).unwrap()
    }

    /// The screen column at which the character with index `cx` starts.
    pub fn rx_from_cx(&self, cx: usize) -> (rx: usize)
        requires
            self.wf(),
            cx <= self@.len(),
        ensures
            rx == render_column(self@, cx as int),
            rx <= TAB_STOP * cx,
    {
        let head = self.slice_to(cx);
        let ghost chars = self@;
        let mut rx: usize = 0;
        let it = head.chars();
        proof {
            lemma_byte_offset_gap(chars, 0, chars.len() as int);
            lemma_byte_offset_end(chars);
        }
        for ch in iter: it
            invariant
                iter.seq() == chars.take(cx as int),
                cx <= chars.len() <= MAX_ROW_BYTES,
                forall|i: int| 0 <= i < chars.len() ==> printable(#[trigger] chars[i]),
                rx == render_column(chars, iter.index()),
                rx <= TAB_STOP * iter.index(),
        {
            let ghost i = iter.index();
            proof {
                assert(chars.take(cx as int)[i] == chars[i]);
                assert(printable(chars[i]));
            }
            if ch == '\t' {
                rx = rx + TAB_STOP - (rx % TAB_STOP);
            } else {
                rx = rx + width_cjk(ch).unwrap();
            }
        }
        rx
    }

    /// The index of the character drawn over screen column `rx`; the
    /// number of characters where the row ends before that column.
    pub fn cx_from_rx(&self, rx: usize) -> (cx: usize)
        requires
            self.wf(),
        ensures
            cx == char_index_at(self@, rx as nat),
    {
        let ghost chars = self@;
        let mut current_rx: usize = 0;
        let mut cx: usize = 0;
        let it = self.buf.as_str().chars();
        proof {
            lemma_byte_offset_gap(chars, 0, chars.len() as int);
            lemma_byte_offset_end(chars);
        }
        for ch in iter: it
            invariant
                iter.seq() == chars,
                chars == self@,
                self.wf(),
                chars.len() <= MAX_ROW_BYTES,
                forall|i: int| 0 <= i < chars.len() ==> printable(#[trigger] chars[i]),
                cx == iter.index(),
                current_rx == render_column(chars, iter.index()),
                current_rx <= TAB_STOP * iter.index(),
                char_index_at(chars, rx as nat) == char_index_from(chars, rx as nat, cx as int),
        {
            proof {
                assert(printable(chars[cx as int]));
            }
            if ch == '\t' {
                current_rx = current_rx + TAB_STOP - (current_rx % TAB_STOP);
            } else {
                current_rx = current_rx + width_cjk(ch).unwrap();
            }
            if current_rx > rx {
                return cx;
            }
            cx += 1;
        }
        self.len()
    }
}

impl Default for Row {
    /// An empty row that is not dirty.
    fn default() -> (row: Row)
        ensures
            row.wf(),
            row@ == Seq::<char>::empty(),
            !row.is_dirty(),
    {
        let row = Row {
            buf: String::new(),
            render: String::new(),
            dirty: false,
            indices: Vec::new(),
        };
        proof {
            assert(row.indices@ =~= index_cache(row.buf@));
        }
        row
    }
}

impl core::ops::Index<core::ops::Range<usize>> for Row {
    type Output = str;

    /// The characters from index `r.start` up to, not including, `r.end`.
    fn index(&self, r: core::ops::Range<usize>) -> (s: &str)
        ensures
            s@ == self@.subrange(r.start as int, r.end as int),
    {
        self.slice(r.start, r.end)
    }
}

impl vstd::std_specs::core::IndexSpecImpl<core::ops::Range<usize>> for Row {
    open spec fn index_req(&self, r: &core::ops::Range<usize>) -> bool {
        self.wf() && r.start <= r.end <= self@.len()
    }
}

} // verus!
