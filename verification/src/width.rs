//! Display widths of characters and the screen columns of a line of text.

use unicode_width::UnicodeWidthChar;
use vstd::prelude::*;

verus! {

/// Tabs advance to the next multiple of this many columns.
pub const TAB_STOP: usize = 8;

/// The number of columns a character takes on an East Asian terminal, as
/// the `unicode-width` crate tabulates it; `None` for a control character.
pub uninterp spec fn cjk_width(c: char) -> Option<usize>;

/// The control characters: U+0000 to U+001F and U+007F to U+009F.
pub open spec fn is_control(c: char) -> bool {
    c < ' ' || ('\u{7f}' <= c && c < '\u{a0}')
}

/// A character that a row may hold: the tab, or anything but a control
/// character.
pub open spec fn printable(c: char) -> bool {
    c == '\t' || !is_control(c)
}

/// Calls `UnicodeWidthChar::width_cjk` of the `unicode-width` crate.
///
/// Trusted: the result is the crate's tabulated width of `c`, it is absent
/// exactly for the control characters, and no width exceeds three columns
/// (the crate's tables hold two bits for each character and its only wider
/// entry is three columns wide).
#[verifier::external_body]
pub(crate) fn width_cjk(c: char) -> (w: Option<usize>)
    ensures
        w == cjk_width(c),
        w is None <==> is_control(c),
        w matches Some(n) ==> n <= 3,
{
    c.width_cjk()
}

/// Columns taken by `c`; control characters take none.
pub open spec fn char_width(c: char) -> nat {
    match cjk_width(c) {
        Some(w) => w as nat,
        None => 0,
    }
}

/// Columns by which the cursor moves when `c` is drawn at column `col`: a
/// tab reaches the next tab stop, any other character takes its width.
pub open spec fn advance(col: nat, c: char) -> nat {
    if c == '\t' {
        (TAB_STOP - col % (TAB_STOP as nat)) as nat
    } else {
        char_width(c)
    }
}

/// The screen column at which the character with index `cx` starts, that
/// is, the columns taken by the `cx` characters before it.
pub open spec fn render_column(chars: Seq<char>, cx: int) -> nat
    decreases cx,
{
    if cx <= 0 {
        0
    } else {
        let before = render_column(chars, cx - 1);
        before + advance(before, chars[cx - 1])
    }
}

/// The first character index at or after `from` whose cell ends beyond
/// column `rx`; the length of the text where there is none.
pub open spec fn char_index_from(chars: Seq<char>, rx: nat, from: int) -> int
    decreases chars.len() - from,
{
    if from < 0 || from >= chars.len() {
        chars.len() as int
    } else if render_column(chars, from + 1) > rx {
        from
    } else {
        char_index_from(chars, rx, from + 1)
    }
}

/// The index of the character drawn over column `rx`; the length of the
/// text where the line ends before that column.
pub open spec fn char_index_at(chars: Seq<char>, rx: nat) -> int {
    char_index_from(chars, rx, 0)
}

/// What is drawn for a line of text: each tab becomes the spaces that
/// reach the next tab stop, every other character stands for itself.
pub open spec fn rendered(chars: Seq<char>) -> Seq<char>
    decreases chars.len(),
{
    if chars.len() == 0 {
        Seq::empty()
    } else {
        let before = chars.drop_last();
        let c = chars.last();
        if c == '\t' {
            rendered(before) + Seq::new(
                advance(render_column(before, before.len() as int), c),
                |i: int| ' ',
            )
        } else {
            rendered(before).push(c)
        }
    }
}

/// The column of a character depends only on the characters before it.
pub proof fn lemma_render_column_prefix(chars: Seq<char>, k: int, cx: int)
    requires
        0 <= cx <= k <= chars.len(),
    ensures
        render_column(chars.take(k), cx) == render_column(chars, cx),
    decreases cx,
{
    if cx > 0 {
        lemma_render_column_prefix(chars, k, cx - 1);
    }
}

/// Columns never decrease along a line.
pub proof fn lemma_render_column_monotone(chars: Seq<char>, i: int, j: int)
    requires
        i <= j,
    ensures
        render_column(chars, i) <= render_column(chars, j),
    decreases j - i,
{
    if i < j {
        lemma_render_column_monotone(chars, i, j - 1);
    }
}

/// `char_index_from` returns the least index from `from` on whose cell
/// ends beyond `rx`.
pub proof fn lemma_char_index_from(chars: Seq<char>, rx: nat, from: int)
    requires
        0 <= from <= chars.len(),
    ensures
        from <= char_index_from(chars, rx, from) <= chars.len(),
        char_index_from(chars, rx, from) < chars.len() ==> render_column(
            chars,
            char_index_from(chars, rx, from) + 1,
        ) > rx,
        forall|k: int|
            from < k <= char_index_from(chars, rx, from) ==> #[trigger] render_column(chars, k)
                <= rx,
    decreases chars.len() - from,
{
    if from < chars.len() && render_column(chars, from + 1) <= rx {
        lemma_char_index_from(chars, rx, from + 1);
    }
}

/// Going from a character index to its column and back gives an index
/// that starts at the same column.
pub proof fn lemma_column_round_trip(chars: Seq<char>, i: int)
    requires
        0 <= i <= chars.len(),
    ensures
        0 <= char_index_at(chars, render_column(chars, i)) <= chars.len(),
        render_column(chars, char_index_at(chars, render_column(chars, i))) == render_column(
            chars,
            i,
        ),
{
    let rx = render_column(chars, i);
    let j = char_index_at(chars, rx);
    lemma_char_index_from(chars, rx, 0);
    if j < chars.len() {
        // the cell of j ends beyond rx, so j is not before i
        if j + 1 <= i {
            lemma_render_column_monotone(chars, j + 1, i);
        }
        lemma_render_column_monotone(chars, i, j);
    } else {
        lemma_render_column_monotone(chars, i, j);
    }
}

} // verus!
