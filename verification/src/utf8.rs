//! Character indices against byte offsets in UTF-8 text.
//!
//! The model of a piece of text is its sequence of characters; its bytes are
//! `encode_utf8` of that sequence.  This module relates positions in the two.

use vstd::prelude::*;
use vstd::utf8::*;

verus! {

/// Number of bytes that `c` takes in UTF-8.
pub open spec fn char_len(c: char) -> nat {
    encode_scalar(c as u32).len()
}

/// Byte offset at which the character with index `i` starts; for
/// `i == chars.len()` the length of the whole encoding.
pub open spec fn byte_offset(chars: Seq<char>, i: int) -> nat {
    encode_utf8(chars.take(i)).len()
}

/// The index of the character that starts at byte offset `b`; the number
/// of characters for the offset of the end of the text.
pub open spec fn char_index(chars: Seq<char>, b: int) -> int {
    choose|k: int| 0 <= k <= chars.len() && byte_offset(chars, k) == b
}

/// Number of bytes that `c` takes in UTF-8.
pub fn utf8_len(c: char) -> (n: usize)
    ensures
        n == char_len(c),
        1 <= n <= 4,
{
    let v: u32 = c as u32;
    if v < 0x80 {
        1
    } else if v < 0x800 {
        2
    } else if v < 0x10000 {
        3
    } else {
        4
    }
}

/// Every character takes between one and four bytes.
pub proof fn lemma_char_len_bounds(c: char)
    ensures
        1 <= char_len(c) <= 4,
        char_len(c) == 1 <==> c <= '\u{7f}',
{
}

/// The encoding of a concatenation is the concatenation of the encodings.
pub proof fn lemma_encode_concat(a: Seq<char>, b: Seq<char>)
    ensures
        encode_utf8(a + b) == encode_utf8(a) + encode_utf8(b),
    decreases a.len(),
{
    if a.len() == 0 {
        assert(a + b =~= b);
        assert(encode_utf8(a) + encode_utf8(b) =~= encode_utf8(b));
    } else {
        lemma_encode_concat(a.drop_first(), b);
        assert((a + b).drop_first() =~= a.drop_first() + b);
        assert(encode_utf8(a + b) =~= encode_utf8(a) + encode_utf8(b));
    }
}

/// The encoding of a single character.
pub proof fn lemma_encode_single(c: char)
    ensures
        encode_utf8(seq![c]) == encode_scalar(c as u32),
{
    reveal_with_fuel(encode_utf8, 2);
    assert(seq![c].drop_first() =~= Seq::<char>::empty());
    assert(encode_utf8(seq![c]) =~= encode_scalar(c as u32));
}

/// Two texts with the same bytes are the same text.
pub proof fn lemma_encode_injective(a: Seq<char>, b: Seq<char>)
    requires
        encode_utf8(a) == encode_utf8(b),
    ensures
        a == b,
{
    encode_utf8_decode_utf8(a);
    encode_utf8_decode_utf8(b);
}

/// Offsets start at zero and grow by the length of each character passed.
pub proof fn lemma_byte_offset_step(chars: Seq<char>, i: int)
    requires
        0 <= i < chars.len(),
    ensures
        byte_offset(chars, 0) == 0,
        byte_offset(chars, i + 1) == byte_offset(chars, i) + char_len(chars[i]),
{
    assert(chars.take(0) =~= Seq::<char>::empty());
    assert(chars.take(i + 1) =~= chars.take(i) + seq![chars[i]]);
    lemma_encode_concat(chars.take(i), seq![chars[i]]);
    lemma_encode_single(chars[i]);
}

/// The offset of the end of the text is the length of its encoding.
pub proof fn lemma_byte_offset_end(chars: Seq<char>)
    ensures
        byte_offset(chars, 0) == 0,
        byte_offset(chars, chars.len() as int) == encode_utf8(chars).len(),
{
    assert(chars.take(0) =~= Seq::<char>::empty());
    assert(chars.take(chars.len() as int) =~= chars);
}

/// Between two character indices lie at least as many bytes as characters,
/// and at most four times as many.
pub proof fn lemma_byte_offset_gap(chars: Seq<char>, i: int, j: int)
    requires
        0 <= i <= j <= chars.len(),
    ensures
        j - i <= byte_offset(chars, j) - byte_offset(chars, i) <= 4 * (j - i),
    decreases j - i,
{
    if i < j {
        lemma_byte_offset_gap(chars, i, j - 1);
        lemma_byte_offset_step(chars, j - 1);
        lemma_char_len_bounds(chars[j - 1]);
    }
}

/// Cutting the bytes at the offset of a character index cuts the text there.
pub proof fn lemma_encode_split(chars: Seq<char>, i: int)
    requires
        0 <= i <= chars.len(),
    ensures
        byte_offset(chars, i) <= encode_utf8(chars).len(),
        encode_utf8(chars).subrange(0, byte_offset(chars, i) as int) == encode_utf8(chars.take(i)),
        encode_utf8(chars).subrange(byte_offset(chars, i) as int, encode_utf8(chars).len() as int)
            == encode_utf8(chars.skip(i)),
{
    assert(chars =~= chars.take(i) + chars.skip(i));
    lemma_encode_concat(chars.take(i), chars.skip(i));
    let a = encode_utf8(chars.take(i));
    let b = encode_utf8(chars.skip(i));
    assert((a + b).subrange(0, a.len() as int) =~= a);
    assert((a + b).subrange(a.len() as int, (a + b).len() as int) =~= b);
}

/// Replacing the bytes between the offsets of two character indices by
/// the encoding of `mid` replaces the characters between them by `mid`.
pub proof fn lemma_encode_splice(chars: Seq<char>, i: int, j: int, mid: Seq<char>)
    requires
        0 <= i <= j <= chars.len(),
    ensures
        byte_offset(chars, i) <= byte_offset(chars, j) <= encode_utf8(chars).len(),
        encode_utf8(chars).subrange(0, byte_offset(chars, i) as int) + encode_utf8(mid)
            + encode_utf8(chars).subrange(
            byte_offset(chars, j) as int,
            encode_utf8(chars).len() as int,
        ) == encode_utf8(chars.take(i) + mid + chars.skip(j)),
        encode_utf8(chars.take(i) + mid + chars.skip(j)).len() == encode_utf8(chars).len() - (
        byte_offset(chars, j) - byte_offset(chars, i)) + encode_utf8(mid).len(),
{
    lemma_byte_offset_gap(chars, i, j);
    lemma_encode_split(chars, i);
    lemma_encode_split(chars, j);
    lemma_encode_concat(chars.take(i), mid);
    lemma_encode_concat(chars.take(i) + mid, chars.skip(j));
}

/// The offset of every character index is a character boundary.
pub proof fn lemma_offset_is_boundary(chars: Seq<char>, i: int)
    requires
        0 <= i <= chars.len(),
    ensures
        is_char_boundary(encode_utf8(chars), byte_offset(chars, i) as int),
    decreases i,
{
    let bytes = encode_utf8(chars);
    encode_utf8_valid_utf8(chars);
    if i == 0 {
        lemma_byte_offset_end(chars);
    } else {
        let rest = chars.drop_first();
        encode_utf8_first_scalar(chars);
        assert(pop_first_scalar(bytes) =~= encode_utf8(rest));
        lemma_offset_is_boundary(rest, i - 1);
        assert(chars.take(i) =~= seq![chars[0]] + rest.take(i - 1));
        lemma_encode_concat(seq![chars[0]], rest.take(i - 1));
        lemma_encode_single(chars[0]);
        lemma_encode_split(chars, i);
        lemma_char_len_bounds(chars[0]);
    }
}

/// Every character boundary is the offset of exactly one character index.
pub proof fn lemma_boundary_is_offset(chars: Seq<char>, b: int) -> (i: int)
    requires
        is_char_boundary(encode_utf8(chars), b),
    ensures
        0 <= i <= chars.len(),
        byte_offset(chars, i) == b,
    decreases chars.len(),
{
    let bytes = encode_utf8(chars);
    encode_utf8_valid_utf8(chars);
    if b == 0 {
        lemma_byte_offset_end(chars);
        0
    } else {
        assert(chars.len() > 0) by {
            if chars.len() == 0 {
                assert(bytes.len() == 0);
            }
        }
        let rest = chars.drop_first();
        encode_utf8_first_scalar(chars);
        assert(pop_first_scalar(bytes) =~= encode_utf8(rest));
        let k = lemma_boundary_is_offset(rest, b - length_of_first_scalar(bytes));
        assert(chars.take(k + 1) =~= seq![chars[0]] + rest.take(k));
        lemma_encode_concat(seq![chars[0]], rest.take(k));
        lemma_encode_single(chars[0]);
        k + 1
    }
}

/// Where the bytes of `head` stand at the start of the bytes of `text`,
/// the characters of `head` stand at the start of `text`.
pub proof fn lemma_encode_prefix(text: Seq<char>, head: Seq<char>)
    requires
        encode_utf8(head).len() <= encode_utf8(text).len(),
        encode_utf8(text).subrange(0, encode_utf8(head).len() as int) == encode_utf8(head),
    ensures
        head.len() <= text.len(),
        text.take(head.len() as int) == head,
    decreases head.len(),
{
    if head.len() == 0 {
        assert(text.take(0) =~= head);
    } else {
        let t = encode_utf8(text);
        let h = encode_utf8(head);
        encode_utf8_first_scalar(head);
        lemma_char_len_bounds(head[0]);
        assert(text.len() > 0) by {
            if text.len() == 0 {
                assert(t.len() == 0);
            }
        }
        encode_utf8_first_scalar(text);
        assert forall|j: int| 0 <= j < h.len() implies t[j] == h[j] by {
            assert(t.subrange(0, h.len() as int)[j] == h[j]);
        }
        assert(decode_first_scalar(t) == decode_first_scalar(h));
        char_u32_cast(text[0], decode_first_scalar(t));
        char_u32_cast(head[0], decode_first_scalar(h));
        assert(text[0] == head[0]);
        let k = char_len(head[0]) as int;
        let rest_t = encode_utf8(text.drop_first());
        let rest_h = encode_utf8(head.drop_first());
        assert(t =~= encode_scalar(text[0] as u32) + rest_t);
        assert(h =~= encode_scalar(head[0] as u32) + rest_h);
        assert(rest_t.subrange(0, rest_h.len() as int) =~= rest_h) by {
            assert forall|j: int| 0 <= j < rest_h.len() implies rest_t[j] == rest_h[j] by {
                assert(t[k + j] == rest_t[j]);
                assert(h[k + j] == rest_h[j]);
            }
        }
        lemma_encode_prefix(text.drop_first(), head.drop_first());
        assert(text.take(head.len() as int) =~= head) by {
            assert forall|j: int| 0 <= j < head.len() implies text[j] == head[j] by {
                if j > 0 {
                    assert(text.drop_first().take(head.len() - 1)[j - 1] == head.drop_first()[j
                        - 1]);
                }
            }
        }
    }
}

/// The bytes of `part` stand in the bytes of `text` at the offset of
/// character `i` only where the characters of `part` stand in `text` at
/// index `i`.
pub proof fn lemma_encode_match(text: Seq<char>, part: Seq<char>, i: int)
    requires
        0 <= i <= text.len(),
        byte_offset(text, i) + encode_utf8(part).len() <= encode_utf8(text).len(),
        encode_utf8(text).subrange(
            byte_offset(text, i) as int,
            (byte_offset(text, i) + encode_utf8(part).len()) as int,
        ) == encode_utf8(part),
    ensures
        i + part.len() <= text.len(),
        text.subrange(i, i + part.len()) == part,
{
    let t = encode_utf8(text);
    let at = byte_offset(text, i) as int;
    let n = encode_utf8(part).len() as int;
    lemma_encode_split(text, i);
    assert(t.subrange(at, t.len() as int).subrange(0, n) =~= t.subrange(at, at + n));
    lemma_encode_prefix(text.skip(i), part);
    assert(text.skip(i).take(part.len() as int) =~= text.subrange(i, i + part.len()));
}

/// Offsets grow strictly with the character index.
pub proof fn lemma_byte_offset_increasing(chars: Seq<char>, i: int, j: int)
    requires
        0 <= i < j <= chars.len(),
    ensures
        byte_offset(chars, i) < byte_offset(chars, j),
{
    lemma_byte_offset_gap(chars, i, j);
}

/// The character index that starts at the offset of index `k` is `k`.
pub proof fn lemma_char_index(chars: Seq<char>, k: int)
    requires
        0 <= k <= chars.len(),
    ensures
        char_index(chars, byte_offset(chars, k) as int) == k,
{
    let j = char_index(chars, byte_offset(chars, k) as int);
    if j < k {
        lemma_byte_offset_increasing(chars, j, k);
    } else if k < j {
        lemma_byte_offset_increasing(chars, k, j);
    }
}

/// A text takes as many bytes as it has characters exactly when every
/// character offset equals its index.
pub proof fn lemma_single_byte_offsets(chars: Seq<char>, i: int)
    requires
        encode_utf8(chars).len() == chars.len(),
        0 <= i <= chars.len(),
    ensures
        byte_offset(chars, i) == i,
{
    lemma_byte_offset_end(chars);
    lemma_byte_offset_gap(chars, 0, i);
    lemma_byte_offset_gap(chars, i, chars.len() as int);
}

} // verus!
