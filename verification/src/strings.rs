//! Contracts for the methods of `String` that edit a string in place at a
//! byte position.  Each is stated over the bytes of the string, as its
//! documentation is.

use vstd::prelude::*;
use vstd::utf8::*;

verus! {

/// `String::push` appends one character.
pub assume_specification[ String::push ](s: &mut String, ch: char)
    ensures
        final(s)@ == old(s)@.push(ch),
;

/// `String::insert` puts the encoding of `ch` in front of the byte at
/// `idx`.  It panics unless `idx` is a character boundary of the string.
pub assume_specification[ String::insert ](s: &mut String, idx: usize, ch: char)
    requires
        is_char_boundary(encode_utf8(old(s)@), idx as int),
    ensures
        encode_utf8(final(s)@) == encode_utf8(old(s)@).subrange(0, idx as int) + encode_scalar(
            ch as u32,
        ) + encode_utf8(old(s)@).subrange(idx as int, encode_utf8(old(s)@).len() as int),
;

/// `String::insert_str` puts the bytes of `string` in front of the byte at
/// `idx`.  It panics unless `idx` is a character boundary of the string.
pub assume_specification[ String::insert_str ](s: &mut String, idx: usize, string: &str)
    requires
        is_char_boundary(encode_utf8(old(s)@), idx as int),
    ensures
        encode_utf8(final(s)@) == encode_utf8(old(s)@).subrange(0, idx as int) + encode_utf8(
            string@,
        ) + encode_utf8(old(s)@).subrange(idx as int, encode_utf8(old(s)@).len() as int),
;

/// `String::truncate` keeps the first `new_len` bytes.  It panics where
/// `new_len` lies inside the string and is no character boundary; a
/// `new_len` beyond the end is left out here, as no caller needs it.
pub assume_specification[ String::truncate ](s: &mut String, new_len: usize)
    requires
        is_char_boundary(encode_utf8(old(s)@), new_len as int),
    ensures
        encode_utf8(final(s)@) == encode_utf8(old(s)@).subrange(0, new_len as int),
;

/// Calls `String::drain` on the byte range from `start` to `end` and drops
/// what it hands out.
///
/// Trusted: the bytes of that range leave the string and the rest stays in
/// order.  The call panics unless `start <= end` and both are character
/// boundaries of the string.
#[verifier::external_body]
pub(crate) fn drain_range(s: &mut String, start: usize, end: usize)
    requires
        start <= end,
        is_char_boundary(encode_utf8(old(s)@), start as int),
        is_char_boundary(encode_utf8(old(s)@), end as int),
    ensures
        encode_utf8(final(s)@) == encode_utf8(old(s)@).subrange(0, start as int) + encode_utf8(
            old(s)@,
        ).subrange(end as int, encode_utf8(old(s)@).len() as int),
{
    s.drain(start..end);
}

} // verus!
