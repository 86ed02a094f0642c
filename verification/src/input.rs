//! What the terminal sends: bytes, decoded one at a time into key presses
//! and cursor reports.

use crate::number::{parse_number, parse_usize};
use vstd::prelude::*;

verus! {

/// The arrow keys.
#[derive(Clone, Copy, PartialEq, Eq, Debug, Structural)]
pub enum SpecialKey {
    Left,
    Right,
    Up,
    Down,
}

/// One decoded input.
#[derive(Clone, Copy, PartialEq, Eq, Debug, Structural)]
pub enum InputSeq {
    /// Nothing that the decoder knows; also what a read that timed out
    /// decodes to.
    Unidentified,
    /// An arrow key.
    SpecialKey(SpecialKey),
    /// A key by its ASCII code, and whether Ctrl was held.
    Key(u8, bool),
    /// The terminal's report of the cursor position: row, then column.
    Cursor(usize, usize),
}

/// The byte that starts an escape sequence.
pub const ESC: u8 = 0x1b;

/// The input that a byte outside an escape sequence stands for.  Printable
/// ASCII is the key itself.  The terminal sends a letter typed with Ctrl
/// with its bits 5 and 6 cleared: they are set again.  Any other byte is
/// unidentified.
pub open spec fn key_of(b: u8) -> InputSeq {
    if 0x20 <= b <= 0x7f {
        InputSeq::Key(b, false)
    } else if 0x01 <= b <= 0x1f {
        InputSeq::Key(b | 0x60, true)
    } else {
        InputSeq::Unidentified
    }
}

/// The length of the first field of `s`: the index of its first `;`, or
/// its length where it has none.
pub open spec fn field_len(s: Seq<u8>) -> int
    decreases s.len(),
{
    if s.len() == 0 || s[0] == 0x3b {
        0
    } else {
        1 + field_len(s.drop_first())
    }
}

/// The input that the arguments of a cursor report stand for.  The first
/// two fields between `;` are the row and the column; further fields are
/// ignored.  Fewer than two fields, or a field that is no number, give
/// `Unidentified`.
pub open spec fn cursor_report(args: Seq<u8>) -> InputSeq {
    let first = field_len(args);
    if first >= args.len() {
        InputSeq::Unidentified
    } else {
        let rest = args.skip(first + 1);
        match (parse_number(args.take(first)), parse_number(rest.take(field_len(rest)))) {
            (Some(row), Some(col)) => InputSeq::Cursor(row, col),
            _ => InputSeq::Unidentified,
        }
    }
}

/// Whether `b` ends the arguments of an escape sequence.
pub open spec fn is_final_byte(b: u8) -> bool {
    b == 0x52 || b == 0x41 || b == 0x42 || b == 0x43 || b == 0x44
}

/// The input that an escape sequence with arguments `args` and final byte
/// `cmd` stands for: `R` ends a cursor report, `A` to `D` are the arrow
/// keys, whatever their arguments.
pub open spec fn sequence_of(cmd: u8, args: Seq<u8>) -> InputSeq {
    if cmd == 0x52 {
        cursor_report(args)
    } else if cmd == 0x41 {
        InputSeq::SpecialKey(SpecialKey::Up)
    } else if cmd == 0x42 {
        InputSeq::SpecialKey(SpecialKey::Down)
    } else if cmd == 0x43 {
        InputSeq::SpecialKey(SpecialKey::Right)
    } else if cmd == 0x44 {
        InputSeq::SpecialKey(SpecialKey::Left)
    } else {
        InputSeq::Unidentified
    }
}

/// Where the decoder stands in its input.
pub enum DecoderState {
    /// Between inputs.
    Ready,
    /// After ESC.
    Escape,
    /// After ESC `[`, with the argument bytes read so far.
    Args(Seq<u8>),
}

/// One step of the decoder: the state after byte `b`, and the input that
/// `b` completes, if it completes one.
///
/// ESC always starts an escape sequence.  A byte other than `[` after ESC
/// is decoded as if ESC had not been there, so ESC alone is never an
/// input.  After ESC `[` bytes are collected up to a final byte.
pub open spec fn step(state: DecoderState, b: u8) -> (DecoderState, Option<InputSeq>) {
    match state {
        DecoderState::Args(args) => if is_final_byte(b) {
            (DecoderState::Ready, Some(sequence_of(b, args)))
        } else {
            (DecoderState::Args(args.push(b)), None)
        },
        DecoderState::Escape => if b == 0x5b {
            (DecoderState::Args(Seq::empty()), None)
        } else if b == ESC {
            (DecoderState::Escape, None)
        } else {
            (DecoderState::Ready, Some(key_of(b)))
        },
        DecoderState::Ready => if b == ESC {
            (DecoderState::Escape, None)
        } else {
            (DecoderState::Ready, Some(key_of(b)))
        },
    }
}

/// The state after the bytes `bytes`, and the inputs they complete, in
/// order.
pub open spec fn run(state: DecoderState, bytes: Seq<u8>) -> (DecoderState, Seq<InputSeq>)
    decreases bytes.len(),
{
    if bytes.len() == 0 {
        (state, Seq::empty())
    } else {
        let (before, inputs) = run(state, bytes.drop_last());
        let (after, input) = step(before, bytes.last());
        (
            after,
            match input {
                Some(seq) => inputs.push(seq),
                None => inputs,
            },
        )
    }
}

/// Decoding does not depend on how the bytes arrive: a stream cut in two
/// gives the inputs of the first part followed by those of the second.
pub proof fn lemma_run_concat(state: DecoderState, a: Seq<u8>, b: Seq<u8>)
    ensures
        run(state, a + b).0 == run(run(state, a).0, b).0,
        run(state, a + b).1 == run(state, a).1 + run(run(state, a).0, b).1,
    decreases b.len(),
{
    if b.len() == 0 {
        assert(a + b =~= a);
        assert(run(state, a).1 + Seq::<InputSeq>::empty() =~= run(state, a).1);
    } else {
        lemma_run_concat(state, a, b.drop_last());
        assert((a + b).drop_last() =~= a + b.drop_last());
        let mid = run(state, a).0;
        let (before, inputs) = run(mid, b.drop_last());
        match step(before, b.last()).1 {
            Some(seq) => {
                assert((run(state, a).1 + inputs).push(seq) =~= run(state, a).1 + inputs.push(
                    seq,
                ));
            },
            None => {},
        }
    }
}

/// The Escape key is never an input: no byte, in no state, completes the
/// input that ESC itself would stand for as a key, `{` with Ctrl.
pub proof fn lemma_escape_is_no_input(state: DecoderState, b: u8)
    ensures
        step(state, b).1 != Some(InputSeq::Key(0x7b, true)),
{
    assert(0x01 <= b <= 0x1f && b != 0x1b ==> b | 0x60 != 0x7b) by (bit_vector);
}

/// Decodes a byte that stands outside an escape sequence.
pub fn decode_key(b: u8) -> (seq: InputSeq)
    ensures
        seq == key_of(b),
{
    if 0x20 <= b && b <= 0x7f {
        InputSeq::Key(b, false)
    } else if 0x01 <= b && b <= 0x1f {
        InputSeq::Key(b | 0x60, true)
    } else {
        InputSeq::Unidentified
    }
}

/// The index of the first `;` in `bytes` from `from` on, or the length of
/// `bytes` where there is none.
fn field_end(bytes: &[u8], from: usize) -> (end: usize)
    requires
        from <= bytes@.len(),
    ensures
        from <= end <= bytes@.len(),
        end - from == field_len(bytes@.skip(from as int)),
{
    let mut i: usize = from;
    while i < bytes.len() && bytes[i] != 0x3b
        invariant
            from <= i <= bytes@.len(),
            field_len(bytes@.skip(from as int)) == (i - from) + field_len(bytes@.skip(i as int)),
        decreases bytes@.len() - i,
    {
        proof {
            assert(bytes@.skip(i as int).drop_first() =~= bytes@.skip(i + 1));
        }
        i += 1;
    }
    i
}

/// Decodes the arguments of a cursor report, such as `24;80`.
pub fn parse_cursor_report(args: &[u8]) -> (seq: InputSeq)
    ensures
        seq == cursor_report(args@),
{
    let first = field_end(args, 0);
    proof {
        assert(args@.skip(0) =~= args@);
    }
    if first >= args.len() {
        return InputSeq::Unidentified;
    }
    let second = field_end(args, first + 1);
    let row = parse_usize(vstd::slice::slice_subrange(args, 0, first));
    let col = parse_usize(vstd::slice::slice_subrange(args, first + 1, second));
    proof {
        let rest = args@.skip(first + 1);
        assert(args@.subrange(0, first as int) =~= args@.take(first as int));
        assert(args@.subrange(first + 1, second as int) =~= rest.take(field_len(rest)));
    }
    match (row, col) {
        (Some(r), Some(c)) => InputSeq::Cursor(r, c),
        _ => InputSeq::Unidentified,
    }
}

/// Decodes an escape sequence from its final byte and its arguments.
pub fn decode_sequence(cmd: u8, args: &[u8]) -> (seq: InputSeq)
    ensures
        seq == sequence_of(cmd, args@),
{
    if cmd == 0x52 {
        parse_cursor_report(args)
    } else if cmd == 0x41 {
        InputSeq::SpecialKey(SpecialKey::Up)
    } else if cmd == 0x42 {
        InputSeq::SpecialKey(SpecialKey::Down)
    } else if cmd == 0x43 {
        InputSeq::SpecialKey(SpecialKey::Right)
    } else if cmd == 0x44 {
        InputSeq::SpecialKey(SpecialKey::Left)
    } else {
        InputSeq::Unidentified
    }
}

/// Which part of an input the decoder is in.
#[derive(Clone, Copy, PartialEq, Eq, Debug, Structural)]
enum Mode {
    Ready,
    Escape,
    Args,
}

/// The decoder of terminal input.  It is fed the bytes as they are read
/// and hands out each input when its last byte has come.
pub struct Decoder {
    mode: Mode,
    args: Vec<u8>,
}

impl View for Decoder {
    type V = DecoderState;

    closed spec fn view(&self) -> DecoderState {
        match self.mode {
            Mode::Ready => DecoderState::Ready,
            Mode::Escape => DecoderState::Escape,
            Mode::Args => DecoderState::Args(self.args@),
        }
    }
}

impl Decoder {
    /// A decoder that stands between inputs.
    pub fn new() -> (decoder: Decoder)
        ensures
            decoder@ == DecoderState::Ready,
    {
        Decoder { mode: Mode::Ready, args: Vec::new() }
    }

    /// Whether the decoder is inside an escape sequence.  The next byte of
    /// one is waited for without a timeout; between inputs a read may time
    /// out, and is then fed as a zero byte.
    pub fn in_sequence(&self) -> (pending: bool)
        ensures
            pending == !(self@ is Ready),
    {
        self.mode != Mode::Ready
    }

    /// Takes the next byte of the input.  Returns the input that the byte
    /// completes, if it completes one.
    pub fn feed(&mut self, b: u8) -> (input: Option<InputSeq>)
        ensures
            (final(self)@, input) == step(old(self)@, b),
    {
        match self.mode {
            Mode::Args => {
                if b == 0x52 || b == 0x41 || b == 0x42 || b == 0x43 || b == 0x44 {
                    let seq = decode_sequence(b, self.args.as_slice());
                    self.mode = Mode::Ready;
                    self.args.clear();
                    Some(seq)
                } else {
                    self.args.push(b);
                    None
                }
            },
            Mode::Escape => {
                if b == 0x5b {
                    self.mode = Mode::Args;
                    self.args.clear();
                    None
                } else if b == ESC {
                    None
                } else {
                    self.mode = Mode::Ready;
                    Some(decode_key(b))
                }
            },
            Mode::Ready => {
                if b == ESC {
                    self.mode = Mode::Escape;
                    None
                } else {
                    Some(decode_key(b))
                }
            },
        }
    }

    /// Feeds all of `bytes` and returns the inputs they complete, in order.
    pub fn feed_all(&mut self, bytes: &[u8]) -> (inputs: Vec<InputSeq>)
        ensures
            (final(self)@, inputs@) == run(old(self)@, bytes@),
    {
        let mut inputs: Vec<InputSeq> = Vec::new();
        let mut i: usize = 0;
        while i < bytes.len()
            invariant
                0 <= i <= bytes@.len(),
                (self@, inputs@) == run(old(self)@, bytes@.take(i as int)),
            decreases bytes@.len() - i,
        {
            proof {
                assert(bytes@.take(i + 1).drop_last() =~= bytes@.take(i as int));
            }
            match self.feed(bytes[i]) {
                Some(seq) => {
                    inputs.push(seq);
                },
                None => {},
            }
            i += 1;
        }
        proof {
            assert(bytes@.take(bytes@.len() as int) =~= bytes@);
        }
        inputs
    }
}

} // verus!
