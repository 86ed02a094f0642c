//! The attributes of the terminal that the editor changes to read keys as
//! they are typed.

use vstd::prelude::*;

verus! {

/// The attributes of a terminal: its four words of flags, and for reads
/// the least number of bytes to wait for and the time to wait in tenths of
/// a second.
#[derive(Clone, Copy, PartialEq, Eq, Debug, Structural)]
pub struct TermAttrs {
    pub input_flags: u64,
    pub output_flags: u64,
    pub control_flags: u64,
    pub local_flags: u64,
    pub min_bytes: u8,
    pub timeout: u8,
}

/// The bits that stand for each flag on the platform at hand.
#[derive(Clone, Copy, PartialEq, Eq, Debug, Structural)]
pub struct FlagBits {
    /// Local flags: echo what is typed.
    pub echo: u64,
    /// Local flags: hand over input line by line.
    pub icanon: u64,
    /// Local flags: turn Ctrl-C and Ctrl-Z into signals.
    pub isig: u64,
    /// Local flags: treat Ctrl-V specially.
    pub iexten: u64,
    /// Input flags: stop and resume output on Ctrl-S and Ctrl-Q.
    pub ixon: u64,
    /// Input flags: hand over a carriage return as a line feed.
    pub icrnl: u64,
    /// Input flags: turn a break into a signal.
    pub brkint: u64,
    /// Input flags: check parity.
    pub inpck: u64,
    /// Input flags: strip the eighth bit.
    pub istrip: u64,
    /// Output flags: process the output, so that a line feed also returns
    /// the carriage.
    pub opost: u64,
    /// Control flags: characters of eight bits.
    pub cs8: u64,
}

impl FlagBits {
    /// The local flags that raw mode turns off.
    pub open spec fn local_off(self) -> u64 {
        self.echo | self.icanon | self.isig | self.iexten
    }

    /// The input flags that raw mode turns off.
    pub open spec fn input_off(self) -> u64 {
        self.ixon | self.icrnl | self.brkint | self.inpck | self.istrip
    }
}

/// The attributes of raw mode.  Nothing is echoed, input comes byte by
/// byte, and no key sends a signal or is special.  On input there is no
/// flow control, a carriage return stays one, a break sends no signal, and
/// no parity is checked or eighth bit stripped.  Output is not processed.
/// Characters have eight bits.  A read returns after a tenth of a second,
/// with no byte if none has come.  All other flags stay as they are.
pub open spec fn raw_mode(attrs: TermAttrs, bits: FlagBits) -> TermAttrs {
    TermAttrs {
        local_flags: attrs.local_flags & !bits.local_off(),
        input_flags: attrs.input_flags & !bits.input_off(),
        output_flags: attrs.output_flags & !bits.opost,
        control_flags: attrs.control_flags | bits.cs8,
        min_bytes: 0,
        timeout: 1,
    }
}

/// In raw mode every flag that it turns off is off, the character size is
/// set, and a bit that belongs to none of these flags is as it was.
pub proof fn lemma_raw_mode_flags(attrs: TermAttrs, bits: FlagBits, other: u64)
    ensures
        raw_mode(attrs, bits).local_flags & bits.echo == 0,
        raw_mode(attrs, bits).local_flags & bits.icanon == 0,
        raw_mode(attrs, bits).local_flags & bits.isig == 0,
        raw_mode(attrs, bits).local_flags & bits.iexten == 0,
        raw_mode(attrs, bits).input_flags & bits.ixon == 0,
        raw_mode(attrs, bits).input_flags & bits.icrnl == 0,
        raw_mode(attrs, bits).input_flags & bits.brkint == 0,
        raw_mode(attrs, bits).input_flags & bits.inpck == 0,
        raw_mode(attrs, bits).input_flags & bits.istrip == 0,
        raw_mode(attrs, bits).output_flags & bits.opost == 0,
        raw_mode(attrs, bits).control_flags & bits.cs8 == bits.cs8,
        other & bits.local_off() == 0 ==> raw_mode(attrs, bits).local_flags & other
            == attrs.local_flags & other,
        other & bits.input_off() == 0 ==> raw_mode(attrs, bits).input_flags & other
            == attrs.input_flags & other,
        other & bits.opost == 0 ==> raw_mode(attrs, bits).output_flags & other
            == attrs.output_flags & other,
        other & bits.cs8 == 0 ==> raw_mode(attrs, bits).control_flags & other
            == attrs.control_flags & other,
{
    let l = attrs.local_flags;
    let (a, b, c, d) = (bits.echo, bits.icanon, bits.isig, bits.iexten);
    assert((l & !(a | b | c | d)) & a == 0 && (l & !(a | b | c | d)) & b == 0 && (l & !(a | b | c
        | d)) & c == 0 && (l & !(a | b | c | d)) & d == 0 && (other & (a | b | c | d) == 0 ==> (l
        & !(a | b | c | d)) & other == l & other)) by (bit_vector);
    let i = attrs.input_flags;
    let (a, b, c, d, e) = (bits.ixon, bits.icrnl, bits.brkint, bits.inpck, bits.istrip);
    assert((i & !(a | b | c | d | e)) & a == 0 && (i & !(a | b | c | d | e)) & b == 0 && (i & !(a
        | b | c | d | e)) & c == 0 && (i & !(a | b | c | d | e)) & d == 0 && (i & !(a | b | c | d
        | e)) & e == 0 && (other & (a | b | c | d | e) == 0 ==> (i & !(a | b | c | d | e)) & other
        == i & other)) by (bit_vector);
    let o = attrs.output_flags;
    let p = bits.opost;
    assert((o & !p) & p == 0 && (other & p == 0 ==> (o & !p) & other == o & other))
        by (bit_vector);
    let c = attrs.control_flags;
    let s = bits.cs8;
    assert((c | s) & s == s && (other & s == 0 ==> (c | s) & other == c & other))
        by (bit_vector);
}

/// The attributes to set for raw mode on a terminal that has `attrs`.
pub fn make_raw(attrs: TermAttrs, bits: &FlagBits) -> (raw: TermAttrs)
    ensures
        raw == raw_mode(attrs, *bits),
{
    TermAttrs {
        local_flags: attrs.local_flags & !(bits.echo | bits.icanon | bits.isig | bits.iexten),
        input_flags: attrs.input_flags & !(bits.ixon | bits.icrnl | bits.brkint | bits.inpck
            | bits.istrip),
        output_flags: attrs.output_flags & !bits.opost,
        control_flags: attrs.control_flags | bits.cs8,
        min_bytes: 0,
        timeout: 1,
    }
}

} // verus!
