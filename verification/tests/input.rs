use kilo_editor::input::{
    decode_key, decode_sequence, parse_cursor_report, Decoder, InputSeq, SpecialKey,
};
use kilo_editor::number::{parse_usize, push_decimal};

fn decode_all(bytes: &[u8]) -> Vec<InputSeq> {
    Decoder::new().feed_all(bytes)
}

#[test]
fn control_byte_is_a_letter_with_ctrl() {
    assert_eq!(decode_key(0x01), InputSeq::Key(b'a', true));
    assert_eq!(decode_key(0x11), InputSeq::Key(b'q', true));
    assert_eq!(decode_key(0x1a), InputSeq::Key(b'z', true));
    assert_eq!(decode_key(0x1f), InputSeq::Key(0x7f, true));
    assert_eq!(decode_key(0x0d), InputSeq::Key(b'm', true));
}

#[test]
fn printable_byte_is_a_key_without_ctrl() {
    assert_eq!(decode_key(0x41), InputSeq::Key(b'A', false));
    assert_eq!(decode_key(0x20), InputSeq::Key(b' ', false));
    assert_eq!(decode_key(0x7e), InputSeq::Key(b'~', false));
    assert_eq!(decode_key(0x7f), InputSeq::Key(0x7f, false));
}

#[test]
fn other_bytes_are_unidentified() {
    assert_eq!(decode_key(0x00), InputSeq::Unidentified);
    assert_eq!(decode_key(0x80), InputSeq::Unidentified);
    assert_eq!(decode_key(0xe3), InputSeq::Unidentified);
    assert_eq!(decode_key(0xff), InputSeq::Unidentified);
}

#[test]
fn decoder_passes_plain_keys_through() {
    let mut d = Decoder::new();
    assert!(!d.in_sequence());
    assert_eq!(d.feed(0x01), Some(InputSeq::Key(b'a', true)));
    assert_eq!(d.feed(0x11), Some(InputSeq::Key(b'q', true)));
    assert_eq!(d.feed(0x41), Some(InputSeq::Key(b'A', false)));
    assert_eq!(d.feed(0x00), Some(InputSeq::Unidentified));
    assert!(!d.in_sequence());
}

#[test]
fn cursor_report_sequence() {
    assert_eq!(decode_all(b"\x1b[24;80R"), vec![InputSeq::Cursor(24, 80)]);
    let mut d = Decoder::new();
    for b in b"\x1b[24;80" {
        assert_eq!(d.feed(*b), None);
        assert!(d.in_sequence());
    }
    assert_eq!(d.feed(b'R'), Some(InputSeq::Cursor(24, 80)));
    assert!(!d.in_sequence());
}

#[test]
fn arrow_key_sequences() {
    assert_eq!(decode_all(b"\x1b[C"), vec![InputSeq::SpecialKey(SpecialKey::Right)]);
    assert_eq!(decode_all(b"\x1b[A"), vec![InputSeq::SpecialKey(SpecialKey::Up)]);
    assert_eq!(decode_all(b"\x1b[B"), vec![InputSeq::SpecialKey(SpecialKey::Down)]);
    assert_eq!(decode_all(b"\x1b[D"), vec![InputSeq::SpecialKey(SpecialKey::Left)]);
}

#[test]
fn arrow_keys_ignore_their_arguments() {
    assert_eq!(decode_all(b"\x1b[1;5C"), vec![InputSeq::SpecialKey(SpecialKey::Right)]);
    assert_eq!(decode_all(b"\x1b[xyzA"), vec![InputSeq::SpecialKey(SpecialKey::Up)]);
}

#[test]
fn escape_before_a_key_is_dropped() {
    assert_eq!(decode_all(b"\x1ba"), vec![InputSeq::Key(b'a', false)]);
    assert_eq!(decode_all(b"\x1b\x01"), vec![InputSeq::Key(b'a', true)]);
    assert_eq!(decode_all(b"\x1b\x1b\x1bq"), vec![InputSeq::Key(b'q', false)]);
    assert_eq!(decode_all(b"\x1b\x1b[D"), vec![InputSeq::SpecialKey(SpecialKey::Left)]);
    assert_eq!(decode_all(b"\x1b"), vec![]);
}

#[test]
fn malformed_cursor_reports_are_unidentified() {
    assert_eq!(decode_all(b"\x1b[R"), vec![InputSeq::Unidentified]);
    assert_eq!(decode_all(b"\x1b[24R"), vec![InputSeq::Unidentified]);
    assert_eq!(decode_all(b"\x1b[24;R"), vec![InputSeq::Unidentified]);
    assert_eq!(decode_all(b"\x1b[;80R"), vec![InputSeq::Unidentified]);
    assert_eq!(decode_all(b"\x1b[2a;80R"), vec![InputSeq::Unidentified]);
    assert_eq!(decode_all(b"\x1b[24;-1R"), vec![InputSeq::Unidentified]);
    assert_eq!(decode_all(b"\x1b[24; 80R"), vec![InputSeq::Unidentified]);
    assert_eq!(decode_all(b"\x1b[\xff;1R"), vec![InputSeq::Unidentified]);
}

#[test]
fn cursor_report_takes_the_first_two_fields() {
    assert_eq!(parse_cursor_report(b"24;80"), InputSeq::Cursor(24, 80));
    assert_eq!(parse_cursor_report(b"1;2;3"), InputSeq::Cursor(1, 2));
    assert_eq!(parse_cursor_report(b"1;2;"), InputSeq::Cursor(1, 2));
    assert_eq!(parse_cursor_report(b"1;2;x"), InputSeq::Cursor(1, 2));
    assert_eq!(parse_cursor_report(b"007;+9"), InputSeq::Cursor(7, 9));
    assert_eq!(parse_cursor_report(b"0;0"), InputSeq::Cursor(0, 0));
    assert_eq!(parse_cursor_report(b""), InputSeq::Unidentified);
    assert_eq!(parse_cursor_report(b";"), InputSeq::Unidentified);
    assert_eq!(parse_cursor_report(b"5"), InputSeq::Unidentified);
}

#[test]
fn decode_sequence_by_final_byte() {
    assert_eq!(decode_sequence(b'R', b"3;4"), InputSeq::Cursor(3, 4));
    assert_eq!(decode_sequence(b'A', b"3;4"), InputSeq::SpecialKey(SpecialKey::Up));
    assert_eq!(decode_sequence(b'Z', b""), InputSeq::Unidentified);
}

#[test]
fn inputs_follow_each_other_in_one_stream() {
    assert_eq!(
        decode_all(b"a\x1b[A\x11\x1b[3;4Rz\x80"),
        vec![
            InputSeq::Key(b'a', false),
            InputSeq::SpecialKey(SpecialKey::Up),
            InputSeq::Key(b'q', true),
            InputSeq::Cursor(3, 4),
            InputSeq::Key(b'z', false),
            InputSeq::Unidentified,
        ]
    );
}

#[test]
fn fragments_decode_like_the_whole_stream() {
    let stream = b"x\x1b[12;345R\x1b\x1b[B\x02";
    let whole = decode_all(stream);
    for cut in 0..=stream.len() {
        let mut d = Decoder::new();
        let mut got = d.feed_all(&stream[..cut]);
        got.extend(d.feed_all(&stream[cut..]));
        assert_eq!(got, whole);
    }
    assert_eq!(whole.len(), 4);
}

#[test]
fn parse_usize_reads_digits() {
    assert_eq!(parse_usize(b"0"), Some(0));
    assert_eq!(parse_usize(b"24"), Some(24));
    assert_eq!(parse_usize(b"+24"), Some(24));
    assert_eq!(parse_usize(b"000123"), Some(123));
    assert_eq!(parse_usize(b""), None);
    assert_eq!(parse_usize(b"+"), None);
    assert_eq!(parse_usize(b"-"), None);
    assert_eq!(parse_usize(b"-1"), None);
    assert_eq!(parse_usize(b"++1"), None);
    assert_eq!(parse_usize(b"1+"), None);
    assert_eq!(parse_usize(b"12a"), None);
    assert_eq!(parse_usize(b" 12"), None);
    assert_eq!(parse_usize(b"1_000"), None);
}

#[test]
fn parse_usize_agrees_with_std() {
    for text in [
        "0", "7", "+7", "-7", "", "+", "0009", "18446744073709551615", "18446744073709551616",
        "99999999999999999999999", "4294967295", "4294967296", "12x", "x12", "1 2", "٣",
    ] {
        assert_eq!(parse_usize(text.as_bytes()), text.parse::<usize>().ok(), "{}", text);
    }
}

#[test]
fn parse_usize_stops_at_the_largest_usize() {
    let max = format!("{}", usize::MAX);
    assert_eq!(parse_usize(max.as_bytes()), Some(usize::MAX));
    let mut over = max.clone().into_bytes();
    let last = over.len() - 1;
    over[last] += 1;
    assert_eq!(parse_usize(&over), None);
    let longer = format!("{}0", max);
    assert_eq!(parse_usize(longer.as_bytes()), None);
}

#[test]
fn push_decimal_writes_digits() {
    let mut buf = vec![b'x'];
    push_decimal(&mut buf, 0);
    buf.push(b',');
    push_decimal(&mut buf, 9);
    buf.push(b',');
    push_decimal(&mut buf, 10);
    buf.push(b',');
    push_decimal(&mut buf, 9999);
    buf.push(b',');
    push_decimal(&mut buf, 18446744073709551616);
    assert_eq!(buf, b"x0,9,10,9999,18446744073709551616".to_vec());
}

#[test]
fn written_numbers_are_read_back() {
    for n in [0usize, 1, 9, 10, 11, 99, 100, 12345, usize::MAX - 1, usize::MAX] {
        let mut buf = Vec::new();
        push_decimal(&mut buf, n as u128);
        assert_eq!(parse_usize(&buf), Some(n));
    }
}
