use kilo_editor::editor::{CursorDir, Editor, SIZE_QUERY};
use kilo_editor::input::{Decoder, InputSeq, SpecialKey};

#[test]
fn new_editor_starts_at_the_origin() {
    let e = Editor::new(Some((80, 24)));
    assert_eq!((e.cx, e.cy), (0, 0));
    assert_eq!(e.screen_cols, 80);
    assert_eq!(e.screen_rows, 24);
    assert!(e.has_screen_size());
    let unknown = Editor::new(None);
    assert_eq!((unknown.screen_cols, unknown.screen_rows), (0, 0));
    assert!(!unknown.has_screen_size());
}

#[test]
fn cursor_moves_one_step() {
    let mut e = Editor::new(Some((80, 24)));
    e.move_cursor(CursorDir::Down);
    e.move_cursor(CursorDir::Down);
    e.move_cursor(CursorDir::Right);
    assert_eq!((e.cx, e.cy), (1, 2));
    e.move_cursor(CursorDir::Up);
    e.move_cursor(CursorDir::Left);
    assert_eq!((e.cx, e.cy), (0, 1));
}

#[test]
fn cursor_stops_at_the_limits() {
    let mut e = Editor::new(None);
    e.move_cursor(CursorDir::Up);
    e.move_cursor(CursorDir::Left);
    assert_eq!((e.cx, e.cy), (0, 0));
    e.cx = usize::MAX;
    e.cy = usize::MAX;
    e.move_cursor(CursorDir::Down);
    e.move_cursor(CursorDir::Right);
    assert_eq!((e.cx, e.cy), (usize::MAX, usize::MAX));
}

#[test]
fn keys_move_the_cursor() {
    let mut e = Editor::new(Some((80, 24)));
    assert!(!e.process_sequence(InputSeq::Key(b's', false)));
    assert!(!e.process_sequence(InputSeq::SpecialKey(SpecialKey::Down)));
    assert!(!e.process_sequence(InputSeq::Key(b'd', false)));
    assert!(!e.process_sequence(InputSeq::SpecialKey(SpecialKey::Right)));
    assert_eq!((e.cx, e.cy), (2, 2));
    assert!(!e.process_sequence(InputSeq::Key(b'w', false)));
    assert!(!e.process_sequence(InputSeq::SpecialKey(SpecialKey::Left)));
    assert_eq!((e.cx, e.cy), (1, 1));
    assert!(!e.process_sequence(InputSeq::SpecialKey(SpecialKey::Up)));
    assert!(!e.process_sequence(InputSeq::Key(b'a', false)));
    assert_eq!((e.cx, e.cy), (0, 0));
}

#[test]
fn other_inputs_leave_the_editor_alone() {
    let mut e = Editor::new(Some((80, 24)));
    e.cx = 4;
    e.cy = 5;
    let before = e;
    assert!(!e.process_sequence(InputSeq::Key(b'w', true)));
    assert!(!e.process_sequence(InputSeq::Key(b'x', false)));
    assert!(!e.process_sequence(InputSeq::Key(b'q', false)));
    assert!(!e.process_sequence(InputSeq::Unidentified));
    assert!(!e.process_sequence(InputSeq::Cursor(3, 3)));
    assert_eq!(e, before);
}

#[test]
fn ctrl_q_ends_the_editor() {
    let mut e = Editor::new(Some((80, 24)));
    let before = e;
    assert!(e.process_sequence(InputSeq::Key(b'q', true)));
    assert_eq!(e, before);
}

#[test]
fn size_is_asked_for_only_when_unknown() {
    assert_eq!(SIZE_QUERY.to_vec(), b"\x1b[9999C\x1b[9999B\x1b[6n".to_vec());
    assert_eq!(Editor::new(None).size_query(), SIZE_QUERY.to_vec());
    assert_eq!(Editor::new(Some((0, 24))).size_query(), SIZE_QUERY.to_vec());
    assert_eq!(Editor::new(Some((80, 0))).size_query(), SIZE_QUERY.to_vec());
    assert!(Editor::new(Some((80, 24))).size_query().is_empty());
}

#[test]
fn cursor_report_sets_the_size() {
    let mut e = Editor::new(None);
    assert!(!e.accept_size(InputSeq::Unidentified));
    assert!(!e.accept_size(InputSeq::Key(b'a', false)));
    assert_eq!(e, Editor::new(None));
    let report = Decoder::new().feed_all(b"\x1b[24;80R");
    assert!(e.accept_size(report[0]));
    assert_eq!(e.screen_rows, 24);
    assert_eq!(e.screen_cols, 80);
    assert_eq!((e.cx, e.cy), (0, 0));
}

#[test]
fn rows_of_a_small_screen() {
    let e = Editor::new(Some((10, 3)));
    let mut buf = b">".to_vec();
    e.write_rows("1", &mut buf);
    // the welcome text is cut to the ten columns of the screen
    assert_eq!(buf, b">~\x1b[K\r\nKilo edito\x1b[K\r\n~\x1b[K".to_vec());
}

#[test]
fn welcome_line_is_centred() {
    let e = Editor::new(Some((40, 6)));
    let mut buf = Vec::new();
    e.write_rows("0.1.0", &mut buf);
    let text = String::from_utf8(buf).unwrap();
    let lines: Vec<&str> = text.split("\r\n").collect();
    assert_eq!(lines.len(), 6);
    assert_eq!(lines[0], "~\x1b[K");
    assert_eq!(lines[1], "~\x1b[K");
    // 28 characters of text in 40 columns: padding of 6, one of it the tilde
    assert_eq!(lines[2], "~     Kilo editor -- version 0.1.0\x1b[K");
    assert_eq!(lines[5], "~\x1b[K");
}

#[test]
fn welcome_line_without_room_for_padding() {
    let e = Editor::new(Some((29, 1)));
    let mut buf = Vec::new();
    e.write_rows("0.1.0", &mut buf);
    assert_eq!(buf, b"Kilo editor -- version 0.1.0\x1b[K".to_vec());
    let e = Editor::new(Some((30, 1)));
    let mut buf = Vec::new();
    e.write_rows("0.1.0", &mut buf);
    assert_eq!(buf, b"~Kilo editor -- version 0.1.0\x1b[K".to_vec());
}

#[test]
fn no_rows_without_a_screen() {
    let e = Editor::new(None);
    let mut buf = Vec::new();
    e.write_rows("0.1.0", &mut buf);
    assert!(buf.is_empty());
}

#[test]
fn repaint_wraps_the_rows() {
    let mut e = Editor::new(Some((4, 2)));
    e.cx = 11;
    e.cy = 0;
    let frame = e.refresh_screen("9");
    assert_eq!(frame, b"\x1b[?25l\x1b[HKilo\x1b[K\r\n~\x1b[K\x1b[1;12H\x1b[?25h".to_vec());
}

#[test]
fn repaint_at_the_largest_cursor() {
    let mut e = Editor::new(None);
    e.cx = usize::MAX;
    e.cy = 9;
    let frame = e.refresh_screen("9");
    let expected = format!("\x1b[?25l\x1b[H\x1b[10;{}H\x1b[?25h", usize::MAX as u128 + 1);
    assert_eq!(frame, expected.into_bytes());
}
