use kilo_editor::row::{is_row_text, Row};

#[test]
fn new_row_keeps_text_and_is_dirty() {
    let row = Row::new("hello");
    assert_eq!(row.buffer(), "hello");
    assert_eq!(row.render(), "hello");
    assert_eq!(row.len(), 5);
    assert!(row.dirty());
    assert!(row.indices().is_empty());
}

#[test]
fn empty_row() {
    let row = Row::new("");
    assert_eq!(row.len(), 0);
    assert_eq!(row.buffer(), "");
    assert_eq!(row.render(), "");
    assert!(row.indices().is_empty());
    assert_eq!(row.char_at_checked(0), None);
    assert_eq!(row.rx_from_cx(0), 0);
    assert_eq!(row.cx_from_rx(0), 0);
    assert_eq!(row.cx_from_rx(7), 0);
}

#[test]
fn len_counts_characters_not_bytes() {
    let row = Row::new("aあb");
    assert_eq!(row.buffer().len(), 5);
    assert_eq!(row.len(), 3);
    assert_eq!(row.indices(), &vec![0, 1, 4]);
}

#[test]
fn byte_index_of_each_character() {
    let row = Row::new("é日𝄞x");
    assert_eq!(row.len(), 4);
    assert_eq!(row.byte_idx_of(0), 0);
    assert_eq!(row.byte_idx_of(1), 2);
    assert_eq!(row.byte_idx_of(2), 5);
    assert_eq!(row.byte_idx_of(3), 9);
    assert_eq!(row.byte_idx_of(4), 10);
    assert_eq!(row.indices(), &vec![0, 2, 5, 9]);
}

#[test]
fn byte_index_in_single_byte_row_is_the_index() {
    let row = Row::new("abc");
    assert_eq!(row.byte_idx_of(0), 0);
    assert_eq!(row.byte_idx_of(2), 2);
    assert_eq!(row.byte_idx_of(3), 3);
}

#[test]
fn char_index_of_byte_offsets() {
    let row = Row::new("é日𝄞x");
    assert_eq!(row.char_idx_of(0), 0);
    assert_eq!(row.char_idx_of(2), 1);
    assert_eq!(row.char_idx_of(5), 2);
    assert_eq!(row.char_idx_of(9), 3);
    assert_eq!(row.char_idx_of(10), 4);
    let ascii = Row::new("abc");
    assert_eq!(ascii.char_idx_of(2), 2);
    assert_eq!(ascii.char_idx_of(3), 3);
}

#[test]
fn char_at_returns_the_character() {
    let row = Row::new("aあb");
    assert_eq!(row.char_at(0), 'a');
    assert_eq!(row.char_at(1), 'あ');
    assert_eq!(row.char_at(2), 'b');
}

#[test]
fn char_at_checked_past_the_end_is_none() {
    let row = Row::new("aあb");
    assert_eq!(row.char_at_checked(2), Some('b'));
    assert_eq!(row.char_at_checked(3), None);
    assert_eq!(row.char_at_checked(100), None);
}

#[test]
fn tab_at_start_reaches_column_eight() {
    let row = Row::new("\t");
    assert_eq!(row.rx_from_cx(0), 0);
    assert_eq!(row.rx_from_cx(1), 8);
    assert_eq!(row.render(), "        ");
}

#[test]
fn tab_after_a_letter_reaches_the_same_stop() {
    let row = Row::new("a\tb");
    assert_eq!(row.rx_from_cx(1), 1);
    assert_eq!(row.rx_from_cx(2), 8);
    assert_eq!(row.rx_from_cx(3), 9);
    assert_eq!(row.render(), "a       b");
}

#[test]
fn tab_at_a_tab_stop_takes_eight_columns() {
    let row = Row::new("12345678\tx");
    assert_eq!(row.rx_from_cx(8), 8);
    assert_eq!(row.rx_from_cx(9), 16);
    assert_eq!(row.render(), "12345678        x");
}

#[test]
fn wide_characters_take_two_columns() {
    let row = Row::new("あいu");
    assert_eq!(row.rx_from_cx(0), 0);
    assert_eq!(row.rx_from_cx(1), 2);
    assert_eq!(row.rx_from_cx(2), 4);
    assert_eq!(row.rx_from_cx(3), 5);
    assert_eq!(row.render(), "あいu");
}

#[test]
fn column_to_index_walks_cells() {
    let row = Row::new("a\tあb");
    // cells: a = 0, tab = 1..8, あ = 8..10, b = 10
    assert_eq!(row.cx_from_rx(0), 0);
    assert_eq!(row.cx_from_rx(1), 1);
    assert_eq!(row.cx_from_rx(7), 1);
    assert_eq!(row.cx_from_rx(8), 2);
    assert_eq!(row.cx_from_rx(9), 2);
    assert_eq!(row.cx_from_rx(10), 3);
    assert_eq!(row.cx_from_rx(11), 4);
    assert_eq!(row.cx_from_rx(1000), 4);
}

#[test]
fn column_round_trip_on_every_index() {
    for text in ["", "abc", "a\tb", "\t\t", "あ\tいu", "e\u{301}x", "12345678\t"] {
        let row = Row::new(text);
        for i in 0..=row.len() {
            let rx = row.rx_from_cx(i);
            let j = row.cx_from_rx(rx);
            assert!(j <= row.len());
            assert_eq!(row.rx_from_cx(j), rx);
        }
    }
}

#[test]
fn zero_width_character_shares_its_column() {
    let row = Row::new("e\u{301}x");
    assert_eq!(row.rx_from_cx(1), 1);
    assert_eq!(row.rx_from_cx(2), 1);
    assert_eq!(row.rx_from_cx(3), 2);
    // the index found for column 1 is the last one that starts there
    assert_eq!(row.cx_from_rx(1), 2);
}

#[test]
fn insert_char_in_the_middle() {
    let mut row = Row::new("ac");
    row.set_dirty(false);
    row.insert_char(1, 'b');
    assert_eq!(row.buffer(), "abc");
    assert_eq!(row.render(), "abc");
    assert!(row.dirty());
}

#[test]
fn insert_char_past_the_end_appends() {
    let mut row = Row::new("ab");
    row.insert_char(2, 'c');
    assert_eq!(row.buffer(), "abc");
    row.insert_char(100, 'd');
    assert_eq!(row.buffer(), "abcd");
}

#[test]
fn insert_multibyte_char_rebuilds_the_cache() {
    let mut row = Row::new("ab");
    assert!(row.indices().is_empty());
    row.insert_char(1, 'あ');
    assert_eq!(row.buffer(), "aあb");
    assert_eq!(row.indices(), &vec![0, 1, 4]);
    row.insert_char(2, 'い');
    assert_eq!(row.buffer(), "aあいb");
    assert_eq!(row.indices(), &vec![0, 1, 4, 7]);
    row.insert_char(0, '\t');
    assert_eq!(row.render(), "        aあいb");
}

#[test]
fn insert_str_in_the_middle_and_at_the_end() {
    let mut row = Row::new("あう");
    row.insert_str(1, "い");
    assert_eq!(row.buffer(), "あいう");
    row.insert_str(3, "えお");
    assert_eq!(row.buffer(), "あいうえお");
    row.insert_str(99, "!");
    assert_eq!(row.buffer(), "あいうえお!");
    row.insert_str(0, "");
    assert_eq!(row.buffer(), "あいうえお!");
    assert_eq!(row.len(), 6);
}

#[test]
fn delete_char_removes_one_character() {
    let mut row = Row::new("aあb");
    row.delete_char(1);
    assert_eq!(row.buffer(), "ab");
    assert!(row.indices().is_empty());
    row.delete_char(0);
    assert_eq!(row.buffer(), "b");
}

#[test]
fn delete_char_past_the_end_does_nothing() {
    let mut row = Row::new("ab");
    row.set_dirty(false);
    row.delete_char(2);
    assert_eq!(row.buffer(), "ab");
    assert!(!row.dirty());
    row.delete_char(1);
    assert!(row.dirty());
    assert_eq!(row.buffer(), "a");
}

#[test]
fn append_adds_to_the_end() {
    let mut row = Row::new("a\t");
    row.set_dirty(false);
    row.append("bあ");
    assert_eq!(row.buffer(), "a\tbあ");
    assert_eq!(row.render(), "a       bあ");
    assert!(row.dirty());
    assert_eq!(row.indices(), &vec![0, 1, 2, 3]);
}

#[test]
fn append_of_nothing_leaves_the_row_clean() {
    let mut row = Row::new("abc");
    row.set_dirty(false);
    row.append("");
    assert!(!row.dirty());
    assert_eq!(row.buffer(), "abc");
    let mut dirty_row = Row::new("abc");
    dirty_row.append("");
    assert!(dirty_row.dirty());
}

#[test]
fn truncate_drops_the_tail() {
    let mut row = Row::new("aあbい");
    row.set_dirty(false);
    row.truncate(2);
    assert_eq!(row.buffer(), "aあ");
    assert!(row.dirty());
    row.truncate(0);
    assert_eq!(row.buffer(), "");
    assert_eq!(row.len(), 0);
}

#[test]
fn truncate_past_the_end_does_nothing() {
    let mut row = Row::new("abc");
    row.set_dirty(false);
    row.truncate(3);
    assert_eq!(row.buffer(), "abc");
    assert!(!row.dirty());
    row.truncate(10);
    assert_eq!(row.buffer(), "abc");
    assert!(!row.dirty());
}

#[test]
fn remove_takes_out_a_range() {
    let mut row = Row::new("aあbいc");
    row.set_dirty(false);
    row.remove(1, 4);
    assert_eq!(row.buffer(), "ac");
    assert!(row.dirty());
    let mut whole = Row::new("あい");
    whole.remove(0, 2);
    assert_eq!(whole.buffer(), "");
}

#[test]
fn remove_of_an_empty_or_outside_range_does_nothing() {
    let mut row = Row::new("abc");
    row.set_dirty(false);
    row.remove(2, 2);
    row.remove(2, 1);
    row.remove(1, 4);
    row.remove(5, 9);
    assert_eq!(row.buffer(), "abc");
    assert!(!row.dirty());
}

#[test]
fn slices_go_by_character() {
    let row = Row::new("aあbいc");
    assert_eq!(row.slice(1, 3), "あb");
    assert_eq!(row.slice(2, 2), "");
    assert_eq!(row.slice_from(3), "いc");
    assert_eq!(row.slice_from(5), "");
    assert_eq!(row.slice_to(2), "aあ");
    assert_eq!(row.slice_to(0), "");
    assert_eq!(row.slice_inclusive(1, 3), "あbい");
    assert_eq!(row.slice_to_inclusive(1), "aあ");
}

#[test]
fn row_text_has_no_control_characters_but_tabs() {
    assert!(is_row_text(""));
    assert!(is_row_text("a\tb あ \u{a0}~"));
    assert!(!is_row_text("a\nb"));
    assert!(!is_row_text("\0"));
    assert!(!is_row_text("a\u{1b}[K"));
    assert!(!is_row_text("\u{7f}"));
    assert!(!is_row_text("x\u{9f}"));
}

#[test]
fn index_by_a_range_of_characters() {
    let row = Row::new("aあbいc");
    assert_eq!(&row[1..3], "あb");
    assert_eq!(&row[0..5], "aあbいc");
    assert_eq!(&row[4..4], "");
}

#[test]
fn default_row_is_empty_and_clean() {
    let row = Row::default();
    assert_eq!(row.len(), 0);
    assert_eq!(row.buffer(), "");
    assert_eq!(row.render(), "");
    assert!(!row.dirty());
    assert!(row.indices().is_empty());
}

#[test]
fn cache_is_empty_or_ascending() {
    for text in ["", "abc", "aあ", "あ", "é日𝄞x", "\tあ\t"] {
        let mut row = Row::new(text);
        row.insert_char(1, 'x');
        row.append("い");
        row.delete_char(0);
        let cache = row.indices();
        assert!(!cache.is_empty());
        assert_eq!(cache.len(), row.len());
        for w in cache.windows(2) {
            assert!(w[0] < w[1]);
        }
        assert!(*cache.last().unwrap() < row.buffer().len());
        row.truncate(0);
        assert!(row.indices().is_empty());
    }
}
