use term_markdown::text::str_width;
use term_markdown::wrap::{rows_for_piece_widths, wrapped_row_count};

#[test]
fn short_text_takes_one_row() {
    assert_eq!(wrapped_row_count("hello world", 80), 1);
}

#[test]
fn long_text_wraps_across_multiple_rows() {
    let text = "a ".repeat(50); // 100 cols wide
    assert_eq!(wrapped_row_count(&text, 20), 5);
}

#[test]
fn single_overlong_word_force_wraps() {
    let text = "x".repeat(45);
    assert_eq!(wrapped_row_count(&text, 20), 3); // 20 + 20 + 5
}

#[test]
fn row_count_does_not_truncate_past_old_u16_limit() {
    let text = "x".repeat(70_000);
    assert_eq!(wrapped_row_count(&text, 1), 70_000);
}

#[test]
fn empty_text_still_takes_one_row() {
    assert_eq!(wrapped_row_count("", 10), 1);
}

#[test]
fn zero_width_takes_one_row() {
    assert_eq!(wrapped_row_count("abc def ghi", 0), 1);
    assert_eq!(wrapped_row_count("abc def ghi", 1), 11);
}

#[test]
fn wide_characters_count_two_columns() {
    assert_eq!(str_width("日本"), 4);
    assert_eq!(wrapped_row_count("日本語", 4), 2);
}

#[test]
fn piece_widths_pack_greedily() {
    // pieces of 3, 3 and 3 columns in a 7-column row: two fit, one wraps
    assert_eq!(rows_for_piece_widths(&vec![3, 3, 3], 7), 2);
    // an overlong piece is split across rows
    assert_eq!(rows_for_piece_widths(&vec![15], 7), 3);
}

#[test]
fn no_column_is_lost_in_wrapping() {
    for (text, width) in [("a ".repeat(50), 20u16), ("x".repeat(45), 20), ("hello world".to_string(), 80), ("ab cd ef".to_string(), 3)] {
        let rows = wrapped_row_count(&text, width) as usize;
        assert!(str_width(&text) <= rows * width as usize);
        assert!(rows <= str_width(&text).max(1));
    }
}
