//! Positions and their offsets.

use deps_core::position::{LineOffsetTable, Position, Range};

fn offset(content: &str, line: u32, character: u32) -> usize {
    LineOffsetTable::new(content).position_to_offset(Position::new(line, character))
}

#[test]
fn offsets_count_characters_from_the_start() {
    assert_eq!(offset("ab\ncd", 0, 0), 0);
    assert_eq!(offset("ab\ncd", 0, 2), 2);
    assert_eq!(offset("ab\ncd", 1, 1), 4);
    assert_eq!(offset("ab\r\ncd", 1, 0), 4);
}

#[test]
fn columns_beyond_a_line_stand_for_its_end() {
    assert_eq!(offset("ab\ncd", 0, 99), 2);
    assert_eq!(offset("ab\ncd\n", 2, 5), 6);
}

#[test]
fn lines_beyond_the_document_stand_for_its_end() {
    assert_eq!(offset("ab\ncd", 7, 0), 5);
    assert_eq!(offset("", 0, 3), 0);
}

#[test]
fn columns_are_counted_in_utf16_code_units() {
    assert_eq!(offset("\u{e9}x", 0, 1), 1);
    assert_eq!(offset("\u{1D11E}x", 0, 2), 1);
    assert_eq!(offset("\u{1D11E}x", 0, 3), 2);
    // A column inside a character covers the character.
    assert_eq!(offset("\u{1D11E}x", 0, 1), 1);
}

#[test]
fn default_range_is_empty_at_the_start() {
    assert_eq!(Range::default(), Range::new(Position::new(0, 0), Position::new(0, 0)));
}
