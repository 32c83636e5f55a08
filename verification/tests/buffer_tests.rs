use exa::buffer::Buffer;
use exa::position::Position;

fn buffer_from(bytes: &[u8]) -> Buffer {
    Buffer::new(bytes.to_vec(), String::from("scratch.txt"))
}

fn gap_in_bounds(b: &Buffer) -> bool {
    b.gap_start <= b.gap_end && b.gap_end <= b.buffer.len()
}

#[test]
fn new_buffer_starts_at_origin() {
    let b = buffer_from(b"hello");
    assert_eq!(b.buffer, b"hello".to_vec());
    assert_eq!(b.gap_start, 0);
    assert_eq!(b.gap_end, 0);
    assert_eq!(b.gap_len(), 0);
    assert_eq!(b.cursor().offset, 0);
    assert_eq!(b.cursor().position, Position::new(0, 0));
    assert_eq!(b.path().as_str(), "scratch.txt");
    assert_eq!(b.content(), b"hello".to_vec());
}

#[test]
fn crlf_detected_from_last_line_feed() {
    assert!(buffer_from(b"one\r\ntwo\r\n").is_crlf());
    assert!(buffer_from(b"x\r\nyz").is_crlf());
    assert!(!buffer_from(b"one\ntwo\n").is_crlf());
    assert!(!buffer_from(b"a\nb").is_crlf());
    assert!(!buffer_from(b"no newline at all").is_crlf());
    assert!(!buffer_from(b"\n").is_crlf());
    assert!(!buffer_from(b"").is_crlf());
    // Only the last line feed decides: a CR elsewhere does not count.
    assert!(!buffer_from(b"a\r\nb\nc").is_crlf());
    assert!(buffer_from(b"a\nb\r\nc").is_crlf());
}

#[test]
fn detect_crlf_directly() {
    assert!(exa::buffer::detect_crlf(b"line\r\n"));
    assert!(!exa::buffer::detect_crlf(b"line\n"));
    assert!(!exa::buffer::detect_crlf(b"line"));
    assert!(!exa::buffer::detect_crlf(b""));
}

#[test]
fn clamped_column_then_insert() {
    // Buffer content "ab\ncd", no gap. Column 5 is unreachable on line 0:
    // the cursor clamps to the end of that line, at the line feed.
    let mut b = buffer_from(b"ab\ncd");
    b.cursor_place(Position::new(0, 5));
    assert_eq!(b.cursor().position, Position::new(0, 2));
    assert_eq!(b.cursor().offset, 2);
    b.insert(b"X");
    assert_eq!(b.content(), b"abX\ncd".to_vec());
    assert_eq!(b.cursor().offset, 3);
}

#[test]
fn consecutive_inserts_into_empty_buffer() {
    let mut b = buffer_from(b"");
    b.insert(b"hi");
    b.insert(b"!");
    assert_eq!(b.content(), b"hi!".to_vec());
    // The gap sits immediately after the inserted bytes.
    assert_eq!(b.gap_start, 3);
    assert_eq!(b.cursor().offset, 3);
    assert!(gap_in_bounds(&b));
}

#[test]
fn insert_in_the_middle() {
    let mut b = buffer_from(b"hello world");
    b.cursor_place(Position::new(0, 5));
    b.insert(b",");
    assert_eq!(b.content(), b"hello, world".to_vec());
    assert_eq!(b.cursor().offset, 6);
    assert_eq!(b.cursor().position, Position::new(0, 6));
}

#[test]
fn insert_advances_column_by_byte_length() {
    let mut b = buffer_from(b"");
    b.insert(b"abc");
    assert_eq!(b.cursor().position, Position::new(0, 3));
    assert_eq!(b.cursor().offset, 3);
}

#[test]
fn gap_move_preserves_content() {
    let mut b = buffer_from(b"abcdef");
    b.gap_resize(4);
    assert_eq!(b.content(), b"abcdef".to_vec());
    let positions: [usize; 6] = [6, 0, 3, 1, 5, 2];
    for &p in positions.iter() {
        b.gap_move(p);
        assert_eq!(b.content(), b"abcdef".to_vec());
        assert_eq!(b.gap_len(), 4);
        assert!(gap_in_bounds(&b));
    }
}

#[test]
fn gap_move_relocates_gap() {
    let mut b = buffer_from(b"abcd");
    b.gap_resize(2);
    assert_eq!(b.gap_start, 0);
    assert_eq!(b.gap_end, 2);
    b.gap_move(4);
    assert_eq!(b.gap_start, 2);
    assert_eq!(b.gap_end, 4);
    assert_eq!(b.content(), b"abcd".to_vec());
    b.gap_move(1);
    assert_eq!(b.gap_start, 1);
    assert_eq!(b.gap_end, 3);
    assert_eq!(b.content(), b"abcd".to_vec());
}

#[test]
fn gap_move_inside_gap_is_a_no_op() {
    let mut b = buffer_from(b"abcd");
    b.gap_resize(3);
    let before = b.buffer.clone();
    b.gap_move(1);
    assert_eq!(b.gap_start, 0);
    assert_eq!(b.gap_end, 3);
    assert_eq!(b.buffer, before);
    b.gap_move(3);
    assert_eq!(b.gap_start, 0);
    assert_eq!(b.gap_end, 3);
    assert_eq!(b.buffer, before);
}

#[test]
fn gap_resize_grows_and_shrinks() {
    let mut b = buffer_from(b"abc");
    b.gap_resize(5);
    assert_eq!(b.gap_len(), 5);
    assert_eq!(b.buffer.len(), 8);
    assert_eq!(b.content(), b"abc".to_vec());
    assert!(gap_in_bounds(&b));
    b.gap_resize(1);
    assert_eq!(b.gap_len(), 1);
    assert_eq!(b.buffer.len(), 4);
    assert_eq!(b.content(), b"abc".to_vec());
    assert!(gap_in_bounds(&b));
    b.gap_resize(0);
    assert_eq!(b.gap_len(), 0);
    assert_eq!(b.buffer.len(), 3);
    assert_eq!(b.content(), b"abc".to_vec());
}

#[test]
fn gap_bytes_are_zeroed_after_a_move() {
    let mut b = buffer_from(b"abcdef");
    b.gap_resize(3);
    b.gap_move(6);
    for i in b.gap_start..b.gap_end {
        assert_eq!(b.buffer[i], 0);
    }
    b.gap_move(2);
    for i in b.gap_start..b.gap_end {
        assert_eq!(b.buffer[i], 0);
    }
}

#[test]
fn insert_reuses_a_large_enough_gap() {
    let mut b = buffer_from(b"abcd");
    b.gap_resize(8);
    let physical_len = b.buffer.len();
    b.insert(b"xy");
    assert_eq!(b.content(), b"xyabcd".to_vec());
    // The gap shrank by the insertion; storage did not grow.
    assert_eq!(b.gap_len(), 6);
    assert_eq!(b.buffer.len(), physical_len);
}

#[test]
fn place_at_end_of_buffer_line() {
    // Column unreachable on the last line, which has no line feed: the
    // cursor lands one past the final byte, the append position.
    let mut b = buffer_from(b"ab\ncd");
    b.cursor_place(Position::new(1, 9));
    assert_eq!(b.cursor().position, Position::new(1, 2));
    assert_eq!(b.cursor().offset, 5);
}

#[test]
fn place_beyond_last_line_clamps_to_buffer_end() {
    let mut b = buffer_from(b"ab\ncd");
    b.cursor_place(Position::new(9, 0));
    assert_eq!(b.cursor().offset, 5);
    assert_eq!(b.cursor().position, Position::new(1, 2));
}

#[test]
fn place_is_idempotent() {
    let mut b = buffer_from(b"ab\ncd");
    b.cursor_place(Position::new(0, 5));
    let first = b.cursor();
    b.cursor_place(Position::new(0, 5));
    assert_eq!(b.cursor(), first);
    b.cursor_place(Position::new(9, 9));
    let second = b.cursor();
    b.cursor_place(Position::new(9, 9));
    assert_eq!(b.cursor(), second);
}

#[test]
fn place_across_the_gap() {
    // Open a gap inside the text, then resolve a position past it: the
    // second locator pass runs over the span after the gap.
    let mut b = buffer_from(b"ab\ncd");
    b.cursor_place(Position::new(0, 2));
    b.insert(b"X");
    assert_eq!(b.content(), b"abX\ncd".to_vec());
    b.cursor_place(Position::new(1, 1));
    let c = b.cursor();
    assert_eq!(c.position, Position::new(1, 1));
    // "abX\ncd" with an empty gap after the X: 'd' sits at offset 5.
    assert_eq!(c.offset, 5);
    b.insert(b"Y");
    assert_eq!(b.content(), b"abX\ncYd".to_vec());
}

#[test]
fn place_on_empty_buffer() {
    let mut b = buffer_from(b"");
    b.cursor_place(Position::new(3, 7));
    assert_eq!(b.cursor().offset, 0);
    assert_eq!(b.cursor().position, Position::new(0, 0));
}

#[test]
fn insert_of_nothing_changes_nothing() {
    let mut b = buffer_from(b"abc");
    b.cursor_place(Position::new(0, 2));
    b.insert(b"");
    assert_eq!(b.content(), b"abc".to_vec());
    assert_eq!(b.cursor().offset, 2);
    assert_eq!(b.cursor().position, Position::new(0, 2));
}

#[test]
fn crlf_pair_alone_counts_as_crlf() {
    assert!(buffer_from(b"\r\n").is_crlf());
    assert!(!buffer_from(b"\r").is_crlf());
}

#[test]
fn place_back_to_origin() {
    let mut b = buffer_from(b"ab\ncd");
    b.cursor_place(Position::new(1, 1));
    b.cursor_place(Position::new(0, 0));
    assert_eq!(b.cursor().offset, 0);
    assert_eq!(b.cursor().position, Position::new(0, 0));
}

#[test]
fn save_round_trip_content() {
    let mut b = buffer_from(b"one\ntwo");
    b.cursor_place(Position::new(1, 0));
    b.insert(b"2");
    // What a save writes is the logical content, with no gap bytes in it.
    let written = b.content();
    assert_eq!(written, b"one\n2two".to_vec());
    let reloaded = Buffer::new(written, String::from("scratch.txt"));
    assert_eq!(reloaded.content(), b"one\n2two".to_vec());
}
