use exa::buffer::Buffer;
use exa::cursor::Cursor;
use exa::locate::locate;
use exa::position::Position;

fn origin() -> Cursor {
    Cursor::new(Position::new(0, 0), 0)
}

#[test]
fn locate_finds_exact_position() {
    let r = locate(b"ab\ncd", Position::new(1, 1), origin());
    assert_eq!(r, Ok(Cursor::new(Position::new(1, 1), 4)));
}

#[test]
fn locate_finds_start() {
    let r = locate(b"ab\ncd", Position::new(0, 0), origin());
    assert_eq!(r, Ok(Cursor::new(Position::new(0, 0), 0)));
}

#[test]
fn locate_clamps_to_end_of_line() {
    // Column 5 does not exist on line 0: the scan resolves at the line
    // feed that ends the line, keeping the reached column.
    let r = locate(b"ab\ncd", Position::new(0, 5), origin());
    assert_eq!(r, Ok(Cursor::new(Position::new(0, 2), 2)));
}

#[test]
fn locate_fails_past_the_end() {
    // The span runs out before line 9; the failure carries the cursor as
    // it last stood: past the final column, at the final cluster's offset.
    let r = locate(b"ab", Position::new(9, 0), origin());
    assert_eq!(r, Err(Cursor::new(Position::new(0, 2), 1)));
}

#[test]
fn locate_fails_on_empty_span() {
    let start = Cursor::new(Position::new(2, 7), 40);
    let r = locate(b"", Position::new(9, 9), start);
    assert_eq!(r, Err(start));
}

#[test]
fn locate_starts_from_seed_cursor() {
    // Seeded mid-buffer, as the second pass over the gap is.
    let seed = Cursor::new(Position::new(0, 3), 10);
    let r = locate(b"xy", Position::new(0, 4), seed);
    assert_eq!(r, Ok(Cursor::new(Position::new(0, 4), 11)));
}

#[test]
fn combining_mark_cluster_counts_one_column() {
    // "e" + combining acute is one grapheme cluster of three bytes: it
    // advances the column once, and the next column starts at offset 3.
    let text = "e\u{301}x".as_bytes();
    let r = locate(text, Position::new(0, 1), origin());
    assert_eq!(r, Ok(Cursor::new(Position::new(0, 1), 3)));
}

#[test]
fn multibyte_cluster_in_buffer_placement() {
    let mut b = Buffer::new("e\u{301}x".as_bytes().to_vec(), String::new());
    b.cursor_place(Position::new(0, 1));
    assert_eq!(b.cursor().position, Position::new(0, 1));
    assert_eq!(b.cursor().offset, 3);
    b.insert(b"-");
    assert_eq!(b.content(), "e\u{301}-x".as_bytes().to_vec());
}

#[test]
fn crlf_pair_is_one_cluster_and_ends_the_line() {
    // "\r\n" forms a single grapheme cluster; it both ends line 0 and
    // counts as the cluster the clamp resolves at.
    let r = locate(b"ab\r\ncd", Position::new(1, 1), origin());
    assert_eq!(r, Ok(Cursor::new(Position::new(1, 1), 5)));
    let clamped = locate(b"ab\r\ncd", Position::new(0, 9), origin());
    assert_eq!(clamped, Ok(Cursor::new(Position::new(0, 2), 2)));
}

#[test]
fn invalid_bytes_decode_to_replacement_characters() {
    // 0xFF is not valid UTF-8: the tolerant decode turns it into the
    // three-byte replacement character, so the next column begins at
    // offset 3 of the decoded text, not at raw offset 1.
    let r = locate(&[0xFF, b'a'], Position::new(0, 1), origin());
    assert_eq!(r, Ok(Cursor::new(Position::new(0, 1), 3)));
}

#[test]
fn line_feed_alone_is_matched_at_its_own_column() {
    // The position of the line feed itself is reachable as an exact match.
    let r = locate(b"ab\ncd", Position::new(0, 2), origin());
    assert_eq!(r, Ok(Cursor::new(Position::new(0, 2), 2)));
}

#[test]
fn lines_advance_and_columns_reset() {
    let r = locate(b"a\nb\nc", Position::new(2, 0), origin());
    assert_eq!(r, Ok(Cursor::new(Position::new(2, 0), 4)));
}
