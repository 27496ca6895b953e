use ts_query_ls::position::{
    byte_offset_to_lsp_position, byte_offset_to_ts_point, lsp_position_to_byte_offset,
    ts_point_to_byte_offset, ts_point_to_lsp_position, ToTsPoint,
};
use ts_query_ls::rope::rope_from_str;
use ts_query_ls::types::{Point, Position, PositionError};

#[test]
fn byte_to_lsp_and_back_ascii() {
    let rope = rope_from_str("hello\nworld\n");
    for b in 0..=12usize {
        let pos = byte_offset_to_lsp_position(b, &rope).unwrap();
        let back = lsp_position_to_byte_offset(pos, &rope).unwrap();
        assert_eq!(back, b);
    }
}

#[test]
fn byte_to_lsp_multibyte() {
    // 'é' is two bytes, the Gothic letter four, so UTF-16 columns diverge
    let text = "a\u{e9}\u{10348}z\nx";
    let rope = rope_from_str(text);
    let pos = byte_offset_to_lsp_position(3, &rope).unwrap();
    assert_eq!(pos, Position { line: 0, character: 2 });
    assert_eq!(lsp_position_to_byte_offset(pos, &rope).unwrap(), 3);
    // one past the four-byte character costs two UTF-16 units
    let pos = byte_offset_to_lsp_position(7, &rope).unwrap();
    assert_eq!(pos, Position { line: 0, character: 4 });
    assert_eq!(lsp_position_to_byte_offset(pos, &rope).unwrap(), 7);
    // a mid-character offset resolves to the character's first byte
    let pos = byte_offset_to_lsp_position(4, &rope).unwrap();
    assert_eq!(lsp_position_to_byte_offset(pos, &rope).unwrap(), 3);
}

#[test]
fn byte_to_point_and_back() {
    let text = "ab\ncdef\n\ng";
    let rope = rope_from_str(text);
    for b in 0..=text.len() {
        let p = byte_offset_to_ts_point(b, &rope).unwrap();
        assert_eq!(ts_point_to_byte_offset(p, &rope).unwrap(), b);
    }
    let p = byte_offset_to_ts_point(5, &rope).unwrap();
    assert_eq!(p, Point { row: 1, column: 2 });
}

#[test]
fn one_past_end_position_is_valid() {
    let rope = rope_from_str("ab");
    assert_eq!(
        lsp_position_to_byte_offset(Position { line: 0, character: 2 }, &rope).unwrap(),
        2
    );
    // the synthetic line one past the last maps to the byte length
    assert_eq!(
        lsp_position_to_byte_offset(Position { line: 1, character: 0 }, &rope).unwrap(),
        2
    );
}

#[test]
fn out_of_range_positions_fail() {
    let rope = rope_from_str("ab\ncd");
    assert_eq!(
        lsp_position_to_byte_offset(Position { line: 9, character: 0 }, &rope),
        Err(PositionError::OutOfRange)
    );
    assert_eq!(
        lsp_position_to_byte_offset(Position { line: 0, character: 99 }, &rope),
        Err(PositionError::OutOfRange)
    );
    assert_eq!(byte_offset_to_lsp_position(6, &rope), Err(PositionError::OutOfRange));
    assert_eq!(byte_offset_to_ts_point(6, &rope), Err(PositionError::OutOfRange));
    assert!(ts_point_to_byte_offset(Point { row: 4, column: 0 }, &rope).is_err());
}

#[test]
fn position_to_ts_point_trait() {
    let rope = rope_from_str("ab\ncd");
    let p = Position { line: 1, character: 1 }.to_ts_point(&rope).unwrap();
    assert_eq!(p, Point { row: 1, column: 1 });
    let lsp = ts_point_to_lsp_position(Point { row: 1, column: 1 }, &rope).unwrap();
    assert_eq!(lsp, Position { line: 1, character: 1 });
}
