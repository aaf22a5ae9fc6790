use pcf::BitBoard;
use pcf::Piece;
use pcf::PieceState;
use pcf::Placement;
use pcf::piece_states;

fn find_state(piece: Piece, low_row: u8, hurdles: u8) -> PieceState {
    piece_states()
        .into_iter()
        .find(|s| s.piece == piece && s.low_row == low_row && s.hurdle_rows == hurdles)
        .expect("state present in table")
}

#[test]
fn table_holds_plain_and_hurdle_states() {
    let states = piece_states();
    assert!(!states.is_empty());
    for s in &states {
        assert!(s.cols >= 1 && s.cols <= 4);
        assert!(s.low_row < 6);
    }
    // A gapless O at the bottom, and an O spread over a hurdle row, both
    // exist.
    assert!(states.iter().any(|s| s.piece == Piece::O && s.low_row == 0 && s.hurdle_rows == 0));
    assert!(states.iter().any(|s| s.piece == Piece::O && s.hurdle_rows != 0));
}

#[test]
fn placement_board_shifts_the_mask() {
    let o = find_state(Piece::O, 0, 0);
    assert_eq!(o.board().0, 0b11 | (0b11 << 10));
    let pl = Placement { kind: o, x: 3 };
    assert_eq!(pl.board().0, (0b11 | (0b11 << 10)) << 3);
}

#[test]
fn support_needs_floor_or_cell() {
    let bottom = Placement { kind: find_state(Piece::O, 0, 0), x: 0 };
    assert!(bottom.supported_without_clears(BitBoard(0)));
    let floating = Placement { kind: find_state(Piece::O, 1, 0), x: 0 };
    assert!(!floating.supported_without_clears(BitBoard(0)));
    // A cell right under one of its columns supports it.
    assert!(floating.supported_without_clears(BitBoard(0b1)));
}

#[test]
fn hurdle_rows_must_be_full() {
    // An O spread over rows 0 and 2 hurdles row 1.
    let hurdled = Placement { kind: find_state(Piece::O, 0, 0b10), x: 0 };
    assert!(!hurdled.supported_without_clears(BitBoard(0)));
    let row1_full = BitBoard(0x3ff << 10);
    assert!(hurdled.supported_without_clears(row1_full));
    assert!(hurdled.supported_after_clears(row1_full));
}

#[test]
fn support_after_clears_looks_through_full_rows() {
    // A piece resting on a row that other placements will complete and
    // clear is not supported once that row vanishes.
    let above = Placement { kind: find_state(Piece::O, 2, 0), x: 0 };
    let row1_full = BitBoard(0x3ff << 10);
    assert!(above.supported_without_clears(row1_full));
    assert!(!above.supported_after_clears(row1_full));
    // With cells below the full row as well, support survives the clear.
    let with_floor = row1_full.combine(BitBoard(0b11));
    assert!(above.supported_after_clears(with_floor));
}

#[test]
fn piece_srs_gives_raw_cells() {
    let o = find_state(Piece::O, 0, 0);
    let cells = o.piece_srs();
    let mut xs: Vec<(i32, i32)> = cells.iter().map(|c| (c.x, c.y)).collect();
    xs.sort();
    assert_eq!(xs, vec![(0, 0), (0, 1), (1, 0), (1, 1)]);
}

#[test]
fn srs_piece_drops_by_full_rows_beneath() {
    let o = find_state(Piece::O, 1, 0);
    let pl = Placement { kind: o, x: 3 };
    let cells = pl.srs_piece(BitBoard::filled(1));
    assert_eq!(cells.len(), 4);
    for c in &cells {
        assert_eq!(c.piece, Piece::O);
    }
    let mut xs: Vec<(i32, i32)> = cells.iter().map(|c| (c.x, c.y)).collect();
    xs.sort();
    assert_eq!(xs, vec![(3, 0), (3, 1), (4, 0), (4, 1)]);
}
