use pcf::BitBoard;

#[test]
fn default_board_is_empty() {
    assert_eq!(BitBoard::default().0, 0);
}

#[test]
fn filled_boards() {
    assert_eq!(BitBoard::filled(0).0, 0);
    assert_eq!(BitBoard::filled(1).0, 0x3ff);
    assert_eq!(BitBoard::filled(2).0, 0xfffff);
    assert_eq!(BitBoard::filled(6).0, (1u64 << 60) - 1);
}

#[test]
fn filled_rows_exactly_bottom_rows() {
    for h in 0..=6usize {
        let b = BitBoard::filled(h);
        for y in 0..6usize {
            assert_eq!(b.line_filled(y), y < h);
            for x in 0..10usize {
                assert_eq!(b.cell_filled(x, y), y < h);
            }
        }
    }
}

#[test]
fn combine_remove_overlaps() {
    let a = BitBoard(0b1010);
    let b = BitBoard(0b0101);
    assert_eq!(a.combine(b).0, 0b1111);
    assert_eq!(a.remove(b).0, 0b1010);
    assert_eq!(a.combine(b).remove(b), a);
    assert!(!a.overlaps(b));
    assert!(a.combine(b).overlaps(b));
}

#[test]
fn cell_filled_addresses_cells() {
    let b = BitBoard(1u64 << 23);
    assert!(b.cell_filled(3, 2));
    assert!(!b.cell_filled(3, 1));
    assert!(!b.cell_filled(2, 2));
    assert!(!b.cell_filled(3, 6));
    assert!(!b.cell_filled(3, 100));
}

#[test]
fn lines_cleared_compacts_rows() {
    // Bottom row full, one cell in the second row: the full row vanishes
    // and the cell drops to the bottom.
    let b = BitBoard::filled(1).combine(BitBoard(0b100 << 10));
    assert_eq!(b.lines_cleared().0, 0b100);

    // Full rows at the bottom and in the middle both vanish.
    let mid = BitBoard(0x3ff << 20);
    let b2 = BitBoard::filled(1).combine(mid).combine(BitBoard(0b1 << 10)).combine(
        BitBoard(0b10 << 30),
    );
    assert_eq!(b2.lines_cleared().0, 0b1 | (0b10 << 10));
}

#[test]
fn lines_cleared_identity_without_full_rows() {
    let b = BitBoard(0b1 | (0b1000000001 << 10));
    assert_eq!(b.lines_cleared(), b);
}

#[test]
fn lines_cleared_is_idempotent() {
    for pattern in [0u64, 0x3ff, 0xfffff, 0x3ff << 30, 0x12345 | (0x3ff << 20)] {
        let once = BitBoard(pattern).lines_cleared();
        assert_eq!(once.lines_cleared(), once);
    }
}

#[test]
fn leftmost_empty_column_scans_rows() {
    assert_eq!(BitBoard(0).leftmost_empty_column(2), 0);
    // Columns 0 and 1 filled through both rows.
    let b = BitBoard(0b11 | (0b11 << 10));
    assert_eq!(b.leftmost_empty_column(2), 2);
    // Column 0 filled in only one of the two rows still counts as empty.
    let c = BitBoard(0b1);
    assert_eq!(c.leftmost_empty_column(2), 0);
    assert_eq!(c.leftmost_empty_column(1), 1);
    // A fully occupied region has no empty column.
    assert_eq!(BitBoard::filled(2).leftmost_empty_column(2), 10);
}
