use pcf::Piece;
use pcf::PieceSet;
use pcf::PIECES;

#[test]
fn piece_order_and_names() {
    assert_eq!(
        PIECES,
        [Piece::S, Piece::Z, Piece::J, Piece::L, Piece::T, Piece::O, Piece::I]
    );
    for (i, p) in PIECES.iter().enumerate() {
        assert_eq!(p.index(), i);
        assert_eq!(Piece::from_index(i), *p);
    }
    assert_eq!(Piece::S.name_char(), 'S');
    assert_eq!(Piece::I.name_char(), 'I');
}

#[test]
fn with_without_contains() {
    let empty = PieceSet::default();
    assert!(!empty.contains(Piece::T));
    let s = empty.with(Piece::T).with(Piece::T).with(Piece::O);
    assert!(s.contains(Piece::T));
    assert!(s.contains(Piece::O));
    assert!(!s.contains(Piece::I));
    assert_eq!(s.0, [0, 0, 0, 0, 2, 1, 0]);
    let s2 = s.without(Piece::T);
    assert_eq!(s2.0, [0, 0, 0, 0, 1, 1, 0]);
    assert!(s2.contains(Piece::T));
    assert_eq!(s2.without(Piece::T).0, [0, 0, 0, 0, 0, 1, 0]);
}

#[test]
fn from_pieces_counts_occurrences() {
    let v = vec![Piece::I, Piece::S, Piece::I, Piece::Z];
    let s = PieceSet::from_pieces(&v);
    assert_eq!(s.0, [1, 1, 0, 0, 0, 0, 2]);
}

#[test]
fn name_string_groups_by_shape() {
    let v = vec![Piece::O, Piece::S, Piece::O, Piece::S, Piece::Z];
    let s = PieceSet::from_pieces(&v);
    assert_eq!(s.name_string(), "SSZOO");
    assert_eq!(PieceSet::default().name_string(), "");
}
