use std::sync::atomic::AtomicBool;

use pcf::BitBoard;
use pcf::Piece;
use pcf::PieceSet;
use pcf::PlacementEvent;
use pcf::find_combinations;
use pcf::parse_queue;
use pcf::placeability;
use pcf::solve_pc;

fn no_consecutive_holds(events: &[PlacementEvent]) -> bool {
    events.windows(2).all(|w| {
        !(matches!(w[0], PlacementEvent::Hold) && matches!(w[1], PlacementEvent::Hold))
    })
}

/// The bottom four rows filled except for one empty column of depth four.
fn notch_board(column: usize) -> BitBoard {
    let mut notch: u64 = 0;
    for y in 0..4 {
        notch |= 1u64 << (column + 10 * y);
    }
    BitBoard::filled(4).remove(BitBoard(notch))
}

#[test]
fn five_o_pieces_clear_two_empty_rows() {
    let pieces = PieceSet([0, 0, 0, 0, 0, 5, 0]);
    let flag = AtomicBool::new(false);
    let found = find_combinations(pieces, BitBoard(0), &flag, 5);
    assert_eq!(found, vec![pieces]);
}

#[test]
fn combination_reports_every_sufficient_multiset() {
    // Twenty empty cells over two rows can be tiled by five O pieces, by
    // three O and two I, or by one O and four I.
    let pieces = PieceSet([0, 0, 0, 0, 0, 5, 4]);
    let flag = AtomicBool::new(false);
    let found = find_combinations(pieces, BitBoard(0), &flag, 5);
    let sets: std::collections::HashSet<[u8; 7]> = found.iter().map(|s| s.0).collect();
    assert!(sets.contains(&[0, 0, 0, 0, 0, 5, 0]));
    assert!(sets.contains(&[0, 0, 0, 0, 0, 3, 2]));
    assert!(sets.contains(&[0, 0, 0, 0, 0, 1, 4]));
    for s in &found {
        let total: u32 = s.0.iter().map(|&c| c as u32).sum();
        assert!(total <= 5);
        for i in 0..7 {
            assert!(s.0[i] <= pieces.0[i]);
        }
    }
}

#[test]
fn combination_budget_is_respected() {
    let pieces = PieceSet([0, 0, 0, 0, 0, 5, 0]);
    let flag = AtomicBool::new(false);
    // Four pieces cannot fill twenty cells, and no other height fits the
    // budget either.
    let found = find_combinations(pieces, BitBoard(0), &flag, 4);
    assert!(found.is_empty());
}

#[test]
fn vertical_bar_fills_a_notch() {
    let board = notch_board(9);
    let queue = vec![Piece::I];
    let flag = AtomicBool::new(false);
    let found = solve_pc(&queue, board, true, false, &flag, &placeability::no_spins);
    assert_eq!(found.len(), 1);
    assert_eq!(found[0].len(), 1);
    match found[0][0] {
        PlacementEvent::Place(pl) => {
            assert_eq!(pl.kind.piece, Piece::I);
            assert_eq!(pl.x, 9);
            assert_eq!(pl.kind.low_row, 0);
        },
        PlacementEvent::Hold => panic!("expected a placement"),
    }
}

#[test]
fn short_queue_reports_nothing() {
    let queue = vec![Piece::I, Piece::O];
    let flag = AtomicBool::new(false);
    let found = solve_pc(&queue, BitBoard(0), true, false, &flag, &placeability::always);
    assert!(found.is_empty());
}

#[test]
fn hold_swaps_in_the_next_piece() {
    let board = notch_board(9);
    let queue = vec![Piece::O, Piece::I];
    let flag = AtomicBool::new(false);
    let found = solve_pc(&queue, board, true, false, &flag, &placeability::no_spins);
    assert_eq!(found.len(), 1);
    assert_eq!(
        found[0].iter().filter(|e| matches!(e, PlacementEvent::Hold)).count(),
        1
    );
    for sol in &found {
        assert!(no_consecutive_holds(sol));
        assert!(!matches!(sol.last(), Some(PlacementEvent::Hold)));
    }
    // Without hold the queue is stuck.
    let none = solve_pc(&queue, board, false, false, &flag, &placeability::no_spins);
    assert!(none.is_empty());
}

#[test]
fn hold_swap_uses_the_held_piece() {
    // An O-shaped hole in the bottom-left corner, roofed by filled rows,
    // and a bar-shaped notch in the rightmost column. The leftmost hole
    // must be filled first and only a spin-permissive rotation system
    // reaches it, so the bar is set aside for the O that follows it, and
    // later swapped back in for the unusable third piece.
    let mut holes: u64 = 0b11 | (0b11 << 10);
    for y in 0..4 {
        holes |= 1u64 << (9 + 10 * y);
    }
    let board = BitBoard::filled(4).remove(BitBoard(holes));
    let queue = vec![Piece::I, Piece::O, Piece::T];
    let flag = AtomicBool::new(false);
    let none = solve_pc(&queue, board, true, false, &flag, &placeability::no_spins);
    assert!(none.is_empty());
    let found = solve_pc(&queue, board, true, false, &flag, &placeability::always);
    assert_eq!(found.len(), 1);
    let sol = &found[0];
    assert_eq!(sol.len(), 4);
    assert!(matches!(sol[0], PlacementEvent::Hold));
    assert!(matches!(sol[2], PlacementEvent::Hold));
    match (&sol[1], &sol[3]) {
        (PlacementEvent::Place(a), PlacementEvent::Place(b)) => {
            assert_eq!(a.kind.piece, Piece::O);
            assert_eq!(b.kind.piece, Piece::I);
        },
        _ => panic!("expected two placements"),
    }
    assert!(no_consecutive_holds(sol));
}

#[test]
fn first_only_stops_after_one_report() {
    let board = notch_board(9);
    let queue = vec![Piece::I];
    let flag = AtomicBool::new(false);
    let all = solve_pc(&queue, board, true, false, &flag, &placeability::always);
    let first = solve_pc(&queue, board, true, true, &flag, &placeability::always);
    assert!(!all.is_empty());
    assert_eq!(first.len(), 1);
}

#[test]
fn queue_of_five_o_clears_two_rows() {
    // Cross-check of the combination report: the ordered engine confirms
    // that five O pieces really clear the empty two-row region.
    let queue = vec![Piece::O; 5];
    let flag = AtomicBool::new(false);
    let found = solve_pc(&queue, BitBoard(0), false, false, &flag, &placeability::no_spins);
    assert!(!found.is_empty());
    for sol in &found {
        assert_eq!(sol.len(), 5);
        assert!(no_consecutive_holds(sol));
    }
}

#[test]
fn preset_flag_cancels_both_engines() {
    let flag = AtomicBool::new(true);
    let pieces = PieceSet([0, 0, 0, 0, 0, 5, 0]);
    assert!(find_combinations(pieces, BitBoard(0), &flag, 5).is_empty());
    let queue = vec![Piece::I];
    let found = solve_pc(&queue, notch_board(9), true, false, &flag, &placeability::always);
    assert!(found.is_empty());
}

#[test]
fn parse_queue_skips_unknown_characters() {
    let chars: Vec<char> = "IT *OZq".chars().collect();
    assert_eq!(parse_queue(&chars), vec![Piece::I, Piece::T, Piece::O, Piece::Z]);
    let empty: Vec<char> = Vec::new();
    assert!(parse_queue(&empty).is_empty());
}
