//! Search library for perfect clears on a 10-wide, up-to-6-row playing field.
//!
//! The board is a bit-packed value type, placements are drawn from a
//! precomputed geometry table, and two engines search over them: one
//! enumerates piece multisets that suffice for a perfect clear, the other
//! finds concrete, legally ordered placement sequences for a given queue.

mod board;
mod combination;
mod geometry;
mod pieces;
pub mod placeability;
mod placement;
mod solve;

pub use board::BitBoard;
pub use board::FULL_ROW;
pub use board::lemma_combine_remove_identity;
pub use board::lemma_lines_cleared_idempotent;
pub use board::lemma_lines_cleared_identity;

pub use pieces::PIECES;
pub use pieces::Piece;
pub use pieces::PieceSet;
pub use pieces::occurrences;
pub use pieces::piece_run;
pub use pieces::sum_u8;

pub use geometry::PieceState;
pub use geometry::Rotation;
pub use geometry::piece_states;
pub use geometry::state_ok;

pub use placement::Placement;
pub use placement::SrsPiece;
pub use placement::full_rows_below;
pub use placement::hurdle_lines_spec;
pub use placement::propagate_full;
pub use placement::srs_vec_view;

pub use combination::clears_region;
pub use combination::col_mask_bits;
pub use combination::column_mask;
pub use combination::combination_ok;
pub use combination::combo_fits;
pub use combination::combo_replay;
pub use combination::count_bits;
pub use combination::find_combinations;
pub use combination::placed_count;
pub use combination::popcount_upto;

pub use solve::PlacementEvent;
pub use solve::holds_spaced;
pub use solve::lemma_first_placement_covers_column;
pub use solve::parse_queue;
pub use solve::parse_spec;
pub use solve::piece_of_char;
pub use solve::placement_fits;
pub use solve::replay;
pub use solve::reported_ok;
pub use solve::solution_ok;
pub use solve::solve_pc;
pub use solve::step_state;
