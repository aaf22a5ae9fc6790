use vstd::prelude::*;
use core::sync::atomic::AtomicBool;
use core::sync::atomic::Ordering;
use crate::board::BitBoard;
use crate::geometry::PieceState;
use crate::geometry::piece_states;
use crate::geometry::state_ok;
use crate::pieces::Piece;
use crate::pieces::PieceSet;
use crate::placement::Placement;

verus! {

/// The mask of the cells of column `c` in rows `0..h`.
pub open spec fn col_mask_bits(c: int, h: int) -> u64
    decreases h,
{
    if h <= 0 {
        0u64
    } else {
        col_mask_bits(c, h - 1) | (1u64 << ((c + 10 * (h - 1)) as u64))
    }
}

/// Builds the mask of the cells of column `c` in rows `0..h`.
pub fn column_mask(c: usize, h: usize) -> (r: u64)
    requires
        c < 10,
        h <= 6,
    ensures
        r == col_mask_bits(c as int, h as int),
{
    let mut acc: u64 = 0;
    let mut y: usize = 0;
    while y < h
        invariant
            y <= h,
            h <= 6,
            c < 10,
            acc == col_mask_bits(c as int, y as int),
        decreases h - y,
    {
        acc = acc | (1u64 << ((c + 10 * y) as u64));
        y += 1;
    }
    acc
}

/// How many of the low `k` bits of `v` are set.
pub open spec fn popcount_upto(v: u64, k: int) -> int
    decreases k,
{
    if k <= 0 {
        0
    } else {
        popcount_upto(v, k - 1) + if (v >> ((k - 1) as u64)) & 1 == 1 {
            1int
        } else {
            0int
        }
    }
}

/// Counts the set bits of a board pattern.
pub fn count_bits(v: u64) -> (r: usize)
    ensures
        r as int == popcount_upto(v, 64),
        r <= 64,
{
    let mut cnt: usize = 0;
    let mut k: usize = 0;
    while k < 64
        invariant
            k <= 64,
            cnt <= k,
            cnt as int == popcount_upto(v, k as int),
        decreases 64 - k,
    {
        if (v >> (k as u64)) & 1 == 1 {
            cnt += 1;
        }
        k += 1;
    }
    cnt
}

/// What one placement must satisfy in the combination search against the
/// committed board `b` with region height `h`: inside the region, on
/// empty cells, touching the leftmost column that still has an empty
/// cell, and supported in some completion order.
pub open spec fn combo_fits(pl: Placement, b: BitBoard, h: int) -> bool {
    &&& pl.x < 10
    &&& pl.x + pl.kind.cols <= 10
    &&& pl.mask_spec() & !BitBoard::filled_bits(h) == 0
    &&& pl.mask_spec() & b.0 == 0
    &&& pl.mask_spec() & col_mask_bits(b.leftmost_from(h, 0), h) != 0
    &&& pl.supported_after_clears_spec(b)
}

/// The committed board after a sequence of placements, or `None` when one
/// of them is not legal in turn.
pub open spec fn combo_replay(b0: BitBoard, h: int, pls: Seq<Placement>) -> Option<BitBoard>
    decreases pls.len(),
{
    if pls.len() == 0 {
        Some(b0)
    } else {
        match combo_replay(b0, h, pls.drop_last()) {
            Some(b) => if combo_fits(pls.last(), b, h) {
                Some(BitBoard(b.0 | pls.last().mask_spec()))
            } else {
                None
            },
            None => None,
        }
    }
}

/// How many placements of the sequence use shape `p`.
pub open spec fn placed_count(pls: Seq<Placement>, p: Piece) -> int
    decreases pls.len(),
{
    if pls.len() == 0 {
        0
    } else {
        placed_count(pls.drop_last(), p) + if pls.last().kind.piece == p {
            1int
        } else {
            0int
        }
    }
}

/// The multiset `m` suffices for a perfect clear of the bottom `h` rows of
/// `board`: some sequence of placements using exactly the pieces of `m`,
/// each legal in turn, completes those rows to fully occupied.
pub open spec fn clears_region(m: PieceSet, board: BitBoard, h: int) -> bool {
    exists|pls: Seq<Placement>|
        #[trigger] combo_replay(board, h, pls) == Some(BitBoard(BitBoard::filled_bits(h)))
            && forall|p: Piece| placed_count(pls, p) == m.count_spec(p)
}

/// What the combination search promises of everything it reports.
pub open spec fn combination_ok(m: PieceSet, pieces: PieceSet, board: BitBoard, budget: int)
    -> bool {
    &&& m.subset_of(pieces)
    &&& m.total_spec() <= budget
    &&& exists|h: int| 1 <= h <= 6 && clears_region(m, board, h)
}

/// Enumerates the piece multisets, drawn from `pieces` and no larger than
/// `max_pieces`, for which the search finds an arrangement of supported
/// placements that completes the occupied region of `board` to fully
/// occupied rows — a perfect clear once those rows vanish.
///
/// Placements are anchored at the leftmost column that still has an empty
/// cell, and their support is judged by `supported_after_clears`, so the
/// order in which the pieces would actually be dropped is left open.
/// Each reported multiset is minimal on its branch: once a selection
/// clears the board, no superset of it is reported from that branch.
/// Setting `abort` stops the search at the next recursion step with no
/// further reports.
pub fn find_combinations(pieces: PieceSet, board: BitBoard, abort: &AtomicBool, max_pieces: usize)
    -> (r: Vec<PieceSet>)
    ensures
        forall|k: int|
            0 <= k < r@.len() ==> combination_ok(#[trigger] r@[k], pieces, board, max_pieces as int),
{
    let states = piece_states();
    let mut out: Vec<PieceSet> = Vec::new();
    let mut h: usize = 1;
    while h <= 6
        invariant
            1 <= h,
            forall|j: int| 0 <= j < states@.len() ==> state_ok(#[trigger] states@[j]),
            forall|k: int|
                0 <= k < out@.len() ==> combination_ok(
                    #[trigger] out@[k],
                    pieces,
                    board,
                    max_pieces as int,
                ),
        decreases 7 - h,
    {
        let fh = BitBoard::filled(h);
        if board.remove(fh).0 == 0 {
            let cnt = count_bits(board.0);
            if cnt <= 10 * h && (10 * h - cnt) % 4 == 0 && (10 * h - cnt) / 4 <= max_pieces {
                let empty = PieceSet::default();
                combination_rec(
                    &states,
                    fh,
                    h,
                    board,
                    pieces,
                    empty,
                    0,
                    max_pieces,
                    abort,
                    &mut out,
                    Ghost(pieces),
                    Ghost(board),
                    Ghost(Seq::empty()),
                );
            }
        }
        h += 1;
    }
    out
}

/// One node of the combination search: `board` is the target plus every
/// placement committed so far, `used` the pieces they consumed.
#[verifier::loop_isolation(false)]
fn combination_rec(
    states: &Vec<PieceState>,
    fh: BitBoard,
    h: usize,
    board: BitBoard,
    remaining: PieceSet,
    used: PieceSet,
    used_count: usize,
    max_pieces: usize,
    abort: &AtomicBool,
    out: &mut Vec<PieceSet>,
    Ghost(pieces0): Ghost<PieceSet>,
    Ghost(board0): Ghost<BitBoard>,
    Ghost(placed): Ghost<Seq<Placement>>,
)
    requires
        forall|j: int| 0 <= j < states@.len() ==> state_ok(#[trigger] states@[j]),
        1 <= h <= 6,
        fh.0 == BitBoard::filled_bits(h as int),
        used_count as int == used.total_spec(),
        used_count <= max_pieces,
        forall|p: Piece|
            #[trigger] remaining.count_spec(p) + used.count_spec(p) == pieces0.count_spec(p),
        combo_replay(board0, h as int, placed) == Some(board),
        forall|p: Piece| placed_count(placed, p) == used.count_spec(p),
        forall|k: int|
            0 <= k < old(out)@.len() ==> combination_ok(
                #[trigger] old(out)@[k],
                pieces0,
                board0,
                max_pieces as int,
            ),
    ensures
        forall|k: int|
            0 <= k < final(out)@.len() ==> combination_ok(
                #[trigger] final(out)@[k],
                pieces0,
                board0,
                max_pieces as int,
            ),
    decreases max_pieces - used_count,
{
    if abort.load(Ordering::Relaxed) {
        return ;
    }
    if board.0 == fh.0 {
        proof {
            assert forall|p: Piece| #[trigger] used.count_spec(p) <= pieces0.count_spec(p) by {
                assert(remaining.count_spec(p) >= 0);
            }
            assert(board == BitBoard(BitBoard::filled_bits(h as int)));
            assert(clears_region(used, board0, h as int));
            assert(combination_ok(used, pieces0, board0, max_pieces as int));
        }
        out.push(used);
        return ;
    }
    if used_count >= max_pieces {
        return ;
    }
    let c = board.leftmost_empty_column(h);
    if c >= 10 {
        return ;
    }
    let colmask = column_mask(c, h);
    let mut si: usize = 0;
    while si < states.len()
        invariant
            forall|k: int|
                0 <= k < out@.len() ==> combination_ok(
                    #[trigger] out@[k],
                    pieces0,
                    board0,
                    max_pieces as int,
                ),
        decreases states@.len() - si,
    {
        let st = states[si];
        if remaining.contains(st.piece) {
            let maxx: usize = 10 - st.cols as usize;
            let mut x: usize = 0;
            while x <= maxx
                invariant
                    x <= maxx + 1,
                    forall|k: int|
                        0 <= k < out@.len() ==> combination_ok(
                            #[trigger] out@[k],
                            pieces0,
                            board0,
                            max_pieces as int,
                        ),
                decreases maxx + 1 - x,
            {
                let pl = Placement { kind: st, x: x as u8 };
                let plb = pl.board();
                if plb.remove(fh).0 == 0 && !plb.overlaps(board) && (plb.0 & colmask) != 0
                    && pl.supported_after_clears(board) {
                    proof {
                        assert(used.count_spec(st.piece) < 255) by {
                            assert(remaining.count_spec(st.piece) + used.count_spec(st.piece)
                                == pieces0.count_spec(st.piece));
                            assert(pieces0.count_spec(st.piece) <= 255);
                        }
                        assert(placed.push(pl).drop_last() =~= placed);
                        assert(combo_fits(pl, board, h as int));
                        assert(combo_replay(board0, h as int, placed.push(pl)) == Some(
                            board.combine_spec(plb),
                        ));
                        assert forall|q: Piece| placed_count(placed.push(pl), q)
                            == placed_count(placed, q) + (if pl.kind.piece == q {
                            1int
                        } else {
                            0int
                        }) by {}
                    }
                    combination_rec(
                        states,
                        fh,
                        h,
                        board.combine(plb),
                        remaining.without(st.piece),
                        used.with(st.piece),
                        used_count + 1,
                        max_pieces,
                        abort,
                        out,
                        Ghost(pieces0),
                        Ghost(board0),
                        Ghost(placed.push(pl)),
                    );
                }
                x += 1;
            }
        }
        si += 1;
    }
}

} // verus!
