use vstd::prelude::*;
use crate::board::BitBoard;
use crate::pieces::Piece;

verus! {

/// One of the four rotation states of a shape.
#[derive(Copy, Clone, Debug, Eq, PartialEq, Hash, Structural)]
pub enum Rotation {
    North,
    East,
    South,
    West,
}

/// One legally distinct resting orientation of a shape, anchored at
/// column 0, together with its precomputed masks.
///
/// The four cells of `cells` give the shape's true geometry: the canonical
/// cells of the rotation, raised to the row of the lowest occupied cell.
/// `cell_mask` spreads those cells apart wherever fully occupied "hurdle"
/// rows are assumed to run through the shape; `hurdle_rows` records, one
/// bit per row, which rows those are. `below_cells` marks the cells
/// directly beneath the shape and `drop_mask` the cells a straight drop
/// into place sweeps through.
#[derive(Copy, Clone, Debug, Eq, PartialEq, Hash)]
pub struct PieceState {
    pub piece: Piece,
    pub rotation: Rotation,
    pub cells: [(u8, u8); 4],
    pub cell_mask: u64,
    pub below_cells: u64,
    pub drop_mask: u64,
    pub hurdle_rows: u8,
    pub low_row: u8,
    pub cols: u8,
}

/// The bounds every entry of the geometry table satisfies.
pub open spec fn state_ok(s: PieceState) -> bool {
    1 <= s.cols <= 10 && s.low_row < 6
}

impl PieceState {
    /// The occupied-cell mask of this orientation, anchored at column 0.
    pub fn board(self) -> (r: BitBoard)
        ensures
            r.0 == self.cell_mask,
    {
        BitBoard(self.cell_mask)
    }

    /// The cells directly beneath the shape, anchored at column 0.
    pub fn below_mask(self) -> (r: BitBoard)
        ensures
            r.0 == self.below_cells,
    {
        BitBoard(self.below_cells)
    }

    /// The cells a straight drop into place sweeps through.
    pub fn harddrop_mask(self) -> (r: BitBoard)
        ensures
            r.0 == self.drop_mask,
    {
        BitBoard(self.drop_mask)
    }

    /// The rows that must already be fully occupied for this orientation
    /// to be slid into place, one bit per row.
    pub fn hurdles(self) -> (r: u8)
        ensures
            r == self.hurdle_rows,
    {
        self.hurdle_rows
    }

    /// The row of the lowest occupied cell.
    pub fn y(self) -> (r: u8)
        ensures
            r == self.low_row,
    {
        self.low_row
    }
}

/// The canonical cells of one rotation of a shape, column then row, with
/// the smallest column and row at 0; empty for a rotation whose cell set
/// repeats an earlier one.
fn shape_cells(p: Piece, rot: Rotation) -> (r: Vec<(u8, u8)>)
    ensures
        r@.len() == 0 || r@.len() == 4,
        forall|j: int| 0 <= j < r@.len() ==> (#[trigger] r@[j]).0 <= 3 && r@[j].1 <= 3,
{
    match (p, rot) {
        (Piece::S, Rotation::North) => vec![(0u8, 0u8), (1u8, 0u8), (1u8, 1u8), (2u8, 1u8)],
        (Piece::S, Rotation::East) => vec![(1u8, 0u8), (0u8, 1u8), (1u8, 1u8), (0u8, 2u8)],
        (Piece::Z, Rotation::North) => vec![(1u8, 0u8), (2u8, 0u8), (0u8, 1u8), (1u8, 1u8)],
        (Piece::Z, Rotation::East) => vec![(0u8, 0u8), (0u8, 1u8), (1u8, 1u8), (1u8, 2u8)],
        (Piece::J, Rotation::North) => vec![(0u8, 0u8), (1u8, 0u8), (2u8, 0u8), (0u8, 1u8)],
        (Piece::J, Rotation::East) => vec![(0u8, 0u8), (0u8, 1u8), (0u8, 2u8), (1u8, 2u8)],
        (Piece::J, Rotation::South) => vec![(2u8, 0u8), (0u8, 1u8), (1u8, 1u8), (2u8, 1u8)],
        (Piece::J, Rotation::West) => vec![(0u8, 0u8), (1u8, 0u8), (1u8, 1u8), (1u8, 2u8)],
        (Piece::L, Rotation::North) => vec![(0u8, 0u8), (1u8, 0u8), (2u8, 0u8), (2u8, 1u8)],
        (Piece::L, Rotation::East) => vec![(0u8, 0u8), (1u8, 0u8), (0u8, 1u8), (0u8, 2u8)],
        (Piece::L, Rotation::South) => vec![(0u8, 0u8), (0u8, 1u8), (1u8, 1u8), (2u8, 1u8)],
        (Piece::L, Rotation::West) => vec![(1u8, 0u8), (1u8, 1u8), (0u8, 2u8), (1u8, 2u8)],
        (Piece::T, Rotation::North) => vec![(0u8, 0u8), (1u8, 0u8), (2u8, 0u8), (1u8, 1u8)],
        (Piece::T, Rotation::East) => vec![(0u8, 0u8), (0u8, 1u8), (1u8, 1u8), (0u8, 2u8)],
        (Piece::T, Rotation::South) => vec![(1u8, 0u8), (0u8, 1u8), (1u8, 1u8), (2u8, 1u8)],
        (Piece::T, Rotation::West) => vec![(1u8, 0u8), (0u8, 1u8), (1u8, 1u8), (1u8, 2u8)],
        (Piece::O, Rotation::North) => vec![(0u8, 0u8), (1u8, 0u8), (0u8, 1u8), (1u8, 1u8)],
        (Piece::I, Rotation::North) => vec![(0u8, 0u8), (1u8, 0u8), (2u8, 0u8), (3u8, 0u8)],
        (Piece::I, Rotation::East) => vec![(0u8, 0u8), (0u8, 1u8), (0u8, 2u8), (0u8, 3u8)],
        _ => Vec::new(),
    }
}

/// Builds the table entry for one rotation with its piece rows assigned to
/// the strictly rising board rows of `rowmap`; the skipped rows in between
/// become the orientation's hurdle rows.
fn make_state(p: Piece, rot: Rotation, cells: &Vec<(u8, u8)>, rowmap: &Vec<u8>) -> (r: PieceState)
    requires
        cells@.len() == 4,
        1 <= rowmap@.len() <= 4,
        forall|j: int| 0 <= j < 4 ==> (#[trigger] cells@[j]).0 <= 3,
        forall|j: int| 0 <= j < 4 ==> (#[trigger] cells@[j]).1 < rowmap@.len(),
        forall|t: int| 0 <= t < rowmap@.len() ==> #[trigger] rowmap@[t] < 6,
        forall|t: int, u: int| 0 <= t < u < rowmap@.len() ==> rowmap@[t] < rowmap@[u],
    ensures
        state_ok(r),
        r.piece == p,
        r.rotation == rot,
{
    let n = cells.len();
    let mut mask: u64 = 0;
    let mut j: usize = 0;
    while j < n
        invariant
            n == 4,
            cells@.len() == 4,
            rowmap@.len() <= 4,
            forall|t: int| 0 <= t < 4 ==> (#[trigger] cells@[t]).0 <= 3,
            forall|t: int| 0 <= t < 4 ==> (#[trigger] cells@[t]).1 < rowmap@.len(),
            forall|t: int| 0 <= t < rowmap@.len() ==> #[trigger] rowmap@[t] < 6,
        decreases n - j,
    {
        let (cx, cy) = cells[j];
        let ry = rowmap[cy as usize];
        mask = mask | (1u64 << ((cx as u64) + 10 * (ry as u64)));
        j += 1;
    }
    let mut below: u64 = 0;
    j = 0;
    while j < n
        invariant
            n == 4,
            cells@.len() == 4,
            rowmap@.len() <= 4,
            forall|t: int| 0 <= t < 4 ==> (#[trigger] cells@[t]).0 <= 3,
            forall|t: int| 0 <= t < 4 ==> (#[trigger] cells@[t]).1 < rowmap@.len(),
            forall|t: int| 0 <= t < rowmap@.len() ==> #[trigger] rowmap@[t] < 6,
        decreases n - j,
    {
        let (cx, cy) = cells[j];
        let ry = rowmap[cy as usize];
        if ry > 0 {
            let mut covered = false;
            let mut j2: usize = 0;
            while j2 < n
                invariant
                    n == 4,
                    cells@.len() == 4,
                    rowmap@.len() <= 4,
                    forall|t: int| 0 <= t < 4 ==> (#[trigger] cells@[t]).1 < rowmap@.len(),
                    forall|t: int| 0 <= t < rowmap@.len() ==> #[trigger] rowmap@[t] < 6,
                decreases n - j2,
            {
                let (ox, oy) = cells[j2];
                if ox == cx && rowmap[oy as usize] + 1 == ry {
                    covered = true;
                }
                j2 += 1;
            }
            if !covered {
                below = below | (1u64 << ((cx as u64) + 10 * ((ry - 1) as u64)));
            }
        }
        j += 1;
    }
    let mut dropm: u64 = 0;
    j = 0;
    while j < n
        invariant
            n == 4,
            cells@.len() == 4,
            rowmap@.len() <= 4,
            forall|t: int| 0 <= t < 4 ==> (#[trigger] cells@[t]).0 <= 3,
            forall|t: int| 0 <= t < 4 ==> (#[trigger] cells@[t]).1 < rowmap@.len(),
            forall|t: int| 0 <= t < rowmap@.len() ==> #[trigger] rowmap@[t] < 6,
        decreases n - j,
    {
        let (cx, cy) = cells[j];
        let ry = rowmap[cy as usize];
        let mut yy: usize = ry as usize + 1;
        while yy < 6
            invariant
                cx <= 3,
                yy <= 6,
            decreases 6 - yy,
        {
            dropm = dropm | (1u64 << ((cx as u64) + 10 * (yy as u64)));
            yy += 1;
        }
        j += 1;
    }
    dropm = dropm & !mask;
    let low = rowmap[0];
    let high = rowmap[rowmap.len() - 1];
    let mut hurdles: u8 = 0;
    let mut y: u8 = 0;
    while y < 6
        invariant
            y <= 6,
            rowmap@.len() <= 4,
        decreases 6 - y,
    {
        if low < y && y < high {
            let mut inmap = false;
            let mut t: usize = 0;
            while t < rowmap.len()
                invariant
                    rowmap@.len() <= 4,
                    t <= rowmap@.len(),
                decreases rowmap@.len() - t,
            {
                if rowmap[t] == y {
                    inmap = true;
                }
                t += 1;
            }
            if !inmap {
                hurdles = hurdles | (1u8 << y);
            }
        }
        y += 1;
    }
    let mut w: u8 = 0;
    j = 0;
    while j < n
        invariant
            n == 4,
            cells@.len() == 4,
            forall|t: int| 0 <= t < 4 ==> (#[trigger] cells@[t]).0 <= 3,
            w <= 4,
            j > 0 ==> w >= 1,
        decreases n - j,
    {
        let (cx, _) = cells[j];
        if cx + 1 > w {
            w = cx + 1;
        }
        j += 1;
    }
    let c0 = cells[0];
    let c1 = cells[1];
    let c2 = cells[2];
    let c3 = cells[3];
    PieceState {
        piece: p,
        rotation: rot,
        cells: [(c0.0, low + c0.1), (c1.0, low + c1.1), (c2.0, low + c2.1), (c3.0, low + c3.1)],
        cell_mask: mask,
        below_cells: below,
        drop_mask: dropm,
        hurdle_rows: hurdles,
        low_row: low,
        cols: w,
    }
}

/// Appends every table entry of one rotation of a shape: one entry per
/// strictly rising assignment of its piece rows to board rows.
fn push_shape_states(out: &mut Vec<PieceState>, p: Piece, rot: Rotation)
    requires
        forall|i: int| 0 <= i < old(out)@.len() ==> state_ok(#[trigger] old(out)@[i]),
    ensures
        forall|i: int| 0 <= i < final(out)@.len() ==> state_ok(#[trigger] final(out)@[i]),
{
    let cells = shape_cells(p, rot);
    if cells.len() != 4 {
        return ;
    }
    let mut h: usize = 0;
    let mut j: usize = 0;
    while j < 4
        invariant
            cells@.len() == 4,
            h <= 4,
            forall|t: int| 0 <= t < 4 ==> (#[trigger] cells@[t]).1 <= 3,
            forall|t: int| 0 <= t < j ==> (#[trigger] cells@[t]).1 < h,
        decreases 4 - j,
    {
        let cy = cells[j].1;
        if cy as usize + 1 > h {
            h = cy as usize + 1;
        }
        j += 1;
    }
    proof {
        assert(cells@[0].1 < h);
    }
    let mut r0: u8 = 0;
    while r0 < 6
        invariant
            cells@.len() == 4,
            1 <= h <= 4,
            forall|t: int| 0 <= t < 4 ==> (#[trigger] cells@[t]).0 <= 3,
            forall|t: int| 0 <= t < 4 ==> (#[trigger] cells@[t]).1 < h,
            forall|i: int| 0 <= i < out@.len() ==> state_ok(#[trigger] out@[i]),
        decreases 6 - r0,
    {
        if h == 1 {
            let mut rm: Vec<u8> = Vec::new();
            rm.push(r0);
            proof {
                assert(rm@ =~= seq![r0]);
            }
            out.push(make_state(p, rot, &cells, &rm));
        } else {
            let mut r1: u8 = r0 + 1;
            while r1 < 6
                invariant
                    cells@.len() == 4,
                    2 <= h <= 4,
                    r0 < 6,
                    r0 < r1,
                    forall|t: int| 0 <= t < 4 ==> (#[trigger] cells@[t]).0 <= 3,
                    forall|t: int| 0 <= t < 4 ==> (#[trigger] cells@[t]).1 < h,
                    forall|i: int| 0 <= i < out@.len() ==> state_ok(#[trigger] out@[i]),
                decreases 6 - r1,
            {
                if h == 2 {
                    let mut rm: Vec<u8> = Vec::new();
                    rm.push(r0);
                    rm.push(r1);
                    proof {
                        assert(rm@ =~= seq![r0, r1]);
                    }
                    out.push(make_state(p, rot, &cells, &rm));
                } else {
                    let mut r2: u8 = r1 + 1;
                    while r2 < 6
                        invariant
                            cells@.len() == 4,
                            3 <= h <= 4,
                            r0 < r1 < 6,
                            r1 < r2,
                            forall|t: int| 0 <= t < 4 ==> (#[trigger] cells@[t]).0 <= 3,
                            forall|t: int| 0 <= t < 4 ==> (#[trigger] cells@[t]).1 < h,
                            forall|i: int| 0 <= i < out@.len() ==> state_ok(#[trigger] out@[i]),
                        decreases 6 - r2,
                    {
                        if h == 3 {
                            let mut rm: Vec<u8> = Vec::new();
                            rm.push(r0);
                            rm.push(r1);
                            rm.push(r2);
                            proof {
                                assert(rm@ =~= seq![r0, r1, r2]);
                            }
                            out.push(make_state(p, rot, &cells, &rm));
                        } else {
                            let mut r3: u8 = r2 + 1;
                            while r3 < 6
                                invariant
                                    cells@.len() == 4,
                                    h == 4,
                                    r0 < r1 < r2 < 6,
                                    r2 < r3,
                                    forall|t: int|
                                        0 <= t < 4 ==> (#[trigger] cells@[t]).0 <= 3,
                                    forall|t: int|
                                        0 <= t < 4 ==> (#[trigger] cells@[t]).1 < h,
                                    forall|i: int|
                                        0 <= i < out@.len() ==> state_ok(#[trigger] out@[i]),
                                decreases 6 - r3,
                            {
                                let mut rm: Vec<u8> = Vec::new();
                                rm.push(r0);
                                rm.push(r1);
                                rm.push(r2);
                                rm.push(r3);
                                proof {
                                    assert(rm@ =~= seq![r0, r1, r2, r3]);
                                }
                                out.push(make_state(p, rot, &cells, &rm));
                                r3 += 1;
                            }
                        }
                        r2 += 1;
                    }
                }
                r1 += 1;
            }
        }
        r0 += 1;
    }
}

/// Builds the whole placement geometry table: every legally distinct
/// resting orientation of every shape, including its hurdle variants.
/// The table is read-only at search time; callers build it once.
pub fn piece_states() -> (r: Vec<PieceState>)
    ensures
        forall|i: int| 0 <= i < r@.len() ==> state_ok(#[trigger] r@[i]),
{
    let mut out: Vec<PieceState> = Vec::new();
    let mut pi: usize = 0;
    while pi < 7
        invariant
            forall|i: int| 0 <= i < out@.len() ==> state_ok(#[trigger] out@[i]),
        decreases 7 - pi,
    {
        let p = Piece::from_index(pi);
        push_shape_states(&mut out, p, Rotation::North);
        push_shape_states(&mut out, p, Rotation::East);
        push_shape_states(&mut out, p, Rotation::South);
        push_shape_states(&mut out, p, Rotation::West);
        pi += 1;
    }
    out
}

} // verus!
