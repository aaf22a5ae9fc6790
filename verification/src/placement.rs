use vstd::prelude::*;
use arrayvec::ArrayVec;
use crate::board::BitBoard;
use crate::board::FULL_ROW;
use crate::geometry::PieceState;
use crate::geometry::Rotation;
use crate::pieces::Piece;

verus! {

/// One cell of a shape as actually rendered: its shape and rotation label
/// together with absolute column and row.
#[derive(Copy, Clone, Debug, Eq, PartialEq, Hash, Structural)]
pub struct SrsPiece {
    pub piece: Piece,
    pub rotation: Rotation,
    pub x: i32,
    pub y: i32,
}

/// A resting orientation placed at a horizontal offset: the pairing of the
/// geometry table with the board.
#[derive(Copy, Clone, Debug, Eq, PartialEq, Hash)]
pub struct Placement {
    pub kind: PieceState,
    pub x: u8,
}

/// Declares `arrayvec::ArrayVec`, the fixed-capacity vector that carries
/// a placement's rendered cells, so that it can stand in signatures.
#[verifier::external_type_specification]
#[verifier::external_body]
#[verifier::reject_recursive_types(T)]
pub struct ExArrayVec<T, const CAP: usize>(ArrayVec<T, CAP>);

/// The rendered cells an `ArrayVec` holds, in order.
pub uninterp spec fn srs_vec_view(v: ArrayVec<SrsPiece, 4>) -> Seq<SrsPiece>;

/// Relies on `ArrayVec::new`: a freshly created vector holds nothing.
#[verifier::external_body]
fn srs_vec_new() -> (r: ArrayVec<SrsPiece, 4>)
    ensures
        srs_vec_view(r) == Seq::<SrsPiece>::empty(),
{
    ArrayVec::new()
}

/// Relies on `ArrayVec::push`: it appends the element at the end, and
/// panics only on a full vector, which the precondition excludes.
#[verifier::external_body]
fn srs_vec_push(v: &mut ArrayVec<SrsPiece, 4>, item: SrsPiece)
    requires
        srs_vec_view(*old(v)).len() < 4,
    ensures
        srs_vec_view(*final(v)) == srs_vec_view(*old(v)).push(item),
{
    v.push(item)
}

/// The board rows named by the low six bits of `mask`, fully occupied.
pub open spec fn hurdle_lines_rec(mask: u8, y: int) -> u64
    decreases y,
{
    if y <= 0 {
        0u64
    } else if (mask >> ((y - 1) as u8)) & 1 == 1 {
        hurdle_lines_rec(mask, y - 1) | (FULL_ROW << ((10 * (y - 1)) as u64))
    } else {
        hurdle_lines_rec(mask, y - 1)
    }
}

pub open spec fn hurdle_lines_spec(mask: u8) -> u64 {
    hurdle_lines_rec(mask, 6)
}

/// Expands a six-bit row set into the mask of those rows, fully occupied.
fn hurdle_lines(mask: u8) -> (r: u64)
    ensures
        r == hurdle_lines_spec(mask),
{
    let mut acc: u64 = 0;
    let mut y: usize = 0;
    while y < 6
        invariant
            y <= 6,
            acc == hurdle_lines_rec(mask, y as int),
        decreases 6 - y,
    {
        if (mask >> (y as u8)) & 1 == 1 {
            acc = acc | (FULL_ROW << ((10 * y) as u64));
        }
        y += 1;
    }
    acc
}

/// Occupancy after each fully occupied row, from the bottom up, keeps only
/// the cells that its next lower row also has: support is allowed to look
/// through rows that other placements will complete and clear.
pub open spec fn propagate_full(v: u64, y: int) -> u64
    decreases y,
{
    if y <= 0 {
        v
    } else {
        let p = propagate_full(v, y - 1);
        if (p >> ((10 * y) as u64)) & FULL_ROW == FULL_ROW {
            p & ((p << 10) | !(FULL_ROW << ((10 * y) as u64)))
        } else {
            p
        }
    }
}

/// How many rows strictly below row `y` are fully occupied.
pub open spec fn full_rows_below(b: BitBoard, y: int) -> int
    decreases y,
{
    if y <= 0 {
        0
    } else {
        full_rows_below(b, y - 1) + if b.row(y - 1) == FULL_ROW {
            1int
        } else {
            0int
        }
    }
}

impl Placement {
    /// The occupied cells of this placement, as a bit pattern.
    pub open spec fn mask_spec(self) -> u64 {
        self.kind.cell_mask << (self.x as u64)
    }

    /// The cells directly beneath this placement, as a bit pattern.
    pub open spec fn below_spec(self) -> u64 {
        self.kind.below_cells << (self.x as u64)
    }

    /// The cells a straight drop into place sweeps through, shifted to the
    /// placement's column.
    pub open spec fn harddrop_spec(self) -> u64 {
        self.kind.drop_mask << (self.x as u64)
    }

    /// The placement's hurdle rows are fully occupied on `on`, and the
    /// shape either rests on the floor or on an occupied cell.
    pub open spec fn supported_without_clears_spec(self, on: BitBoard) -> bool {
        hurdle_lines_spec(self.kind.hurdle_rows) & !on.0 == 0 && (self.kind.low_row == 0
            || on.0 & self.below_spec() != 0)
    }

    /// As `supported_without_clears_spec`, but support may also come
    /// through rows that will be completed and cleared by placements
    /// finished earlier in some order: occupancy of fully occupied rows is
    /// first propagated upward from the row beneath them.
    pub open spec fn supported_after_clears_spec(self, on: BitBoard) -> bool {
        hurdle_lines_spec(self.kind.hurdle_rows) & !on.0 == 0 && (self.kind.low_row == 0
            || propagate_full(on.0, 5) & self.below_spec() != 0)
    }

    /// The absolute occupied-cell mask of this placement.
    pub fn board(self) -> (r: BitBoard)
        requires
            self.x < 10,
        ensures
            r.0 == self.mask_spec(),
    {
        BitBoard(self.kind.board().0 << (self.x as u64))
    }

    /// The absolute mask of cells a straight drop into place sweeps
    /// through, for checking that a drop path is unobstructed.
    pub fn harddrop_mask(self) -> (r: BitBoard)
        requires
            self.x < 10,
        ensures
            r.0 == self.harddrop_spec(),
    {
        BitBoard(self.kind.harddrop_mask().0 << (self.x as u64))
    }

    /// Whether this placement can settle on `on` as it stands: its hurdle
    /// rows are fully occupied and it rests on the floor or on a cell.
    pub fn supported_without_clears(self, on: BitBoard) -> (r: bool)
        requires
            self.x < 10,
        ensures
            r == self.supported_without_clears_spec(on),
    {
        let hurdled = hurdle_lines(self.kind.hurdles());
        if BitBoard(hurdled).remove(on).0 != 0 {
            false
        } else {
            self.kind.y() == 0 || on.overlaps(BitBoard(self.kind.below_mask().0 << (self.x as u64)))
        }
    }

    /// Whether this placement can settle on `on` in some completion order:
    /// fully occupied rows pass the occupancy of the row beneath them
    /// upward before the support check, so rows that other placements will
    /// clear do not count as support by themselves.
    pub fn supported_after_clears(self, on: BitBoard) -> (r: bool)
        requires
            self.x < 10,
        ensures
            r == self.supported_after_clears_spec(on),
    {
        let hurdled = hurdle_lines(self.kind.hurdles());
        if BitBoard(hurdled).remove(on).0 != 0 {
            false
        } else {
            let mut v: u64 = on.0;
            let mut y: usize = 1;
            while y < 6
                invariant
                    1 <= y <= 6,
                    v == propagate_full(on.0, y as int - 1),
                decreases 6 - y,
            {
                if (v >> ((10 * y) as u64)) & FULL_ROW == FULL_ROW {
                    v = v & ((v << 10) | !(FULL_ROW << ((10 * y) as u64)));
                }
                y += 1;
            }
            self.kind.y() == 0 || v & (self.kind.below_mask().0 << (self.x as u64)) != 0
        }
    }

    /// The four cells of the shape as actually rendered on `board`: the
    /// raw geometry shifted to the placement's column and lowered by one
    /// row for each fully occupied row beneath the shape, since those rows
    /// collapse when drawn.
    pub fn srs_piece(self, board: BitBoard) -> (r: ArrayVec<SrsPiece, 4>)
        requires
            self.x < 10,
            self.kind.low_row < 6,
        ensures
            srs_vec_view(r).len() == 4,
            forall|j: int|
                0 <= j < 4 ==> srs_vec_view(r)[j] == (SrsPiece {
                    piece: self.kind.piece,
                    rotation: self.kind.rotation,
                    x: ((self.x + self.kind.cells[j].0) as i32),
                    y: ((self.kind.cells[j].1 - full_rows_below(
                        board,
                        self.kind.low_row as int,
                    )) as i32),
                }),
    {
        let mut below_lines: usize = 0;
        let mut i: usize = 0;
        let stop = self.kind.y() as usize;
        while i < stop
            invariant
                i <= stop,
                stop == self.kind.low_row as usize,
                self.kind.low_row < 6,
                below_lines as int == full_rows_below(board, i as int),
                below_lines <= i,
            decreases stop - i,
        {
            if board.line_filled(i) {
                below_lines += 1;
            }
            i += 1;
        }
        let mut out: ArrayVec<SrsPiece, 4> = srs_vec_new();
        let mut j: usize = 0;
        while j < 4
            invariant
                j <= 4,
                srs_vec_view(out).len() == j,
                below_lines as int == full_rows_below(board, self.kind.low_row as int),
                below_lines <= 6,
                self.x < 10,
                forall|t: int|
                    0 <= t < j ==> srs_vec_view(out)[t] == (SrsPiece {
                        piece: self.kind.piece,
                        rotation: self.kind.rotation,
                        x: ((self.x + self.kind.cells[t].0) as i32),
                        y: ((self.kind.cells[t].1 - full_rows_below(
                            board,
                            self.kind.low_row as int,
                        )) as i32),
                    }),
            decreases 4 - j,
        {
            let (cx, cy) = self.kind.cells[j];
            srs_vec_push(
                &mut out,
                SrsPiece {
                    piece: self.kind.piece,
                    rotation: self.kind.rotation,
                    x: self.x as i32 + cx as i32,
                    y: cy as i32 - below_lines as i32,
                },
            );
            j += 1;
        }
        out
    }
}

impl PieceState {
    /// The raw cells of the shape's true geometry, labelled with shape and
    /// rotation, relative to column 0.
    pub fn piece_srs(self) -> (r: Vec<SrsPiece>)
        ensures
            r@.len() == 4,
            forall|j: int|
                0 <= j < 4 ==> r@[j] == (SrsPiece {
                    piece: self.piece,
                    rotation: self.rotation,
                    x: self.cells[j].0 as i32,
                    y: self.cells[j].1 as i32,
                }),
    {
        let mut out: Vec<SrsPiece> = Vec::new();
        let mut j: usize = 0;
        while j < 4
            invariant
                j <= 4,
                out@.len() == j,
                forall|t: int|
                    0 <= t < j ==> out@[t] == (SrsPiece {
                        piece: self.piece,
                        rotation: self.rotation,
                        x: self.cells[t].0 as i32,
                        y: self.cells[t].1 as i32,
                    }),
            decreases 4 - j,
        {
            let (cx, cy) = self.cells[j];
            out.push(
                SrsPiece { piece: self.piece, rotation: self.rotation, x: cx as i32, y: cy as i32 },
            );
            j += 1;
        }
        out
    }
}

} // verus!
