use vstd::prelude::*;
use vstd::std_specs::bits::u64_trailing_zeros;
use vstd::std_specs::bits::axiom_u64_trailing_zeros;

verus! {

/// Bit pattern of one completely occupied row: ten set cells.
pub const FULL_ROW: u64 = 0x3ff;

/// A playing field of 10 columns and up to 6 rows, one bit per cell,
/// row-major, with the low ten bits holding the bottom row.
///
/// Values are immutable: every operation returns a new board.
#[derive(Copy, Clone, Debug, Eq, PartialEq, Hash, Structural)]
pub struct BitBoard(pub u64);

impl Default for BitBoard {
    /// The empty field.
    fn default() -> (r: Self)
        ensures
            r.0 == 0,
    {
        BitBoard(0)
    }
}

impl BitBoard {
    /// The ten bits of row `y`, as a value below 2^10.
    pub open spec fn row(self, y: int) -> u64 {
        (self.0 >> ((10 * y) as u64)) & FULL_ROW
    }

    /// Whether the cell in column `x` of row `y` is occupied.
    pub open spec fn cell(self, x: int, y: int) -> bool {
        (self.row(y) >> (x as u64)) & 1 == 1
    }

    /// The six rows of the field, bottom first.
    pub open spec fn rows(self) -> Seq<u64> {
        Seq::new(6, |y: int| self.row(y))
    }

    /// No bit above the sixth row is set.
    pub open spec fn in_bounds(self) -> bool {
        self.0 & 0xf000_0000_0000_0000u64 == 0
    }

    /// The bit pattern of a field whose bottom `h` rows are fully occupied.
    pub open spec fn filled_bits(h: int) -> u64
        decreases h,
    {
        if h <= 0 {
            0u64
        } else {
            Self::filled_bits(h - 1) | (FULL_ROW << ((10 * (h - 1)) as u64))
        }
    }

    pub open spec fn combine_spec(self, other: Self) -> Self {
        BitBoard(self.0 | other.0)
    }

    pub open spec fn remove_spec(self, other: Self) -> Self {
        BitBoard(self.0 & !other.0)
    }

    pub open spec fn overlaps_spec(self, other: Self) -> bool {
        self.0 & other.0 != 0
    }

    /// A board whose bottom `height` rows are fully occupied and whose
    /// other rows are empty.
    pub fn filled(height: usize) -> (r: BitBoard)
        requires
            height <= 6,
        ensures
            r.0 == Self::filled_bits(height as int),
            r.in_bounds(),
            forall|y: int|
                0 <= y < 6 ==> r.row(y) == (if y < height { FULL_ROW } else { 0u64 }),
    {
        let mut acc: u64 = 0;
        let mut i: usize = 0;
        proof {
            assert(0u64 & 0xf000_0000_0000_0000u64 == 0) by (bit_vector);
            assert forall|y: int| 0 <= y < 6 implies (BitBoard(0u64)).row(y) == 0u64 by {
                let yu = y as u64;
                assert((10 * y) as u64 == 10 * yu);
                assert((0u64 >> (10 * yu)) & 0x3ff == 0) by (bit_vector);
            }
        }
        while i < height
            invariant
                i <= height,
                height <= 6,
                acc == Self::filled_bits(i as int),
                acc & 0xf000_0000_0000_0000u64 == 0,
                forall|y: int|
                    0 <= y < 6 ==> (BitBoard(acc)).row(y) == (if y < i {
                        FULL_ROW
                    } else {
                        0u64
                    }),
            decreases height - i,
        {
            let shift: u64 = (10 * i) as u64;
            let next: u64 = acc | (FULL_ROW << shift);
            proof {
                let a = acc;
                let k = i as u64;
                assert(shift == 10 * k);
                assert(next == (a | (0x3ffu64 << (10 * k))));
                assert((BitBoard(a)).row(i as int) == 0);
                assert((10 * (i as int)) as u64 == 10 * k);
                assert(((a >> (10 * k)) & 0x3ff) == 0);
                lemma_bv_or_row(a, 0x3ff, k, 0);
                assert(next & 0xf000_0000_0000_0000u64 == 0);
                assert(Self::filled_bits(i as int + 1) == acc | (FULL_ROW << ((10 * (i as int))
                    as u64)));
                assert forall|y: int| 0 <= y < 6 implies (BitBoard(next)).row(y) == (if y < i + 1 {
                    FULL_ROW
                } else {
                    0u64
                }) by {
                    let yu = y as u64;
                    assert((10 * y) as u64 == 10 * yu);
                    assert((BitBoard(a)).row(y) == ((a >> (10 * yu)) & 0x3ff));
                    lemma_bv_or_row(a, 0x3ff, k, yu);
                    assert((BitBoard(next)).row(y) == ((next >> (10 * yu)) & 0x3ff));
                }
            }
            acc = next;
            i += 1;
        }
        BitBoard(acc)
    }

    /// The union of the occupied cells of two boards.
    pub fn combine(self, other: Self) -> (r: Self)
        ensures
            r == self.combine_spec(other),
    {
        BitBoard(self.0 | other.0)
    }

    /// The cells of `self` that are not occupied in `other`.
    pub fn remove(self, other: Self) -> (r: Self)
        ensures
            r == self.remove_spec(other),
    {
        BitBoard(self.0 & !other.0)
    }

    /// Whether the two boards share an occupied cell.
    pub fn overlaps(self, other: Self) -> (r: bool)
        ensures
            r == self.overlaps_spec(other),
    {
        self.0 & other.0 != 0
    }

    /// Whether the cell in column `x` of row `y` is occupied; rows at or
    /// above the sixth are empty by convention.
    pub fn cell_filled(self, x: usize, y: usize) -> (r: bool)
        requires
            x < 10,
        ensures
            r == (y < 6 && self.cell(x as int, y as int)),
    {
        if y < 6 {
            let r = self.0 & (1u64 << ((x + y * 10) as u64)) != 0;
            proof {
                lemma_bv_cell_index(self.0, x as u64, y as u64);
            }
            r
        } else {
            false
        }
    }

    /// Whether every column of row `y` is occupied.
    pub fn line_filled(self, y: usize) -> (r: bool)
        requires
            y < 6,
        ensures
            r == (self.row(y as int) == FULL_ROW),
    {
        (self.0 >> ((10 * y) as u64)) & FULL_ROW == FULL_ROW
    }

    /// The rows that remain after removing every fully occupied row,
    /// kept in order.
    pub open spec fn compact_rows(s: Seq<u64>) -> Seq<u64>
        decreases s.len(),
    {
        if s.len() == 0 {
            Seq::empty()
        } else {
            let rest = Self::compact_rows(s.drop_last());
            if s.last() == FULL_ROW {
                rest
            } else {
                rest.push(s.last())
            }
        }
    }

    /// The board whose rows, bottom first, are the entries of `s`, with
    /// empty rows above.
    pub open spec fn board_of_rows(s: Seq<u64>) -> u64
        decreases s.len(),
    {
        if s.len() == 0 {
            0u64
        } else {
            Self::board_of_rows(s.drop_last()) | (s.last() << ((10 * (s.len() - 1)) as u64))
        }
    }

    /// The board after every fully occupied row vanishes and the rows above
    /// drop down, preserving their order.
    pub open spec fn lines_cleared_spec(self) -> BitBoard {
        BitBoard(Self::board_of_rows(Self::compact_rows(self.rows())))
    }

    /// How many rows of a sequence are fully occupied.
    pub open spec fn count_full(s: Seq<u64>) -> int
        decreases s.len(),
    {
        if s.len() == 0 {
            0
        } else {
            Self::count_full(s.drop_last()) + if s.last() == FULL_ROW {
                1int
            } else {
                0int
            }
        }
    }

    /// Removes every fully occupied row and drops the remaining rows down,
    /// preserving their relative order.
    pub fn lines_cleared(self) -> (r: BitBoard)
        ensures
            r == self.lines_cleared_spec(),
            r.in_bounds(),
            forall|y: int|
                0 <= y < 6 ==> r.row(y) == (if y < Self::compact_rows(self.rows()).len() {
                    Self::compact_rows(self.rows())[y]
                } else {
                    0u64
                }),
    {
        let ghost all = self.rows();
        let mut acc: u64 = 0;
        let mut rowi: usize = 0;
        let mut y: usize = 0;
        while y < 6
            invariant
                y <= 6,
                rowi <= y,
                rowi as int == Self::compact_rows(all.take(y as int)).len(),
                acc == Self::board_of_rows(Self::compact_rows(all.take(y as int))),
                all == self.rows(),
            decreases 6 - y,
        {
            let ghost pre = Self::compact_rows(all.take(y as int));
            proof {
                assert(all.take(y as int + 1).drop_last() =~= all.take(y as int));
                assert(all.take(y as int + 1).last() == self.row(y as int));
            }
            if !self.line_filled(y) {
                let row: u64 = (self.0 >> ((10 * y) as u64)) & FULL_ROW;
                proof {
                    assert(row == self.row(y as int));
                    let c = Self::compact_rows(all.take(y as int + 1));
                    assert(c == pre.push(row));
                    assert(pre.push(row).drop_last() =~= pre);
                    assert(Self::board_of_rows(c) == acc | (row << ((10 * rowi) as u64)));
                }
                acc = acc | (row << ((10 * rowi) as u64));
                rowi += 1;
            }
            y += 1;
        }
        proof {
            assert(all.take(6) =~= all);
            lemma_rows_bounded(self);
            lemma_compact_no_full(all);
            lemma_rows_of_board(Self::compact_rows(all));
        }
        BitBoard(acc)
    }

    /// Counts the fully occupied rows.
    pub fn count_full_lines(self) -> (r: usize)
        ensures
            r as int == Self::count_full(self.rows()),
            r <= 6,
    {
        let ghost all = self.rows();
        let mut cnt: usize = 0;
        let mut y: usize = 0;
        while y < 6
            invariant
                y <= 6,
                cnt <= y,
                cnt as int == Self::count_full(all.take(y as int)),
                all == self.rows(),
            decreases 6 - y,
        {
            proof {
                assert(all.take(y as int + 1).drop_last() =~= all.take(y as int));
                assert(all.take(y as int + 1).last() == self.row(y as int));
            }
            if self.line_filled(y) {
                cnt += 1;
            }
            y += 1;
        }
        proof {
            assert(all.take(6) =~= all);
        }
        cnt
    }

    /// Every cell of column `c` in rows `0..h` is occupied.
    pub open spec fn col_all_full(self, c: int, h: int) -> bool
        decreases h,
    {
        if h <= 0 {
            true
        } else {
            self.cell(c, h - 1) && self.col_all_full(c, h - 1)
        }
    }

    /// The first column at or after `c` with an empty cell in rows `0..h`,
    /// or 10 when all of them are fully occupied.
    pub open spec fn leftmost_from(self, h: int, c: int) -> int
        decreases 10 - c,
    {
        if c >= 10 {
            10
        } else if !self.col_all_full(c, h) {
            c
        } else {
            self.leftmost_from(h, c + 1)
        }
    }

    /// The index of the first column with an empty cell in rows
    /// `0..height`, or 10 when every such cell is occupied.
    pub fn leftmost_empty_column(self, height: usize) -> (r: usize)
        requires
            height <= 6,
        ensures
            r as int == self.leftmost_from(height as int, 0),
            r <= 10,
            r < 10 ==> !self.col_all_full(r as int, height as int),
            forall|c: int| 0 <= c < r ==> self.col_all_full(c, height as int),
    {
        let mut collapsed: u64 = FULL_ROW;
        let mut i: usize = 0;
        proof {
            assert forall|c: int| 0 <= c < 10 implies ((((0x3ffu64 >> (c as u64)) & 1) == 1)
                == self.col_all_full(c, 0)) by {
                let cu = c as u64;
                assert(((0x3ffu64 >> cu) & 1) == 1) by (bit_vector)
                    requires
                        cu < 10,
                ;
            }
        }
        while i < height
            invariant
                i <= height,
                height <= 6,
                collapsed <= 0x3ff,
                forall|c: int|
                    0 <= c < 10 ==> ((((collapsed >> (c as u64)) & 1) == 1) == self.col_all_full(
                        c,
                        i as int,
                    )),
            decreases height - i,
        {
            let next: u64 = collapsed & (self.0 >> ((10 * i) as u64));
            proof {
                let x = collapsed;
                let v = self.0;
                let iu = i as u64;
                assert((10 * i) as u64 == 10 * iu);
                assert((10 * (i as int)) as u64 == 10 * iu);
                assert(next == (x & (v >> (10 * iu))));
                assert(self.row(i as int) == ((v >> (10 * iu)) & 0x3ff));
                assert forall|c: int| 0 <= c < 10 implies ((((next >> (c as u64)) & 1) == 1)
                    == #[trigger] self.col_all_full(c, i as int + 1)) by {
                    let cu = c as u64;
                    assert((((collapsed >> (c as u64)) & 1) == 1) == self.col_all_full(
                        c,
                        i as int,
                    ));
                    assert(self.col_all_full(c, i as int + 1) == (self.cell(c, i as int)
                        && self.col_all_full(c, i as int)));
                    lemma_bv_collapse_step(x, v, iu, cu);
                    assert(self.cell(c, i as int) == ((((v >> (10 * iu)) & 0x3ff) >> cu) & 1
                        == 1));
                    assert((((next >> cu) & 1) == 1) == ((((x >> cu) & 1) == 1) && ((((v >> (10
                        * iu)) & 0x3ff) >> cu) & 1 == 1)));
                }
                assert(((next) & !0x3ffu64) == 0 && next <= 0x3ff) by (bit_vector)
                    requires
                        next == x & (v >> (10 * iu)),
                        x <= 0x3ff,
                ;
            }
            collapsed = next;
            i += 1;
        }
        let flipped: u64 = !collapsed;
        let tz: usize = flipped.trailing_zeros() as usize;
        proof {
            axiom_u64_trailing_zeros(flipped);
            let t = u64_trailing_zeros(flipped) as u64;
            assert(((flipped >> 10) & 1) == 1) by (bit_vector)
                requires
                    flipped == !collapsed,
                    collapsed <= 0x3ff,
            ;
            if tz > 10 {
                assert((flipped >> 10u64) & 1 == 0);
                assert(false);
            }
            assert forall|c: int| 0 <= c < tz implies self.col_all_full(c, height as int) by {
                let cu = c as u64;
                assert((flipped >> cu) & 1 == 0);
                assert(((collapsed >> cu) & 1) == 1) by (bit_vector)
                    requires
                        cu < 10,
                        flipped == !collapsed,
                        (flipped >> cu) & 1 == 0,
                ;
            }
            if tz < 10 {
                assert((flipped >> t) & 1 == 1);
                assert(((collapsed >> t) & 1) == 0) by (bit_vector)
                    requires
                        t < 10,
                        flipped == !collapsed,
                        (flipped >> t) & 1 == 1,
                ;
                assert(!self.col_all_full(tz as int, height as int));
            }
            lemma_leftmost_pins(self, height as int, tz as int, 0);
        }
        tz
    }
}

/// Writing `r` into the empty row `k` of `a` leaves every other row as it
/// was, makes row `k` read back as `r`, and keeps the top four bits clear.
proof fn lemma_bv_or_row(a: u64, r: u64, k: u64, y: u64)
    requires
        k < 6,
        y < 6,
        r <= 0x3ff,
        a & 0xf000_0000_0000_0000u64 == 0,
        ((a >> (10 * k)) & 0x3ff) == 0,
    ensures
        (((a | (r << (10 * k))) >> (10 * y)) & 0x3ff) == (if y == k {
            r
        } else {
            ((a >> (10 * y)) & 0x3ff)
        }),
        (a | (r << (10 * k))) & 0xf000_0000_0000_0000u64 == 0,
{
    assert((((a | (r << (10 * k))) >> (10 * y)) & 0x3ff) == (if y == k {
        r
    } else {
        ((a >> (10 * y)) & 0x3ff)
    }) && (a | (r << (10 * k))) & 0xf000_0000_0000_0000u64 == 0) by (bit_vector)
        requires
            k < 6,
            y < 6,
            r <= 0x3ff,
            a & 0xf000_0000_0000_0000u64 == 0,
            ((a >> (10 * k)) & 0x3ff) == 0,
    ;
}

/// Selecting one cell with a single shift agrees with going through the row.
proof fn lemma_bv_cell_index(v: u64, x: u64, y: u64)
    requires
        x < 10,
        y < 6,
    ensures
        (v & (1u64 << (x + y * 10)) != 0) == ((((v >> (10 * y)) & 0x3ff) >> x) & 1 == 1),
{
    assert((v & (1u64 << (x + y * 10)) != 0) == ((((v >> (10 * y)) & 0x3ff) >> x) & 1 == 1))
        by (bit_vector)
        requires
            x < 10,
            y < 6,
    ;
}

/// One step of intersecting a collapsed row with row `i` of the board.
proof fn lemma_bv_collapse_step(x: u64, v: u64, i: u64, c: u64)
    requires
        i < 6,
        c < 10,
    ensures
        ((((x & (v >> (10 * i))) >> c) & 1) == 1) == ((((x >> c) & 1) == 1) && ((((v >> (10 * i))
            & 0x3ff) >> c) & 1 == 1)),
{
    assert(((((x & (v >> (10 * i))) >> c) & 1) == 1) == ((((x >> c) & 1) == 1) && ((((v >> (10
        * i)) & 0x3ff) >> c) & 1 == 1))) by (bit_vector)
        requires
            i < 6,
            c < 10,
    ;
}

/// Every row value of a board is below 2^10.
proof fn lemma_rows_bounded(b: BitBoard)
    ensures
        forall|i: int| 0 <= i < b.rows().len() ==> b.rows()[i] <= 0x3ff,
{
    assert forall|i: int| 0 <= i < b.rows().len() implies b.rows()[i] <= 0x3ff by {
        let k = (10 * i) as u64;
        let v = b.0;
        assert((v >> k) & 0x3ff <= 0x3ff) by (bit_vector);
    }
}

/// Compacting keeps only rows that are not full, and no more rows than
/// there were.
proof fn lemma_compact_no_full(s: Seq<u64>)
    requires
        forall|i: int| 0 <= i < s.len() ==> s[i] <= 0x3ff,
    ensures
        BitBoard::count_full(s) >= 0,
        BitBoard::compact_rows(s).len() + BitBoard::count_full(s) == s.len(),
        forall|i: int|
            0 <= i < BitBoard::compact_rows(s).len() ==> BitBoard::compact_rows(s)[i] <= 0x3ff
                && BitBoard::compact_rows(s)[i] != FULL_ROW,
    decreases s.len(),
{
    if s.len() > 0 {
        assert(forall|i: int| 0 <= i < s.drop_last().len() ==> s.drop_last()[i] <= 0x3ff);
        lemma_compact_no_full(s.drop_last());
    }
}

/// A sequence without full rows compacts to itself.
proof fn lemma_compact_identity(s: Seq<u64>)
    requires
        forall|i: int| 0 <= i < s.len() ==> s[i] != FULL_ROW,
    ensures
        BitBoard::compact_rows(s) == s,
    decreases s.len(),
{
    if s.len() > 0 {
        assert(forall|i: int| 0 <= i < s.drop_last().len() ==> s.drop_last()[i] != FULL_ROW);
        lemma_compact_identity(s.drop_last());
        assert(s.drop_last().push(s.last()) =~= s);
    }
}

/// Rebuilding a board from row values and reading its rows back agree.
proof fn lemma_rows_of_board(s: Seq<u64>)
    requires
        s.len() <= 6,
        forall|i: int| 0 <= i < s.len() ==> s[i] <= 0x3ff,
    ensures
        BitBoard(BitBoard::board_of_rows(s)).in_bounds(),
        forall|y: int|
            0 <= y < 6 ==> BitBoard(BitBoard::board_of_rows(s)).row(y) == (if y < s.len() {
                s[y]
            } else {
                0u64
            }),
    decreases s.len(),
{
    if s.len() == 0 {
        assert(0u64 & 0xf000_0000_0000_0000u64 == 0) by (bit_vector);
        assert forall|y: int| 0 <= y < 6 implies BitBoard(0u64).row(y) == 0u64 by {
            let yu = y as u64;
            assert((10 * y) as u64 == 10 * yu);
            assert((0u64 >> (10 * yu)) & 0x3ff == 0) by (bit_vector);
        }
    } else {
        let rest = s.drop_last();
        assert(forall|i: int| 0 <= i < rest.len() ==> rest[i] <= 0x3ff);
        lemma_rows_of_board(rest);
        let a = BitBoard::board_of_rows(rest);
        let r = s.last();
        let k = (s.len() - 1) as u64;
        assert(BitBoard(a).row(s.len() - 1) == 0);
        assert((10 * (s.len() - 1)) as u64 == 10 * k);
        assert(((a >> (10 * k)) & 0x3ff) == 0);
        assert(BitBoard::board_of_rows(s) == (a | (r << (10 * k))));
        assert forall|y: int|
            0 <= y < 6 implies BitBoard(BitBoard::board_of_rows(s)).row(y) == (if y < s.len() {
            s[y]
        } else {
            0u64
        }) by {
            let yu = y as u64;
            assert((10 * y) as u64 == 10 * yu);
            lemma_bv_or_row(a, r, k, yu);
            assert(BitBoard(a).row(y) == ((a >> (10 * yu)) & 0x3ff));
            assert(BitBoard(BitBoard::board_of_rows(s)).row(y) == (((a | (r << (10 * k))) >> (10
                * yu)) & 0x3ff));
        }
        lemma_bv_or_row(a, r, k, 0);
    }
}

/// Two boards with equal rows and nothing above the sixth row are equal.
proof fn lemma_row_ext(a: BitBoard, b: BitBoard)
    requires
        a.in_bounds(),
        b.in_bounds(),
        forall|y: int| 0 <= y < 6 ==> a.row(y) == b.row(y),
    ensures
        a == b,
{
    let x = a.0;
    let v = b.0;
    assert(a.row(0) == b.row(0));
    assert(a.row(1) == b.row(1));
    assert(a.row(2) == b.row(2));
    assert(a.row(3) == b.row(3));
    assert(a.row(4) == b.row(4));
    assert(a.row(5) == b.row(5));
    assert(x == v) by (bit_vector)
        requires
            x & 0xf000_0000_0000_0000u64 == 0,
            v & 0xf000_0000_0000_0000u64 == 0,
            (x >> 0) & 0x3ff == (v >> 0) & 0x3ff,
            (x >> 10) & 0x3ff == (v >> 10) & 0x3ff,
            (x >> 20) & 0x3ff == (v >> 20) & 0x3ff,
            (x >> 30) & 0x3ff == (v >> 30) & 0x3ff,
            (x >> 40) & 0x3ff == (v >> 40) & 0x3ff,
            (x >> 50) & 0x3ff == (v >> 50) & 0x3ff,
    ;
}

/// Columns below `r` fully occupied and column `r` not (when below 10) pin
/// down the leftmost empty column.
proof fn lemma_leftmost_pins(b: BitBoard, h: int, r: int, c: int)
    requires
        0 <= c <= r <= 10,
        forall|cc: int| c <= cc < r ==> b.col_all_full(cc, h),
        r < 10 ==> !b.col_all_full(r, h),
    ensures
        b.leftmost_from(h, c) == r,
    decreases r - c,
{
    if c < r {
        lemma_leftmost_pins(b, h, r, c + 1);
    }
}

/// Combining a disjoint mask into a board and removing it again gives the
/// board back.
pub proof fn lemma_combine_remove_identity(b: BitBoard, m: BitBoard)
    requires
        !b.overlaps_spec(m),
    ensures
        b.combine_spec(m).remove_spec(m) == b,
{
    let x = b.0;
    let v = m.0;
    assert((x | v) & !v == x) by (bit_vector)
        requires
            x & v == 0,
    ;
}

/// Clearing the lines of a board that has no fully occupied row changes
/// nothing.
pub proof fn lemma_lines_cleared_identity(b: BitBoard)
    requires
        b.in_bounds(),
        forall|y: int| 0 <= y < 6 ==> b.row(y) != FULL_ROW,
    ensures
        b.lines_cleared_spec() == b,
{
    lemma_rows_bounded(b);
    assert(forall|i: int| 0 <= i < b.rows().len() ==> b.rows()[i] != FULL_ROW);
    lemma_compact_identity(b.rows());
    lemma_rows_of_board(b.rows());
    let r = BitBoard(BitBoard::board_of_rows(b.rows()));
    assert(forall|y: int| 0 <= y < 6 ==> r.row(y) == b.row(y));
    lemma_row_ext(r, b);
}

/// Clearing lines twice equals clearing them once.
pub proof fn lemma_lines_cleared_idempotent(b: BitBoard)
    ensures
        b.lines_cleared_spec().lines_cleared_spec() == b.lines_cleared_spec(),
{
    lemma_rows_bounded(b);
    lemma_compact_no_full(b.rows());
    let c = BitBoard::compact_rows(b.rows());
    lemma_rows_of_board(c);
    let r = b.lines_cleared_spec();
    assert forall|y: int| 0 <= y < 6 implies r.row(y) != FULL_ROW by {
        if y < c.len() {
            assert(r.row(y) == c[y]);
        } else {
            assert(r.row(y) == 0u64);
        }
    }
    lemma_lines_cleared_identity(r);
}

} // verus!
