use vstd::prelude::*;

verus! {

/// One of the seven tetromino shapes. The declaration order is the fixed
/// display and default iteration order.
#[derive(Copy, Clone, Debug, Eq, PartialEq, Hash, Structural)]
pub enum Piece {
    S,
    Z,
    J,
    L,
    T,
    O,
    I,
}

impl Piece {
    /// The position of this shape in the fixed ordering.
    pub open spec fn index_spec(self) -> int {
        match self {
            Piece::S => 0,
            Piece::Z => 1,
            Piece::J => 2,
            Piece::L => 3,
            Piece::T => 4,
            Piece::O => 5,
            Piece::I => 6,
        }
    }

    /// The letter naming this shape.
    pub open spec fn name_spec(self) -> char {
        match self {
            Piece::S => 'S',
            Piece::Z => 'Z',
            Piece::J => 'J',
            Piece::L => 'L',
            Piece::T => 'T',
            Piece::O => 'O',
            Piece::I => 'I',
        }
    }

    pub fn index(self) -> (r: usize)
        ensures
            r == self.index_spec(),
    {
        match self {
            Piece::S => 0,
            Piece::Z => 1,
            Piece::J => 2,
            Piece::L => 3,
            Piece::T => 4,
            Piece::O => 5,
            Piece::I => 6,
        }
    }

    /// The shape at position `i` of the fixed ordering.
    pub fn from_index(i: usize) -> (r: Piece)
        requires
            i < 7,
        ensures
            r.index_spec() == i,
    {
        match i {
            0 => Piece::S,
            1 => Piece::Z,
            2 => Piece::J,
            3 => Piece::L,
            4 => Piece::T,
            5 => Piece::O,
            _ => Piece::I,
        }
    }

    pub fn name_char(self) -> (r: char)
        ensures
            r == self.name_spec(),
    {
        match self {
            Piece::S => 'S',
            Piece::Z => 'Z',
            Piece::J => 'J',
            Piece::L => 'L',
            Piece::T => 'T',
            Piece::O => 'O',
            Piece::I => 'I',
        }
    }
}

/// The seven shapes in their fixed ordering.
pub const PIECES: [Piece; 7] = [Piece::S, Piece::Z, Piece::J, Piece::L, Piece::T, Piece::O, Piece::I];

/// How often shape `p` occurs in a sequence of pieces.
pub open spec fn occurrences(s: Seq<Piece>, p: Piece) -> int
    decreases s.len(),
{
    if s.len() == 0 {
        0
    } else {
        occurrences(s.drop_last(), p) + if s.last() == p {
            1int
        } else {
            0int
        }
    }
}

/// The sum of a sequence of small counts.
pub open spec fn sum_u8(s: Seq<u8>) -> int
    decreases s.len(),
{
    if s.len() == 0 {
        0
    } else {
        sum_u8(s.drop_last()) + s.last()
    }
}

/// An unordered bag of pieces: a count for each of the seven shapes,
/// indexed by the fixed shape ordering.
#[derive(Copy, Clone, Debug, PartialEq, Eq, Hash)]
pub struct PieceSet(pub [u8; 7]);

impl Default for PieceSet {
    /// The empty bag.
    fn default() -> (r: Self)
        ensures
            forall|p: Piece| r.count_spec(p) == 0,
            r.total_spec() == 0,
    {
        let r = PieceSet([0; 7]);
        proof {
            assert(r.0@ =~= seq![0u8, 0u8, 0u8, 0u8, 0u8, 0u8, 0u8]);
            reveal_with_fuel(sum_u8, 8);
        }
        r
    }
}

impl PieceSet {
    /// How many pieces of shape `p` the bag holds.
    pub open spec fn count_spec(self, p: Piece) -> int {
        self.0@[p.index_spec()] as int
    }

    /// How many pieces the bag holds in all.
    pub open spec fn total_spec(self) -> int {
        sum_u8(self.0@)
    }

    /// No shape is more numerous here than in `other`.
    pub open spec fn subset_of(self, other: PieceSet) -> bool {
        forall|p: Piece| #[trigger] self.count_spec(p) <= other.count_spec(p)
    }

    /// Whether at least one piece of shape `p` is present.
    pub fn contains(self, p: Piece) -> (r: bool)
        ensures
            r == (self.count_spec(p) > 0),
    {
        self.0[p.index()] != 0
    }

    /// The bag with one piece of shape `p` taken out. Taking a shape that
    /// is absent is a caller error, excluded here.
    pub fn without(self, p: Piece) -> (r: PieceSet)
        requires
            self.count_spec(p) > 0,
        ensures
            forall|q: Piece|
                #[trigger] r.count_spec(q) == if q == p {
                    self.count_spec(p) - 1
                } else {
                    self.count_spec(q)
                },
            r.total_spec() == self.total_spec() - 1,
    {
        let mut a = self.0;
        let i = p.index();
        a[i] = a[i] - 1;
        let r = PieceSet(a);
        proof {
            lemma_sum_update(self.0@, p.index_spec(), (self.0@[p.index_spec()] - 1) as u8);
            assert(forall|q: Piece| q != p ==> q.index_spec() != p.index_spec());
        }
        r
    }

    /// The bag with one more piece of shape `p`.
    pub fn with(self, p: Piece) -> (r: PieceSet)
        requires
            self.count_spec(p) < 255,
        ensures
            forall|q: Piece|
                #[trigger] r.count_spec(q) == if q == p {
                    self.count_spec(p) + 1
                } else {
                    self.count_spec(q)
                },
            r.total_spec() == self.total_spec() + 1,
    {
        let mut a = self.0;
        let i = p.index();
        a[i] = a[i] + 1;
        let r = PieceSet(a);
        proof {
            lemma_sum_update(self.0@, p.index_spec(), (self.0@[p.index_spec()] + 1) as u8);
            assert(forall|q: Piece| q != p ==> q.index_spec() != p.index_spec());
        }
        r
    }

    /// The bag holding each piece of the given sequence once.
    pub fn from_pieces(v: &Vec<Piece>) -> (r: PieceSet)
        requires
            v@.len() <= 255,
        ensures
            forall|p: Piece| #[trigger] r.count_spec(p) == occurrences(v@, p),
    {
        let mut r = PieceSet::default();
        let mut i: usize = 0;
        while i < v.len()
            invariant
                i <= v@.len(),
                v@.len() <= 255,
                forall|p: Piece| #[trigger] r.count_spec(p) == occurrences(v@.take(i as int), p),
            decreases v@.len() - i,
        {
            proof {
                lemma_occurrences_le_len(v@.take(i as int), v@[i as int]);
                assert(v@.take(i as int + 1).drop_last() =~= v@.take(i as int));
            }
            r = r.with(v[i]);
            i += 1;
        }
        proof {
            assert(v@.take(v@.len() as int) =~= v@);
        }
        r
    }

    /// The letters of the pieces held, grouped by shape in the fixed
    /// ordering, one letter per piece.
    pub open spec fn names_spec(self) -> Seq<char> {
        piece_run(Piece::S, self.count_spec(Piece::S)) + piece_run(Piece::Z, self.count_spec(Piece::Z))
            + piece_run(Piece::J, self.count_spec(Piece::J)) + piece_run(
            Piece::L,
            self.count_spec(Piece::L),
        ) + piece_run(Piece::T, self.count_spec(Piece::T)) + piece_run(
            Piece::O,
            self.count_spec(Piece::O),
        ) + piece_run(Piece::I, self.count_spec(Piece::I))
    }

    /// The letters of the pieces held, as one string.
    pub fn name_string(&self) -> (r: String)
        ensures
            r@ == self.names_spec(),
    {
        let cs = self.name_chars();
        string_of_chars(&cs)
    }

    /// The letters of the pieces held, as characters.
    pub fn name_chars(&self) -> (r: Vec<char>)
        ensures
            r@ == self.names_spec(),
    {
        let mut out: Vec<char> = Vec::new();
        let mut k: usize = 0;
        proof {
            assert(out@ =~= run_prefix(*self, 0));
        }
        while k < 7
            invariant
                k <= 7,
                out@ == run_prefix(*self, k as int),
            decreases 7 - k,
        {
            let p = Piece::from_index(k);
            let ghost pre = out@;
            let mut n: usize = 0;
            let cnt = self.0[k];
            while n < cnt as usize
                invariant
                    n <= cnt as usize,
                    cnt == self.0@[k as int],
                    k < 7,
                    p.index_spec() == k as int,
                    out@ == pre + piece_run(p, n as int),
                decreases cnt as usize - n,
            {
                out.push(p.name_char());
                proof {
                    assert(pre + piece_run(p, n as int + 1) =~= (pre + piece_run(p, n as int)).push(
                        p.name_spec(),
                    ));
                }
                n += 1;
            }
            proof {
                assert(self.count_spec(p) == cnt as int);
                assert(run_prefix(*self, k as int + 1) =~= pre + piece_run(p, cnt as int));
            }
            k += 1;
        }
        proof {
            reveal_with_fuel(run_prefix, 8);
            assert(run_prefix(*self, 7) =~= self.names_spec());
        }
        out
    }
}

/// Relies on `String`'s `FromIterator` impl: collecting characters gives
/// the string of exactly those characters in order.
#[verifier::external_body]
fn string_of_chars(v: &Vec<char>) -> (r: String)
    ensures
        r@ == v@,
{
    v.iter().collect()
}

/// `n` copies of the letter of shape `p`.
pub open spec fn piece_run(p: Piece, n: int) -> Seq<char> {
    Seq::new(n as nat, |j: int| p.name_spec())
}

/// The concatenated letter runs of the first `k` shapes.
spec fn run_prefix(s: PieceSet, k: int) -> Seq<char>
    decreases k,
{
    if k <= 0 {
        Seq::empty()
    } else {
        run_prefix(s, k - 1) + piece_run(piece_at(k - 1), s.count_spec(piece_at(k - 1)))
    }
}

/// The shape at position `i` of the fixed ordering.
spec fn piece_at(i: int) -> Piece {
    if i == 0 {
        Piece::S
    } else if i == 1 {
        Piece::Z
    } else if i == 2 {
        Piece::J
    } else if i == 3 {
        Piece::L
    } else if i == 4 {
        Piece::T
    } else if i == 5 {
        Piece::O
    } else {
        Piece::I
    }
}

/// Changing one entry of a sequence changes its sum by the difference.
proof fn lemma_sum_update(s: Seq<u8>, i: int, v: u8)
    requires
        0 <= i < s.len(),
    ensures
        sum_u8(s.update(i, v)) == sum_u8(s) - s[i] + v,
    decreases s.len(),
{
    if i == s.len() - 1 {
        assert(s.update(i, v).drop_last() =~= s.drop_last());
        assert(s.update(i, v).last() == v);
    } else {
        assert(s.update(i, v).drop_last() =~= s.drop_last().update(i, v));
        lemma_sum_update(s.drop_last(), i, v);
    }
}

/// A piece occurs in a sequence no more often than the sequence is long.
proof fn lemma_occurrences_le_len(s: Seq<Piece>, p: Piece)
    ensures
        0 <= occurrences(s, p) <= s.len(),
    decreases s.len(),
{
    if s.len() > 0 {
        lemma_occurrences_le_len(s.drop_last(), p);
    }
}

} // verus!
