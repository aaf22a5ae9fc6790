use vstd::prelude::*;
use core::sync::atomic::AtomicBool;
use core::sync::atomic::Ordering;
use crate::board::BitBoard;
use crate::combination::col_mask_bits;
use crate::combination::column_mask;
use crate::combination::count_bits;
use crate::geometry::PieceState;
use crate::geometry::piece_states;
use crate::geometry::state_ok;
use crate::pieces::Piece;
use crate::placement::Placement;

verus! {

/// One step of a reported solution: a concrete placement, or setting the
/// current piece aside in exchange for the held or next queued piece.
#[derive(Copy, Clone, Debug, Eq, PartialEq)]
pub enum PlacementEvent {
    Place(Placement),
    Hold,
}

/// What one placement must satisfy against the board it lands on, with
/// `h` rows of the region left: it lies inside those rows, only on empty
/// cells, touches the leftmost column that still has an empty cell, and
/// is supported on the board as it stands.
pub open spec fn placement_fits(pl: Placement, b: BitBoard, h: int) -> bool {
    &&& pl.x < 10
    &&& pl.x + pl.kind.cols <= 10
    &&& pl.mask_spec() & !BitBoard::filled_bits(h) == 0
    &&& pl.mask_spec() & b.0 == 0
    &&& pl.mask_spec() & col_mask_bits(b.leftmost_from(h, 0), h) != 0
    &&& pl.supported_without_clears_spec(b)
}

/// The board and remaining region height after one solution event, or
/// `None` where the event is not legal there. A placement unions its
/// cells into the board, then every full row vanishes and the region
/// shrinks by as many rows.
pub open spec fn step_state(b: BitBoard, h: int, e: PlacementEvent) -> Option<(BitBoard, int)> {
    match e {
        PlacementEvent::Hold => Some((b, h)),
        PlacementEvent::Place(pl) => if placement_fits(pl, b, h) {
            let nb = BitBoard(b.0 | pl.mask_spec());
            let f = BitBoard::count_full(nb.rows());
            if f <= h {
                Some((nb.lines_cleared_spec(), h - f))
            } else {
                None
            }
        } else {
            None
        },
    }
}

/// Replays a solution prefix event by event from a starting board and
/// region height.
pub open spec fn replay(b0: BitBoard, h0: int, ev: Seq<PlacementEvent>) -> Option<(BitBoard, int)>
    decreases ev.len(),
{
    if ev.len() == 0 {
        Some((b0, h0))
    } else {
        match replay(b0, h0, ev.drop_last()) {
            Some(st) => step_state(st.0, st.1, ev.last()),
            None => None,
        }
    }
}

/// A full solution from board `b0` and region height `h0`: every event is
/// legal in turn and no row of the region is left unfilled at the end.
pub open spec fn solution_ok(b0: BitBoard, h0: int, ev: Seq<PlacementEvent>) -> bool {
    match replay(b0, h0, ev) {
        Some(st) => st.1 == 0,
        None => false,
    }
}

/// Every hold is immediately followed by a placement; in particular no
/// two holds ever stand next to each other.
pub open spec fn holds_spaced(ev: Seq<PlacementEvent>) -> bool {
    forall|i: int|
        0 <= i < ev.len() && (#[trigger] ev[i]) is Hold ==> i + 1 < ev.len() && !(ev[i + 1] is Hold)
}

/// What the exact search promises of everything it reports: properly
/// spaced holds, and a legal clearing replay for the height of some
/// region of the starting board.
pub open spec fn reported_ok(b0: BitBoard, ev: Seq<PlacementEvent>) -> bool {
    holds_spaced(ev) && exists|h: int| 1 <= h <= 6 && solution_ok(b0, h, ev)
}

/// How one event advances the queue state `(i, hold, awaiting)`: `q[i]`
/// is the current piece, `hold` the piece set aside, and `awaiting` the
/// piece that a hold has just swapped in, which the next placement must
/// use. A hold exchanges the current piece with the held one, or with the
/// next queued piece when the hold slot is empty.
pub open spec fn queue_step(
    q: Seq<Piece>,
    i: int,
    hold: Option<Piece>,
    awaiting: Option<Piece>,
    e: PlacementEvent,
) -> Option<(int, Option<Piece>, Option<Piece>)> {
    match e {
        PlacementEvent::Hold => if awaiting is None {
            match hold {
                Some(p) => if i < q.len() {
                    Some((i + 1, Some(q[i]), Some(p)))
                } else {
                    None
                },
                None => if i + 1 < q.len() {
                    Some((i + 2, Some(q[i]), Some(q[i + 1])))
                } else {
                    None
                },
            }
        } else {
            None
        },
        PlacementEvent::Place(pl) => match awaiting {
            Some(alt) => if pl.kind.piece == alt {
                Some((i, hold, None))
            } else {
                None
            },
            None => if i < q.len() && pl.kind.piece == q[i] {
                Some((i + 1, hold, None))
            } else {
                None
            },
        },
    }
}

/// Replays the queue discipline of a solution prefix.
pub open spec fn queue_replay(
    q: Seq<Piece>,
    i: int,
    hold: Option<Piece>,
    awaiting: Option<Piece>,
    ev: Seq<PlacementEvent>,
) -> Option<(int, Option<Piece>, Option<Piece>)>
    decreases ev.len(),
{
    if ev.len() == 0 {
        Some((i, hold, awaiting))
    } else {
        match queue_replay(q, i, hold, awaiting, ev.drop_last()) {
            Some(st) => queue_step(q, st.0, st.1, st.2, ev.last()),
            None => None,
        }
    }
}

/// The events draw their pieces from the queue in order, with an empty
/// hold slot at the start and each hold used by the very next placement.
pub open spec fn queue_consistent(q: Seq<Piece>, ev: Seq<PlacementEvent>) -> bool {
    match queue_replay(q, 0, None, None, ev) {
        Some(st) => st.2 is None,
        None => false,
    }
}

/// What a candidate of one search node must be, relative to the node's
/// queue state: the current piece going on to the next index, or, as a
/// hold, the alternate piece with the current one set aside.
spec fn cand_ok(
    q: Seq<Piece>,
    i: int,
    hold: Option<Piece>,
    cand: (Piece, usize, Option<Piece>, bool),
) -> bool {
    if cand.3 {
        match hold {
            Some(p) => i < q.len() && cand.0 == p && cand.1 == i + 1 && cand.2 == Some(q[i]),
            None => i + 1 < q.len() && cand.0 == q[i + 1] && cand.1 == i + 2 && cand.2 == Some(
                q[i],
            ),
        }
    } else {
        i < q.len() && cand.0 == q[i] && cand.1 == i + 1 && cand.2 == hold
    }
}

/// Replaying can also be read from the front: the first event steps the
/// state, then the rest replays from there.
proof fn lemma_replay_unfold_front(b0: BitBoard, h0: int, ev: Seq<PlacementEvent>)
    requires
        ev.len() > 0,
    ensures
        replay(b0, h0, ev) == (match step_state(b0, h0, ev[0]) {
            Some(st) => replay(st.0, st.1, ev.drop_first()),
            None => None::<(BitBoard, int)>,
        }),
    decreases ev.len(),
{
    if ev.len() == 1 {
        assert(ev.drop_last() =~= Seq::empty());
        assert(ev.drop_first() =~= Seq::empty());
    } else {
        lemma_replay_unfold_front(b0, h0, ev.drop_last());
        assert(ev.drop_last()[0] == ev[0]);
        assert(ev.drop_last().drop_first() =~= ev.drop_first().drop_last());
        assert(ev.drop_first().last() == ev.last());
    }
}

/// In any legal solution, the first committed placement — the first
/// placement event, with only holds before it — covers the column of the
/// starting board that the leftmost-empty-column anchor names.
pub proof fn lemma_first_placement_covers_column(
    b0: BitBoard,
    h0: int,
    ev: Seq<PlacementEvent>,
    k: int,
    pl: Placement,
)
    requires
        solution_ok(b0, h0, ev),
        0 <= k < ev.len(),
        ev[k] == PlacementEvent::Place(pl),
        forall|j: int| 0 <= j < k ==> (#[trigger] ev[j]) is Hold,
    ensures
        pl.mask_spec() & col_mask_bits(b0.leftmost_from(h0, 0), h0) != 0,
    decreases k,
{
    lemma_replay_unfold_front(b0, h0, ev);
    if k == 0 {
        assert(placement_fits(pl, b0, h0));
    } else {
        assert(ev[0] is Hold);
        assert(step_state(b0, h0, ev[0]) == Some((b0, h0)));
        assert(solution_ok(b0, h0, ev.drop_first()));
        assert(ev.drop_first()[k - 1] == ev[k]);
        lemma_first_placement_covers_column(b0, h0, ev.drop_first(), k - 1, pl);
    }
}

/// A fresh vector with the same events.
fn copy_events(v: &Vec<PlacementEvent>) -> (r: Vec<PlacementEvent>)
    ensures
        r@ == v@,
{
    let mut out: Vec<PlacementEvent> = Vec::new();
    let mut j: usize = 0;
    while j < v.len()
        invariant
            j <= v@.len(),
            out@ == v@.take(j as int),
        decreases v@.len() - j,
    {
        out.push(v[j]);
        proof {
            assert(v@.take(j as int + 1) =~= v@.take(j as int).push(v@[j as int]));
        }
        j += 1;
    }
    proof {
        assert(v@.take(v@.len() as int) =~= v@);
    }
    out
}

/// Finds concrete placement sequences that perfectly clear `board` using
/// the queued pieces in order, reporting each as a list of events.
///
/// At each step the search tries the current piece and, where
/// `hold_allowed` permits, one alternate piece — the held piece, or the
/// next queued piece when the hold slot is empty — recorded as a hold
/// event directly before the placement that uses it. Every placement is
/// validated with `supported_without_clears` against the board as it
/// stands, full rows are cleared eagerly, and a sequence is reported once
/// the whole region is cleared. A placement whose straight drop path is
/// obstructed is tried only where the rotation-system decision function
/// `placeable` accepts it. With `first_only` the search stops after one
/// report; setting `abort` stops it at the next recursion step. Fully
/// occupied rows of the input board vanish before the search starts.
#[verifier::loop_isolation(false)]
pub fn solve_pc<F: Fn(BitBoard, Placement) -> bool>(
    queue: &Vec<Piece>,
    board: BitBoard,
    hold_allowed: bool,
    first_only: bool,
    abort: &AtomicBool,
    placeable: &F,
) -> (r: Vec<Vec<PlacementEvent>>)
    requires
        forall|b: BitBoard, pl: Placement| #[trigger] call_requires(*placeable, (b, pl)),
    ensures
        forall|k: int|
            0 <= k < r@.len() ==> reported_ok(board.lines_cleared_spec(), #[trigger] r@[k]@)
                && queue_consistent(queue@, r@[k]@),
        first_only ==> r@.len() <= 1,
{
    let board0 = board.lines_cleared();
    let states = piece_states();
    let mut out: Vec<Vec<PlacementEvent>> = Vec::new();
    let mut h: usize = 1;
    while h <= 6
        invariant
            1 <= h,
            forall|k: int|
                0 <= k < out@.len() ==> reported_ok(board0, #[trigger] out@[k]@)
                    && queue_consistent(queue@, out@[k]@),
            first_only ==> out@.len() <= 1,
        decreases 7 - h,
    {
        let fh = BitBoard::filled(h);
        if board0.remove(fh).0 == 0 {
            let cnt = count_bits(board0.0);
            if cnt <= 10 * h && (10 * h - cnt) % 4 == 0 && (10 * h - cnt) / 4 <= queue.len() {
                let mut events: Vec<PlacementEvent> = Vec::new();
                solve_rec(
                    &states,
                    queue,
                    0,
                    None,
                    board0,
                    h,
                    hold_allowed,
                    first_only,
                    abort,
                    placeable,
                    &mut events,
                    &mut out,
                    Ghost(board0),
                    Ghost(h as int),
                );
            }
        }
        h += 1;
    }
    out
}

/// One node of the exact search: `queue[i]` is the current piece, `hold`
/// the piece set aside, `board` the field after the clears so far and `h`
/// how many rows of the region are still to fill. Found solutions go to
/// `out`; `events` holds the path to this node and is left as it was.
#[verifier::loop_isolation(false)]
fn solve_rec<F: Fn(BitBoard, Placement) -> bool>(
    states: &Vec<PieceState>,
    queue: &Vec<Piece>,
    i: usize,
    hold: Option<Piece>,
    board: BitBoard,
    h: usize,
    hold_allowed: bool,
    first_only: bool,
    abort: &AtomicBool,
    placeable: &F,
    events: &mut Vec<PlacementEvent>,
    out: &mut Vec<Vec<PlacementEvent>>,
    Ghost(b0): Ghost<BitBoard>,
    Ghost(h0): Ghost<int>,
)
    requires
        forall|j: int| 0 <= j < states@.len() ==> state_ok(#[trigger] states@[j]),
        forall|b: BitBoard, pl: Placement| #[trigger] call_requires(*placeable, (b, pl)),
        i <= queue@.len(),
        h <= 6,
        1 <= h0 <= 6,
        replay(b0, h0, old(events)@) == Some((board, h as int)),
        queue_replay(queue@, 0, None, None, old(events)@) == Some((i as int, hold, None::<Piece>)),
        holds_spaced(old(events)@),
        old(events)@.len() > 0 ==> !(old(events)@.last() is Hold),
        forall|k: int|
            0 <= k < old(out)@.len() ==> reported_ok(b0, #[trigger] old(out)@[k]@)
                && queue_consistent(queue@, old(out)@[k]@),
        first_only ==> old(out)@.len() <= 1,
    ensures
        final(events)@ == old(events)@,
        forall|k: int|
            0 <= k < final(out)@.len() ==> reported_ok(b0, #[trigger] final(out)@[k]@)
                && queue_consistent(queue@, final(out)@[k]@),
        first_only ==> final(out)@.len() <= 1,
    decreases queue@.len() - i,
{
    if abort.load(Ordering::Relaxed) {
        return ;
    }
    if first_only && out.len() > 0 {
        return ;
    }
    if h == 0 {
        let sol = copy_events(events);
        proof {
            assert(solution_ok(b0, h0, sol@));
            assert(reported_ok(b0, sol@));
            assert(queue_consistent(queue@, sol@));
        }
        out.push(sol);
        return ;
    }
    if i >= queue.len() {
        return ;
    }
    let c = board.leftmost_empty_column(h);
    if c >= 10 {
        return ;
    }
    let colmask = column_mask(c, h);
    let fh = BitBoard::filled(h);
    let cur = queue[i];
    let mut cands: Vec<(Piece, usize, Option<Piece>, bool)> = Vec::new();
    cands.push((cur, i + 1, hold, false));
    if hold_allowed {
        match hold {
            Some(p) => cands.push((p, i + 1, Some(cur), true)),
            None => {
                if i + 1 < queue.len() {
                    cands.push((queue[i + 1], i + 2, Some(cur), true));
                }
            },
        }
    }
    proof {
        assert(forall|t: int|
            0 <= t < cands@.len() ==> i < (#[trigger] cands@[t]).1 <= queue@.len());
        assert(forall|t: int|
            0 <= t < cands@.len() ==> cand_ok(queue@, i as int, hold, #[trigger] cands@[t]));
    }
    let mut ci: usize = 0;
    while ci < cands.len()
        invariant
            events@ == old(events)@,
            forall|k: int|
                0 <= k < out@.len() ==> reported_ok(b0, #[trigger] out@[k]@)
                    && queue_consistent(queue@, out@[k]@),
            first_only ==> out@.len() <= 1,
        decreases cands@.len() - ci,
    {
        let (p, inext, hnext, hev) = cands[ci];
        proof {
            assert(cand_ok(queue@, i as int, hold, (p, inext, hnext, hev)));
        }
        let mut si: usize = 0;
        while si < states.len()
            invariant
                events@ == old(events)@,
                forall|k: int|
                    0 <= k < out@.len() ==> reported_ok(b0, #[trigger] out@[k]@)
                        && queue_consistent(queue@, out@[k]@),
                first_only ==> out@.len() <= 1,
                i < inext <= queue@.len(),
            decreases states@.len() - si,
        {
            let st = states[si];
            if st.piece == p {
                let maxx: usize = 10 - st.cols as usize;
                let mut x: usize = 0;
                while x <= maxx
                    invariant
                        x <= maxx + 1,
                        events@ == old(events)@,
                        forall|k: int|
                            0 <= k < out@.len() ==> reported_ok(b0, #[trigger] out@[k]@)
                                && queue_consistent(queue@, out@[k]@),
                        first_only ==> out@.len() <= 1,
                        i < inext <= queue@.len(),
                        state_ok(st),
                    decreases maxx + 1 - x,
                {
                    let pl = Placement { kind: st, x: x as u8 };
                    let plb = pl.board();
                    if plb.remove(fh).0 == 0 && !plb.overlaps(board) && (plb.0 & colmask) != 0
                        && pl.supported_without_clears(board) {
                        let dropm = pl.harddrop_mask();
                        let reachable = if !dropm.overlaps(board) {
                            true
                        } else {
                            (*placeable)(board, pl)
                        };
                        if reachable {
                            let nb = board.combine(plb);
                            let f = nb.count_full_lines();
                            if f <= h {
                                let nb2 = nb.lines_cleared();
                                let h2 = h - f;
                                let ghost snap = events@;
                                if hev {
                                    events.push(PlacementEvent::Hold);
                                }
                                events.push(PlacementEvent::Place(pl));
                                proof {
                                    let withhold = if hev {
                                        snap.push(PlacementEvent::Hold)
                                    } else {
                                        snap
                                    };
                                    assert(events@ == withhold.push(PlacementEvent::Place(pl)));
                                    if hev {
                                        assert(withhold.drop_last() =~= snap);
                                        assert(replay(b0, h0, withhold) == Some((
                                            board,
                                            h as int,
                                        )));
                                    }
                                    assert(events@.drop_last() =~= withhold);
                                    assert(placement_fits(pl, board, h as int));
                                    assert(step_state(board, h as int, PlacementEvent::Place(pl))
                                        == Some((nb2, h2 as int)));
                                    assert(replay(b0, h0, events@) == Some((nb2, h2 as int)));
                                    if hev {
                                        assert(queue_step(
                                            queue@,
                                            i as int,
                                            hold,
                                            None,
                                            PlacementEvent::Hold,
                                        ) == Some((inext as int, hnext, Some(p))));
                                        assert(queue_replay(queue@, 0, None, None, withhold)
                                            == Some((inext as int, hnext, Some(p))));
                                    }
                                    assert(queue_replay(queue@, 0, None, None, events@) == Some((
                                        inext as int,
                                        hnext,
                                        None::<Piece>,
                                    )));
                                    assert forall|ii: int|
                                        0 <= ii < events@.len() && (#[trigger] events@[ii])
                                            is Hold implies ii + 1 < events@.len() && !(events@[ii
                                        + 1] is Hold) by {
                                        if ii < snap.len() {
                                            assert(events@[ii] == snap[ii]);
                                            assert(snap[ii + 1] == events@[ii + 1] || ii + 1
                                                == snap.len());
                                        }
                                    }
                                    assert(!(events@.last() is Hold));
                                }
                                solve_rec(
                                    states,
                                    queue,
                                    inext,
                                    hnext,
                                    nb2,
                                    h2,
                                    hold_allowed,
                                    first_only,
                                    abort,
                                    placeable,
                                    events,
                                    out,
                                    Ghost(b0),
                                    Ghost(h0),
                                );
                                let _ = events.pop();
                                if hev {
                                    let _ = events.pop();
                                }
                                proof {
                                    assert(events@ =~= snap);
                                }
                            }
                        }
                    }
                    x += 1;
                }
            }
            si += 1;
        }
        ci += 1;
    }
}

/// The shape named by a queue character, if any.
pub open spec fn piece_of_char(ch: char) -> Option<Piece> {
    if ch == 'I' {
        Some(Piece::I)
    } else if ch == 'T' {
        Some(Piece::T)
    } else if ch == 'O' {
        Some(Piece::O)
    } else if ch == 'L' {
        Some(Piece::L)
    } else if ch == 'J' {
        Some(Piece::J)
    } else if ch == 'S' {
        Some(Piece::S)
    } else if ch == 'Z' {
        Some(Piece::Z)
    } else {
        None
    }
}

/// The pieces named by a character sequence, in order, with unrecognized
/// characters silently skipped.
pub open spec fn parse_spec(s: Seq<char>) -> Seq<Piece>
    decreases s.len(),
{
    if s.len() == 0 {
        Seq::empty()
    } else {
        let rest = parse_spec(s.drop_last());
        match piece_of_char(s.last()) {
            Some(p) => rest.push(p),
            None => rest,
        }
    }
}

/// Reads a piece queue from characters: the seven shape letters name
/// their shapes, anything else is silently skipped.
pub fn parse_queue(chars: &Vec<char>) -> (r: Vec<Piece>)
    ensures
        r@ == parse_spec(chars@),
{
    let mut out: Vec<Piece> = Vec::new();
    let mut i: usize = 0;
    while i < chars.len()
        invariant
            i <= chars@.len(),
            out@ == parse_spec(chars@.take(i as int)),
        decreases chars@.len() - i,
    {
        let ch = chars[i];
        proof {
            assert(chars@.take(i as int + 1).drop_last() =~= chars@.take(i as int));
            assert(chars@.take(i as int + 1).last() == chars@[i as int]);
        }
        if ch == 'I' {
            out.push(Piece::I);
        } else if ch == 'T' {
            out.push(Piece::T);
        } else if ch == 'O' {
            out.push(Piece::O);
        } else if ch == 'L' {
            out.push(Piece::L);
        } else if ch == 'J' {
            out.push(Piece::J);
        } else if ch == 'S' {
            out.push(Piece::S);
        } else if ch == 'Z' {
            out.push(Piece::Z);
        }
        i += 1;
    }
    proof {
        assert(chars@.take(chars@.len() as int) =~= chars@);
    }
    out
}

} // verus!
