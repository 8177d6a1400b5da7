//! The board of 81 cells: events, conflict tracking and candidate elimination.
use vstd::prelude::*;

use crate::cell_state::{
    effective, entry_valid, event_valid, in_conflicts, lemma_add_conflict, lemma_drop_conflict,
    lemma_no_conflicts, lemma_remove_candidate, next_cell, remove_candidate,
    transition, CellEvent, CellMode, CellValue, GridEntry,
};
use crate::events::RemoveDigit;
use crate::position::{is_peer, valid_pos, CellPosition};

verus! {

/// The placed digit of every cell.
pub open spec fn digits_of(cells: Seq<CellValue>) -> Seq<Option<u8>> {
    Seq::new(cells.len(), |i: int| cells[i].digit)
}

/// `p` and `q` are peers that hold the same placed digit, by `digits`.
pub open spec fn conflict_rule(digits: Seq<Option<u8>>, p: int, q: int) -> bool {
    is_peer(p, q) && digits[p].is_some() && digits[p] == digits[q]
}

/// Each cell's conflict set is the set of its peers that hold its digit, by `digits`.
pub open spec fn conflicts_follow(cells: Seq<CellValue>, digits: Seq<Option<u8>>) -> bool {
    forall|p: int, q: int|
        valid_pos(p) && valid_pos(q) ==> (#[trigger] in_conflicts(cells[p].conflicts, q)
            <==> conflict_rule(digits, p, q))
}

/// `q` is in the conflict set of `p` exactly when `p` is in that of `q`.
pub open spec fn conflicts_symmetric(cells: Seq<CellValue>) -> bool {
    forall|p: int, q: int|
        valid_pos(p) && valid_pos(q) ==> (#[trigger] in_conflicts(cells[p].conflicts, q)
            <==> in_conflicts(cells[q].conflicts, p))
}

/// Conflict sets that follow some digits are symmetric.
pub proof fn lemma_follow_symmetric(cells: Seq<CellValue>, digits: Seq<Option<u8>>)
    requires
        conflicts_follow(cells, digits),
    ensures
        conflicts_symmetric(cells),
{
    assert forall|p: int, q: int| valid_pos(p) && valid_pos(q) implies (#[trigger] in_conflicts(
        cells[p].conflicts,
        q,
    ) <==> in_conflicts(cells[q].conflicts, p)) by {
        assert(in_conflicts(cells[p].conflicts, q) == conflict_rule(digits, p, q));
        assert(in_conflicts(cells[q].conflicts, p) == conflict_rule(digits, q, p));
    }
}

/// Equal in every field but the conflict set.
pub open spec fn same_but_conflicts(a: CellValue, b: CellValue) -> bool {
    &&& a.fixed == b.fixed
    &&& a.mode == b.mode
    &&& a.digit == b.digit
    &&& a.auto_candidates == b.auto_candidates
    &&& a.manual_candidates == b.manual_candidates
}

/// 81 well-formed cells whose conflict sets follow their digits.
pub open spec fn board_wf(cells: Seq<CellValue>) -> bool {
    &&& cells.len() == 81
    &&& forall|p: int| 0 <= p < 81 ==> #[trigger] cells[p].wf()
    &&& conflicts_follow(cells, digits_of(cells))
}

/// Whether an event at `pos` changes anything: its digit is valid, `pos` is on the board and
/// the cell there is not a given.
pub open spec fn event_applies(cells: Seq<CellValue>, pos: int, e: CellEvent) -> bool {
    event_valid(e) && valid_pos(pos) && !cells[pos].fixed
}

/// The cell at `q` after `e` at `pos`, but for its conflict set: the target takes its next
/// state, and on a placed digit every peer in `AutoCandidates` mode loses that candidate.
pub open spec fn expected_cell(
    cells: Seq<CellValue>,
    pos: int,
    e: CellEvent,
    auto: bool,
    q: int,
) -> CellValue {
    if q == pos {
        next_cell(cells[pos], e, auto)
    } else {
        match e {
            CellEvent::PlaceDigit(d) => if is_peer(pos, q) && cells[q].mode
                == CellMode::AutoCandidates {
                CellValue {
                    auto_candidates: remove_candidate(cells[q].auto_candidates, d),
                    ..cells[q]
                }
            } else {
                cells[q]
            },
            _ => cells[q],
        }
    }
}

/// `after` is what the board `before` becomes on `e` at `pos`: nothing changes where the event
/// does not apply; else each cell is its expected cell, and all conflict sets follow the new
/// digits.
pub open spec fn step(
    before: Seq<CellValue>,
    after: Seq<CellValue>,
    pos: int,
    e: CellEvent,
    auto: bool,
) -> bool {
    if event_applies(before, pos, e) {
        &&& board_wf(after)
        &&& forall|q: int|
            0 <= q < 81 ==> same_but_conflicts(
                #[trigger] after[q],
                expected_cell(before, pos, e, auto, q),
            )
    } else {
        after == before
    }
}

/// Why an event was turned down.
#[derive(Clone, Copy, Debug, PartialEq, Eq, Structural)]
pub enum EventError {
    /// The digit lies outside 1..=9.
    InvalidDigit,
}

/// The 81 cells, in row-major order.
pub struct Board {
    cells: Vec<CellValue>,
}

impl View for Board {
    type V = Seq<CellValue>;

    closed spec fn view(&self) -> Seq<CellValue> {
        self.cells@
    }
}

/// Whether `p` and `q` are peers holding the same placed digit.
fn same_digit_peers(p: u8, q: u8, a: &CellValue, b: &CellValue) -> (r: bool)
    ensures
        r == (is_peer(p as int, q as int) && a.digit.is_some() && a.digit == b.digit),
{
    if !CellPosition(p).is_peer_of(&CellPosition(q)) {
        return false;
    }
    match (a.digit, b.digit) {
        (Some(x), Some(y)) => x == y,
        _ => false,
    }
}

impl Board {
    pub open spec fn wf(&self) -> bool {
        board_wf(self@)
    }

    /// Builds the board from 81 entries in row-major order: a digit is a given, a candidate
    /// mask opens the cell in the mode that `auto` selects. Conflicts are those among the
    /// givens. `None` unless there are 81 entries and each is valid.
    pub fn from_grid_state(entries: &Vec<GridEntry>, auto: bool) -> (r: Option<Board>)
        ensures
            r.is_some() <==> (entries.len() == 81 && forall|i: int|
                0 <= i < entries.len() ==> entry_valid(#[trigger] entries[i])),
            r matches Some(b) ==> b.wf() && forall|p: int|
                0 <= p < 81 ==> same_but_conflicts(
                    #[trigger] b@[p],
                    CellValue::from_entry_spec(entries[p], auto),
                ),
    {
        if entries.len() != 81 {
            return None;
        }
        let mut base: Vec<CellValue> = Vec::new();
        let mut i: usize = 0;
        while i < 81
            invariant
                entries.len() == 81,
                i <= 81,
                base.len() == i,
                forall|p: int| 0 <= p < i ==> entry_valid(#[trigger] entries[p]),
                forall|p: int|
                    0 <= p < i ==> #[trigger] base[p] == CellValue::from_entry_spec(
                        entries[p],
                        auto,
                    ),
                forall|p: int| 0 <= p < i ==> (#[trigger] base[p]).wf(),
            decreases 81 - i,
        {
            let e = entries[i];
            let valid = match e {
                GridEntry::Digit(d) => 1 <= d && d <= 9,
                GridEntry::Candidates(m) => m <= 511,
            };
            if !valid {
                return None;
            }
            base.push(CellValue::from_entry(e, auto));
            i += 1;
        }
        let mut cells: Vec<CellValue> = Vec::new();
        let mut p: u8 = 0;
        while p < 81
            invariant
                base.len() == 81,
                p <= 81,
                cells.len() == p,
                forall|x: int| 0 <= x < 81 ==> (#[trigger] base[x]).wf(),
                forall|x: int|
                    0 <= x < p ==> same_but_conflicts(#[trigger] cells[x], base[x]),
                forall|x: int, y: int|
                    0 <= x < p && valid_pos(y) ==> (#[trigger] in_conflicts(cells[x].conflicts, y)
                        <==> conflict_rule(digits_of(base@), x, y)),
            decreases 81 - p,
        {
            let mut c = base[p as usize];
            let mut mask: u128 = 0;
            proof {
                lemma_no_conflicts();
            }
            let mut q: u8 = 0;
            while q < 81
                invariant
                    base.len() == 81,
                    p < 81,
                    q <= 81,
                    forall|y: int|
                        valid_pos(y) ==> (#[trigger] in_conflicts(mask, y) <==> (y < q
                            && conflict_rule(digits_of(base@), p as int, y))),
                decreases 81 - q,
            {
                assert(digits_of(base@)[p as int] == base[p as int].digit);
                assert(digits_of(base@)[q as int] == base[q as int].digit);
                if same_digit_peers(p, q, &base[p as usize], &base[q as usize]) {
                    proof {
                        lemma_add_conflict(mask, q);
                    }
                    mask = mask | (1u128 << (q as u128));
                }
                q += 1;
            }
            c.conflicts = mask;
            cells.push(c);
            p += 1;
        }
        let board = Board { cells };
        assert(digits_of(board@) =~= digits_of(base@));
        assert forall|p: int| 0 <= p < 81 implies #[trigger] board@[p].wf() by {
            assert(same_but_conflicts(board@[p], base[p]));
        }
        Some(board)
    }

    /// The cell at `pos`.
    pub fn cell(&self, pos: u8) -> (r: CellValue)
        requires
            self.wf(),
            pos < 81,
        ensures
            r == self@[pos as int],
    {
        self.cells[pos as usize]
    }

    /// Whether the cell at `pos` conflicts with a peer.
    pub fn has_conflict(&self, pos: u8) -> (r: bool)
        requires
            self.wf(),
            pos < 81,
        ensures
            r == exists|q: int| conflict_rule(digits_of(self@), pos as int, q),
    {
        let r = self.cells[pos as usize].has_conflict();
        proof {
            if r {
                let q = choose|q: int| in_conflicts(self@[pos as int].conflicts, q);
                assert(conflict_rule(digits_of(self@), pos as int, q));
            } else {
                assert forall|q: int| !conflict_rule(digits_of(self@), pos as int, q) by {
                    if valid_pos(q) {
                        assert(!crate::cell_state::conflict_set(
                            self@[pos as int].conflicts,
                        ).contains(q));
                    }
                }
            }
        }
        r
    }

    /// The effective values of all cells, in row-major order.
    pub fn snapshot(&self) -> (r: Vec<GridEntry>)
        requires
            self.wf(),
        ensures
            r.len() == 81,
            forall|i: int| 0 <= i < 81 ==> #[trigger] r[i] == effective(self@[i]),
            forall|i: int| 0 <= i < 81 ==> entry_valid(#[trigger] r[i]),
    {
        let mut r: Vec<GridEntry> = Vec::new();
        let mut i: usize = 0;
        while i < 81
            invariant
                self.wf(),
                i <= 81,
                r.len() == i,
                forall|x: int| 0 <= x < i ==> #[trigger] r[x] == effective(self@[x]),
                forall|x: int| 0 <= x < i ==> entry_valid(#[trigger] r[x]),
            decreases 81 - i,
        {
            r.push(self.cells[i].current());
            i += 1;
        }
        r
    }

    /// Takes `pos`, which gives up the digit of `removal`, out of all conflict sets: its own
    /// set is emptied and each peer that holds that digit forgets `pos`.
    fn remove_conflict(&mut self, pos: u8, removal: RemoveDigit)
        requires
            old(self)@.len() == 81,
            pos < 81,
            old(self)@[pos as int].digit == Some(removal.0),
            conflicts_follow(old(self)@, digits_of(old(self)@)),
        ensures
            final(self)@.len() == 81,
            forall|q: int|
                0 <= q < 81 ==> same_but_conflicts(#[trigger] final(self)@[q], old(self)@[q]),
            conflicts_follow(final(self)@, digits_of(old(self)@).update(pos as int, None)),
            conflicts_symmetric(final(self)@),
    {
        let old_d = removal.0;
        let ghost d0 = digits_of(self@);
        let ghost d2 = d0.update(pos as int, None);
        let ghost start = self@;
        let mut c = self.cells[pos as usize];
        c.conflicts = 0;
        self.cells.set(pos as usize, c);
        proof {
            lemma_no_conflicts();
        }
        let mut q: u8 = 0;
        while q < 81
            invariant
                self@.len() == 81,
                pos < 81,
                q <= 81,
                start.len() == 81,
                d0 == digits_of(start),
                d2 == d0.update(pos as int, None),
                d0[pos as int] == Some(old_d),
                forall|x: int| 0 <= x < 81 ==> same_but_conflicts(#[trigger] self@[x], start[x]),
                forall|a: int, b: int|
                    valid_pos(a) && valid_pos(b) ==> (#[trigger] in_conflicts(self@[a].conflicts, b)
                        <==> (conflict_rule(d2, a, b) || (b == pos && a >= q && conflict_rule(
                        d0,
                        a,
                        pos as int,
                    )))),
            decreases 81 - q,
        {
            let mut cq = self.cells[q as usize];
            let holds = match cq.digit {
                Some(x) => x == old_d,
                None => false,
            };
            assert(d0[q as int] == start[q as int].digit);
            if holds && CellPosition(pos).is_peer_of(&CellPosition(q)) {
                proof {
                    lemma_drop_conflict(cq.conflicts, pos);
                }
                cq.conflicts = cq.conflicts & !(1u128 << (pos as u128));
                self.cells.set(q as usize, cq);
            }
            q += 1;
        }
        proof {
            lemma_follow_symmetric(self@, d2);
        }
    }

    /// Records the conflicts of `pos`, which now holds `d`, with each peer that holds `d`,
    /// on both sides.
    fn check_conflict(&mut self, pos: u8, d: u8)
        requires
            old(self)@.len() == 81,
            pos < 81,
            old(self)@[pos as int].digit == Some(d),
            conflicts_follow(old(self)@, digits_of(old(self)@).update(pos as int, None)),
        ensures
            final(self)@.len() == 81,
            forall|q: int|
                0 <= q < 81 ==> same_but_conflicts(#[trigger] final(self)@[q], old(self)@[q]),
            conflicts_follow(final(self)@, digits_of(old(self)@)),
            conflicts_symmetric(final(self)@),
    {
        let ghost d0 = digits_of(self@);
        let ghost d2 = d0.update(pos as int, None);
        let ghost start = self@;
        let mut q: u8 = 0;
        while q < 81
            invariant
                self@.len() == 81,
                pos < 81,
                q <= 81,
                start.len() == 81,
                d0 == digits_of(start),
                d0[pos as int] == Some(d),
                forall|x: int| 0 <= x < 81 ==> same_but_conflicts(#[trigger] self@[x], start[x]),
                forall|a: int, b: int|
                    valid_pos(a) && valid_pos(b) ==> (#[trigger] in_conflicts(self@[a].conflicts, b)
                        <==> (conflict_rule(d0, a, b) && !((a == pos && b >= q) || (b == pos && a
                        >= q)))),
            decreases 81 - q,
        {
            let cq = self.cells[q as usize];
            let holds = match cq.digit {
                Some(x) => x == d,
                None => false,
            };
            assert(d0[q as int] == start[q as int].digit);
            if holds && CellPosition(pos).is_peer_of(&CellPosition(q)) {
                let mut cp = self.cells[pos as usize];
                proof {
                    lemma_add_conflict(cp.conflicts, q);
                }
                cp.conflicts = cp.conflicts | (1u128 << (q as u128));
                self.cells.set(pos as usize, cp);
                let mut cq = self.cells[q as usize];
                proof {
                    lemma_add_conflict(cq.conflicts, pos);
                }
                cq.conflicts = cq.conflicts | (1u128 << (pos as u128));
                self.cells.set(q as usize, cq);
            }
            q += 1;
        }
        assert(digits_of(self@) =~= d0);
        proof {
            lemma_follow_symmetric(self@, d0);
        }
    }

    /// Takes `d` out of the automatic candidates of every peer of `pos` in `AutoCandidates`
    /// mode.
    fn kick_candidates(&mut self, pos: u8, d: u8)
        requires
            old(self)@.len() == 81,
            pos < 81,
            1 <= d <= 9,
        ensures
            final(self)@.len() == 81,
            forall|q: int|
                0 <= q < 81 ==> #[trigger] final(self)@[q] == if is_peer(pos as int, q)
                    && old(self)@[q].mode == CellMode::AutoCandidates {
                    CellValue {
                        auto_candidates: remove_candidate(old(self)@[q].auto_candidates, d),
                        ..old(self)@[q]
                    }
                } else {
                    old(self)@[q]
                },
    {
        let ghost start = self@;
        let mut q: u8 = 0;
        while q < 81
            invariant
                self@.len() == 81,
                start.len() == 81,
                pos < 81,
                1 <= d <= 9,
                q <= 81,
                forall|x: int|
                    0 <= x < 81 ==> #[trigger] self@[x] == if x < q && is_peer(pos as int, x)
                        && start[x].mode == CellMode::AutoCandidates {
                        CellValue {
                            auto_candidates: remove_candidate(start[x].auto_candidates, d),
                            ..start[x]
                        }
                    } else {
                        start[x]
                    },
            decreases 81 - q,
        {
            let mut cq = self.cells[q as usize];
            let auto_mode = match cq.mode {
                CellMode::AutoCandidates => true,
                _ => false,
            };
            if auto_mode && CellPosition(pos).is_peer_of(&CellPosition(q)) {
                cq.auto_candidates = cq.auto_candidates & !(1u16 << (d - 1) as u16);
                self.cells.set(q as usize, cq);
            }
            q += 1;
        }
    }

    /// Handles one event at `pos` with the auto-candidate flag `auto`. A digit outside 1..=9
    /// is turned down; an event at a position off the board or at a given changes nothing.
    /// Else the cell takes its next state, after any digit that it gave up has left the
    /// conflict sets; a placed digit then enters the conflict sets and leaves the automatic
    /// candidates of the peers.
    pub fn apply(&mut self, pos: u8, e: CellEvent, auto: bool) -> (r: Result<(), EventError>)
        requires
            old(self).wf(),
        ensures
            final(self).wf(),
            step(old(self)@, final(self)@, pos as int, e, auto),
            r == if event_valid(e) {
                Ok::<(), EventError>(())
            } else {
                Err(EventError::InvalidDigit)
            },
    {
        if !e.is_valid() {
            return Err(EventError::InvalidDigit);
        }
        if pos >= 81 {
            return Ok(());
        }
        let c = self.cells[pos as usize];
        if c.fixed {
            return Ok(());
        }
        let ghost start = self@;
        let ghost d0 = digits_of(start);
        let ghost d2 = d0.update(pos as int, None);
        assert(d0[pos as int] == c.digit);
        assert(start[pos as int].wf());
        let (next, removed) = transition(c, e, auto);
        match removed {
            Some(removal) => self.remove_conflict(pos, removal),
            None => {
                assert(d2 =~= d0);
            },
        }
        let ghost cleared = self@;
        let mut next = next;
        next.conflicts = self.cells[pos as usize].conflicts;
        self.cells.set(pos as usize, next);
        assert forall|a: int, b: int| valid_pos(a) && valid_pos(b) implies (#[trigger] in_conflicts(
            self@[a].conflicts,
            b,
        ) <==> conflict_rule(d2, a, b)) by {
            assert(self@[a].conflicts == cleared[a].conflicts);
        }
        assert(digits_of(self@) =~= d0.update(pos as int, next.digit));
        match e {
            CellEvent::PlaceDigit(d) => {
                assert(digits_of(self@).update(pos as int, None) =~= d2);
                self.check_conflict(pos, d);
                let ghost placed = self@;
                self.kick_candidates(pos, d);
                assert(digits_of(self@) =~= digits_of(placed));
                assert forall|a: int, b: int| valid_pos(a) && valid_pos(b) implies (
                #[trigger] in_conflicts(self@[a].conflicts, b) <==> conflict_rule(
                    digits_of(self@),
                    a,
                    b,
                )) by {
                    assert(self@[a].conflicts == placed[a].conflicts);
                }
                assert forall|q: int| 0 <= q < 81 implies #[trigger] self@[q].wf() by {
                    lemma_remove_candidate(placed[q].auto_candidates, d);
                    assert(start[q].wf());
                    assert(same_but_conflicts(placed[q], start[q]) || q == pos);
                }
                assert forall|q: int| 0 <= q < 81 implies same_but_conflicts(
                    #[trigger] self@[q],
                    expected_cell(start, pos as int, e, auto, q),
                ) by {
                    assert(same_but_conflicts(placed[q], start[q]) || q == pos);
                }
            },
            _ => {
                assert(digits_of(self@) =~= d2);
                assert forall|q: int| 0 <= q < 81 implies #[trigger] self@[q].wf() by {
                    assert(start[q].wf());
                    assert(same_but_conflicts(cleared[q], start[q]));
                }
                assert forall|q: int| 0 <= q < 81 implies same_but_conflicts(
                    #[trigger] self@[q],
                    expected_cell(start, pos as int, e, auto, q),
                ) by {
                    assert(same_but_conflicts(cleared[q], start[q]));
                }
            },
        }
        Ok(())
    }
}

} // verus!
