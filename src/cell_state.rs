//! The state of one cell and its transition on an event.
use vstd::prelude::*;

use crate::bits::{lemma_u128_clear_bit, lemma_u128_set_bit, lemma_u128_zero, lemma_u16_bounds,
    lemma_u16_clear_bit, lemma_u16_set_bit, lemma_u16_zero};
use crate::events::RemoveDigit;
use crate::position::valid_pos;

verus! {

/// The set of digits 1..=9 that a candidate mask holds: digit `d` is bit `d - 1`.
pub open spec fn candidate_set(m: u16) -> Set<int> {
    Set::new(|d: int| has_candidate(m, d))
}

pub open spec fn has_candidate(m: u16, d: int) -> bool {
    1 <= d <= 9 && (m >> ((d - 1) as u16)) & 1u16 == 1u16
}

/// The mask `m` with digit `d` added.
pub open spec fn insert_candidate(m: u16, d: u8) -> u16 {
    m | (1u16 << ((d - 1) as u16))
}

/// The mask `m` with digit `d` taken out.
pub open spec fn remove_candidate(m: u16, d: u8) -> u16 {
    m & !(1u16 << ((d - 1) as u16))
}

/// Whether digit `d` is in the candidate mask `m`.
pub fn contains_candidate(m: u16, d: u8) -> (r: bool)
    ensures
        r == candidate_set(m).contains(d as int),
{
    1 <= d && d <= 9 && (m >> ((d - 1) as u16)) & 1 == 1
}

/// The mask of all nine digits.
pub const ALL_CANDIDATES: u16 = 511;

/// The positions that a conflict mask holds: position `q` is bit `q`.
pub open spec fn conflict_set(m: u128) -> Set<int> {
    Set::new(|q: int| in_conflicts(m, q))
}

pub open spec fn in_conflicts(m: u128, q: int) -> bool {
    valid_pos(q) && (m >> (q as u128)) & 1u128 == 1u128
}

pub proof fn lemma_insert_candidate(m: u16, d: u8)
    requires
        1 <= d <= 9,
    ensures
        forall|e: int| #[trigger]
            has_candidate(insert_candidate(m, d), e) <==> (has_candidate(m, e) || e == d),
        m <= ALL_CANDIDATES ==> insert_candidate(m, d) <= ALL_CANDIDATES,
        candidate_set(insert_candidate(m, d)) == candidate_set(m).insert(d as int),
{
    assert forall|e: int| #[trigger]
        has_candidate(insert_candidate(m, d), e) <==> (has_candidate(m, e) || e == d) by {
        if 1 <= e <= 9 {
            lemma_u16_set_bit(m, (d - 1) as u16, (e - 1) as u16);
        }
    }
    if m <= ALL_CANDIDATES {
        lemma_u16_bounds(m, (d - 1) as u16);
    }
    assert(candidate_set(insert_candidate(m, d)) =~= candidate_set(m).insert(d as int));
}

pub proof fn lemma_remove_candidate(m: u16, d: u8)
    requires
        1 <= d <= 9,
    ensures
        forall|e: int| #[trigger]
            has_candidate(remove_candidate(m, d), e) <==> (has_candidate(m, e) && e != d),
        m <= ALL_CANDIDATES ==> remove_candidate(m, d) <= ALL_CANDIDATES,
        candidate_set(remove_candidate(m, d)) == candidate_set(m).remove(d as int),
{
    assert forall|e: int| #[trigger]
        has_candidate(remove_candidate(m, d), e) <==> (has_candidate(m, e) && e != d) by {
        if 1 <= e <= 9 {
            lemma_u16_clear_bit(m, (d - 1) as u16, (e - 1) as u16);
        }
    }
    if m <= ALL_CANDIDATES {
        lemma_u16_bounds(m, (d - 1) as u16);
    }
    assert(candidate_set(remove_candidate(m, d)) =~= candidate_set(m).remove(d as int));
}

pub proof fn lemma_no_candidates()
    ensures
        candidate_set(0) == Set::<int>::empty(),
{
    assert forall|e: int| !has_candidate(0, e) by {
        if 1 <= e <= 9 {
            lemma_u16_zero((e - 1) as u16);
        }
    }
    assert(candidate_set(0) =~= Set::<int>::empty());
}

pub proof fn lemma_add_conflict(m: u128, p: u8)
    requires
        p < 81,
    ensures
        forall|q: int| #[trigger]
            in_conflicts(m | (1u128 << (p as u128)), q) <==> (in_conflicts(m, q) || q == p),
{
    assert forall|q: int| #[trigger]
        in_conflicts(m | (1u128 << (p as u128)), q) <==> (in_conflicts(m, q) || q == p) by {
        if valid_pos(q) {
            lemma_u128_set_bit(m, p as u128, q as u128);
        }
    }
}

pub proof fn lemma_drop_conflict(m: u128, p: u8)
    requires
        p < 81,
    ensures
        forall|q: int| #[trigger]
            in_conflicts(m & !(1u128 << (p as u128)), q) <==> (in_conflicts(m, q) && q != p),
{
    assert forall|q: int| #[trigger]
        in_conflicts(m & !(1u128 << (p as u128)), q) <==> (in_conflicts(m, q) && q != p) by {
        if valid_pos(q) {
            lemma_u128_clear_bit(m, p as u128, q as u128);
        }
    }
}

pub proof fn lemma_no_conflicts()
    ensures
        forall|q: int| !#[trigger] in_conflicts(0, q),
{
    assert forall|q: int| !#[trigger] in_conflicts(0, q) by {
        if valid_pos(q) {
            lemma_u128_zero(q as u128);
        }
    }
}

/// Which of its values a cell shows.
#[derive(Clone, Copy, Debug, PartialEq, Eq, Structural)]
pub enum CellMode {
    Digit,
    AutoCandidates,
    ManualCandidates,
}

/// A cell's effective value: its placed digit, or the candidate mask of its current mode.
#[derive(Clone, Copy, Debug, PartialEq, Eq, Structural)]
pub enum GridEntry {
    Digit(u8),
    Candidates(u16),
}

/// Whether an entry is a digit 1..=9, or a mask of digits 1..=9.
pub open spec fn entry_valid(e: GridEntry) -> bool {
    match e {
        GridEntry::Digit(d) => 1 <= d <= 9,
        GridEntry::Candidates(m) => m <= ALL_CANDIDATES,
    }
}

/// An event aimed at one cell.
#[derive(Clone, Copy, Debug, PartialEq, Eq, Structural)]
pub enum CellEvent {
    PlaceDigit(u8),
    ToggleCandidate(u8),
    ClearCell,
}

/// Whether the digit that an event carries, if any, lies in 1..=9.
pub open spec fn event_valid(e: CellEvent) -> bool {
    match e {
        CellEvent::PlaceDigit(d) => 1 <= d <= 9,
        CellEvent::ToggleCandidate(d) => 1 <= d <= 9,
        CellEvent::ClearCell => true,
    }
}

impl CellEvent {
    pub fn is_valid(&self) -> (r: bool)
        ensures
            r == event_valid(*self),
    {
        match self {
            CellEvent::PlaceDigit(d) => 1 <= *d && *d <= 9,
            CellEvent::ToggleCandidate(d) => 1 <= *d && *d <= 9,
            CellEvent::ClearCell => true,
        }
    }
}

/// The state of one cell.
#[derive(Clone, Copy, Debug, PartialEq, Eq)]
pub struct CellValue {
    /// A given of the puzzle: never changes.
    pub fixed: bool,
    pub mode: CellMode,
    /// The placed digit, present exactly in `Digit` mode.
    pub digit: Option<u8>,
    /// Candidates kept up to date by elimination.
    pub auto_candidates: u16,
    /// Candidates marked by the player.
    pub manual_candidates: u16,
    /// The peers that hold the same placed digit as this cell.
    pub conflicts: u128,
}

/// The candidate mode that a cell enters when it leaves `Digit` mode.
pub open spec fn candidate_mode(auto: bool) -> CellMode {
    if auto {
        CellMode::AutoCandidates
    } else {
        CellMode::ManualCandidates
    }
}

/// The cell after `e`, with the auto-candidate flag `auto`; its conflicts are left as they are.
pub open spec fn next_cell(c: CellValue, e: CellEvent, auto: bool) -> CellValue {
    match e {
        CellEvent::PlaceDigit(d) => CellValue { mode: CellMode::Digit, digit: Some(d), ..c },
        CellEvent::ToggleCandidate(d) => match c.mode {
            CellMode::Digit => if auto {
                CellValue {
                    mode: CellMode::AutoCandidates,
                    digit: None,
                    auto_candidates: insert_candidate(c.auto_candidates, d),
                    ..c
                }
            } else {
                CellValue {
                    mode: CellMode::ManualCandidates,
                    digit: None,
                    manual_candidates: insert_candidate(c.manual_candidates, d),
                    ..c
                }
            },
            CellMode::AutoCandidates => CellValue {
                auto_candidates: insert_candidate(c.auto_candidates, d),
                ..c
            },
            CellMode::ManualCandidates => CellValue {
                manual_candidates: insert_candidate(c.manual_candidates, d),
                ..c
            },
        },
        CellEvent::ClearCell => match c.mode {
            CellMode::Digit => if auto {
                CellValue {
                    mode: CellMode::AutoCandidates,
                    digit: None,
                    auto_candidates: 0,
                    ..c
                }
            } else {
                CellValue {
                    mode: CellMode::ManualCandidates,
                    digit: None,
                    manual_candidates: 0,
                    ..c
                }
            },
            CellMode::AutoCandidates => c,
            CellMode::ManualCandidates => CellValue { manual_candidates: 0, ..c },
        },
    }
}

/// The digit that leaves the cell on any event: the one it held in `Digit` mode.
pub open spec fn removed_digit(c: CellValue) -> Option<u8> {
    if c.mode == CellMode::Digit {
        c.digit
    } else {
        None
    }
}

/// A cell's effective value.
pub open spec fn effective(c: CellValue) -> GridEntry {
    match c.mode {
        CellMode::Digit => GridEntry::Digit(
            match c.digit {
                Some(d) => d,
                None => 0,
            },
        ),
        CellMode::AutoCandidates => GridEntry::Candidates(c.auto_candidates),
        CellMode::ManualCandidates => GridEntry::Candidates(c.manual_candidates),
    }
}

impl CellValue {
    /// A digit is present exactly in `Digit` mode and lies in 1..=9, both masks hold digits
    /// 1..=9 only, and a given is a placed digit.
    pub open spec fn wf(&self) -> bool {
        &&& (self.mode == CellMode::Digit) == self.digit.is_some()
        &&& (self.digit matches Some(d) ==> 1 <= d <= 9)
        &&& self.auto_candidates <= ALL_CANDIDATES
        &&& self.manual_candidates <= ALL_CANDIDATES
        &&& self.fixed ==> self.mode == CellMode::Digit
    }

    /// A cell made from an entry of a grid: a digit is a given, a candidate mask opens the cell
    /// in the candidate mode that `auto` selects, with that mask as its automatic candidates.
    pub open spec fn from_entry_spec(e: GridEntry, auto: bool) -> CellValue {
        match e {
            GridEntry::Digit(d) => CellValue {
                fixed: true,
                mode: CellMode::Digit,
                digit: Some(d),
                auto_candidates: 0,
                manual_candidates: 0,
                conflicts: 0,
            },
            GridEntry::Candidates(m) => CellValue {
                fixed: false,
                mode: candidate_mode(auto),
                digit: None,
                auto_candidates: m,
                manual_candidates: 0,
                conflicts: 0,
            },
        }
    }

    pub fn from_entry(e: GridEntry, auto: bool) -> (r: CellValue)
        ensures
            r == Self::from_entry_spec(e, auto),
            entry_valid(e) ==> r.wf(),
    {
        match e {
            GridEntry::Digit(d) => CellValue {
                fixed: true,
                mode: CellMode::Digit,
                digit: Some(d),
                auto_candidates: 0,
                manual_candidates: 0,
                conflicts: 0,
            },
            GridEntry::Candidates(m) => CellValue {
                fixed: false,
                mode: if auto {
                    CellMode::AutoCandidates
                } else {
                    CellMode::ManualCandidates
                },
                digit: None,
                auto_candidates: m,
                manual_candidates: 0,
                conflicts: 0,
            },
        }
    }

    /// The effective value: the digit in `Digit` mode, else the mask of the current mode.
    pub fn current(&self) -> (r: GridEntry)
        requires
            self.wf(),
        ensures
            r == effective(*self),
            entry_valid(r),
    {
        match self.mode {
            CellMode::Digit => GridEntry::Digit(
                match self.digit {
                    Some(d) => d,
                    None => 0,
                },
            ),
            CellMode::AutoCandidates => GridEntry::Candidates(self.auto_candidates),
            CellMode::ManualCandidates => GridEntry::Candidates(self.manual_candidates),
        }
    }

    /// Whether position `q` is in this cell's conflict set.
    pub fn conflicts_with(&self, q: u8) -> (r: bool)
        requires
            q < 81,
        ensures
            r == conflict_set(self.conflicts).contains(q as int),
    {
        (self.conflicts >> (q as u128)) & 1 == 1
    }

    /// Whether some peer holds the same placed digit.
    pub fn has_conflict(&self) -> (r: bool)
        ensures
            r == !conflict_set(self.conflicts).is_empty(),
    {
        let mut q: u8 = 0;
        while q < 81
            invariant
                q <= 81,
                forall|x: int| 0 <= x < q ==> !in_conflicts(self.conflicts, x),
            decreases 81 - q,
        {
            if (self.conflicts >> q) & 1 == 1 {
                assert(conflict_set(self.conflicts).contains(q as int));
                return true;
            }
            q += 1;
        }
        assert(conflict_set(self.conflicts) =~= Set::<int>::empty());
        false
    }
}

/// The transition of one cell on a valid event: the new cell, and the digit that it gave up,
/// which the caller must take out of the conflict sets before it stores the new cell.
pub fn transition(c: CellValue, e: CellEvent, auto: bool) -> (r: (CellValue, Option<RemoveDigit>))
    requires
        event_valid(e),
    ensures
        r.0 == next_cell(c, e, auto),
        r.1 == match removed_digit(c) {
            Some(d) => Some(RemoveDigit(d)),
            None => None,
        },
        c.wf() && !c.fixed ==> r.0.wf(),
{
    let removed = match (c.mode, c.digit) {
        (CellMode::Digit, Some(d)) => Some(RemoveDigit::new(d)),
        _ => None,
    };
    let next = match e {
        CellEvent::PlaceDigit(d) => CellValue { mode: CellMode::Digit, digit: Some(d), ..c },
        CellEvent::ToggleCandidate(d) => {
            let bit: u16 = 1u16 << (d - 1);
            proof {
                lemma_insert_candidate(c.auto_candidates, d);
                lemma_insert_candidate(c.manual_candidates, d);
            }
            match c.mode {
                CellMode::Digit => if auto {
                    CellValue {
                        mode: CellMode::AutoCandidates,
                        digit: None,
                        auto_candidates: c.auto_candidates | bit,
                        ..c
                    }
                } else {
                    CellValue {
                        mode: CellMode::ManualCandidates,
                        digit: None,
                        manual_candidates: c.manual_candidates | bit,
                        ..c
                    }
                },
                CellMode::AutoCandidates => CellValue {
                    auto_candidates: c.auto_candidates | bit,
                    ..c
                },
                CellMode::ManualCandidates => CellValue {
                    manual_candidates: c.manual_candidates | bit,
                    ..c
                },
            }
        },
        CellEvent::ClearCell => match c.mode {
            CellMode::Digit => if auto {
                CellValue {
                    mode: CellMode::AutoCandidates,
                    digit: None,
                    auto_candidates: 0,
                    ..c
                }
            } else {
                CellValue {
                    mode: CellMode::ManualCandidates,
                    digit: None,
                    manual_candidates: 0,
                    ..c
                }
            },
            CellMode::AutoCandidates => c,
            CellMode::ManualCandidates => CellValue { manual_candidates: 0, ..c },
        },
    };
    (next, removed)
}

} // verus!
