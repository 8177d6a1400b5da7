//! The events that the player's input sends to a cell, and the auto-candidate flag.
use vstd::prelude::*;

use crate::cell_state::CellEvent;

verus! {

/// Place a digit in the target cell.
#[derive(Clone, Copy, Debug, PartialEq, Eq, Structural)]
pub struct NewDigit(pub u8);

impl NewDigit {
    pub fn new(digit: u8) -> (r: NewDigit)
        ensures
            r.0 == digit,
    {
        NewDigit(digit)
    }
}

/// Mark a candidate in the target cell.
#[derive(Clone, Copy, Debug, PartialEq, Eq, Structural)]
pub struct NewCandidate(pub u8);

impl NewCandidate {
    pub fn new(digit: u8) -> (r: NewCandidate)
        ensures
            r.0 == digit,
    {
        NewCandidate(digit)
    }
}

/// Clear the target cell.
#[derive(Clone, Copy, Debug, PartialEq, Eq, Structural)]
pub struct CleanCell;

/// A placed digit leaves its cell: it must leave the conflict sets before the cell changes.
#[derive(Clone, Copy, Debug, PartialEq, Eq, Structural)]
pub struct RemoveDigit(pub u8);

impl RemoveDigit {
    pub fn new(digit: u8) -> (r: RemoveDigit)
        ensures
            r.0 == digit,
    {
        RemoveDigit(digit)
    }
}

/// Whether a cell that leaves `Digit` mode enters `AutoCandidates` (true) or
/// `ManualCandidates` (false) mode.
#[derive(Clone, Copy, Debug, PartialEq, Eq, Structural)]
pub struct AutoCandidateMode(pub bool);

impl Default for AutoCandidateMode {
    fn default() -> (r: AutoCandidateMode)
        ensures
            r.0 == false,
    {
        AutoCandidateMode(false)
    }
}

impl AutoCandidateMode {
    /// Switches the flag.
    pub fn toggle(&mut self)
        ensures
            final(self).0 == !old(self).0,
    {
        self.0 = !self.0;
    }
}

impl CellEvent {
    pub fn from_new_digit(e: NewDigit) -> (r: CellEvent)
        ensures
            r == CellEvent::PlaceDigit(e.0),
    {
        CellEvent::PlaceDigit(e.0)
    }

    pub fn from_new_candidate(e: NewCandidate) -> (r: CellEvent)
        ensures
            r == CellEvent::ToggleCandidate(e.0),
    {
        CellEvent::ToggleCandidate(e.0)
    }

    pub fn from_clean_cell(_e: CleanCell) -> (r: CellEvent)
        ensures
            r == CellEvent::ClearCell,
    {
        CellEvent::ClearCell
    }

    /// The event for a digit key: a candidate while the candidate modifier is held, else a
    /// placed digit.
    pub fn from_key(digit: u8, candidate: bool) -> (r: CellEvent)
        ensures
            r == if candidate {
                CellEvent::ToggleCandidate(digit)
            } else {
                CellEvent::PlaceDigit(digit)
            },
    {
        if candidate {
            CellEvent::ToggleCandidate(digit)
        } else {
            CellEvent::PlaceDigit(digit)
        }
    }
}

} // verus!
