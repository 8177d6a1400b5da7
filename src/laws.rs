//! Laws of the engine over runs of events.
use vstd::prelude::*;

use crate::board::{board_wf, conflict_rule, digits_of, same_but_conflicts, step};
use crate::board::expected_cell;
use crate::cell_state::{
    conflict_set, in_conflicts, insert_candidate, CellEvent, CellMode, CellValue,
};
use crate::position::{is_peer, valid_pos};

verus! {

/// `boards` is a run: it starts on a well-formed board and each board follows from the one
/// before by the event of the same index, at its position and with its flag.
pub open spec fn is_run(
    boards: Seq<Seq<CellValue>>,
    positions: Seq<int>,
    events: Seq<CellEvent>,
    flags: Seq<bool>,
) -> bool {
    &&& boards.len() == events.len() + 1
    &&& positions.len() == events.len()
    &&& flags.len() == events.len()
    &&& board_wf(boards[0])
    &&& forall|i: int|
        0 <= i < events.len() ==> #[trigger] step(
            boards[i],
            boards[i + 1],
            positions[i],
            events[i],
            flags[i],
        )
}

/// One event keeps a board well formed.
pub proof fn lemma_step_wf(
    before: Seq<CellValue>,
    after: Seq<CellValue>,
    pos: int,
    e: CellEvent,
    auto: bool,
)
    requires
        board_wf(before),
        step(before, after, pos, e, auto),
    ensures
        board_wf(after),
{
}

/// One event leaves each given as it was, but for its conflict set.
pub proof fn lemma_step_keeps_given(
    before: Seq<CellValue>,
    after: Seq<CellValue>,
    pos: int,
    e: CellEvent,
    auto: bool,
    p: int,
)
    requires
        board_wf(before),
        step(before, after, pos, e, auto),
        valid_pos(p),
        before[p].fixed,
    ensures
        same_but_conflicts(after[p], before[p]),
{
    assert(before[p].wf());
}

/// Every board of a run is well formed.
pub proof fn lemma_run_wf(
    boards: Seq<Seq<CellValue>>,
    positions: Seq<int>,
    events: Seq<CellEvent>,
    flags: Seq<bool>,
)
    requires
        is_run(boards, positions, events, flags),
    ensures
        forall|i: int| 0 <= i < boards.len() ==> board_wf(#[trigger] boards[i]),
    decreases events.len(),
{
    if events.len() > 0 {
        let n = events.len() - 1;
        lemma_run_wf(boards.take(n + 1), positions.take(n), events.take(n), flags.take(n));
        assert forall|i: int| 0 <= i < boards.len() implies board_wf(#[trigger] boards[i]) by {
            if i < n + 1 {
                assert(boards.take(n + 1)[i] == boards[i]);
            } else {
                assert(boards.take(n + 1)[n] == boards[n]);
                assert(step(boards[n], boards[n + 1], positions[n], events[n], flags[n]));
            }
        }
    }
}

/// No run of events changes the mode, the digit or either candidate set of a given.
pub proof fn lemma_given_never_changes(
    boards: Seq<Seq<CellValue>>,
    positions: Seq<int>,
    events: Seq<CellEvent>,
    flags: Seq<bool>,
    p: int,
)
    requires
        is_run(boards, positions, events, flags),
        valid_pos(p),
        boards[0][p].fixed,
    ensures
        forall|i: int|
            0 <= i < boards.len() ==> same_but_conflicts(#[trigger] boards[i][p], boards[0][p]),
    decreases events.len(),
{
    if events.len() > 0 {
        let n = events.len() - 1;
        lemma_run_wf(boards, positions, events, flags);
        lemma_given_never_changes(
            boards.take(n + 1),
            positions.take(n),
            events.take(n),
            flags.take(n),
            p,
        );
        assert forall|i: int|
            0 <= i < boards.len() implies same_but_conflicts(
            #[trigger] boards[i][p],
            boards[0][p],
        ) by {
            if i < n + 1 {
                assert(boards.take(n + 1)[i] == boards[i]);
            } else {
                assert(boards.take(n + 1)[n] == boards[n]);
                assert(board_wf(boards[n]));
                assert(step(boards[n], boards[n + 1], positions[n], events[n], flags[n]));
                lemma_step_keeps_given(
                    boards[n],
                    boards[n + 1],
                    positions[n],
                    events[n],
                    flags[n],
                    p,
                );
            }
        }
    }
}

/// On a well-formed board, `q` is in the conflict set of `p` exactly when `p` is in that of `q`.
pub proof fn lemma_conflicts_symmetric(cells: Seq<CellValue>)
    requires
        board_wf(cells),
    ensures
        forall|p: int, q: int|
            valid_pos(p) && valid_pos(q) ==> (conflict_set(cells[p].conflicts).contains(q)
                <==> conflict_set(cells[q].conflicts).contains(p)),
{
    assert forall|p: int, q: int| valid_pos(p) && valid_pos(q) implies (conflict_set(
        cells[p].conflicts,
    ).contains(q) <==> conflict_set(cells[q].conflicts).contains(p)) by {
        assert(in_conflicts(cells[p].conflicts, q) == conflict_rule(digits_of(cells), p, q));
        assert(in_conflicts(cells[q].conflicts, p) == conflict_rule(digits_of(cells), q, p));
    }
}

/// After every event of a run, the conflict relation is symmetric.
pub proof fn lemma_run_conflicts_symmetric(
    boards: Seq<Seq<CellValue>>,
    positions: Seq<int>,
    events: Seq<CellEvent>,
    flags: Seq<bool>,
)
    requires
        is_run(boards, positions, events, flags),
    ensures
        forall|i: int, p: int, q: int|
            0 <= i < boards.len() && valid_pos(p) && valid_pos(q) ==> (#[trigger] conflict_set(
                boards[i][p].conflicts,
            ).contains(q) <==> conflict_set(boards[i][q].conflicts).contains(p)),
{
    lemma_run_wf(boards, positions, events, flags);
    assert forall|i: int, p: int, q: int|
        0 <= i < boards.len() && valid_pos(p) && valid_pos(q) implies (#[trigger] conflict_set(
        boards[i][p].conflicts,
    ).contains(q) <==> conflict_set(boards[i][q].conflicts).contains(p)) by {
        lemma_conflicts_symmetric(boards[i]);
    }
}

/// A placed digit changes the candidate sets of no cell that is not a peer, and the manual
/// candidates of no peer in `ManualCandidates` mode.
pub proof fn lemma_kick_scope(
    before: Seq<CellValue>,
    after: Seq<CellValue>,
    pos: int,
    d: u8,
    auto: bool,
)
    requires
        board_wf(before),
        step(before, after, pos, CellEvent::PlaceDigit(d), auto),
    ensures
        forall|q: int|
            valid_pos(q) && q != pos && !is_peer(pos, q) ==> (#[trigger] after[q]).auto_candidates
                == before[q].auto_candidates && after[q].manual_candidates
                == before[q].manual_candidates,
        forall|q: int|
            is_peer(pos, q) && before[q].mode == CellMode::ManualCandidates ==> (
            #[trigger] after[q]).manual_candidates == before[q].manual_candidates,
{
}

proof fn lemma_insert_twice(m: u16, d: u8)
    requires
        1 <= d <= 9,
    ensures
        insert_candidate(insert_candidate(m, d), d) == insert_candidate(m, d),
{
    let b: u16 = (d - 1) as u16;
    assert((m | (1u16 << b)) | (1u16 << b) == m | (1u16 << b)) by (bit_vector);
}

/// Marking the same candidate twice in a candidate mode leaves the cell as marking it once.
pub proof fn lemma_toggle_idempotent(
    b0: Seq<CellValue>,
    b1: Seq<CellValue>,
    b2: Seq<CellValue>,
    pos: int,
    d: u8,
    auto1: bool,
    auto2: bool,
)
    requires
        board_wf(b0),
        valid_pos(pos),
        b0[pos].mode != CellMode::Digit,
        step(b0, b1, pos, CellEvent::ToggleCandidate(d), auto1),
        step(b1, b2, pos, CellEvent::ToggleCandidate(d), auto2),
    ensures
        same_but_conflicts(b2[pos], b1[pos]),
{
    if 1 <= d <= 9 {
        lemma_insert_twice(b0[pos].auto_candidates, d);
        lemma_insert_twice(b0[pos].manual_candidates, d);
    }
}

/// Placing a digit in a cell that held none and then clearing it leaves the cell without
/// conflicts and every other conflict set as it was before the placement.
pub proof fn lemma_place_then_clear(
    b0: Seq<CellValue>,
    b1: Seq<CellValue>,
    b2: Seq<CellValue>,
    pos: int,
    d: u8,
    auto1: bool,
    auto2: bool,
)
    requires
        board_wf(b0),
        valid_pos(pos),
        1 <= d <= 9,
        b0[pos].mode != CellMode::Digit,
        step(b0, b1, pos, CellEvent::PlaceDigit(d), auto1),
        step(b1, b2, pos, CellEvent::ClearCell, auto2),
    ensures
        conflict_set(b2[pos].conflicts) == Set::<int>::empty(),
        forall|q: int|
            valid_pos(q) ==> #[trigger] conflict_set(b2[q].conflicts) == conflict_set(
                b0[q].conflicts,
            ),
{
    assert(b0[pos].wf());
    assert(digits_of(b2) =~= digits_of(b0)) by {
        assert forall|q: int| 0 <= q < 81 implies digits_of(b2)[q] == digits_of(b0)[q] by {
            assert(same_but_conflicts(
                b1[q],
                expected_cell(b0, pos, CellEvent::PlaceDigit(d), auto1, q),
            ));
            assert(same_but_conflicts(b2[q], expected_cell(b1, pos, CellEvent::ClearCell, auto2, q)));
        }
    }
    assert forall|q: int| valid_pos(q) implies #[trigger] conflict_set(b2[q].conflicts)
        == conflict_set(b0[q].conflicts) by {
        assert forall|r: int|
            #[trigger] in_conflicts(b2[q].conflicts, r) == in_conflicts(b0[q].conflicts, r) by {
            if valid_pos(r) {
                assert(in_conflicts(b2[q].conflicts, r) == conflict_rule(digits_of(b2), q, r));
                assert(in_conflicts(b0[q].conflicts, r) == conflict_rule(digits_of(b0), q, r));
            }
        }
        assert(conflict_set(b2[q].conflicts) =~= conflict_set(b0[q].conflicts));
    }
    assert(conflict_set(b2[pos].conflicts) =~= Set::<int>::empty()) by {
        assert forall|r: int| !conflict_set(b2[pos].conflicts).contains(r) by {
            if valid_pos(r) {
                assert(in_conflicts(b2[pos].conflicts, r) == conflict_rule(digits_of(b2), pos, r));
            }
        }
    }
}

} // verus!
