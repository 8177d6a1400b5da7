use sudoku_engine::board::{Board, EventError};
use sudoku_engine::cell_state::{
    contains_candidate, transition, CellEvent, CellMode, CellValue, GridEntry, ALL_CANDIDATES,
};
use sudoku_engine::events::{AutoCandidateMode, CleanCell, NewCandidate, NewDigit, RemoveDigit};
use sudoku_engine::position::CellPosition;
use sudoku_engine::solver::{check_solver, SudokuManager};

fn pos(row: u8, col: u8) -> u8 {
    row * 9 + col
}

fn open_board(auto: bool) -> Board {
    let entries = vec![GridEntry::Candidates(ALL_CANDIDATES); 81];
    Board::from_grid_state(&entries, auto).unwrap()
}

/// A valid solved grid, row-major.
fn solution() -> Vec<u8> {
    let mut g = Vec::new();
    for r in 0..9u8 {
        for c in 0..9u8 {
            g.push((r * 3 + r / 3 + c) % 9 + 1);
        }
    }
    g
}

fn digits_grid(g: &[u8]) -> Vec<GridEntry> {
    g.iter()
        .map(|&d| if d == 0 { GridEntry::Candidates(0) } else { GridEntry::Digit(d) })
        .collect()
}

fn free_cell(mode: CellMode) -> CellValue {
    CellValue {
        fixed: false,
        mode,
        digit: if mode == CellMode::Digit { Some(4) } else { None },
        auto_candidates: 0b11,
        manual_candidates: 0b100,
        conflicts: 0,
    }
}

#[test]
fn position_row_col_block() {
    let p = CellPosition::new(40);
    assert_eq!((p.row(), p.col(), p.block()), (4, 4, 4));
    let p = CellPosition::new(80);
    assert_eq!((p.row(), p.col(), p.block()), (8, 8, 8));
    let p = CellPosition::new(pos(1, 7));
    assert_eq!((p.row(), p.col(), p.block()), (1, 7, 2));
    let p = CellPosition::new(pos(6, 2));
    assert_eq!(p.block(), 6);
}

#[test]
fn every_cell_has_twenty_peers() {
    for i in 0..81u8 {
        let peers = CellPosition::new(i).peers();
        assert_eq!(peers.len(), 20);
        assert!(!peers.contains(&CellPosition(i)));
    }
    let peers = CellPosition::new(0).peers();
    assert!(peers.contains(&CellPosition(pos(0, 8))));
    assert!(peers.contains(&CellPosition(pos(8, 0))));
    assert!(peers.contains(&CellPosition(pos(2, 2))));
    assert!(!peers.contains(&CellPosition(pos(3, 3))));
    assert!(CellPosition(0).is_peer_of(&CellPosition(pos(2, 1))));
    assert!(!CellPosition(0).is_peer_of(&CellPosition(0)));
}

#[test]
fn transition_table_digit_mode() {
    let c = free_cell(CellMode::Digit);
    let (n, r) = transition(c, CellEvent::PlaceDigit(7), true);
    assert_eq!((n.mode, n.digit), (CellMode::Digit, Some(7)));
    assert_eq!(r, Some(RemoveDigit(4)));

    let (n, r) = transition(c, CellEvent::ToggleCandidate(3), true);
    assert_eq!((n.mode, n.digit), (CellMode::AutoCandidates, None));
    assert_eq!(n.auto_candidates, 0b111);
    assert_eq!(n.manual_candidates, 0b100);
    assert_eq!(r, Some(RemoveDigit(4)));

    let (n, _) = transition(c, CellEvent::ToggleCandidate(9), false);
    assert_eq!(n.mode, CellMode::ManualCandidates);
    assert_eq!(n.manual_candidates, 0b1_0000_0100);

    let (n, r) = transition(c, CellEvent::ClearCell, true);
    assert_eq!((n.mode, n.digit, n.auto_candidates), (CellMode::AutoCandidates, None, 0));
    assert_eq!(r, Some(RemoveDigit(4)));
    let (n, _) = transition(c, CellEvent::ClearCell, false);
    assert_eq!((n.mode, n.manual_candidates, n.auto_candidates), (CellMode::ManualCandidates, 0, 0b11));
}

#[test]
fn transition_table_candidate_modes() {
    let a = free_cell(CellMode::AutoCandidates);
    let (n, r) = transition(a, CellEvent::PlaceDigit(2), false);
    assert_eq!((n.mode, n.digit), (CellMode::Digit, Some(2)));
    assert_eq!(r, None);
    let (n, _) = transition(a, CellEvent::ToggleCandidate(5), false);
    assert_eq!(n.auto_candidates, 0b1_0011);
    assert_eq!(n.mode, CellMode::AutoCandidates);
    let (n, _) = transition(a, CellEvent::ClearCell, false);
    assert_eq!(n, a);

    let m = free_cell(CellMode::ManualCandidates);
    let (n, _) = transition(m, CellEvent::ToggleCandidate(1), true);
    assert_eq!((n.mode, n.manual_candidates, n.auto_candidates), (CellMode::ManualCandidates, 0b101, 0b11));
    let (n, _) = transition(m, CellEvent::ClearCell, true);
    assert_eq!(n.manual_candidates, 0);
    assert_eq!(n.mode, CellMode::ManualCandidates);
}

#[test]
fn toggle_twice_equals_once() {
    for mode in [CellMode::AutoCandidates, CellMode::ManualCandidates] {
        for auto in [false, true] {
            let mut b = open_board(mode == CellMode::AutoCandidates);
            let p = pos(4, 4);
            if mode == CellMode::ManualCandidates {
                b.apply(p, CellEvent::ToggleCandidate(2), auto).unwrap();
            }
            b.apply(p, CellEvent::ToggleCandidate(6), auto).unwrap();
            let once = b.cell(p);
            b.apply(p, CellEvent::ToggleCandidate(6), auto).unwrap();
            assert_eq!(b.cell(p), once);
            assert_eq!(once.mode, mode);
        }
    }
}

#[test]
fn invalid_digit_is_rejected_without_change() {
    let mut b = open_board(true);
    let before = b.snapshot();
    assert_eq!(b.apply(0, CellEvent::PlaceDigit(0), true), Err(EventError::InvalidDigit));
    assert_eq!(b.apply(0, CellEvent::PlaceDigit(10), true), Err(EventError::InvalidDigit));
    assert_eq!(b.apply(0, CellEvent::ToggleCandidate(0), false), Err(EventError::InvalidDigit));
    assert_eq!(b.snapshot(), before);
}

#[test]
fn off_board_position_is_ignored() {
    let mut b = open_board(true);
    let before = b.snapshot();
    assert_eq!(b.apply(81, CellEvent::PlaceDigit(3), true), Ok(()));
    assert_eq!(b.apply(200, CellEvent::ClearCell, true), Ok(()));
    assert_eq!(b.snapshot(), before);
}

#[test]
fn given_cells_never_change() {
    let mut g = vec![0u8; 81];
    g[0] = 5;
    let mut b = Board::from_grid_state(&digits_grid(&g), true).unwrap();
    let given = b.cell(0);
    assert!(given.fixed);
    let events = [
        CellEvent::PlaceDigit(3),
        CellEvent::ToggleCandidate(2),
        CellEvent::ClearCell,
        CellEvent::PlaceDigit(5),
    ];
    for e in events {
        assert_eq!(b.apply(0, e, true), Ok(()));
        assert_eq!(b.apply(0, e, false), Ok(()));
        let c = b.cell(0);
        assert_eq!((c.fixed, c.mode, c.digit), (true, CellMode::Digit, Some(5)));
        assert_eq!((c.auto_candidates, c.manual_candidates), (given.auto_candidates, given.manual_candidates));
    }
    // a peer placing the same digit conflicts with the given, which still keeps its digit
    b.apply(pos(0, 5), CellEvent::PlaceDigit(5), true).unwrap();
    assert!(b.has_conflict(0));
    assert!(b.cell(0).conflicts_with(pos(0, 5)));
    assert_eq!(b.cell(0).digit, Some(5));
}

#[test]
fn conflicts_placed_and_removed_in_row() {
    let mut b = open_board(false);
    let a = pos(0, 0);
    let c = pos(0, 3);
    b.apply(a, CellEvent::PlaceDigit(5), false).unwrap();
    b.apply(c, CellEvent::PlaceDigit(5), false).unwrap();
    assert!(b.cell(a).conflicts_with(c));
    assert!(b.cell(c).conflicts_with(a));
    assert!(b.has_conflict(a) && b.has_conflict(c));
    b.apply(a, CellEvent::ClearCell, false).unwrap();
    assert_eq!(b.cell(c).conflicts, 0);
    assert!(!b.has_conflict(c));
    assert!(!b.has_conflict(a));
}

#[test]
fn placing_auto_kicks_only_auto_peers() {
    let mut b = open_board(true);
    let manual_peer = pos(0, 2);
    b.apply(manual_peer, CellEvent::PlaceDigit(1), true).unwrap();
    b.apply(manual_peer, CellEvent::ToggleCandidate(5), false).unwrap();
    let m = b.cell(manual_peer);
    assert_eq!(m.mode, CellMode::ManualCandidates);
    assert!(contains_candidate(m.manual_candidates, 5));

    let auto_peer = pos(0, 1);
    assert_eq!(b.cell(auto_peer).mode, CellMode::AutoCandidates);
    assert!(contains_candidate(b.cell(auto_peer).auto_candidates, 5));

    b.apply(pos(0, 0), CellEvent::PlaceDigit(5), true).unwrap();
    assert!(!contains_candidate(b.cell(auto_peer).auto_candidates, 5));
    assert_eq!(b.cell(manual_peer).manual_candidates, m.manual_candidates);
    assert_eq!(b.cell(manual_peer).auto_candidates, m.auto_candidates);
}

#[test]
fn kick_leaves_non_peers_alone() {
    let mut b = open_board(true);
    let before = b.snapshot();
    let p = pos(4, 4);
    b.apply(p, CellEvent::PlaceDigit(7), true).unwrap();
    for q in 0..81u8 {
        let peer = CellPosition(p).is_peer_of(&CellPosition(q));
        let c = b.cell(q);
        if q == p {
            assert_eq!(c.digit, Some(7));
        } else if peer {
            assert_eq!(c.auto_candidates, ALL_CANDIDATES & !(1 << 6));
        } else {
            assert_eq!(b.snapshot()[q as usize], before[q as usize]);
            assert_eq!(c.auto_candidates, ALL_CANDIDATES);
        }
    }
}

#[test]
fn kick_is_not_undone_by_clearing() {
    let mut b = open_board(true);
    b.apply(0, CellEvent::PlaceDigit(3), true).unwrap();
    b.apply(0, CellEvent::ClearCell, true).unwrap();
    assert!(!contains_candidate(b.cell(1).auto_candidates, 3));
    assert_eq!(b.cell(0).auto_candidates, 0);
    assert_eq!(b.cell(0).mode, CellMode::AutoCandidates);
}

#[test]
fn place_then_clear_restores_conflicts() {
    let mut b = open_board(false);
    b.apply(pos(0, 4), CellEvent::PlaceDigit(2), false).unwrap();
    b.apply(pos(0, 6), CellEvent::PlaceDigit(2), false).unwrap();
    let before: Vec<u128> = (0..81u8).map(|q| b.cell(q).conflicts).collect();
    let p = pos(1, 1);
    b.apply(p, CellEvent::PlaceDigit(5), false).unwrap();
    b.apply(p, CellEvent::ClearCell, false).unwrap();
    assert_eq!(b.cell(p).conflicts, 0);
    for q in 0..81u8 {
        assert_eq!(b.cell(q).conflicts, before[q as usize]);
    }
}

#[test]
fn replacing_a_digit_moves_its_conflicts() {
    let mut b = open_board(false);
    b.apply(0, CellEvent::PlaceDigit(4), false).unwrap();
    b.apply(pos(8, 0), CellEvent::PlaceDigit(4), false).unwrap();
    b.apply(pos(1, 1), CellEvent::PlaceDigit(6), false).unwrap();
    assert!(b.cell(0).conflicts_with(pos(8, 0)));
    b.apply(0, CellEvent::PlaceDigit(6), false).unwrap();
    assert!(!b.has_conflict(pos(8, 0)));
    assert!(b.cell(0).conflicts_with(pos(1, 1)));
    assert!(b.cell(pos(1, 1)).conflicts_with(0));
    assert!(!b.cell(0).conflicts_with(pos(8, 0)));
}

#[test]
fn conflicts_are_symmetric_after_events() {
    let mut b = open_board(true);
    let events = [
        (0u8, CellEvent::PlaceDigit(1)),
        (10, CellEvent::PlaceDigit(1)),
        (20, CellEvent::PlaceDigit(1)),
        (2, CellEvent::PlaceDigit(1)),
        (10, CellEvent::ToggleCandidate(3)),
        (72, CellEvent::PlaceDigit(1)),
        (0, CellEvent::ClearCell),
    ];
    for (p, e) in events {
        b.apply(p, e, true).unwrap();
        for x in 0..81u8 {
            for y in 0..81u8 {
                assert_eq!(b.cell(x).conflicts_with(y), b.cell(y).conflicts_with(x));
            }
        }
    }
    assert!(b.cell(2).conflicts_with(20));
    assert!(b.cell(20).conflicts_with(2));
}

#[test]
fn grid_state_validation() {
    assert!(Board::from_grid_state(&vec![GridEntry::Candidates(0); 80], true).is_none());
    let mut e = vec![GridEntry::Candidates(0); 81];
    e[3] = GridEntry::Digit(0);
    assert!(Board::from_grid_state(&e, true).is_none());
    e[3] = GridEntry::Digit(10);
    assert!(Board::from_grid_state(&e, true).is_none());
    e[3] = GridEntry::Candidates(512);
    assert!(Board::from_grid_state(&e, true).is_none());
    e[3] = GridEntry::Digit(9);
    let b = Board::from_grid_state(&e, false).unwrap();
    assert_eq!(b.cell(3).mode, CellMode::Digit);
    assert_eq!(b.cell(4).mode, CellMode::ManualCandidates);
}

#[test]
fn conflicting_givens_are_recorded() {
    let mut g = vec![0u8; 81];
    g[0] = 8;
    g[pos(2, 2) as usize] = 8;
    let b = Board::from_grid_state(&digits_grid(&g), true).unwrap();
    assert!(b.cell(0).conflicts_with(pos(2, 2)));
    assert!(b.has_conflict(pos(2, 2)));
}

#[test]
fn snapshot_uses_current_set() {
    let mut b = open_board(true);
    b.apply(5, CellEvent::PlaceDigit(3), true).unwrap();
    b.apply(5, CellEvent::ToggleCandidate(9), false).unwrap();
    b.apply(6, CellEvent::PlaceDigit(2), true).unwrap();
    let s = b.snapshot();
    assert_eq!(s[5], GridEntry::Candidates(1 << 8));
    assert_eq!(s[6], GridEntry::Digit(2));
    assert_eq!(s[7], GridEntry::Candidates(ALL_CANDIDATES & !(1 << 1) & !(1 << 2)));
}

#[test]
fn solved_grid_is_reported() {
    let g = solution();
    let b = Board::from_grid_state(&digits_grid(&g), true).unwrap();
    let mut s = b.snapshot();
    assert!(check_solver(&s));
    s[1] = s[0];
    assert!(!check_solver(&s));
}

#[test]
fn partial_grid_is_not_solved() {
    let mut g = solution();
    g[40] = 0;
    let b = Board::from_grid_state(&digits_grid(&g), true).unwrap();
    assert!(!check_solver(&b.snapshot()));
    assert!(!check_solver(&vec![GridEntry::Candidates(ALL_CANDIDATES); 81]));
    assert!(!check_solver(&vec![GridEntry::Digit(1); 81]));
    assert!(!check_solver(&vec![GridEntry::Digit(1); 3]));
}

#[test]
fn session_tracks_solved_on_placement() {
    let mut g = solution();
    let missing = g[0];
    g[0] = 0;
    let puzzle = sudoku::Sudoku::from_bytes_slice(&g).unwrap();
    let mut m = SudokuManager::new(puzzle, true).unwrap();
    assert!(!m.is_solved());
    // the strategy solver leaves only the missing digit open
    let c = m.board().cell(0);
    assert_eq!(c.mode, CellMode::AutoCandidates);
    assert_eq!(c.auto_candidates, 1 << (missing - 1));
    assert!(m.board().cell(1).fixed);

    let wrong = g[1];
    m.on_new_digit(0, NewDigit::new(wrong), AutoCandidateMode(true)).unwrap();
    assert!(!m.is_solved());
    assert!(m.board().has_conflict(0));
    m.on_new_digit(0, NewDigit::new(missing), AutoCandidateMode(true)).unwrap();
    assert!(m.is_solved());
    assert!(!m.board().has_conflict(0));
    // only a placed digit refreshes the status
    m.on_clean_cell(0, CleanCell, AutoCandidateMode(false)).unwrap();
    assert!(m.is_solved());
    m.on_new_candidate(0, NewCandidate::new(missing), AutoCandidateMode(false)).unwrap();
    assert!(m.is_solved());
    assert_eq!(m.board().cell(0).mode, CellMode::ManualCandidates);
    assert_eq!(m.current_sudoku(), puzzle);
}

#[test]
fn session_rejects_invalid_digit() {
    let puzzle = sudoku::Sudoku::from_bytes_slice(&vec![0u8; 81]).unwrap();
    let mut m = SudokuManager::new(puzzle, false).unwrap();
    assert_eq!(m.on_new_digit(3, NewDigit::new(0), AutoCandidateMode(false)), Err(EventError::InvalidDigit));
    assert_eq!(m.on_new_candidate(3, NewCandidate::new(12), AutoCandidateMode(false)), Err(EventError::InvalidDigit));
    assert_eq!(m.board().cell(3).mode, CellMode::ManualCandidates);
    assert_eq!(m.board().cell(3).auto_candidates, ALL_CANDIDATES);
}

#[test]
fn generated_session_opens() {
    let m = SudokuManager::generate(true).unwrap();
    assert!(!m.is_solved());
    let givens = (0..81u8).filter(|&p| m.board().cell(p).fixed).count();
    assert!(givens > 0 && givens < 81);
}

#[test]
fn auto_mode_flag() {
    let mut f = AutoCandidateMode::default();
    assert!(!f.0);
    f.toggle();
    assert!(f.0);
    assert_eq!(CellEvent::from_key(4, true), CellEvent::ToggleCandidate(4));
    assert_eq!(CellEvent::from_key(4, false), CellEvent::PlaceDigit(4));
    assert_eq!(CellEvent::from_new_digit(NewDigit::new(2)), CellEvent::PlaceDigit(2));
    assert_eq!(CellEvent::from_clean_cell(CleanCell), CellEvent::ClearCell);
    assert_eq!(RemoveDigit::new(3).0, 3);
}
