//! The session: the generated puzzle, the board, and the solved status that the puzzle
//! library computes from a snapshot of the board.
use vstd::prelude::*;

use crate::board::{board_wf, event_applies, same_but_conflicts, step, Board, EventError};
use crate::cell_state::{effective, entry_valid, CellEvent, CellValue, GridEntry};
use crate::events::{AutoCandidateMode, CleanCell, NewCandidate, NewDigit};
use crate::position::{block_of, col_of, row_of};

verus! {

#[verifier::external_type_specification]
#[verifier::external_body]
pub struct ExSudoku(sudoku::Sudoku);

/// The 81 cells of a puzzle, row-major: 0 for an empty cell, else its digit.
pub uninterp spec fn sudoku_cells(s: sudoku::Sudoku) -> Seq<u8>;

/// The state that the puzzle library's strategy solver derives for each cell of a puzzle.
pub uninterp spec fn grid_state_of(cells: Seq<u8>) -> Seq<GridEntry>;

/// Whether cell `c` lies in house `h`: rows are houses 0..9, columns 9..18, blocks 18..27.
pub open spec fn in_house(c: int, h: int) -> bool {
    if h < 9 {
        row_of(c) == h
    } else if h < 18 {
        col_of(c) == h - 9
    } else {
        block_of(c) == h - 18
    }
}

/// A solved grid: 81 cells, each a digit 1..=9, and each of the 27 houses holds all nine.
pub open spec fn grid_solved(cells: Seq<u8>) -> bool {
    &&& cells.len() == 81
    &&& forall|c: int| 0 <= c < 81 ==> 1 <= #[trigger] cells[c] <= 9
    &&& forall|h: int, d: int|
        0 <= h < 27 && 1 <= d <= 9 ==> #[trigger] house_has(cells, h, d)
}

pub open spec fn house_has(cells: Seq<u8>, h: int, d: int) -> bool {
    exists|c: int| 0 <= c < 81 && in_house(c, h) && cells[c] == d
}

/// A snapshot as bytes: a digit stays, a candidate mask becomes 0.
pub open spec fn snapshot_bytes(snapshot: Seq<GridEntry>) -> Seq<u8> {
    Seq::new(
        snapshot.len(),
        |i: int|
            match snapshot[i] {
                GridEntry::Digit(d) => d,
                GridEntry::Candidates(_) => 0,
            },
    )
}

/// Whether the effective values of the cells form a solved grid.
pub open spec fn board_solved(cells: Seq<CellValue>) -> bool {
    grid_solved(snapshot_bytes(Seq::new(cells.len(), |i: int| effective(cells[i]))))
}

/// Relies on `sudoku::Sudoku::generate`: a random puzzle; nothing is promised of its cells.
#[verifier::external_body]
fn generate_sudoku() -> (r: sudoku::Sudoku) {
    sudoku::Sudoku::generate()
}

/// Relies on `sudoku::Sudoku::from_bytes_slice`: it accepts exactly 81 bytes of at most 9,
/// and the puzzle holds them as its cells.
#[verifier::external_body]
fn sudoku_from_bytes(bytes: &Vec<u8>) -> (r: Option<sudoku::Sudoku>)
    ensures
        r.is_some() <==> (bytes.len() == 81 && forall|i: int|
            0 <= i < bytes.len() ==> #[trigger] bytes[i] <= 9),
        r matches Some(s) ==> sudoku_cells(s) == bytes@,
{
    sudoku::Sudoku::from_bytes_slice(bytes.as_slice()).ok()
}

/// Relies on `sudoku::Sudoku::is_solved`: true exactly when every cell holds a digit and each
/// row, column and block holds all nine digits.
#[verifier::external_body]
fn sudoku_is_solved(s: &sudoku::Sudoku) -> (r: bool)
    ensures
        r == grid_solved(sudoku_cells(*s)),
{
    s.is_solved()
}

/// Relies on `sudoku::strategy::StrategySolver::from_sudoku` and its `grid_state`: one state
/// for each of the 81 cells, a digit as its value (`Digit::get`, always 1..=9) and a candidate
/// set as its bits (a `Set<Digit>` never holds bits above its nine digits).
#[verifier::external_body]
fn solver_grid_state(s: &sudoku::Sudoku) -> (r: Vec<GridEntry>)
    ensures
        r@ == grid_state_of(sudoku_cells(*s)),
        r.len() == 81,
        forall|i: int| 0 <= i < 81 ==> entry_valid(#[trigger] r[i]),
{
    let states = sudoku::strategy::StrategySolver::from_sudoku(*s).grid_state();
    states.iter().map(
        |state|
            match state {
                sudoku::board::CellState::Digit(d) => GridEntry::Digit(d.get()),
                sudoku::board::CellState::Candidates(m) => GridEntry::Candidates(m.bits()),
            },
    ).collect()
}

/// Whether a snapshot of 81 effective values is a solved grid, as the puzzle library judges it.
pub fn check_solver(snapshot: &Vec<GridEntry>) -> (r: bool)
    ensures
        r == grid_solved(snapshot_bytes(snapshot@)),
{
    let mut bytes: Vec<u8> = Vec::new();
    let mut i: usize = 0;
    while i < snapshot.len()
        invariant
            i <= snapshot.len(),
            bytes.len() == i,
            forall|x: int| 0 <= x < i ==> #[trigger] bytes[x] == snapshot_bytes(snapshot@)[x],
        decreases snapshot.len() - i,
    {
        let b = match snapshot[i] {
            GridEntry::Digit(d) => d,
            GridEntry::Candidates(_) => 0,
        };
        bytes.push(b);
        i += 1;
    }
    assert(bytes@ =~= snapshot_bytes(snapshot@));
    match sudoku_from_bytes(&bytes) {
        Some(s) => sudoku_is_solved(&s),
        None => {
            proof {
                if bytes.len() == 81 {
                    let c = choose|c: int| 0 <= c < 81 && !(#[trigger] bytes[c] <= 9);
                    assert(!(1 <= bytes@[c] <= 9));
                }
            }
            false
        },
    }
}

/// A play session: the puzzle, its board, and whether the last placed digit solved it.
pub struct SudokuManager {
    current_sudoku: sudoku::Sudoku,
    board: Board,
    solved: bool,
}

impl SudokuManager {
    /// The cells of the board.
    pub closed spec fn cells(&self) -> Seq<CellValue> {
        self.board@
    }

    /// The puzzle that the session was opened on.
    pub closed spec fn puzzle(&self) -> sudoku::Sudoku {
        self.current_sudoku
    }

    /// The solved status, as of the last placed digit.
    pub closed spec fn solved_status(&self) -> bool {
        self.solved
    }

    pub open spec fn wf(&self) -> bool {
        board_wf(self.cells())
    }

    /// Opens a session on `puzzle`: each cell takes the state that the strategy solver derives
    /// for it, a digit as a given and a candidate set in the mode that `auto` selects.
    pub fn new(puzzle: sudoku::Sudoku, auto: bool) -> (r: Option<SudokuManager>)
        ensures
            r.is_some(),
            r matches Some(m) ==> {
                &&& m.wf()
                &&& m.puzzle() == puzzle
                &&& forall|p: int|
                    0 <= p < 81 ==> same_but_conflicts(
                        #[trigger] m.cells()[p],
                        CellValue::from_entry_spec(grid_state_of(sudoku_cells(puzzle))[p], auto),
                    )
                &&& m.solved_status() == board_solved(m.cells())
            },
    {
        let entries = solver_grid_state(&puzzle);
        match Board::from_grid_state(&entries, auto) {
            Some(board) => {
                let snapshot = board.snapshot();
                let solved = check_solver(&snapshot);
                assert(snapshot@ =~= Seq::new(board@.len(), |i: int| effective(board@[i])));
                Some(SudokuManager { current_sudoku: puzzle, board, solved })
            },
            None => None,
        }
    }

    /// Opens a session on a freshly generated puzzle.
    pub fn generate(auto: bool) -> (r: Option<SudokuManager>)
        ensures
            r.is_some(),
            r matches Some(m) ==> {
                &&& m.wf()
                &&& forall|p: int|
                    0 <= p < 81 ==> same_but_conflicts(
                        #[trigger] m.cells()[p],
                        CellValue::from_entry_spec(
                            grid_state_of(sudoku_cells(m.puzzle()))[p],
                            auto,
                        ),
                    )
                &&& m.solved_status() == board_solved(m.cells())
            },
    {
        let puzzle = generate_sudoku();
        SudokuManager::new(puzzle, auto)
    }

    /// The puzzle that the session was opened on.
    pub fn current_sudoku(&self) -> (r: sudoku::Sudoku)
        ensures
            r == self.puzzle(),
    {
        self.current_sudoku
    }

    /// The board.
    pub fn board(&self) -> (r: &Board)
        ensures
            r@ == self.cells(),
    {
        &self.board
    }

    /// Whether the grid was solved when a digit was last placed.
    pub fn is_solved(&self) -> (r: bool)
        ensures
            r == self.solved_status(),
    {
        self.solved
    }

    /// Handles one event at `pos` (see `Board::apply`); after a placed digit the solved status
    /// is computed anew from a snapshot of the board.
    pub fn apply(&mut self, pos: u8, e: CellEvent, auto: bool) -> (r: Result<(), EventError>)
        requires
            old(self).wf(),
        ensures
            final(self).wf(),
            step(old(self).cells(), final(self).cells(), pos as int, e, auto),
            final(self).puzzle() == old(self).puzzle(),
            r == if crate::cell_state::event_valid(e) {
                Ok::<(), EventError>(())
            } else {
                Err(EventError::InvalidDigit)
            },
            final(self).solved_status() == if event_applies(old(self).cells(), pos as int, e)
                && e is PlaceDigit {
                board_solved(final(self).cells())
            } else {
                old(self).solved_status()
            },
    {
        let applies = e.is_valid() && pos < 81 && !self.board.cell(pos).fixed;
        let r = self.board.apply(pos, e, auto);
        if applies {
            if let CellEvent::PlaceDigit(_) = e {
                let snapshot = self.board.snapshot();
                self.solved = check_solver(&snapshot);
                assert(snapshot@ =~= Seq::new(
                    self.board@.len(),
                    |i: int| effective(self.board@[i]),
                ));
            }
        }
        r
    }

    /// Places the event's digit at `pos`.
    pub fn on_new_digit(&mut self, pos: u8, e: NewDigit, mode: AutoCandidateMode) -> (r: Result<
        (),
        EventError,
    >)
        requires
            old(self).wf(),
        ensures
            final(self).wf(),
            step(
                old(self).cells(),
                final(self).cells(),
                pos as int,
                CellEvent::PlaceDigit(e.0),
                mode.0,
            ),
            r is Err <==> !(1 <= e.0 <= 9),
            final(self).solved_status() == if event_applies(
                old(self).cells(),
                pos as int,
                CellEvent::PlaceDigit(e.0),
            ) {
                board_solved(final(self).cells())
            } else {
                old(self).solved_status()
            },
    {
        self.apply(pos, CellEvent::from_new_digit(e), mode.0)
    }

    /// Marks the event's candidate at `pos`.
    pub fn on_new_candidate(&mut self, pos: u8, e: NewCandidate, mode: AutoCandidateMode) -> (r:
        Result<(), EventError>)
        requires
            old(self).wf(),
        ensures
            final(self).wf(),
            step(
                old(self).cells(),
                final(self).cells(),
                pos as int,
                CellEvent::ToggleCandidate(e.0),
                mode.0,
            ),
            r is Err <==> !(1 <= e.0 <= 9),
            final(self).solved_status() == old(self).solved_status(),
    {
        self.apply(pos, CellEvent::from_new_candidate(e), mode.0)
    }

    /// Clears the cell at `pos`.
    pub fn on_clean_cell(&mut self, pos: u8, e: CleanCell, mode: AutoCandidateMode) -> (r: Result<
        (),
        EventError,
    >)
        requires
            old(self).wf(),
        ensures
            final(self).wf(),
            step(old(self).cells(), final(self).cells(), pos as int, CellEvent::ClearCell, mode.0),
            r is Ok,
            final(self).solved_status() == old(self).solved_status(),
    {
        self.apply(pos, CellEvent::from_clean_cell(e), mode.0)
    }
}

} // verus!
