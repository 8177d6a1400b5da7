//! Positions of the 81 cells: row, column, block and peers.
use vstd::prelude::*;

verus! {

/// Number of cells on the board.
pub const N_CELLS: u8 = 81;

/// Row of a position (0..9).
pub open spec fn row_of(p: int) -> int {
    p / 9
}

/// Column of a position (0..9).
pub open spec fn col_of(p: int) -> int {
    p % 9
}

/// 3×3 block of a position (0..9), numbered row-major.
pub open spec fn block_of(p: int) -> int {
    (p / 27) * 3 + (p % 9) / 3
}

/// Whether `p` is a board position.
pub open spec fn valid_pos(p: int) -> bool {
    0 <= p < 81
}

/// Two distinct positions that share a row, a column or a block.
pub open spec fn is_peer(p: int, q: int) -> bool {
    &&& valid_pos(p)
    &&& valid_pos(q)
    &&& p != q
    &&& (row_of(p) == row_of(q) || col_of(p) == col_of(q) || block_of(p) == block_of(q))
}

/// A cell of the board, addressed by its linear index `row * 9 + col`.
#[derive(Clone, Copy, Debug, PartialEq, Eq, Hash)]
pub struct CellPosition(pub u8);

impl CellPosition {
    pub fn new(index: u8) -> (r: CellPosition)
        requires
            index < 81,
        ensures
            r.0 == index,
    {
        CellPosition(index)
    }

    pub fn row(&self) -> (r: u8)
        ensures
            r == row_of(self.0 as int),
    {
        self.0 / 9
    }

    pub fn col(&self) -> (r: u8)
        ensures
            r == col_of(self.0 as int),
    {
        self.0 % 9
    }

    pub fn block(&self) -> (r: u8)
        ensures
            r == block_of(self.0 as int),
    {
        (self.0 / 27) * 3 + (self.0 % 9) / 3
    }

    /// Whether `other` shares a row, a column or a block with this cell and is not this cell.
    pub fn is_peer_of(&self, other: &CellPosition) -> (r: bool)
        ensures
            r == is_peer(self.0 as int, other.0 as int),
    {
        self.0 < 81 && other.0 < 81 && self.0 != other.0 && (self.row() == other.row()
            || self.col() == other.col() || self.block() == other.block())
    }

    /// All peers of this cell, in increasing order.
    pub fn peers(&self) -> (r: Vec<CellPosition>)
        ensures
            forall|i: int| 0 <= i < r.len() ==> is_peer(self.0 as int, r[i].0 as int),
            forall|q: int| is_peer(self.0 as int, q) ==> exists|i: int|
                0 <= i < r.len() && r[i].0 == q,
            forall|i: int, j: int| 0 <= i < j < r.len() ==> r[i].0 < r[j].0,
    {
        let mut r: Vec<CellPosition> = Vec::new();
        let mut q: u8 = 0;
        while q < N_CELLS
            invariant
                q <= 81,
                forall|i: int| 0 <= i < r.len() ==> is_peer(self.0 as int, r[i].0 as int),
                forall|i: int| 0 <= i < r.len() ==> r[i].0 < q,
                forall|x: int| 0 <= x < q && is_peer(self.0 as int, x) ==> exists|i: int|
                    0 <= i < r.len() && r[i].0 == x,
                forall|i: int, j: int| 0 <= i < j < r.len() ==> r[i].0 < r[j].0,
            decreases 81 - q,
        {
            let ghost before = r@;
            let other = CellPosition(q);
            let pushed = self.is_peer_of(&other);
            if pushed {
                r.push(other);
            }
            proof {
                assert forall|x: int| 0 <= x < q + 1 && is_peer(self.0 as int, x) implies exists|
                    i: int,
                | 0 <= i < r.len() && r[i].0 == x by {
                    if x < q {
                        let i = choose|i: int| 0 <= i < before.len() && before[i].0 == x;
                        assert(r[i].0 == x);
                    } else {
                        assert(r[r.len() - 1].0 == x);
                    }
                }
            }
            q += 1;
        }
        r
    }
}

} // verus!
