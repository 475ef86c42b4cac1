use vstd::prelude::*;

use crate::tetromino::occupies;
use crate::tetromino::stamp_piece;
use crate::tetromino::Tetromino;

verus! {

/// One cell of the playfield: `E` (empty) or `F` (filled). Filled cells carry
/// no payload; every piece at rest looks the same.
#[derive(Debug, Clone, Copy, PartialEq, Eq, Structural)]
pub enum CellState {
    E,
    F,
}

impl Default for CellState {
    fn default() -> (r: Self)
        ensures
            r == CellState::E,
    {
        CellState::E
    }
}

/// A 20-row, 10-column grid holds every cell `E`.
pub open spec fn grid_empty(g: [[CellState; 10]; 20]) -> bool {
    forall|r: int, c: int| 0 <= r < 20 && 0 <= c < 10 ==> g[r][c] == CellState::E
}

/// The playfield. `placed` is authoritative: it keeps the cells of pieces
/// that have come to rest and is written only when a piece commits.
/// `state` is the composite picture that rendering reads: `placed` with the
/// active piece's cells overlaid (see `show_cells`).
pub struct Board {
    pub state: [[CellState; 10]; 20],
    pub placed: [[CellState; 10]; 20],
}

impl Default for Board {
    fn default() -> (r: Self)
        ensures
            grid_empty(r.state),
            grid_empty(r.placed),
    {
        let row = [CellState::E; 10];
        let grid = [row; 20];
        Board { state: grid, placed: grid }
    }
}

/// Recompute the composite view: copy `placed` into `state`, then overlay
/// the active piece's filled cells at their current positions. `placed`
/// itself is left alone, and the view keeps every filled placed cell.
pub fn show_cells(board: &mut Board, tetro: &Tetromino)
    ensures
        final(board).placed == old(board).placed,
        forall|r: int, c: int|
            0 <= r < 20 && 0 <= c < 10 ==> final(board).state[r][c] == (if occupies(*tetro, r, c) {
                CellState::F
            } else {
                old(board).placed[r][c]
            }),
{
    let ghost placed0 = board.placed;
    let mut r: usize = 0;
    while r < 20
        invariant
            r <= 20,
            board.placed == placed0,
            forall|i: int, c: int|
                0 <= i < r && 0 <= c < 10 ==> board.state[i][c] == placed0[i][c],
        decreases 20 - r,
    {
        board.state[r] = board.placed[r];
        r = r + 1;
    }
    stamp_piece(&mut board.state, tetro);
}

/// The composite view never drops information present in `placed`: every
/// filled placed cell is filled in any view composed as `show_cells` does it.
pub proof fn lemma_view_keeps_placed(
    placed: [[CellState; 10]; 20],
    t: Tetromino,
    view: [[CellState; 10]; 20],
)
    requires
        forall|r: int, c: int|
            0 <= r < 20 && 0 <= c < 10 ==> view[r][c] == (if occupies(t, r, c) {
                CellState::F
            } else {
                placed[r][c]
            }),
    ensures
        forall|r: int, c: int|
            0 <= r < 20 && 0 <= c < 10 && placed[r][c] == CellState::F ==> view[r][c]
                == CellState::F,
{
    assert forall|r: int, c: int|
        0 <= r < 20 && 0 <= c < 10 && placed[r][c] == CellState::F implies view[r][c]
        == CellState::F by {
        assert(view[r][c] == (if occupies(t, r, c) {
            CellState::F
        } else {
            placed[r][c]
        }));
    }
}

} // verus!
