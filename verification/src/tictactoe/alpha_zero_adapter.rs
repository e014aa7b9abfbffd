//! Between the board and a model: the input planes of a position, the priors of its
//! moves, and the policy target of a position.

use vstd::prelude::*;
use crate::alpha_zero::priors::normalize_priors;
use crate::alpha_zero::priors::prior_share;
use crate::alpha_zero::priors::sum_weights;
use crate::alpha_zero::score::Score;
use crate::tictactoe::board::BoardState;
use crate::tictactoe::board::CELLS;
use crate::tictactoe::board::CellState;
use crate::tictactoe::board::N;
use crate::tictactoe::board::TicTacToeMove;

verus! {

/// Turns boards and moves into what a model takes and gives.
pub struct TicTacToeAlphaZeroAdapter;

/// The stone that plane `plane` marks: the first plane the stones of the side to
/// move, the second those of the other side.
pub open spec fn plane_stone(plane: int) -> CellState {
    if plane == 0 {
        CellState::X
    } else {
        CellState::O
    }
}

/// The two input planes of a board, one after the other, each cell by its number:
/// one where the cell holds the stone of the plane, zero elsewhere.
pub open spec fn input_planes(cells: Seq<CellState>) -> Seq<u8> {
    Seq::new(
        2 * CELLS as nat,
        |k: int|
            if cells[k % 361] == plane_stone(k / 361) {
                1u8
            } else {
                0u8
            },
    )
}

/// The number of the cell of a move.
pub open spec fn move_cell(m: TicTacToeMove) -> int {
    m.0 * N + m.1
}

/// Whether every move names a cell of the board.
pub open spec fn moves_on_board(moves: Seq<TicTacToeMove>) -> bool {
    forall|k: int| 0 <= k < moves.len() ==> (#[trigger] moves[k]).0 < N && moves[k].1 < N
}

/// The weights of the cells of the moves, in the order of the moves.
pub open spec fn gathered(weights: Seq<u32>, moves: Seq<TicTacToeMove>) -> Seq<u32> {
    Seq::new(moves.len(), |k: int| weights[move_cell(moves[k])])
}

/// The board-shaped policy target after the first `upto` moves were entered: each
/// move puts its count into its cell, and every other cell holds zero.
pub open spec fn scattered(policy: Seq<usize>, moves: Seq<TicTacToeMove>, upto: int) -> Seq<usize>
    decreases upto,
{
    if upto <= 0 {
        Seq::new(CELLS as nat, |k: int| 0usize)
    } else {
        scattered(policy, moves, upto - 1).update(move_cell(moves[upto - 1]), policy[upto - 1])
    }
}

impl TicTacToeAlphaZeroAdapter {
    /// The input of the model for a position: two planes of 19 by 19, the first
    /// marking the stones of the side to move, the second those of the other side.
    pub fn convert_game_to_nn_input(state: &BoardState) -> (planes: Vec<u8>)
        ensures
            planes@ == input_planes(state@),
    {
        let mut planes: Vec<u8> = Vec::new();
        let mut plane: usize = 0;
        while plane < 2
            invariant
                plane <= 2,
                planes@.len() == plane * 361,
                forall|k: int| 0 <= k < planes@.len() ==> #[trigger] planes@[k] == input_planes(state@)[k],
            decreases 2 - plane,
        {
            let stone = if plane == 0 {
                CellState::X
            } else {
                CellState::O
            };
            let mut i: usize = 0;
            while i < N
                invariant
                    plane < 2,
                    i <= N,
                    stone == plane_stone(plane as int),
                    planes@.len() == plane * 361 + i * 19,
                    forall|k: int|
                        0 <= k < planes@.len() ==> #[trigger] planes@[k] == input_planes(state@)[k],
                decreases N - i,
            {
                let mut j: usize = 0;
                while j < N
                    invariant
                        plane < 2,
                        i < N,
                        j <= N,
                        stone == plane_stone(plane as int),
                        planes@.len() == plane * 361 + i * 19 + j,
                        forall|k: int|
                            0 <= k < planes@.len() ==> #[trigger] planes@[k] == input_planes(
                                state@,
                            )[k],
                    decreases N - j,
                {
                    let ghost k = plane * 361 + i * 19 + j;
                    assert(k / 361 == plane && k % 361 == i * 19 + j);
                    let mark: u8 = if state.get((i, j)) == stone {
                        1
                    } else {
                        0
                    };
                    planes.push(mark);
                    j = j + 1;
                }
                i = i + 1;
            }
            plane = plane + 1;
        }
        assert(planes@ =~= input_planes(state@));
        planes
    }

    /// The priors of the moves of a position. `weights` holds one weight for each
    /// cell of the board, and each move gets the share of the weight of its cell in
    /// the weights of all the moves.
    pub fn get_estimated_policy(weights: &Vec<u32>, moves: &Vec<TicTacToeMove>) -> (priors: Vec<
        Score,
    >)
        requires
            weights@.len() == CELLS,
            moves_on_board(moves@),
        ensures
            priors@.len() == moves@.len(),
            forall|k: int|
                0 <= k < priors@.len() ==> (#[trigger] priors@[k]).value() == prior_share(
                    weights@[move_cell(moves@[k])] as nat,
                    sum_weights(gathered(weights@, moves@)),
                ),
    {
        let mut picked: Vec<u32> = Vec::new();
        let mut k: usize = 0;
        while k < moves.len()
            invariant
                k <= moves.len(),
                weights@.len() == CELLS,
                moves_on_board(moves@),
                picked@.len() == k,
                forall|i: int| 0 <= i < k ==> #[trigger] picked@[i] == gathered(weights@, moves@)[i],
            decreases moves.len() - k,
        {
            let m = moves[k];
            assert(m.0 < N && m.1 < N);
            picked.push(weights[m.0 * N + m.1]);
            k = k + 1;
        }
        assert(picked@ =~= gathered(weights@, moves@));
        normalize_priors(&picked)
    }

    /// The policy target of a position in the shape of the board: the count of each
    /// move in the cell of the move, zero in every other cell. Counts and moves are
    /// taken by pairs, as far as both reach.
    pub fn convert_policy_to_nn(policy: &Vec<usize>, moves: &Vec<TicTacToeMove>) -> (grid: Vec<
        usize,
    >)
        requires
            moves_on_board(moves@),
        ensures
            grid@ == scattered(
                policy@,
                moves@,
                if policy@.len() < moves@.len() {
                    policy@.len() as int
                } else {
                    moves@.len() as int
                },
            ),
            grid@.len() == CELLS,
    {
        let mut grid: Vec<usize> = Vec::new();
        let mut c: usize = 0;
        while c < CELLS
            invariant
                c <= CELLS,
                grid@.len() == c,
                forall|i: int| 0 <= i < c ==> #[trigger] grid@[i] == 0usize,
            decreases CELLS - c,
        {
            grid.push(0);
            c = c + 1;
        }
        assert(grid@ =~= scattered(policy@, moves@, 0));
        let count = if policy.len() < moves.len() {
            policy.len()
        } else {
            moves.len()
        };
        let mut k: usize = 0;
        while k < count
            invariant
                k <= count,
                count <= policy@.len(),
                count <= moves@.len(),
                moves_on_board(moves@),
                grid@.len() == CELLS,
                grid@ == scattered(policy@, moves@, k as int),
            decreases count - k,
        {
            let m = moves[k];
            assert(m.0 < N && m.1 < N);
            grid[m.0 * N + m.1] = policy[k];
            k = k + 1;
        }
        grid
    }
}

} // verus!
