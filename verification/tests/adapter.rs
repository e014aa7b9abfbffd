use selfplay::alpha_zero::priors::normalize_priors;
use selfplay::alpha_zero::priors::total_weight;
use selfplay::tictactoe::BoardState;
use selfplay::tictactoe::CellState;
use selfplay::tictactoe::TicTacToeAlphaZeroAdapter;
use selfplay::tictactoe::TicTacToeMove;

#[test]
fn convert_board_to_tensor() {
    let mut game = BoardState::new();
    game.set_inplace((10, 0), CellState::O);
    game.set_inplace((1, 3), CellState::X);

    let tensor = TicTacToeAlphaZeroAdapter::convert_game_to_nn_input(&game);
    assert_eq!(tensor.len(), 2 * 19 * 19);

    let ones = [(1, 10, 0), (0, 1, 3)];

    for i in 0..2 {
        for j in 0..19 {
            for k in 0..19 {
                let goal = if ones.contains(&(i, j, k)) { 1. } else { 0. };
                assert_eq!(tensor[i * 19 * 19 + j * 19 + k] as f32, goal);
            }
        }
    }
}

#[test]
fn priors_are_shares_of_the_weights() {
    let priors = normalize_priors(&vec![1, 1, 2]);
    assert_eq!(priors.iter().map(|p| p.parts()).collect::<Vec<_>>(), vec![16384, 16384, 32768]);
    let priors = normalize_priors(&vec![1, 1, 1]);
    assert_eq!(priors.iter().map(|p| p.parts()).collect::<Vec<_>>(), vec![21845, 21845, 21845]);
    let priors = normalize_priors(&vec![0, 0]);
    assert_eq!(priors.iter().map(|p| p.parts()).collect::<Vec<_>>(), vec![0, 0]);
    let priors = normalize_priors(&vec![u32::MAX, u32::MAX, 0, u32::MAX, u32::MAX]);
    assert_eq!(
        priors.iter().map(|p| p.parts()).collect::<Vec<_>>(),
        vec![16384, 16384, 0, 16384, 16384]
    );
    assert_eq!(normalize_priors(&vec![9])[0].parts(), 65536);
    assert!(normalize_priors(&vec![]).is_empty());
    assert_eq!(total_weight(&vec![u32::MAX; 3]), 3 * u32::MAX as u128);
}

#[test]
fn priors_of_moves_come_from_their_cells() {
    let mut weights = vec![0u32; 361];
    weights[0] = 500;
    weights[19 + 3] = 300;
    weights[360] = 100;
    weights[5] = 100;
    let moves = vec![TicTacToeMove(18, 18), TicTacToeMove(1, 3), TicTacToeMove(0, 5), TicTacToeMove(2, 2)];
    let priors = TicTacToeAlphaZeroAdapter::get_estimated_policy(&weights, &moves);
    // The weight of the cell (0, 0) belongs to no move.
    assert_eq!(priors.iter().map(|p| p.parts()).collect::<Vec<_>>(), vec![13107, 39321, 13107, 0]);
}

#[test]
fn policy_target_has_the_counts_in_the_cells_of_the_moves() {
    let moves = vec![TicTacToeMove(0, 1), TicTacToeMove(18, 18), TicTacToeMove(7, 0)];
    let grid = TicTacToeAlphaZeroAdapter::convert_policy_to_nn(&vec![5, 6, 7], &moves);
    assert_eq!(grid.len(), 361);
    for (cell, count) in grid.iter().enumerate() {
        let expected = match cell {
            1 => 5,
            360 => 6,
            133 => 7,
            _ => 0,
        };
        assert_eq!(*count, expected);
    }
    // Counts and moves go by pairs.
    let grid = TicTacToeAlphaZeroAdapter::convert_policy_to_nn(&vec![5], &moves);
    assert_eq!(grid.iter().sum::<usize>(), 5);
    let grid = TicTacToeAlphaZeroAdapter::convert_policy_to_nn(&vec![1, 2, 3, 4], &moves);
    assert_eq!(grid.iter().sum::<usize>(), 6);
}
