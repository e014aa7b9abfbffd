use selfplay::alpha_zero::Game;
use selfplay::alpha_zero::Score;
use selfplay::alpha_zero::TerminationState;
use selfplay::tictactoe::BoardState;
use selfplay::tictactoe::CellState;

struct BoardWrapper(BoardState, usize, usize);

impl BoardWrapper {
    fn set_inplace(&mut self, (x, y): (usize, usize), s: CellState) {
        self.0.set_inplace((x + self.1, y + self.2), s)
    }

    fn is_win(&self) -> CellState {
        self.0.is_win()
    }

    fn flip_players_inplace(&mut self) {
        self.0.flip_players_inplace()
    }
}

fn test_with_offset(ox: usize, oy: usize) {
    let mut board = BoardWrapper(BoardState::new(), ox, oy);
    assert_eq!(board.is_win(), CellState::Empty);
    board.set_inplace((0, 4), CellState::X);
    board.set_inplace((1, 3), CellState::X);
    board.set_inplace((2, 2), CellState::X);
    board.set_inplace((3, 1), CellState::X);
    assert_eq!(board.is_win(), CellState::Empty);
    board.set_inplace((4, 0), CellState::X);

    assert_eq!(board.is_win(), CellState::X);
    board.flip_players_inplace();
    assert_eq!(board.is_win(), CellState::O);
    board.set_inplace((2, 2), CellState::Empty);

    board.set_inplace((0, 0), CellState::O);
    board.set_inplace((0, 1), CellState::O);
    board.set_inplace((0, 2), CellState::O);
    assert_eq!(board.is_win(), CellState::Empty);
    board.set_inplace((0, 3), CellState::O);
    assert_eq!(board.is_win(), CellState::O);

    board.set_inplace((0, 4), CellState::Empty);
    assert_eq!(board.is_win(), CellState::Empty);

    board.set_inplace((1, 0), CellState::O);
    board.set_inplace((2, 0), CellState::O);
    assert_eq!(board.is_win(), CellState::Empty);
    board.set_inplace((3, 0), CellState::O);
    assert_eq!(board.is_win(), CellState::O);

    board.set_inplace((1, 0), CellState::X);
    assert_eq!(board.is_win(), CellState::Empty);

    board.set_inplace((1, 1), CellState::O);
    board.set_inplace((2, 2), CellState::O);
    board.set_inplace((3, 3), CellState::O);
    assert_eq!(board.is_win(), CellState::Empty);
    board.set_inplace((4, 4), CellState::O);
    assert_eq!(board.is_win(), CellState::O);
}

#[test]
fn tic_tac_toe_win() {
    for ox in [0, 7, 14] {
        for oy in [0, 7, 14] {
            test_with_offset(ox, oy);
        }
    }
}

#[test]
fn tic_tac_toe_draw() {
    let mut board = BoardState::new();
    for i in 0..19 {
        for j in 0..19 {
            let s = if (i / 2 + j) % 2 == 0 {
                CellState::X
            } else {
                CellState::O
            };
            board.set_inplace((i, j), s);
        }
    }

    assert_eq!(board.get_state(), TerminationState::Terminal(Score::half()));
}

#[test]
fn cells_are_set_and_read_one_by_one() {
    let mut board = BoardState::new();
    for i in 0..19 {
        for j in 0..19 {
            assert_eq!(board.get((i, j)), CellState::Empty);
        }
    }
    board.set_inplace((18, 18), CellState::O);
    board.set_inplace((0, 0), CellState::X);
    board.set_inplace((18, 17), CellState::X);
    board.set_inplace((9, 3), CellState::O);
    board.set_inplace((9, 3), CellState::X);
    for i in 0..19 {
        for j in 0..19 {
            let expected = match (i, j) {
                (18, 18) => CellState::O,
                (0, 0) | (18, 17) | (9, 3) => CellState::X,
                _ => CellState::Empty,
            };
            assert_eq!(board.get((i, j)), expected);
        }
    }
    let board = board.set((0, 0), CellState::Empty).flip_players();
    assert_eq!(board.get((18, 18)), CellState::X);
    assert_eq!(board.get((18, 17)), CellState::O);
    assert_eq!(board.get((0, 0)), CellState::Empty);
    assert!(board == board.clone());
    assert!(board != BoardState::new());
}

#[test]
fn moves_are_the_empty_cells_in_order() {
    let board = BoardState::new().set((0, 0), CellState::X).set((0, 2), CellState::O);
    let moves = board.get_state().get_moves().unwrap();
    assert_eq!(moves.len(), 359);
    assert_eq!((moves[0].0, moves[0].1), (0, 1));
    assert_eq!((moves[1].0, moves[1].1), (0, 3));
    assert_eq!((moves[358].0, moves[358].1), (18, 18));
    assert!(board.get_state().get_terminal().is_none());
}

#[test]
fn move_puts_a_stone_and_turns_the_board() {
    let board = BoardState::new().set((5, 5), CellState::O);
    let moves = board.get_state().get_moves().unwrap();
    let next = board.make_move(&moves[0]);
    assert_eq!(next.get((0, 0)), CellState::O);
    assert_eq!(next.get((5, 5)), CellState::X);
    assert_eq!(next.get((0, 1)), CellState::Empty);
    assert_eq!(board.get((0, 0)), CellState::Empty);
    assert_eq!(next.get_state().get_moves().unwrap().len(), 359);
}

#[test]
fn winner_is_scored_for_the_side_to_move() {
    let mut board = BoardState::new();
    for k in 0..5 {
        board.set_inplace((3, 4 + k), CellState::X);
    }
    assert_eq!(board.get_state(), TerminationState::Terminal(Score::one()));
    assert_eq!(board.get_state().get_terminal(), Some(Score::one()));
    assert!(board.get_state().get_moves().is_none());
    board.flip_players_inplace();
    assert_eq!(board.get_state(), TerminationState::Terminal(Score::zero()));
}

#[test]
fn first_line_decides_between_two_winners() {
    let mut board = BoardState::new();
    for k in 0..5 {
        board.set_inplace((0, k), CellState::O);
        board.set_inplace((4 + k, 10), CellState::X);
    }
    // Rows are looked at before columns.
    assert_eq!(board.is_win(), CellState::O);
    let mut board = BoardState::new();
    for k in 0..5 {
        board.set_inplace((10 + k, 10 - k), CellState::X);
        board.set_inplace((5, k), CellState::O);
    }
    // Rising diagonals are looked at before rows: the line starts at (14, 6).
    assert_eq!(board.is_win(), CellState::X);
}
