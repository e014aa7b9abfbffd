use selfplay::alpha_zero::Policy;
use selfplay::alpha_zero::Score;
use selfplay::tictactoe::generate_game_image;
use selfplay::tictactoe::BoardState;
use selfplay::tictactoe::CellState;

fn pixel(width: u32, bytes: &[u8], x: u32, y: u32) -> (u8, u8, u8) {
    let at = 3 * (y as usize * width as usize + x as usize);
    (bytes[at], bytes[at + 1], bytes[at + 2])
}

#[test]
fn boards_stand_side_by_side_with_white_lines() {
    let first = BoardState::new().set((0, 0), CellState::X).set((1, 2), CellState::O);
    let mut visits = vec![0usize; 359];
    // The moves are the empty cells in order: (0, 1) first, (18, 18) last.
    visits[0] = 10;
    visits[1] = 5;
    visits[358] = 1;
    let second = BoardState::new().set((18, 18), CellState::O);
    let history = vec![
        (first, Policy { visits, total: 16 }, Score::half()),
        (second, Policy { visits: vec![7; 360], total: 0 }, Score::one()),
    ];
    let (width, height, bytes) = generate_game_image(&history).into_raw();
    assert_eq!((width, height), (385, 190));
    assert_eq!(bytes.len(), 3 * 385 * 190);
    // Cell (0, 0): red, ten by ten.
    assert_eq!(pixel(width, &bytes, 0, 0), (255, 0, 0));
    assert_eq!(pixel(width, &bytes, 9, 9), (255, 0, 0));
    // Cell (0, 1) lies below it: green by its share, 255 * 10 / 16.
    assert_eq!(pixel(width, &bytes, 0, 10), (0, 159, 0));
    assert_eq!(pixel(width, &bytes, 9, 19), (0, 159, 0));
    assert_eq!(pixel(width, &bytes, 5, 25), (0, 79, 0));
    assert_eq!(pixel(width, &bytes, 5, 35), (0, 0, 0));
    // Cell (1, 2) lies right of the first column: blue.
    assert_eq!(pixel(width, &bytes, 10, 20), (0, 0, 255));
    assert_eq!(pixel(width, &bytes, 19, 29), (0, 0, 255));
    assert_eq!(pixel(width, &bytes, 20, 29), (0, 0, 0));
    // Cell (18, 18) of the first board: 255 / 16.
    assert_eq!(pixel(width, &bytes, 189, 189), (0, 15, 0));
    // The line between the boards.
    for x in 190..195 {
        assert_eq!(pixel(width, &bytes, x, 0), (255, 255, 255));
        assert_eq!(pixel(width, &bytes, x, 189), (255, 255, 255));
    }
    // The second board: without visits all empty cells are black.
    assert_eq!(pixel(width, &bytes, 195, 0), (0, 0, 0));
    assert_eq!(pixel(width, &bytes, 384, 189), (0, 0, 255));
    assert_eq!(pixel(width, &bytes, 375, 180), (0, 0, 255));
    assert_eq!(pixel(width, &bytes, 374, 189), (0, 0, 0));
}

#[test]
fn single_board_has_no_line() {
    let history = vec![(BoardState::new(), Policy { visits: vec![3; 361], total: 3 }, Score::zero())];
    let (width, height, bytes) = generate_game_image(&history).into_raw();
    assert_eq!((width, height), (190, 190));
    assert!(bytes.chunks(3).all(|p| p == [0, 255, 0]));
    // Counts above the total are as bright as can be.
    let history = vec![(BoardState::new(), Policy { visits: vec![9; 400], total: 3 }, Score::zero())];
    let (_, _, bytes) = generate_game_image(&history).into_raw();
    assert!(bytes.chunks(3).all(|p| p == [0, 255, 0]));
}
