//! The board: 361 cells, two bits each, and the test for five in a row.

use vstd::prelude::*;
use crate::alpha_zero::game::Game;
use crate::alpha_zero::game::legal_moves;
use crate::alpha_zero::game::MoveParameters;
use crate::alpha_zero::game::TerminationState;
use crate::alpha_zero::score::Score;

verus! {

/// The side length of the board.
pub const N: usize = 19;

/// The number of cells of the board.
pub const CELLS: usize = 361;

/// The number of bytes that hold the cells, four cells to a byte.
pub const BYTES: usize = 91;

/// What a cell holds.
#[derive(Clone, Copy, PartialEq, Eq, Debug, Structural)]
pub enum CellState {
    Empty,
    X,
    O,
}

/// The two bits that stand for a cell.
pub open spec fn code_of(cell: CellState) -> u8 {
    match cell {
        CellState::Empty => 0,
        CellState::X => 1,
        CellState::O => 2,
    }
}

/// The cell that two bits stand for.
pub open spec fn cell_of(code: u8) -> CellState {
    if code == 1 {
        CellState::X
    } else if code == 2 {
        CellState::O
    } else {
        CellState::Empty
    }
}

/// The two bits at place `offset` of a byte.
pub open spec fn slot(byte: u8, offset: u8) -> u8 {
    (byte >> (2 * offset) as u8) & 3
}

/// The two bits that stand for cell number `index`.
pub open spec fn code_at(bytes: Seq<u8>, index: int) -> u8 {
    slot(bytes[index / 4], (index % 4) as u8)
}

/// The cell with the stones of the two players exchanged.
pub open spec fn flipped_cell(cell: CellState) -> CellState {
    match cell {
        CellState::Empty => CellState::Empty,
        CellState::X => CellState::O,
        CellState::O => CellState::X,
    }
}

/// A board of 19 by 19 cells. Cell `(x, y)` has the number `x * 19 + y`.
#[derive(Hash, PartialEq, Eq)]
pub struct BoardState {
    state: [u8; 91],
}

impl Default for BoardState {
    fn default() -> (board: Self)
        ensures
            board@ == Seq::new(CELLS as nat, |i: int| CellState::Empty),
    {
        Self::new()
    }
}

impl Clone for BoardState {
    fn clone(&self) -> (copy: Self)
        ensures
            copy == *self,
    {
        proof {
            use_type_invariant(self);
        }
        BoardState { state: self.state }
    }
}

proof fn lemma_slot_written(byte: u8, offset: u8, code: u8)
    by (bit_vector)
    requires
        offset < 4,
        code < 4,
    ensures
        (((byte & !(3u8 << (2 * offset) as u8)) | (code << (2 * offset) as u8)) >> (2
            * offset) as u8) & 3 == code,
{
}

proof fn lemma_slot_kept(byte: u8, offset: u8, code: u8, other: u8)
    by (bit_vector)
    requires
        offset < 4,
        other < 4,
        other != offset,
        code < 4,
    ensures
        (((byte & !(3u8 << (2 * offset) as u8)) | (code << (2 * offset) as u8)) >> (2
            * other) as u8) & 3 == (byte >> (2 * other) as u8) & 3,
{
}

proof fn lemma_slots_fix_byte(a: u8, b: u8)
    by (bit_vector)
    requires
        (a >> 0u8) & 3 == (b >> 0u8) & 3,
        (a >> 2u8) & 3 == (b >> 2u8) & 3,
        (a >> 4u8) & 3 == (b >> 4u8) & 3,
        (a >> 6u8) & 3 == (b >> 6u8) & 3,
    ensures
        a == b,
{
}

proof fn lemma_slot_small(byte: u8, offset: u8)
    by (bit_vector)
    requires
        offset < 4,
    ensures
        (byte >> (2 * offset) as u8) & 3 < 4,
{
}

proof fn lemma_slot_of_zero(offset: u8)
    by (bit_vector)
    requires
        offset < 4,
    ensures
        (0u8 >> (2 * offset) as u8) & 3 == 0,
{
}

impl View for BoardState {
    type V = Seq<CellState>;

    /// The cells of the board, by their numbers.
    closed spec fn view(&self) -> Seq<CellState> {
        Seq::new(CELLS as nat, |i: int| cell_of(code_at(self.state@, i)))
    }
}

impl BoardState {
    /// Every pair of bits stands for a cell, and the pairs beyond the last cell are
    /// zero: a board is fixed by its cells.
    #[verifier::type_invariant]
    pub closed spec fn inv(self) -> bool {
        &&& forall|i: int| 0 <= i < 364 ==> #[trigger] code_at(self.state@, i) != 3
        &&& forall|i: int| 361 <= i < 364 ==> #[trigger] code_at(self.state@, i) == 0
    }

    /// A board has 361 cells.
    pub broadcast proof fn lemma_view_len(self)
        ensures
            #[trigger] self@.len() == CELLS,
    {
    }

    /// Two boards with the same cells hold the same bits for every cell.
    proof fn lemma_codes_agree(a: BoardState, b: BoardState, i: int)
        requires
            a.inv(),
            b.inv(),
            a@ == b@,
            0 <= i < 364,
        ensures
            code_at(a.state@, i) == code_at(b.state@, i),
    {
        let x = code_at(a.state@, i);
        let y = code_at(b.state@, i);
        lemma_slot_small(a.state@[i / 4], (i % 4) as u8);
        lemma_slot_small(b.state@[i / 4], (i % 4) as u8);
        if i < 361 {
            assert(a@[i] == cell_of(x));
            assert(b@[i] == cell_of(y));
        }
    }

    /// Two boards with the same cells are the same board.
    pub proof fn lemma_view_injective(a: BoardState, b: BoardState)
        requires
            a.inv(),
            b.inv(),
            a@ == b@,
        ensures
            a == b,
    {
        assert forall|c: int| 0 <= c < 91 implies a.state@[c] == b.state@[c] by {
            Self::lemma_codes_agree(a, b, 4 * c);
            Self::lemma_codes_agree(a, b, 4 * c + 1);
            Self::lemma_codes_agree(a, b, 4 * c + 2);
            Self::lemma_codes_agree(a, b, 4 * c + 3);
            assert(slot(a.state@[c], 0u8) == slot(b.state@[c], 0u8));
            assert(slot(a.state@[c], 1u8) == slot(b.state@[c], 1u8));
            assert(slot(a.state@[c], 2u8) == slot(b.state@[c], 2u8));
            assert(slot(a.state@[c], 3u8) == slot(b.state@[c], 3u8));
            lemma_slots_fix_byte(a.state@[c], b.state@[c]);
        }
        assert(a.state =~= b.state);
    }

    /// The empty board.
    pub fn new() -> (board: Self)
        ensures
            board@ == Seq::new(CELLS as nat, |i: int| CellState::Empty),
    {
        let state = [0u8;91];
        proof {
            assert forall|i: int| 0 <= i < 364 implies #[trigger] code_at(state@, i) == 0 by {
                lemma_slot_of_zero((i % 4) as u8);
            }
        }
        let board = Self { state };
        assert(board@ =~= Seq::new(CELLS as nat, |i: int| CellState::Empty));
        board
    }
}

impl BoardState {
    /// What cell `(x, y)` holds.
    pub fn get(&self, coord: (usize, usize)) -> (cell: CellState)
        requires
            coord.0 < N,
            coord.1 < N,
        ensures
            cell == self@[coord.0 * N + coord.1],
    {
        let idx = coord.0 * N + coord.1;
        let chunk = idx / 4;
        let offset: u8 = (idx % 4) as u8;
        let val = (self.state[chunk] >> (2 * offset)) & 3;
        if val == 1 {
            CellState::X
        } else if val == 2 {
            CellState::O
        } else {
            CellState::Empty
        }
    }

    /// Puts `state` into cell `(x, y)`; every other cell stays as it is.
    pub fn set_inplace(&mut self, coord: (usize, usize), state: CellState)
        requires
            coord.0 < N,
            coord.1 < N,
        ensures
            final(self)@ == old(self)@.update(coord.0 * N + coord.1, state),
    {
        proof {
            use_type_invariant(&*self);
        }
        let idx = coord.0 * N + coord.1;
        let chunk = idx / 4;
        let offset: u8 = (idx % 4) as u8;
        let v: u8 = match state {
            CellState::Empty => 0,
            CellState::X => 1,
            CellState::O => 2,
        };
        let before = self.state[chunk];
        let byte = (before & !(3u8 << (2 * offset))) | (v << (2 * offset));
        let ghost bytes = self.state@;
        let ghost cells = self@;
        proof {
            let written = bytes.update(chunk as int, byte);
            assert forall|i: int| 0 <= i < 364 implies #[trigger] code_at(written, i) == if i
                == idx {
                v
            } else {
                code_at(bytes, i)
            } by {
                if i / 4 == chunk {
                    if i == idx {
                        lemma_slot_written(before, offset, v);
                    } else {
                        lemma_slot_kept(before, offset, v, (i % 4) as u8);
                    }
                }
            }
        }
        self.state[chunk] = byte;
        assert(self@ =~= cells.update(idx as int, state));
    }

    /// The board with `state` in cell `(x, y)`.
    pub fn set(self, coord: (usize, usize), state: CellState) -> (board: Self)
        requires
            coord.0 < N,
            coord.1 < N,
        ensures
            board@ == self@.update(coord.0 * N + coord.1, state),
    {
        let mut board = self;
        board.set_inplace(coord, state);
        board
    }

    /// Exchanges the stones of the two players.
    pub fn flip_players_inplace(&mut self)
        ensures
            final(self)@ == Seq::new(CELLS as nat, |i: int| flipped_cell(old(self)@[i])),
    {
        let ghost cells = self@;
        let mut i: usize = 0;
        while i < N
            invariant
                i <= N,
                self@.len() == CELLS,
                cells.len() == CELLS,
                forall|k: int| 0 <= k < i * N ==> #[trigger] self@[k] == flipped_cell(cells[k]),
                forall|k: int| i * N <= k < CELLS ==> #[trigger] self@[k] == cells[k],
            decreases N - i,
        {
            let mut j: usize = 0;
            while j < N
                invariant
                    i < N,
                    j <= N,
                    self@.len() == CELLS,
                    cells.len() == CELLS,
                    forall|k: int|
                        0 <= k < i * N + j ==> #[trigger] self@[k] == flipped_cell(cells[k]),
                    forall|k: int| i * N + j <= k < CELLS ==> #[trigger] self@[k] == cells[k],
                decreases N - j,
            {
                let other = match self.get((i, j)) {
                    CellState::Empty => CellState::Empty,
                    CellState::X => CellState::O,
                    CellState::O => CellState::X,
                };
                self.set_inplace((i, j), other);
                j = j + 1;
            }
            i = i + 1;
        }
        assert(self@ =~= Seq::new(CELLS as nat, |i: int| flipped_cell(cells[i])));
    }

    /// The board with the stones of the two players exchanged.
    pub fn flip_players(self) -> (board: Self)
        ensures
            board@ == Seq::new(CELLS as nat, |i: int| flipped_cell(self@[i])),
    {
        let mut board = self;
        board.flip_players_inplace();
        board
    }
}

/// The four directions in which five cells can lie in a row: up the diagonal, along
/// the row, down the diagonal, and along the column.
pub open spec fn direction(d: int) -> (int, int) {
    if d == 0 {
        (-1, 1)
    } else if d == 1 {
        (0, 1)
    } else if d == 2 {
        (1, 1)
    } else {
        (1, 0)
    }
}

/// Whether `(x, y)` is a cell of the board.
pub open spec fn on_board(x: int, y: int) -> bool {
    0 <= x < N && 0 <= y < N
}

/// The cell `k` steps from `(x, y)` in direction `d`.
pub open spec fn cell_along(cells: Seq<CellState>, d: int, x: int, y: int, k: int) -> CellState {
    cells[(x + direction(d).0 * k) * N + (y + direction(d).1 * k)]
}

/// The player who holds the five cells that start at `(x, y)` and run in direction
/// `d`; `Empty` where the five cells do not lie on the board or are not all held by
/// one player.
pub open spec fn line_owner(cells: Seq<CellState>, d: int, x: int, y: int) -> CellState {
    let first = cell_along(cells, d, x, y, 0);
    if on_board(x, y) && on_board(x + direction(d).0 * 4, y + direction(d).1 * 4) && first
        != CellState::Empty && cell_along(cells, d, x, y, 1) == first && cell_along(
        cells,
        d,
        x,
        y,
        2,
    ) == first && cell_along(cells, d, x, y, 3) == first && cell_along(cells, d, x, y, 4)
        == first {
        first
    } else {
        CellState::Empty
    }
}

/// The owner of line number `k`, where the lines are numbered by direction, then by
/// the row of their first cell, then by its column.
pub open spec fn owner_at(cells: Seq<CellState>, k: int) -> CellState {
    line_owner(cells, k / 361, (k % 361) / 19, k % 19)
}

/// The number of a line gives back its direction and its first cell.
pub proof fn lemma_line_number(d: int, x: int, y: int)
    requires
        0 <= d < 4,
        0 <= x < 19,
        0 <= y < 19,
    ensures
        (d * 361 + x * 19 + y) / 361 == d,
        ((d * 361 + x * 19 + y) % 361) / 19 == x,
        (d * 361 + x * 19 + y) % 19 == y,
{
}

/// The owner of the first line from number `from` on that has one.
pub open spec fn scan(cells: Seq<CellState>, from: int) -> CellState
    decreases 1444 - from,
{
    if from < 0 || from >= 1444 {
        CellState::Empty
    } else if owner_at(cells, from) != CellState::Empty {
        owner_at(cells, from)
    } else {
        scan(cells, from + 1)
    }
}

/// The player who has five in a row, by the first such line; `Empty` where there is
/// none.
pub open spec fn winner(cells: Seq<CellState>) -> CellState {
    scan(cells, 0)
}

/// What the scan finds is the owner of a line that no owned line precedes, and it
/// finds nothing only where no line is owned.
pub proof fn lemma_scan(cells: Seq<CellState>, from: int)
    requires
        0 <= from <= 1444,
    ensures
        scan(cells, from) == CellState::Empty <==> forall|k: int|
            from <= k < 1444 ==> #[trigger] owner_at(cells, k) == CellState::Empty,
        scan(cells, from) != CellState::Empty ==> exists|k: int|
            from <= k < 1444 && #[trigger] owner_at(cells, k) == scan(cells, from) && forall|j: int|
                from <= j < k ==> #[trigger] owner_at(cells, j) == CellState::Empty,
    decreases 1444 - from,
{
    if from < 1444 {
        lemma_scan(cells, from + 1);
        if owner_at(cells, from) != CellState::Empty {
            assert(from <= from < 1444 && owner_at(cells, from) == scan(cells, from) && forall|
                j: int,
            |
                from <= j < from ==> #[trigger] owner_at(cells, j) == CellState::Empty);
        } else if scan(cells, from) != CellState::Empty {
            let k = choose|k: int|
                from + 1 <= k < 1444 && #[trigger] owner_at(cells, k) == scan(cells, from + 1)
                    && forall|j: int|
                    from + 1 <= j < k ==> #[trigger] owner_at(cells, j) == CellState::Empty;
            assert(from <= k < 1444 && owner_at(cells, k) == scan(cells, from) && forall|j: int|
                from <= j < k ==> #[trigger] owner_at(cells, j) == CellState::Empty);
        }
    }
}

/// Nobody has won exactly where no five cells in a row are held by one player, and a
/// winner holds some five cells in a row.
pub proof fn lemma_winner(cells: Seq<CellState>)
    ensures
        winner(cells) == CellState::Empty <==> forall|d: int, x: int, y: int|
            0 <= d < 4 && on_board(x, y) ==> #[trigger] line_owner(cells, d, x, y)
                == CellState::Empty,
        winner(cells) != CellState::Empty ==> exists|d: int, x: int, y: int|
            0 <= d < 4 && on_board(x, y) && #[trigger] line_owner(cells, d, x, y) == winner(
                cells,
            ),
{
    lemma_scan(cells, 0);
    if winner(cells) == CellState::Empty {
        assert forall|d: int, x: int, y: int| 0 <= d < 4 && on_board(x, y) implies #[trigger] line_owner(
            cells,
            d,
            x,
            y,
        ) == CellState::Empty by {
            let k = d * 361 + x * 19 + y;
            lemma_line_number(d, x, y);
            assert(owner_at(cells, k) == CellState::Empty);
        }
    } else {
        let k = choose|k: int|
            0 <= k < 1444 && #[trigger] owner_at(cells, k) == scan(cells, 0) && forall|j: int|
                0 <= j < k ==> #[trigger] owner_at(cells, j) == CellState::Empty;
        let (d, x, y) = (k / 361, (k % 361) / 19, k % 19);
        assert(0 <= d < 4 && on_board(x, y) && line_owner(cells, d, x, y) == winner(cells));
    }
    if forall|d: int, x: int, y: int|
        0 <= d < 4 && on_board(x, y) ==> #[trigger] line_owner(cells, d, x, y)
            == CellState::Empty {
        assert forall|k: int| 0 <= k < 1444 implies #[trigger] owner_at(cells, k)
            == CellState::Empty by {
            let (d, x, y) = (k / 361, (k % 361) / 19, k % 19);
            assert(0 <= d < 4 && on_board(x, y));
            assert(line_owner(cells, d, x, y) == CellState::Empty);
        }
    }
}

impl BoardState {
    /// The owner of the line that starts at `(x, y)` and runs in direction `d`.
    fn line_owner_at(&self, d: usize, x: usize, y: usize) -> (owner: CellState)
        requires
            d < 4,
            x < N,
            y < N,
        ensures
            owner == line_owner(self@, d as int, x as int, y as int),
    {
        let (dx, dy): (i32, i32) = if d == 0 {
            (-1, 1)
        } else if d == 1 {
            (0, 1)
        } else if d == 2 {
            (1, 1)
        } else {
            (1, 0)
        };
        let end_x: i32 = x as i32 + dx * 4;
        let end_y: i32 = y as i32 + dy * 4;
        if end_x < 0 || end_x >= 19 || end_y < 0 || end_y >= 19 {
            return CellState::Empty;
        }
        let goal = self.get((x, y));
        if goal == CellState::Empty {
            return CellState::Empty;
        }
        let mut k: i32 = 1;
        while k < 5
            invariant
                1 <= k <= 5,
                x < N,
                y < N,
                dx == direction(d as int).0,
                dy == direction(d as int).1,
                on_board(x + dx * 4, y + dy * 4),
                goal == self@[x * N + y],
                forall|j: int| 1 <= j < k ==> #[trigger] cell_along(self@, d as int, x as int, y as int, j) == goal,
            decreases 5 - k,
        {
            assert(0 <= x + dx * k < 19 && 0 <= y + dy * k < 19) by (nonlinear_arith)
                requires
                    1 <= k <= 4,
                    -1 <= dx <= 1,
                    0 <= dy <= 1,
                    0 <= x < 19,
                    0 <= y < 19,
                    0 <= x + dx * 4 < 19,
                    0 <= y + dy * 4 < 19,
            ;
            let cx: usize = (x as i32 + dx * k) as usize;
            let cy: usize = (y as i32 + dy * k) as usize;
            if self.get((cx, cy)) != goal {
                assert(cell_along(self@, d as int, x as int, y as int, k as int) != goal);
                return CellState::Empty;
            }
            k = k + 1;
        }
        assert(cell_along(self@, d as int, x as int, y as int, 1) == goal);
        assert(cell_along(self@, d as int, x as int, y as int, 2) == goal);
        assert(cell_along(self@, d as int, x as int, y as int, 3) == goal);
        assert(cell_along(self@, d as int, x as int, y as int, 4) == goal);
        goal
    }

    /// The player who has five in a row, or `Empty` where nobody has. Where both
    /// have, the first line decides: lines are taken by direction, then by row, then
    /// by column of their first cell.
    pub fn is_win(&self) -> (owner: CellState)
        ensures
            owner == winner(self@),
    {
        let mut d: usize = 0;
        while d < 4
            invariant
                d <= 4,
                winner(self@) == scan(self@, d * 361),
            decreases 4 - d,
        {
            let mut x: usize = 0;
            while x < N
                invariant
                    d < 4,
                    x <= N,
                    winner(self@) == scan(self@, d * 361 + x * 19),
                decreases N - x,
            {
                let mut y: usize = 0;
                while y < N
                    invariant
                        d < 4,
                        x < N,
                        y <= N,
                        winner(self@) == scan(self@, d * 361 + x * 19 + y),
                    decreases N - y,
                {
                    proof {
                        lemma_line_number(d as int, x as int, y as int);
                    }
                    let owner = self.line_owner_at(d, x, y);
                    if owner != CellState::Empty {
                        return owner;
                    }
                    y = y + 1;
                }
                x = x + 1;
            }
            d = d + 1;
        }
        CellState::Empty
    }
}

/// A move: the cell `(x, y)` that the side to move takes.
#[derive(Clone, Copy, PartialEq, Eq, Debug, Structural)]
pub struct TicTacToeMove(pub usize, pub usize);

impl MoveParameters for TicTacToeMove {
    /// The players take turns: every move switches the player.
    open spec fn switches_player(&self) -> bool {
        true
    }

    fn is_player_switch(&self) -> (switch: bool) {
        true
    }
}

/// The moves into the empty cells among the first `upto` cells, in the order of the
/// cells.
pub open spec fn empty_cells(cells: Seq<CellState>, upto: int) -> Seq<TicTacToeMove>
    decreases upto,
{
    if upto <= 0 {
        Seq::empty()
    } else {
        let before = empty_cells(cells, upto - 1);
        if cells[upto - 1] == CellState::Empty {
            before.push(TicTacToeMove(((upto - 1) / 19) as usize, ((upto - 1) % 19) as usize))
        } else {
            before
        }
    }
}

/// The cells after the side to move, which plays `X`, took the cell of `m` and the
/// stones of the two players were exchanged: the next position as its side to move
/// sees it.
pub open spec fn moved(cells: Seq<CellState>, m: TicTacToeMove) -> Seq<CellState> {
    Seq::new(
        CELLS as nat,
        |i: int|
            flipped_cell(
                if i == m.0 * N + m.1 {
                    CellState::X
                } else {
                    cells[i]
                },
            ),
    )
}

/// There are no more moves than cells.
pub proof fn lemma_empty_cells_len(cells: Seq<CellState>, upto: int)
    requires
        0 <= upto,
    ensures
        empty_cells(cells, upto).len() <= upto,
    decreases upto,
{
    if upto > 0 {
        lemma_empty_cells_len(cells, upto - 1);
    }
}

/// The legal moves of a board are the moves into its empty cells.
pub proof fn lemma_legal_moves(board: BoardState)
    ensures
        legal_moves(board) == empty_cells(board@, CELLS as int),
{
    lemma_empty_cells_len(board@, CELLS as int);
    assert(legal_moves(board) =~= empty_cells(board@, CELLS as int));
}

/// Every move into an empty cell names a cell of the board, and that cell is empty.
pub proof fn lemma_empty_cells(cells: Seq<CellState>, upto: int, m: TicTacToeMove)
    requires
        0 <= upto <= CELLS,
        empty_cells(cells, upto).contains(m),
    ensures
        m.0 < N,
        m.1 < N,
        m.0 * N + m.1 < upto,
        cells[m.0 * N + m.1] == CellState::Empty,
    decreases upto,
{
    if upto > 0 {
        let before = empty_cells(cells, upto - 1);
        if cells[upto - 1] == CellState::Empty {
            let last = TicTacToeMove(((upto - 1) / 19) as usize, ((upto - 1) % 19) as usize);
            let all = before.push(last);
            let at = choose|i: int| 0 <= i < all.len() && all[i] == m;
            if at < before.len() {
                assert(before[at] == m);
                lemma_empty_cells(cells, upto - 1, m);
            }
        } else {
            lemma_empty_cells(cells, upto - 1, m);
        }
    }
}

impl Game for BoardState {
    type Move = TicTacToeMove;

    /// The side to move sees its own stones as `X`. Five of them in a row are a
    /// win, five of the other side a loss, and a full board without either a draw.
    open spec fn outcome(&self) -> Option<Score> {
        match winner(self@) {
            CellState::X => Some(Score::from_value(65536)),
            CellState::O => Some(Score::from_value(0)),
            CellState::Empty => if empty_cells(self@, CELLS as int).len() == 0 {
                Some(Score::from_value(32768))
            } else {
                None
            },
        }
    }

    /// One move for each empty cell.
    open spec fn move_count(&self) -> usize {
        empty_cells(self@, CELLS as int).len() as usize
    }

    /// The moves go by the order of the cells.
    open spec fn legal_move(&self, index: usize) -> TicTacToeMove {
        empty_cells(self@, CELLS as int)[index as int]
    }

    /// The board on which the cell of `m` is taken and the stones are exchanged.
    open spec fn after(&self, m: TicTacToeMove) -> Self {
        choose|board: BoardState| board.inv() && board@ == moved(self@, m)
    }

    fn get_state(&self) -> (state: TerminationState<TicTacToeMove>) {
        proof {
            lemma_empty_cells_len(self@, CELLS as int);
        }
        match self.is_win() {
            CellState::X => {
                return TerminationState::Terminal(Score::one());
            },
            CellState::O => {
                return TerminationState::Terminal(Score::zero());
            },
            CellState::Empty => {},
        }
        let mut moves: Vec<TicTacToeMove> = Vec::new();
        let mut i: usize = 0;
        while i < N
            invariant
                i <= N,
                moves@ == empty_cells(self@, i * 19),
            decreases N - i,
        {
            let mut j: usize = 0;
            while j < N
                invariant
                    i < N,
                    j <= N,
                    moves@ == empty_cells(self@, i * 19 + j),
                decreases N - j,
            {
                let ghost k = i * 19 + j;
                assert(k / 19 == i && k % 19 == j);
                if self.get((i, j)) == CellState::Empty {
                    moves.push(TicTacToeMove(i, j));
                }
                j = j + 1;
            }
            i = i + 1;
        }
        if moves.len() == 0 {
            TerminationState::Terminal(Score::half())
        } else {
            TerminationState::Moves(moves)
        }
    }

    fn make_move(&self, m: &TicTacToeMove) -> (next: Self) {
        proof {
            lemma_empty_cells_len(self@, CELLS as int);
            let at = choose|i: int|
                0 <= i < self.move_count() && #[trigger] self.legal_move(i as usize) == *m;
            assert(empty_cells(self@, CELLS as int)[at] == *m);
            lemma_empty_cells(self@, CELLS as int, *m);
        }
        let mut new_state = self.clone();
        new_state.set_inplace((m.0, m.1), CellState::X);
        let next = new_state.flip_players();
        proof {
            use_type_invariant(&next);
            assert(next@ =~= moved(self@, *m));
            BoardState::lemma_view_injective(next, self.after(*m));
        }
        next
    }
}

} // verus!
