//! Pictures of games: the boards of a game side by side, each cell a square.

use vstd::prelude::*;
use crate::alpha_zero::mcts::Policy;
use crate::alpha_zero::score::Score;
use crate::tictactoe::board::BoardState;
use crate::tictactoe::board::CellState;
use crate::tictactoe::board::empty_cells;
use crate::tictactoe::board::N;

verus! {

/// The side of the square of one cell, in pixels.
pub const SQUARE: u32 = 10;

/// The side of one board, in pixels.
pub const FIELD: u32 = 190;

/// The width of the white line between two boards, in pixels.
pub const LINE: u32 = 5;

/// The red, green and blue of a pixel.
pub type Color = (u8, u8, u8);

/// A picture of red, green and blue pixels, kept by the `image` crate.
#[verifier::external_body]
pub struct GameImage {
    img: image::ImageBuffer<image::Rgb<u8>, Vec<u8>>,
}

/// The pixels of a picture: row `y` holds at place `x` the colour of the pixel
/// `(x, y)`. All rows are as long as the picture is wide.
pub uninterp spec fn image_rows(img: GameImage) -> Seq<Seq<Color>>;

/// `image::ImageBuffer::new`: a picture of the given width and height whose pixels
/// are all black. The outside function panics where three bytes for each pixel are
/// more than a vector can hold.
#[verifier::external_body]
fn new_image(width: u32, height: u32) -> (img: GameImage)
    requires
        3 * width <= usize::MAX,
        3 * width * height <= usize::MAX,
    ensures
        image_rows(img) == Seq::new(
            height as nat,
            |y: int| Seq::new(width as nat, |x: int| (0u8, 0u8, 0u8)),
        ),
{
    GameImage { img: image::ImageBuffer::new(width, height) }
}

/// `image::ImageBuffer::put_pixel`: the pixel `(x, y)` takes the given colour and
/// every other pixel stays. The outside function panics where `(x, y)` is not a pixel
/// of the picture.
#[verifier::external_body]
fn put_pixel(img: &mut GameImage, x: u32, y: u32, color: Color)
    requires
        y < image_rows(*old(img)).len(),
        x < image_rows(*old(img))[y as int].len(),
    ensures
        image_rows(*final(img)) == image_rows(*old(img)).update(
            y as int,
            image_rows(*old(img))[y as int].update(x as int, color),
        ),
{
    img.img.put_pixel(x, y, image::Rgb([color.0, color.1, color.2]))
}

/// `image::ImageBuffer::width`: the length of the rows.
#[verifier::external_body]
fn image_width(img: &GameImage) -> (width: u32)
    ensures
        forall|y: int| 0 <= y < image_rows(*img).len() ==> (#[trigger] image_rows(*img)[y]).len() == width,
{
    img.img.width()
}

/// `image::ImageBuffer::height`: the number of rows.
#[verifier::external_body]
fn image_height(img: &GameImage) -> (height: u32)
    ensures
        height == image_rows(*img).len(),
{
    img.img.height()
}

/// `image::ImageBuffer::into_raw`: the bytes of the picture, row after row, three
/// bytes for each pixel: red, green, blue.
#[verifier::external_body]
fn image_into_raw(img: GameImage) -> (raw: Vec<u8>)
    ensures
        raw@ == raw_bytes(image_rows(img)),
{
    img.img.into_raw()
}

/// The bytes of a picture, row after row, three bytes for each pixel.
pub open spec fn raw_bytes(rows: Seq<Seq<Color>>) -> Seq<u8> {
    let width = if rows.len() == 0 {
        0
    } else {
        rows[0].len()
    };
    Seq::new(
        3 * width * rows.len(),
        |k: int|
            {
                let pixel = rows[(k / 3) / width as int][(k / 3) % width as int];
                if k % 3 == 0 {
                    pixel.0
                } else if k % 3 == 1 {
                    pixel.1
                } else {
                    pixel.2
                }
            },
    )
}

/// The rows after the rectangle of `width` by `height` pixels with the upper left
/// corner `(left, top)` was filled with one colour.
pub open spec fn painted(
    rows: Seq<Seq<Color>>,
    left: int,
    top: int,
    width: int,
    height: int,
    color: Color,
) -> Seq<Seq<Color>> {
    Seq::new(
        rows.len(),
        |y: int|
            Seq::new(
                rows[y].len(),
                |x: int|
                    if left <= x < left + width && top <= y < top + height {
                        color
                    } else {
                        rows[y][x]
                    },
            ),
    )
}

/// Whether the rows make up a picture of the given width and height.
pub open spec fn has_size(rows: Seq<Seq<Color>>, width: int, height: int) -> bool {
    &&& rows.len() == height
    &&& forall|y: int| 0 <= y < height ==> (#[trigger] rows[y]).len() == width
}

/// Fills a rectangle with one colour.
fn draw_rect(img: &mut GameImage, left: u32, top: u32, width: u32, height: u32, color: Color)
    requires
        left + width <= u32::MAX,
        top + height <= u32::MAX,
        has_size(image_rows(*old(img)), image_rows(*old(img))[0].len() as int, image_rows(*old(img)).len() as int),
        top + height <= image_rows(*old(img)).len(),
        height > 0 ==> left + width <= image_rows(*old(img))[0].len(),
    ensures
        image_rows(*final(img)) == painted(
            image_rows(*old(img)),
            left as int,
            top as int,
            width as int,
            height as int,
            color,
        ),
{
    let ghost before = image_rows(*img);
    let ghost wide = before[0].len() as int;
    let mut i: u32 = left;
    assert(before =~~= painted(before, left as int, top as int, 0, height as int, color));
    while i < left + width
        invariant
            left <= i <= left + width <= u32::MAX,
            top + height <= u32::MAX,
            has_size(before, wide, before.len() as int),
            top + height <= before.len(),
            height > 0 ==> left + width <= wide,
            image_rows(*img) == painted(before, left as int, top as int, i - left, height as int, color),
        decreases left + width - i,
    {
        let ghost column_start = image_rows(*img);
        let mut j: u32 = top;
        assert(column_start =~~= painted(column_start, i as int, top as int, 1, 0, color));
        while j < top + height
            invariant
                left <= i < left + width <= u32::MAX,
                top <= j <= top + height <= u32::MAX,
                has_size(before, wide, before.len() as int),
                top + height <= before.len(),
                height > 0 ==> left + width <= wide,
                column_start == painted(before, left as int, top as int, i - left, height as int, color),
                image_rows(*img) == painted(column_start, i as int, top as int, 1, j - top, color),
            decreases top + height - j,
        {
            let ghost rows = image_rows(*img);
            put_pixel(img, i, j, color);
            assert(image_rows(*img) =~~= painted(
                column_start,
                i as int,
                top as int,
                1,
                j - top + 1,
                color,
            ));
            j = j + 1;
        }
        assert(image_rows(*img) =~~= painted(
            before,
            left as int,
            top as int,
            i - left + 1,
            height as int,
            color,
        ));
        i = i + 1;
    }
}

/// The green of an empty cell whose move has `count` of `total` visits: the share
/// of the move as a part of 255, rounded down; nothing where there are no visits.
pub open spec fn shade(count: nat, total: nat) -> u8 {
    if total == 0 {
        0
    } else if (255 * count) / total >= 255 {
        255
    } else {
        ((255 * count) / total) as u8
    }
}

/// The colour of a cell: red for the side to move, blue for the other side, and for
/// an empty cell the green of its move. The moves of a position are its empty cells in
/// the order of the cells.
pub open spec fn cell_color(cells: Seq<CellState>, visits: Seq<usize>, total: nat, cell: int) -> Color {
    match cells[cell] {
        CellState::X => (255, 0, 0),
        CellState::O => (0, 0, 255),
        CellState::Empty => (0, shade(visits[empty_cells(cells, cell).len() as int] as nat, total), 0),
    }
}

/// The width in pixels of a picture of so many boards with white lines between them.
pub open spec fn picture_width(boards: int) -> int {
    (FIELD + LINE) * boards - LINE
}

/// The colour of the pixel `(x, y)` of the picture of a game: the boards stand side
/// by side from left to right, cell `(i, j)` of a board is the square `i` from the
/// left and `j` from the top, and the lines between the boards are white.
pub open spec fn picture_pixel(history: Seq<(BoardState, Policy, Score)>, x: int, y: int) -> Color {
    let board = x / 195;
    let across = x % 195;
    if across >= 190 {
        (255, 255, 255)
    } else {
        cell_color(
            history[board].0@,
            history[board].1.visits@,
            history[board].1.total as nat,
            (across / 10) * 19 + y / 10,
        )
    }
}

/// The picture of a game.
pub open spec fn picture(history: Seq<(BoardState, Policy, Score)>) -> Seq<Seq<Color>> {
    Seq::new(
        FIELD as nat,
        |y: int|
            Seq::new(
                picture_width(history.len() as int) as nat,
                |x: int| picture_pixel(history, x, y),
            ),
    )
}

/// Whether a game can be drawn: it has a position, the picture is not too large for
/// the machine, and every position has a count for each of its empty cells.
pub open spec fn drawable(history: Seq<(BoardState, Policy, Score)>) -> bool {
    &&& history.len() >= 1
    &&& picture_width(history.len() as int) <= u32::MAX
    &&& 3 * FIELD * picture_width(history.len() as int) <= usize::MAX
    &&& forall|b: int|
        0 <= b < history.len() ==> empty_cells((#[trigger] history[b]).0@, 361).len()
            <= history[b].1.visits@.len()
}

/// The picture while it is drawn: the cells before cell `cell` of board `board` and
/// all boards before that board are drawn, everything else is white.
pub open spec fn partial_picture(
    history: Seq<(BoardState, Policy, Score)>,
    board: int,
    cell: int,
) -> Seq<Seq<Color>> {
    Seq::new(
        FIELD as nat,
        |y: int|
            Seq::new(
                picture_width(history.len() as int) as nat,
                |x: int|
                    if x / 195 < board || (x / 195 == board && x % 195 < 190 && ((x % 195) / 10)
                        * 19 + y / 10 < cell) {
                        picture_pixel(history, x, y)
                    } else {
                        (255u8, 255u8, 255u8)
                    },
            ),
    )
}

/// The pixels of the square of cell `(i, j)` of board `board` are those that belong
/// to that board and that cell.
proof fn lemma_square(board: int, i: int, j: int, x: int, y: int)
    requires
        0 <= board,
        0 <= i < 19,
        0 <= j < 19,
        0 <= x,
        0 <= y < 190,
    ensures
        (board * 195 + i * 10 <= x < board * 195 + i * 10 + 10 && j * 10 <= y < j * 10 + 10) <==> (
        x / 195 == board && x % 195 < 190 && ((x % 195) / 10) * 19 + y / 10 == i * 19 + j),
        x % 195 < 190 ==> 0 <= ((x % 195) / 10) < 19,
        0 <= y / 10 < 19,
{
}

/// There are no fewer empty cells among more cells.
proof fn lemma_empty_cells_monotone(cells: Seq<CellState>, fewer: int, more: int)
    requires
        0 <= fewer <= more,
    ensures
        empty_cells(cells, fewer).len() <= empty_cells(cells, more).len(),
    decreases more - fewer,
{
    if fewer < more {
        lemma_empty_cells_monotone(cells, fewer, more - 1);
    }
}

/// Computes the green of an empty cell.
fn shade_of(count: usize, total: usize) -> (green: u8)
    ensures
        green == shade(count as nat, total as nat),
{
    if total == 0 {
        0
    } else {
        let share: u128 = (255 * count as u128) / total as u128;
        if share >= 255 {
            255
        } else {
            share as u8
        }
    }
}

/// Draws the positions of a game side by side, from left to right. Each cell is a
/// square of ten pixels: red for a stone of the side to move, blue for a stone of
/// the other side, and for an empty cell the darker a green the fewer visits its move
/// has. White lines of five pixels part the boards.
pub fn generate_game_image(history: &Vec<(BoardState, Policy, Score)>) -> (img: GameImage)
    requires
        drawable(history@),
    ensures
        image_rows(img) == picture(history@),
{
    let n = history.len();
    let width: u32 = (195 * n - 5) as u32;
    assert(3 * width <= usize::MAX && 3 * width * FIELD <= usize::MAX) by (nonlinear_arith)
        requires
            3 * FIELD * width <= usize::MAX,
            FIELD == 190,
            width >= 0,
    ;
    let mut img = new_image(width, FIELD);
    draw_rect(&mut img, 0, 0, width, FIELD, (255, 255, 255));
    assert(image_rows(img) =~~= partial_picture(history@, 0, 0));
    let mut b: usize = 0;
    while b < n
        invariant
            b <= n,
            n == history@.len(),
            width == picture_width(n as int),
            drawable(history@),
            image_rows(img) == partial_picture(history@, b as int, 0),
        decreases n - b,
    {
        let state = &history[b].0;
        let policy = &history[b].1;
        let left: u32 = (b * 195) as u32;
        let mut next: usize = 0;
        let mut i: usize = 0;
        while i < N
            invariant
                b < n,
                i <= N,
                n == history@.len(),
                width == picture_width(n as int),
                drawable(history@),
                left == b * 195,
                *state == history@[b as int].0,
                *policy == history@[b as int].1,
                next == empty_cells(state@, i * 19).len(),
                image_rows(img) == partial_picture(history@, b as int, i * 19),
            decreases N - i,
        {
            let mut j: usize = 0;
            while j < N
                invariant
                    b < n,
                    i < N,
                    j <= N,
                    n == history@.len(),
                    width == picture_width(n as int),
                    drawable(history@),
                    left == b * 195,
                    *state == history@[b as int].0,
                    *policy == history@[b as int].1,
                    next == empty_cells(state@, i * 19 + j).len(),
                    image_rows(img) == partial_picture(history@, b as int, i * 19 + j),
                decreases N - j,
            {
                let ghost cell = i * 19 + j;
                proof {
                    lemma_empty_cells_monotone(state@, cell + 1, 361);
                }
                let color: Color = match state.get((i, j)) {
                    CellState::X => (255, 0, 0),
                    CellState::O => (0, 0, 255),
                    CellState::Empty => {
                        let count = policy.visits[next];
                        assert(next < policy.visits.len());
                        next = next + 1;
                        (0, shade_of(count, policy.total), 0)
                    },
                };
                assert(color == cell_color(state@, policy.visits@, policy.total as nat, cell));
                let ghost before = image_rows(img);
                draw_rect(
                    &mut img,
                    left + (i as u32) * SQUARE,
                    (j as u32) * SQUARE,
                    SQUARE,
                    SQUARE,
                    color,
                );
                proof {
                    let after = partial_picture(history@, b as int, cell + 1);
                    assert forall|y: int, x: int|
                        0 <= y < 190 && 0 <= x < width implies #[trigger] image_rows(img)[y][x]
                        == after[y][x] by {
                        lemma_square(b as int, i as int, j as int, x, y);
                    }
                    assert(image_rows(img) =~~= after);
                }
                j = j + 1;
            }
            i = i + 1;
        }
        proof {
            let done = partial_picture(history@, b as int, 361);
            let fresh = partial_picture(history@, b + 1, 0);
            assert forall|y: int, x: int| 0 <= y < 190 && 0 <= x < width implies #[trigger] done[y][x]
                == fresh[y][x] by {
                lemma_square(b as int, 0, 0, x, y);
            }
            assert(done =~~= fresh);
        }
        b = b + 1;
    }
    assert(image_rows(img) =~~= picture(history@));
    img
}

impl GameImage {
    /// The width and the height of the picture in pixels, and its bytes: row after
    /// row, three bytes for each pixel, which are its red, its green and its blue.
    pub fn into_raw(self) -> (parts: (u32, u32, Vec<u8>))
        ensures
            parts.1 == image_rows(self).len(),
            forall|y: int|
                0 <= y < image_rows(self).len() ==> (#[trigger] image_rows(self)[y]).len()
                    == parts.0,
            parts.2@ == raw_bytes(image_rows(self)),
    {
        let width = image_width(&self);
        let height = image_height(&self);
        (width, height, image_into_raw(self))
    }
}

} // verus!
