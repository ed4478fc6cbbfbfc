//! Filling a board at random.
//!
//! A probability is a fixed-point number: `p` stands for `p / PROBABILITY_SCALE`,
//! so `0` is never and `PROBABILITY_SCALE` is always.

use rand::Rng;
use vstd::prelude::*;
use crate::block::{lemma_palette_complete, palette, Block, BlockColor, Cell};
use crate::board::{columns_view, Board};

verus! {

/// The denominator of a probability: a probability has 23 binary places.
pub const PROBABILITY_SCALE: u32 = 8_388_608;

/// The probability one half.
pub const EVEN_ODDS: u32 = 4_194_304;

/// The number of columns of the standard board.
pub const BOARD_WIDTH: usize = 8;

/// The number of rows of the standard board.
pub const BOARD_HEIGHT: usize = 10;

/// Calls `rand::Rng::gen_range` on `rand::thread_rng()`. The generator samples
/// the half-open range: the draw is at least `low` and below `high`. The call
/// panics where `low >= high`, which `requires` rules out. Which number of the
/// range comes is left open. The generator itself panics when the system has
/// no entropy to seed it with.
#[verifier::external_body]
fn draw_in_range(low: u32, high: u32) -> (draw: u32)
    requires
        low < high,
    ensures
        low <= draw < high,
{
    rand::thread_rng().gen_range(low, high)
}

/// Calls `rand::Rng::choose` on `rand::thread_rng()`. It returns nothing for
/// an empty slice and otherwise one of the slice's elements; which one is
/// left open.
#[verifier::external_body]
fn choose_color(colors: &[BlockColor]) -> (choice: Option<BlockColor>)
    ensures
        choice.is_some() <==> colors@.len() > 0,
        choice matches Some(color) ==> colors@.contains(color),
{
    rand::thread_rng().choose(colors).copied()
}

/// Whether a cell is occupied, given the number drawn for it out of
/// `0..PROBABILITY_SCALE`: it is where the draw reaches the chance of staying
/// empty.
pub fn fills(draw: u32, empty_chance: u32) -> (occupied: bool)
    ensures
        occupied == (empty_chance <= draw),
{
    empty_chance <= draw
}

/// A block of a colour chosen at random from the palette.
pub fn random_block() -> (block: Block)
    ensures
        palette().contains(block.color),
{
    let colors = [BlockColor::Blue, BlockColor::Green, BlockColor::Red];
    proof {
        assert(colors@ == palette());
    }
    let choice = choose_color(colors.as_slice());
    let color = choice.unwrap();
    proof {
        lemma_palette_complete(color);
    }
    Block::new(color)
}

/// One cell filled at random: empty with probability `empty_chance`, else
/// holding a block of a random colour.
pub fn random_cell(empty_chance: u32) -> (cell: Cell)
    requires
        empty_chance <= PROBABILITY_SCALE,
    ensures
        empty_chance == 0 ==> cell.is_some(),
        empty_chance == PROBABILITY_SCALE ==> cell.is_none(),
{
    let draw = draw_in_range(0, PROBABILITY_SCALE);
    if fills(draw, empty_chance) {
        Some(random_block())
    } else {
        None
    }
}

/// A board of `width` columns and `height` rows whose cells are filled
/// independently: each is empty with probability `empty_chance` and holds a
/// block of a random colour otherwise.
pub fn random_initialize(width: usize, height: usize, empty_chance: u32) -> (board: Board)
    requires
        width > 0,
        height > 0,
        empty_chance <= PROBABILITY_SCALE,
    ensures
        board.wf(),
        board.spec_width() == width,
        board.spec_height() == height,
        forall|x: int| 0 <= x < width ==> (#[trigger] board@[x]).len() == height,
        empty_chance == 0 ==> forall|x: int, y: int|
            0 <= x < width && 0 <= y < height ==> (#[trigger] board@[x][y]).is_some(),
        empty_chance == PROBABILITY_SCALE ==> forall|x: int, y: int|
            0 <= x < width && 0 <= y < height ==> (#[trigger] board@[x][y]).is_none(),
{
    let mut columns: Vec<Vec<Cell>> = Vec::new();
    let mut x: usize = 0;
    while x < width
        invariant
            x <= width,
            height > 0,
            empty_chance <= PROBABILITY_SCALE,
            columns@.len() == x,
            forall|i: int| 0 <= i < x ==> (#[trigger] columns@[i])@.len() == height,
            empty_chance == 0 ==> forall|i: int, j: int|
                0 <= i < x && 0 <= j < height ==> (#[trigger] columns@[i]@[j]).is_some(),
            empty_chance == PROBABILITY_SCALE ==> forall|i: int, j: int|
                0 <= i < x && 0 <= j < height ==> (#[trigger] columns@[i]@[j]).is_none(),
        decreases width - x,
    {
        let mut col: Vec<Cell> = Vec::new();
        let mut y: usize = 0;
        while y < height
            invariant
                y <= height,
                empty_chance <= PROBABILITY_SCALE,
                col@.len() == y,
                empty_chance == 0 ==> forall|j: int| 0 <= j < y ==> (#[trigger] col@[j]).is_some(),
                empty_chance == PROBABILITY_SCALE ==> forall|j: int|
                    0 <= j < y ==> (#[trigger] col@[j]).is_none(),
            decreases height - y,
        {
            col.push(random_cell(empty_chance));
            y += 1;
        }
        columns.push(col);
        x += 1;
    }
    let ghost grid = columns_view(columns@);
    proof {
        assert(grid[0].len() == height);
        assert forall|i: int| 0 <= i < grid.len() implies (#[trigger] grid[i]).len()
            == grid[0].len() by {
            assert(columns@[i]@.len() == height);
        }
    }
    Board::from_columns(columns).unwrap()
}

/// The standard board, filled at even odds.
pub fn random_board() -> (board: Board)
    ensures
        board.wf(),
        board.spec_width() == BOARD_WIDTH,
        board.spec_height() == BOARD_HEIGHT,
{
    random_initialize(BOARD_WIDTH, BOARD_HEIGHT, EVEN_ODDS)
}

} // verus!
