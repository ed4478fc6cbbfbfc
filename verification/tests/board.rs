use block_game::block::{Block, BlockColor, Cell};
use block_game::board::Board;
use block_game::column::drop_column;

const E: Cell = None;
const R: Cell = Some(Block { color: BlockColor::Red });
const G: Cell = Some(Block { color: BlockColor::Green });
const B: Cell = Some(Block { color: BlockColor::Blue });

fn sample() -> Vec<Vec<Cell>> {
    vec![
        vec![E, R, E, B],
        vec![E, E, G, R],
        vec![E, E, E, E],
        vec![R, G, B, R],
        vec![B, E, E, E],
    ]
}

fn sample_settled() -> Vec<Vec<Cell>> {
    vec![
        vec![E, E, R, B],
        vec![E, E, G, R],
        vec![E, E, E, E],
        vec![R, G, B, R],
        vec![E, E, E, B],
    ]
}

fn board_of(columns: Vec<Vec<Cell>>) -> Board {
    match Board::from_columns(columns) {
        Some(board) => board,
        None => panic!("the columns form no rectangle"),
    }
}

#[test]
fn rectangle_makes_a_board() {
    let board = board_of(sample());
    assert_eq!(board.width(), 5);
    assert_eq!(board.height(), 4);
    assert_eq!(board.columns(), &sample());
}

#[test]
fn single_cell_makes_a_board() {
    let board = board_of(vec![vec![G]]);
    assert_eq!(board.width(), 1);
    assert_eq!(board.height(), 1);
    assert_eq!(board.get(0, 0), G);
}

#[test]
fn no_columns_make_no_board() {
    assert!(Board::from_columns(Vec::new()).is_none());
}

#[test]
fn columns_without_rows_make_no_board() {
    assert!(Board::from_columns(vec![Vec::new(), Vec::new()]).is_none());
}

#[test]
fn ragged_columns_make_no_board() {
    assert!(Board::from_columns(vec![vec![E, R], vec![E]]).is_none());
    assert!(Board::from_columns(vec![vec![E], vec![E, R]]).is_none());
    assert!(Board::from_columns(vec![vec![E, R], vec![E, R], vec![E, R, G]]).is_none());
    assert!(Board::from_columns(vec![vec![E, R], Vec::new()]).is_none());
}

#[test]
fn get_reads_column_then_row() {
    let board = board_of(sample());
    assert_eq!(board.get(0, 0), E);
    assert_eq!(board.get(0, 1), R);
    assert_eq!(board.get(0, 3), B);
    assert_eq!(board.get(1, 2), G);
    assert_eq!(board.get(3, 0), R);
    assert_eq!(board.get(4, 0), B);
    assert_eq!(board.get(4, 3), E);
}

#[test]
fn drop_board_settles_every_column() {
    let mut board = board_of(sample());
    board.drop_board();
    assert_eq!(board.columns(), &sample_settled());
}

#[test]
fn drop_board_keeps_the_shape() {
    let mut board = board_of(sample());
    board.drop_board();
    assert_eq!(board.width(), 5);
    assert_eq!(board.height(), 4);
    for col in board.columns() {
        assert_eq!(col.len(), 4);
    }
}

#[test]
fn drop_board_twice_is_drop_board_once() {
    let mut board = board_of(sample());
    board.drop_board();
    let once = board.columns().clone();
    board.drop_board();
    assert_eq!(board.columns(), &once);
}

#[test]
fn settled_board_is_unchanged() {
    let mut board = board_of(sample_settled());
    board.drop_board();
    assert_eq!(board.columns(), &sample_settled());
}

#[test]
fn columns_settle_independently() {
    let mut separately = sample();
    for col in separately.iter_mut() {
        drop_column(col);
    }
    let mut board = board_of(sample());
    board.drop_board();
    assert_eq!(board.columns(), &separately);
}

#[test]
fn changing_one_column_changes_one_column() {
    let mut changed = sample();
    changed[2] = vec![G, E, B, E];
    let mut board = board_of(changed);
    board.drop_board();
    let mut expected = sample_settled();
    expected[2] = vec![E, E, G, B];
    assert_eq!(board.columns(), &expected);
}

#[test]
fn tick_settles_the_board() {
    let mut board = board_of(sample());
    board.tick();
    assert_eq!(board.columns(), &sample_settled());
}

#[test]
fn further_ticks_change_nothing() {
    let mut board = board_of(sample());
    board.tick();
    for _ in 0..5 {
        board.tick();
        assert_eq!(board.columns(), &sample_settled());
        assert_eq!(board.width(), 5);
        assert_eq!(board.height(), 4);
    }
}

#[test]
fn tick_lands_a_block_above_two_gaps() {
    let mut board = board_of(vec![vec![R, E, E, B]]);
    board.tick();
    assert_eq!(board.columns(), &vec![vec![E, E, R, B]]);
}
