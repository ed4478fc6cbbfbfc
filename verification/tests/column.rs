use block_game::block::{Block, BlockColor, Cell};
use block_game::column::drop_column;

const E: Cell = None;
const R: Cell = Some(Block { color: BlockColor::Red });
const G: Cell = Some(Block { color: BlockColor::Green });
const B: Cell = Some(Block { color: BlockColor::Blue });

fn dropped(cells: &[Cell]) -> Vec<Cell> {
    let mut col = cells.to_vec();
    drop_column(&mut col);
    col
}

fn colors(col: &[Cell]) -> Vec<BlockColor> {
    col.iter().flatten().map(|block| block.color).collect()
}

fn count_of(col: &[Cell], color: BlockColor) -> usize {
    colors(col).into_iter().filter(|c| *c == color).count()
}

/// Every column of the given height over {empty, red, green, blue}.
fn all_columns(height: usize) -> Vec<Vec<Cell>> {
    let mut out: Vec<Vec<Cell>> = vec![Vec::new()];
    for _ in 0..height {
        let mut next = Vec::new();
        for col in &out {
            for cell in [E, R, G, B] {
                let mut longer = col.clone();
                longer.push(cell);
                next.push(longer);
            }
        }
        out = next;
    }
    out
}

#[test]
fn gap_between_blocks_closes() {
    assert_eq!(dropped(&[E, R, E, B]), vec![E, E, R, B]);
}

#[test]
fn settled_column_is_unchanged() {
    assert_eq!(dropped(&[E, E, G, R]), vec![E, E, G, R]);
}

#[test]
fn empty_column_stays_empty() {
    assert_eq!(dropped(&[E, E, E, E]), vec![E, E, E, E]);
}

#[test]
fn full_column_stays_full() {
    assert_eq!(dropped(&[R, G, B, R]), vec![R, G, B, R]);
}

#[test]
fn column_without_cells_stays_so() {
    assert_eq!(dropped(&[]), Vec::<Cell>::new());
}

#[test]
fn single_cells_stay() {
    assert_eq!(dropped(&[E]), vec![E]);
    assert_eq!(dropped(&[G]), vec![G]);
}

#[test]
fn block_falls_through_several_gaps_at_once() {
    assert_eq!(dropped(&[R, E, E, B]), vec![E, E, R, B]);
    assert_eq!(dropped(&[R, E, E, E]), vec![E, E, E, R]);
    assert_eq!(dropped(&[G, E, R, E, E, B, E]), vec![E, E, E, E, G, R, B]);
}

#[test]
fn top_block_reaches_the_bottom_of_a_tall_column() {
    let mut cells = vec![E; 10];
    cells[0] = B;
    cells[4] = R;
    let mut expected = vec![E; 10];
    expected[8] = B;
    expected[9] = R;
    assert_eq!(dropped(&cells), expected);
}

#[test]
fn length_is_kept() {
    for col in all_columns(5) {
        assert_eq!(dropped(&col).len(), col.len());
    }
}

#[test]
fn occupied_count_is_kept() {
    for col in all_columns(5) {
        let after = dropped(&col);
        assert_eq!(
            after.iter().filter(|c| c.is_some()).count(),
            col.iter().filter(|c| c.is_some()).count()
        );
    }
}

#[test]
fn color_counts_are_kept() {
    for col in all_columns(5) {
        let after = dropped(&col);
        for color in [BlockColor::Blue, BlockColor::Green, BlockColor::Red] {
            assert_eq!(count_of(&after, color), count_of(&col, color));
        }
    }
}

#[test]
fn color_order_is_kept() {
    for col in all_columns(5) {
        assert_eq!(colors(&dropped(&col)), colors(&col));
    }
    assert_eq!(
        colors(&dropped(&[B, E, G, E, R])),
        vec![BlockColor::Blue, BlockColor::Green, BlockColor::Red]
    );
}

#[test]
fn blocks_rest_on_the_bottom() {
    for col in all_columns(5) {
        let after = dropped(&col);
        let occupied = col.iter().filter(|c| c.is_some()).count();
        let gap = col.len() - occupied;
        for (y, cell) in after.iter().enumerate() {
            assert_eq!(cell.is_none(), y < gap);
        }
    }
}

#[test]
fn dropping_twice_is_dropping_once() {
    for col in all_columns(5) {
        let once = dropped(&col);
        assert_eq!(dropped(&once), once);
    }
}

#[test]
fn result_is_gap_then_blocks() {
    for col in all_columns(4) {
        let blocks: Vec<Cell> = col.iter().copied().filter(|c| c.is_some()).collect();
        let mut expected = vec![E; col.len() - blocks.len()];
        expected.extend(blocks);
        assert_eq!(dropped(&col), expected);
    }
}
