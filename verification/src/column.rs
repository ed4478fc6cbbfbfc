//! One column of the board, read top to bottom, and how it settles.

use vstd::prelude::*;
use crate::block::{Block, BlockColor, Cell};

verus! {

/// The blocks of a column, top to bottom, with the empty cells left out.
pub open spec fn blocks_of(col: Seq<Cell>) -> Seq<Block>
    decreases col.len(),
{
    if col.len() == 0 {
        Seq::empty()
    } else {
        match col.last() {
            Some(block) => blocks_of(col.drop_last()).push(block),
            None => blocks_of(col.drop_last()),
        }
    }
}

/// How many cells of a column hold a block.
pub open spec fn occupied_count(col: Seq<Cell>) -> nat {
    blocks_of(col).len()
}

/// The colours of a column's blocks, top to bottom.
pub open spec fn colors_of(col: Seq<Cell>) -> Seq<BlockColor> {
    blocks_of(col).map_values(|block: Block| block.color)
}

/// A run of `n` empty cells.
pub open spec fn empties(n: nat) -> Seq<Cell> {
    Seq::new(n, |y: int| None::<Block>)
}

/// A run of occupied cells holding `blocks`, in order.
pub open spec fn stacked(blocks: Seq<Block>) -> Seq<Cell> {
    blocks.map_values(|block: Block| Some(block))
}

/// The column after gravity: as many cells as before, the empty ones on top,
/// the blocks below them in their old order.
pub open spec fn settled(col: Seq<Cell>) -> Seq<Cell> {
    empties((col.len() - occupied_count(col)) as nat) + stacked(blocks_of(col))
}

/// No block has an empty cell anywhere beneath it.
pub open spec fn is_settled(col: Seq<Cell>) -> bool {
    forall|upper: int, lower: int|
        0 <= upper <= lower < col.len() && (#[trigger] col[upper]).is_some() ==> (#[trigger] col[lower]).is_some()
}

/// The blocks of two columns set end to end are the blocks of the first
/// followed by those of the second.
pub proof fn lemma_blocks_of_concat(top: Seq<Cell>, bottom: Seq<Cell>)
    ensures
        blocks_of(top + bottom) == blocks_of(top) + blocks_of(bottom),
    decreases bottom.len(),
{
    if bottom.len() == 0 {
        assert(top + bottom == top);
        assert(blocks_of(top) + blocks_of(bottom) == blocks_of(top));
    } else {
        let whole = top + bottom;
        assert(whole.drop_last() == top + bottom.drop_last());
        assert(whole.last() == bottom.last());
        lemma_blocks_of_concat(top, bottom.drop_last());
        match bottom.last() {
            Some(block) => {
                assert((blocks_of(top) + blocks_of(bottom.drop_last())).push(block)
                    == blocks_of(top) + blocks_of(bottom.drop_last()).push(block));
            },
            None => {},
        }
    }
}

/// A column never holds more blocks than it has cells.
pub proof fn lemma_occupied_count_bound(col: Seq<Cell>)
    ensures
        occupied_count(col) <= col.len(),
    decreases col.len(),
{
    if col.len() > 0 {
        lemma_occupied_count_bound(col.drop_last());
    }
}

/// A run of empty cells holds no block.
pub proof fn lemma_blocks_of_empties(n: nat)
    ensures
        blocks_of(empties(n)) == Seq::<Block>::empty(),
    decreases n,
{
    if n > 0 {
        assert(empties(n).drop_last() == empties((n - 1) as nat));
        lemma_blocks_of_empties((n - 1) as nat);
    }
}

/// A run of occupied cells holds exactly the blocks it was stacked from.
pub proof fn lemma_blocks_of_stacked(blocks: Seq<Block>)
    ensures
        blocks_of(stacked(blocks)) == blocks,
    decreases blocks.len(),
{
    if blocks.len() > 0 {
        assert(stacked(blocks).drop_last() == stacked(blocks.drop_last()));
        lemma_blocks_of_stacked(blocks.drop_last());
        assert(blocks.drop_last().push(blocks.last()) == blocks);
    }
}

/// A single cell holds its block, if it has one.
pub proof fn lemma_blocks_of_single(cell: Cell)
    ensures
        blocks_of(seq![cell]) == match cell {
            Some(block) => seq![block],
            None => Seq::<Block>::empty(),
        },
{
    assert(seq![cell].drop_last() == Seq::<Cell>::empty());
    assert(blocks_of(Seq::<Cell>::empty()) == Seq::<Block>::empty());
    match cell {
        Some(block) => assert(Seq::<Block>::empty().push(block) == seq![block]),
        None => {},
    }
}

/// Settling keeps the number of cells.
pub proof fn lemma_settled_keeps_len(col: Seq<Cell>)
    ensures
        settled(col).len() == col.len(),
{
    lemma_occupied_count_bound(col);
}

/// Settling keeps the blocks and their order from top to bottom.
pub proof fn lemma_settled_keeps_blocks(col: Seq<Cell>)
    ensures
        blocks_of(settled(col)) == blocks_of(col),
{
    let gap = (col.len() - occupied_count(col)) as nat;
    lemma_blocks_of_concat(empties(gap), stacked(blocks_of(col)));
    lemma_blocks_of_empties(gap);
    lemma_blocks_of_stacked(blocks_of(col));
    assert(Seq::<Block>::empty() + blocks_of(col) == blocks_of(col));
}

/// Settling keeps the number of occupied cells.
pub proof fn lemma_settled_keeps_occupied_count(col: Seq<Cell>)
    ensures
        occupied_count(settled(col)) == occupied_count(col),
{
    lemma_settled_keeps_blocks(col);
}

/// Settling keeps the sequence of colours read from top to bottom.
pub proof fn lemma_settled_keeps_color_order(col: Seq<Cell>)
    ensures
        colors_of(settled(col)) == colors_of(col),
{
    lemma_settled_keeps_blocks(col);
}

/// Settling keeps how often each colour occurs.
pub proof fn lemma_settled_keeps_color_multiset(col: Seq<Cell>)
    ensures
        colors_of(settled(col)).to_multiset() == colors_of(col).to_multiset(),
{
    lemma_settled_keeps_blocks(col);
}

/// In a settled column the empty cells are exactly the rows above the first
/// block: they start at the top, and the blocks reach the bottom row.
pub proof fn lemma_settled_is_bottom_aligned(col: Seq<Cell>)
    ensures
        is_settled(settled(col)),
        occupied_count(col) <= col.len(),
        forall|y: int|
            0 <= y < col.len() ==> ((#[trigger] settled(col)[y]).is_none() <==> y < col.len()
                - occupied_count(col)),
{
    lemma_occupied_count_bound(col);
}

/// A column with no empty cell beneath a block is left as it is.
pub proof fn lemma_settled_fixes_settled(col: Seq<Cell>)
    requires
        is_settled(col),
    ensures
        settled(col) == col,
    decreases col.len(),
{
    lemma_occupied_count_bound(col);
    if col.len() == 0 {
        assert(settled(col) == col);
    } else {
        let above = col.drop_last();
        let last = (col.len() - 1) as int;
        match col.last() {
            Some(block) => {
                assert forall|upper: int, lower: int|
                    0 <= upper <= lower < above.len() && (#[trigger] above[upper]).is_some() implies (
                #[trigger] above[lower]).is_some() by {
                    assert(col[upper].is_some());
                    assert(col[lower].is_some());
                }
                lemma_settled_fixes_settled(above);
                lemma_occupied_count_bound(above);
                assert(settled(col) == settled(above).push(Some(block)));
                assert(above.push(Some(block)) == col);
            },
            None => {
                assert forall|y: int| 0 <= y < col.len() implies (#[trigger] col[y]).is_none() by {
                    if col[y].is_some() {
                        assert(col[last].is_some());
                    }
                }
                assert(col == empties(col.len()));
                lemma_blocks_of_empties(col.len());
                assert(settled(col) == col);
            },
        }
    }
}

/// Settling twice is settling once.
pub proof fn lemma_settled_idempotent(col: Seq<Cell>)
    ensures
        settled(settled(col)) == settled(col),
{
    lemma_settled_is_bottom_aligned(col);
    lemma_settled_fixes_settled(settled(col));
}

/// A column is left as it is exactly when no block has an empty cell beneath it.
pub proof fn lemma_settled_fixed_points(col: Seq<Cell>)
    ensures
        settled(col) == col <==> is_settled(col),
{
    if is_settled(col) {
        lemma_settled_fixes_settled(col);
    }
    if settled(col) == col {
        lemma_settled_is_bottom_aligned(col);
    }
}

/// Lets the blocks of a column fall: the empty cells gather at the top, the
/// blocks come to rest on the bottom in the order they had.
pub fn drop_column(col: &mut Vec<Cell>)
    ensures
        final(col)@ == settled(old(col)@),
{
    let ghost before = col@;
    let n = col.len();
    let mut write: usize = n;
    let mut read: usize = n;
    proof {
        assert(before.subrange(n as int, n as int) == Seq::<Cell>::empty());
    }
    while read > 0
        invariant
            col@.len() == n,
            before.len() == n,
            read <= write <= n,
            forall|y: int| 0 <= y < read ==> col@[y] == before[y],
            col@.subrange(write as int, n as int) == stacked(
                blocks_of(before.subrange(read as int, n as int)),
            ),
        decreases read,
    {
        let ghost below = before.subrange(read as int, n as int);
        let ghost rested = col@.subrange(write as int, n as int);
        read -= 1;
        let cell = col[read];
        proof {
            assert(before.subrange(read as int, n as int) == seq![cell] + below);
            lemma_blocks_of_concat(seq![cell], below);
            lemma_blocks_of_single(cell);
        }
        if cell.is_some() {
            write -= 1;
            col[write] = cell;
            proof {
                assert(col@.subrange(write as int, n as int) == seq![cell] + rested);
                assert(stacked(seq![cell.unwrap()] + blocks_of(below)) == seq![cell] + stacked(
                    blocks_of(below),
                ));
            }
        } else {
            proof {
                assert(Seq::<Block>::empty() + blocks_of(below) == blocks_of(below));
            }
        }
    }
    proof {
        assert(before.subrange(0, n as int) == before);
    }
    let mut top: usize = 0;
    while top < write
        invariant
            col@.len() == n,
            top <= write <= n,
            forall|y: int| 0 <= y < top ==> col@[y].is_none(),
            col@.subrange(write as int, n as int) == stacked(blocks_of(before)),
        decreases write - top,
    {
        let ghost rested = col@.subrange(write as int, n as int);
        col[top] = None;
        top += 1;
        proof {
            assert(col@.subrange(write as int, n as int) == rested);
        }
    }
    proof {
        assert(col@ == col@.subrange(0, write as int) + col@.subrange(write as int, n as int));
        assert(col@.subrange(0, write as int) == empties(write as nat));
    }
}

} // verus!
