//! The board: a rectangle of cells held column by column, and the tick that
//! lets every column settle.

use vstd::prelude::*;
use crate::block::Cell;
use crate::column::{
    blocks_of, colors_of, drop_column, is_settled, lemma_settled_fixes_settled,
    lemma_settled_idempotent, lemma_settled_is_bottom_aligned, lemma_settled_keeps_blocks,
    lemma_settled_keeps_len, occupied_count, settled,
};

verus! {

/// Columns that form a rectangle with at least one column and one row.
pub open spec fn is_rectangular(columns: Seq<Seq<Cell>>) -> bool {
    &&& columns.len() > 0
    &&& columns[0].len() > 0
    &&& forall|x: int| 0 <= x < columns.len() ==> (#[trigger] columns[x]).len() == columns[0].len()
}

/// The board after gravity: every column settled by itself.
pub open spec fn compacted(columns: Seq<Seq<Cell>>) -> Seq<Seq<Cell>> {
    Seq::new(columns.len(), |x: int| settled(columns[x]))
}

/// The board after `n` ticks.
pub open spec fn after_ticks(columns: Seq<Seq<Cell>>, n: nat) -> Seq<Seq<Cell>>
    decreases n,
{
    if n == 0 {
        columns
    } else {
        compacted(after_ticks(columns, (n - 1) as nat))
    }
}

/// The views of the columns of a grid, in order.
pub open spec fn columns_view(columns: Seq<Vec<Cell>>) -> Seq<Seq<Cell>> {
    Seq::new(columns.len(), |x: int| columns[x]@)
}

/// A grid of cells. Column `x` runs from row 0 at the top to the bottom row.
pub struct Board {
    columns: Vec<Vec<Cell>>,
}

impl View for Board {
    type V = Seq<Seq<Cell>>;

    closed spec fn view(&self) -> Seq<Seq<Cell>> {
        columns_view(self.columns@)
    }
}

impl Board {
    /// The board is a rectangle of at least one cell.
    pub open spec fn wf(&self) -> bool {
        is_rectangular(self@)
    }

    /// The number of columns.
    pub open spec fn spec_width(&self) -> nat {
        self@.len()
    }

    /// The number of rows.
    pub open spec fn spec_height(&self) -> nat {
        self@[0].len()
    }

    /// Makes a board of the given columns, if they form a rectangle.
    pub fn from_columns(columns: Vec<Vec<Cell>>) -> (board: Option<Board>)
        ensures
            board.is_some() <==> is_rectangular(columns_view(columns@)),
            board matches Some(b) ==> b@ == columns_view(columns@) && b.wf(),
    {
        let width = columns.len();
        if width == 0 {
            return None;
        }
        let height = columns[0].len();
        if height == 0 {
            return None;
        }
        let mut x: usize = 1;
        while x < width
            invariant
                columns@.len() == width,
                1 <= x <= width,
                height == columns@[0]@.len(),
                forall|i: int| 0 <= i < x ==> (#[trigger] columns@[i])@.len() == height,
            decreases width - x,
        {
            if columns[x].len() != height {
                proof {
                    assert(columns_view(columns@)[x as int].len() != columns_view(columns@)[0].len());
                }
                return None;
            }
            x += 1;
        }
        Some(Board { columns })
    }

    /// The number of columns.
    pub fn width(&self) -> (w: usize)
        requires
            self.wf(),
        ensures
            w == self.spec_width(),
            w > 0,
    {
        self.columns.len()
    }

    /// The number of rows.
    pub fn height(&self) -> (h: usize)
        requires
            self.wf(),
        ensures
            h == self.spec_height(),
            h > 0,
    {
        self.columns[0].len()
    }

    /// The cell in column `x`, row `y`.
    pub fn get(&self, x: usize, y: usize) -> (cell: Cell)
        requires
            self.wf(),
            x < self.spec_width(),
            y < self.spec_height(),
        ensures
            cell == self@[x as int][y as int],
    {
        proof {
            assert(self@[x as int] == self.columns@[x as int]@);
        }
        self.columns[x][y]
    }

    /// The columns, each from top to bottom.
    pub fn columns(&self) -> (columns: &Vec<Vec<Cell>>)
        ensures
            columns_view(columns@) == self@,
    {
        &self.columns
    }

    /// Gravity: in every column the blocks fall to the bottom, keeping their
    /// order, and the empty cells gather above them.
    pub fn drop_board(&mut self)
        requires
            old(self).wf(),
        ensures
            final(self)@ == compacted(old(self)@),
            final(self).wf(),
    {
        let ghost before = self@;
        let width = self.columns.len();
        let mut x: usize = 0;
        while x < width
            invariant
                self.columns@.len() == width,
                before.len() == width,
                x <= width,
                forall|i: int| 0 <= i < x ==> (#[trigger] self.columns@[i])@ == settled(before[i]),
                forall|i: int| x <= i < width ==> (#[trigger] self.columns@[i])@ == before[i],
            decreases width - x,
        {
            drop_column(&mut self.columns[x]);
            x += 1;
        }
        proof {
            assert(self@ == compacted(before));
            lemma_compacted_keeps_shape(before);
        }
    }

    /// One step of the simulation: the board settles, whether or not anything
    /// can still move.
    pub fn tick(&mut self)
        requires
            old(self).wf(),
        ensures
            final(self)@ == compacted(old(self)@),
            final(self)@ == after_ticks(old(self)@, 1),
            final(self).wf(),
    {
        self.drop_board();
        proof {
            assert(after_ticks(old(self)@, 0) == old(self)@);
        }
    }
}

/// A tick keeps the number of columns and the number of cells in each, so a
/// rectangle stays the rectangle it was.
pub proof fn lemma_compacted_keeps_shape(columns: Seq<Seq<Cell>>)
    ensures
        compacted(columns).len() == columns.len(),
        forall|x: int|
            0 <= x < columns.len() ==> (#[trigger] compacted(columns)[x]).len() == columns[x].len(),
        is_rectangular(columns) ==> is_rectangular(compacted(columns)),
{
    assert forall|x: int| 0 <= x < columns.len() implies (#[trigger] compacted(columns)[x]).len()
        == columns[x].len() by {
        lemma_settled_keeps_len(columns[x]);
    }
}

/// A tick keeps the number of occupied cells of every column.
pub proof fn lemma_compacted_keeps_occupied_counts(columns: Seq<Seq<Cell>>)
    ensures
        forall|x: int|
            0 <= x < columns.len() ==> occupied_count(#[trigger] compacted(columns)[x])
                == occupied_count(columns[x]),
{
    assert forall|x: int| 0 <= x < columns.len() implies occupied_count(
        #[trigger] compacted(columns)[x],
    ) == occupied_count(columns[x]) by {
        lemma_settled_keeps_blocks(columns[x]);
    }
}

/// A tick keeps, in every column, how often each colour occurs.
pub proof fn lemma_compacted_keeps_color_multisets(columns: Seq<Seq<Cell>>)
    ensures
        forall|x: int|
            0 <= x < columns.len() ==> colors_of(#[trigger] compacted(columns)[x]).to_multiset()
                == colors_of(columns[x]).to_multiset(),
{
    assert forall|x: int| 0 <= x < columns.len() implies colors_of(
        #[trigger] compacted(columns)[x],
    ).to_multiset() == colors_of(columns[x]).to_multiset() by {
        lemma_settled_keeps_blocks(columns[x]);
    }
}

/// A tick keeps, in every column, the blocks and so the colours in the order
/// in which they are met from top to bottom.
pub proof fn lemma_compacted_keeps_order(columns: Seq<Seq<Cell>>)
    ensures
        forall|x: int|
            0 <= x < columns.len() ==> blocks_of(#[trigger] compacted(columns)[x]) == blocks_of(
                columns[x],
            ),
        forall|x: int|
            0 <= x < columns.len() ==> colors_of(#[trigger] compacted(columns)[x]) == colors_of(
                columns[x],
            ),
{
    assert forall|x: int| 0 <= x < columns.len() implies blocks_of(
        #[trigger] compacted(columns)[x],
    ) == blocks_of(columns[x]) by {
        lemma_settled_keeps_blocks(columns[x]);
    }
}

/// After a tick the blocks of every column lie together on the bottom row and
/// its empty cells lie together from row 0 down.
pub proof fn lemma_compacted_is_bottom_aligned(columns: Seq<Seq<Cell>>)
    ensures
        forall|x: int| 0 <= x < columns.len() ==> is_settled(#[trigger] compacted(columns)[x]),
        forall|x: int, y: int|
            0 <= x < columns.len() && 0 <= y < columns[x].len() ==> ((
            #[trigger] compacted(columns)[x][y]).is_none() <==> y < columns[x].len()
                - occupied_count(columns[x])),
{
    assert forall|x: int| 0 <= x < columns.len() implies is_settled(
        #[trigger] compacted(columns)[x],
    ) by {
        lemma_settled_is_bottom_aligned(columns[x]);
    }
    assert forall|x: int, y: int| 0 <= x < columns.len() && 0 <= y < columns[x].len() implies ((
    #[trigger] compacted(columns)[x][y]).is_none() <==> y < columns[x].len() - occupied_count(
        columns[x],
    )) by {
        lemma_settled_is_bottom_aligned(columns[x]);
        assert(compacted(columns)[x][y] == settled(columns[x])[y]);
    }
}

/// A second tick changes nothing.
pub proof fn lemma_compacted_idempotent(columns: Seq<Seq<Cell>>)
    ensures
        compacted(compacted(columns)) == compacted(columns),
{
    assert forall|x: int| 0 <= x < columns.len() implies settled(
        #[trigger] compacted(columns)[x],
    ) == compacted(columns)[x] by {
        lemma_settled_idempotent(columns[x]);
    }
    assert(compacted(compacted(columns)) =~= compacted(columns));
}

/// A board whose columns are all settled is left as it is.
pub proof fn lemma_compacted_fixes_settled(columns: Seq<Seq<Cell>>)
    requires
        forall|x: int| 0 <= x < columns.len() ==> is_settled(#[trigger] columns[x]),
    ensures
        compacted(columns) == columns,
{
    assert forall|x: int| 0 <= x < columns.len() implies #[trigger] compacted(columns)[x]
        == columns[x] by {
        lemma_settled_fixes_settled(columns[x]);
    }
    assert(compacted(columns) =~= columns);
}

/// Columns do not influence each other: a column of the board after a tick is
/// that column settled alone, so replacing one column changes the outcome in
/// that column only, and two boards side by side settle side by side.
pub proof fn lemma_compacted_column_independence(
    columns: Seq<Seq<Cell>>,
    x: int,
    col: Seq<Cell>,
    beside: Seq<Seq<Cell>>,
)
    requires
        0 <= x < columns.len(),
    ensures
        compacted(columns)[x] == settled(columns[x]),
        compacted(columns.update(x, col)) == compacted(columns).update(x, settled(col)),
        compacted(columns + beside) == compacted(columns) + compacted(beside),
{
    assert(compacted(columns.update(x, col)) =~= compacted(columns).update(x, settled(col)));
    assert(compacted(columns + beside) =~= compacted(columns) + compacted(beside));
}

/// However many ticks have passed, the board has the shape it began with, and
/// from the first tick on it is the board that one tick gives.
pub proof fn lemma_after_ticks(columns: Seq<Seq<Cell>>, n: nat)
    ensures
        after_ticks(columns, n).len() == columns.len(),
        forall|x: int|
            0 <= x < columns.len() ==> (#[trigger] after_ticks(columns, n)[x]).len()
                == columns[x].len(),
        n >= 1 ==> after_ticks(columns, n) == compacted(columns),
    decreases n,
{
    if n >= 1 {
        let earlier = after_ticks(columns, (n - 1) as nat);
        lemma_after_ticks(columns, (n - 1) as nat);
        lemma_compacted_keeps_shape(earlier);
        if n >= 2 {
            lemma_compacted_idempotent(columns);
        }
    }
}

} // verus!
