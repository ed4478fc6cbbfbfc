//! Blocks and the cells that hold them.

use vstd::prelude::*;

verus! {

/// The colours a block can have.
#[derive(Clone, Copy, Debug, PartialEq, Eq, Structural)]
pub enum BlockColor {
    Blue,
    Green,
    Red,
}

/// An occupant of a cell. Its colour never changes.
#[derive(Clone, Copy, Debug, PartialEq, Eq, Structural)]
pub struct Block {
    pub color: BlockColor,
}

impl Block {
    /// The block of the given colour.
    pub fn new(color: BlockColor) -> (block: Block)
        ensures
            block.color == color,
    {
        Block { color }
    }
}

/// A grid position: empty, or holding one block.
pub type Cell = Option<Block>;

/// The three colours, in the order in which they are offered to a random choice.
pub open spec fn palette() -> Seq<BlockColor> {
    seq![BlockColor::Blue, BlockColor::Green, BlockColor::Red]
}

/// Every colour is in the palette.
pub proof fn lemma_palette_complete(color: BlockColor)
    ensures
        palette().contains(color),
{
    match color {
        BlockColor::Blue => assert(palette()[0] == color),
        BlockColor::Green => assert(palette()[1] == color),
        BlockColor::Red => assert(palette()[2] == color),
    }
}

} // verus!
