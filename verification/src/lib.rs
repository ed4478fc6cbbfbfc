//! A falling-block board: a grid of optionally coloured cells whose columns
//! settle under gravity, with the proofs of what settling keeps and changes.

pub mod block;
pub mod column;
pub mod board;
pub mod random;
