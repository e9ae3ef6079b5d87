//! Map geometry shared by the compiler and the tile evaluator.

pub mod tile;
