//! Signed distance field shapes: primitive types, the point BVH, the
//! instruction stream and its compiler.

pub mod types;
pub mod words;
pub mod builtin;
pub mod bvh;
pub mod instruction;
pub mod compiled;
pub mod compiler;
pub mod semantics;
pub mod sorting;
