//! Lowering of instruction streams to what the GPU consumes.

pub mod shader;
