//! The shader side of compilation: packed arguments, the composed shader
//! source, and the IR routine emitter.

pub mod argument;
pub mod composer;
pub mod emitter;
pub mod ir;
pub mod order;
pub mod routine;
