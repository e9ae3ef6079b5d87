//! The wording of a question, with holes for its fields.

use vstd::prelude::*;

verus! {

/// A piece of a question's wording.
#[derive(Debug)]
pub enum TextSegment {
    Literal(String),
    FieldValue { name: String },
}

/// The wording of a question: literal text interleaved with field values.
#[derive(Debug)]
pub struct QuestionTemplate {
    pub text: Vec<TextSegment>,
}

} // verus!
