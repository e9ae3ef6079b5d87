//! "Are you within this distance of me?"

use vstd::prelude::*;

use crate::hide_and_seek::question::context::QuestionContext;
use crate::hide_and_seek::question::{AnyQuestion, Question, ShapeError, ShapeErrorClass};
use crate::shape::builtin::circle::{circle_operations, Circle};
use crate::shape::compiler::{SdfCompiler, Shape};
use crate::shape::instruction::{lemma_appends_then, Operation, Register};
use crate::shape::types::{Centimeters, Position};

verus! {

/// Whether the hider is within `radius` of `center`.
#[derive(Clone, Copy, Debug, PartialEq, Eq, Structural)]
pub struct RadarQuestion {
    pub center: Position,
    pub radius: Centimeters,
}

#[derive(Clone, Copy, Debug, PartialEq, Eq, Structural)]
pub enum RadarQuestionAnswer {
    Hit,
    Miss,
}

/// An answered radar question: the disc for a hit, its complement for a
/// miss.
#[derive(Debug)]
pub struct RadarQuestionShape<'a> {
    pub question: RadarQuestion,
    pub answer: RadarQuestionAnswer,
    pub context: &'a QuestionContext,
}

/// The message of the error for a negative radius.
pub open spec fn negative_radius_message() -> Seq<char> {
    "The radius must not be negative."@
}

/// The operations of an answered radar question on a stream of `base`
/// instructions.
pub open spec fn radar_operations(
    question: RadarQuestion,
    answer: RadarQuestionAnswer,
    base: nat,
) -> Seq<Operation> {
    let circle = circle_operations(question.center, question.radius, base);
    match answer {
        RadarQuestionAnswer::Hit => circle,
        RadarQuestionAnswer::Miss => circle + seq![
            Operation::Invert { input: Register((base + 1) as u32) },
        ],
    }
}

impl<'a> Shape for RadarQuestionShape<'a> {
    open spec fn buildable(&self) -> bool {
        self.question.radius@ >= 0
    }

    open spec fn operations(&self, base: nat) -> Seq<Operation> {
        radar_operations(self.question, self.answer, base)
    }

    fn build_into(&self, compiler: &mut SdfCompiler) -> (result: Register) {
        let ghost start = compiler@;
        let circle = Circle::new(self.question.center, self.question.radius);
        let result = compiler.with(&circle);
        match self.answer {
            RadarQuestionAnswer::Hit => result,
            RadarQuestionAnswer::Miss => {
                let ghost middle = compiler@;
                let inverted = compiler.invert(result);
                proof {
                    lemma_appends_then(
                        start,
                        middle,
                        compiler@,
                        circle_operations(self.question.center, self.question.radius, start.len()),
                        seq![Operation::Invert { input: result }],
                    );
                }
                inverted
            },
        }
    }
}

impl<'a> Question<'a> for RadarQuestion {
    type Answer = RadarQuestionAnswer;

    type Built = RadarQuestionShape<'a>;

    fn to_any(self) -> (any: AnyQuestion)
        ensures
            any == AnyQuestion::Radar(self),
    {
        AnyQuestion::Radar(self)
    }

    /// The shape of the answered question; fails with `InvalidParameters`
    /// exactly when the radius is negative.
    fn to_shape(self, answer: RadarQuestionAnswer, context: &'a QuestionContext) -> (result: Result<
        RadarQuestionShape<'a>,
        ShapeError,
    >)
        ensures
            match result {
                Ok(shape) => {
                    &&& self.radius@ >= 0
                    &&& shape.question == self
                    &&& shape.answer == answer
                    &&& shape.context == context
                },
                Err(error) => {
                    &&& self.radius@ < 0
                    &&& error.is(
                        ShapeErrorClass::InvalidParameters,
                        negative_radius_message(),
                        None,
                    )
                },
            },
    {
        if self.radius.0 < 0 {
            return Err(ShapeError::invalid_parameters("The radius must not be negative."));
        }
        Ok(RadarQuestionShape { question: self, answer, context })
    }
}

} // verus!
