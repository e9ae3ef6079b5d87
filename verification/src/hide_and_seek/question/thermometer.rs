//! "I have just travelled this leg. Am I hotter or colder?"

use vstd::prelude::*;

use crate::hide_and_seek::question::context::QuestionContext;
use crate::hide_and_seek::question::{AnyQuestion, Question, ShapeError, ShapeErrorClass};
use crate::shape::compiler::{SdfCompiler, Shape};
use crate::shape::instruction::{
    lemma_appends_then, BoundaryOverlapResolution, Operation, Register,
};
use crate::shape::types::Position;

verus! {

/// Whether the seeker came closer to the hider by travelling from `start`
/// to `end`.
#[derive(Clone, Copy, Debug, PartialEq, Eq, Structural)]
pub struct ThermometerQuestion {
    pub start: Position,
    pub end: Position,
}

#[derive(Clone, Copy, Debug, PartialEq, Eq, Structural)]
pub enum ThermometerQuestionAnswer {
    /// The hider is nearer to the end of the leg.
    Hotter,
    /// The hider is nearer to its start.
    Colder,
}

/// An answered thermometer question.
#[derive(Debug)]
pub struct ThermometerQuestionShape<'a> {
    pub question: ThermometerQuestion,
    pub answer: ThermometerQuestionAnswer,
    pub context: &'a QuestionContext,
}

/// The message of the error for a leg of no length.
pub open spec fn empty_leg_message() -> Seq<char> {
    "The start and the end of the leg must differ."@
}

/// The end of the leg the hider is nearer to.
pub open spec fn nearer_end(question: ThermometerQuestion, answer: ThermometerQuestionAnswer) -> Position {
    match answer {
        ThermometerQuestionAnswer::Hotter => question.end,
        ThermometerQuestionAnswer::Colder => question.start,
    }
}

/// The end of the leg the hider is further from.
pub open spec fn further_end(question: ThermometerQuestion, answer: ThermometerQuestionAnswer) -> Position {
    match answer {
        ThermometerQuestionAnswer::Hotter => question.start,
        ThermometerQuestionAnswer::Colder => question.end,
    }
}

/// The operations of an answered thermometer question on a stream of `base`
/// instructions: the half of the world nearer to one end of the leg than to
/// the other, bounded by the perpendicular bisector of the leg.
pub open spec fn thermometer_operations(
    question: ThermometerQuestion,
    answer: ThermometerQuestionAnswer,
    base: nat,
) -> Seq<Operation> {
    seq![
        Operation::Point { position: nearer_end(question, answer) },
        Operation::Point { position: further_end(question, answer) },
        Operation::Boundary {
            inside: Register(base as u32),
            outside: Register((base + 1) as u32),
            resolution: BoundaryOverlapResolution::Inside,
        },
    ]
}

impl<'a> Shape for ThermometerQuestionShape<'a> {
    open spec fn buildable(&self) -> bool {
        self.question.start != self.question.end
    }

    open spec fn operations(&self, base: nat) -> Seq<Operation> {
        thermometer_operations(self.question, self.answer, base)
    }

    fn build_into(&self, compiler: &mut SdfCompiler) -> (result: Register) {
        let ghost start = compiler@;
        let (near, far) = match self.answer {
            ThermometerQuestionAnswer::Hotter => (self.question.end, self.question.start),
            ThermometerQuestionAnswer::Colder => (self.question.start, self.question.end),
        };
        let inside = compiler.point(near);
        let ghost s1 = compiler@;
        let outside = compiler.point(far);
        let ghost s2 = compiler@;
        let result = compiler.boundary(inside, outside, BoundaryOverlapResolution::Inside);
        proof {
            let a = seq![Operation::Point { position: near }];
            let b = seq![Operation::Point { position: far }];
            let c = seq![
                Operation::Boundary {
                    inside,
                    outside,
                    resolution: BoundaryOverlapResolution::Inside,
                },
            ];
            lemma_appends_then(start, s1, s2, a, b);
            lemma_appends_then(start, s2, compiler@, a + b, c);
            assert((a + b) + c =~= thermometer_operations(
                self.question,
                self.answer,
                start.len(),
            ));
        }
        result
    }
}

impl<'a> Question<'a> for ThermometerQuestion {
    type Answer = ThermometerQuestionAnswer;

    type Built = ThermometerQuestionShape<'a>;

    fn to_any(self) -> (any: AnyQuestion)
        ensures
            any == AnyQuestion::Thermometer(self),
    {
        AnyQuestion::Thermometer(self)
    }

    /// The shape of the answered question; fails with `InvalidParameters`
    /// exactly when the leg has no length.
    fn to_shape(
        self,
        answer: ThermometerQuestionAnswer,
        context: &'a QuestionContext,
    ) -> (result: Result<ThermometerQuestionShape<'a>, ShapeError>)
        ensures
            match result {
                Ok(shape) => {
                    &&& self.start != self.end
                    &&& shape.question == self
                    &&& shape.answer == answer
                    &&& shape.context == context
                },
                Err(error) => {
                    &&& self.start == self.end
                    &&& error.is(ShapeErrorClass::InvalidParameters, empty_leg_message(), None)
                },
            },
    {
        if self.start.x == self.end.x && self.start.y == self.end.y {
            return Err(
                ShapeError::invalid_parameters("The start and the end of the leg must differ."),
            );
        }
        Ok(ThermometerQuestionShape { question: self, answer, context })
    }
}

} // verus!
