//! Questions, their answers, and the errors that keep an answered question
//! from becoming a shape.

use vstd::prelude::*;
use vstd::string::*;

pub mod context;
pub mod field;
pub mod matching;
pub mod measuring;
pub mod photo;
pub mod radar;
pub mod template;
pub mod tentacle;
pub mod thermometer;

use crate::hide_and_seek::question::context::QuestionContext;
use crate::hide_and_seek::question::matching::MatchingQuestion;
use crate::hide_and_seek::question::measuring::MeasuringQuestion;
use crate::hide_and_seek::question::radar::RadarQuestion;
use crate::hide_and_seek::question::tentacle::TentacleQuestion;
use crate::hide_and_seek::question::thermometer::ThermometerQuestion;
use crate::shape::compiler::Shape;

verus! {

/// Any question a seeker may ask.
#[derive(Debug)]
pub enum AnyQuestion {
    Matching(MatchingQuestion),
    Measuring(MeasuringQuestion),
    Thermometer(ThermometerQuestion),
    Radar(RadarQuestion),
    Tentacle(TentacleQuestion),
}

/// A question that, once answered, leaves a region where the hider may be.
pub trait Question<'a>: Sized {
    /// What the hider may answer.
    type Answer;

    /// The shape of the answered question.
    type Built: Shape;

    fn to_any(self) -> AnyQuestion;

    /// Checks the answer and the context and, if a region results, hands
    /// out its shape, ready to be built.
    fn to_shape(self, answer: Self::Answer, context: &'a QuestionContext) -> (result: Result<
        Self::Built,
        ShapeError,
    >)
        requires
            context.wf(),
        ensures
            result matches Ok(shape) ==> shape.buildable(),
    ;
}

/// Why a shape could not be produced.
#[derive(Clone, Copy, Debug, PartialEq, Eq, Structural)]
pub enum ShapeErrorClass {
    /// The shape cannot be computed even with complete data: a photo
    /// question, for one, has no region.
    Uncomputable,
    /// Data that the question needs is absent from the context. Always
    /// recoverable by providing more data.
    MissingData,
    /// The answer does not constrain the region at all.
    NoEntropy,
    /// The question's parameters do not define a region.
    InvalidParameters,
}

/// A failure to build a shape, with a hint for the user where one exists.
#[derive(Debug)]
pub struct ShapeError {
    pub message: String,
    pub resolution_hint: Option<String>,
    pub class: ShapeErrorClass,
}

/// The message of a missing-data error for the dataset `nice_name`.
pub open spec fn missing_data_message(nice_name: Seq<char>) -> Seq<char> {
    "Missing "@ + nice_name + " Data!"@
}

/// The resolution hint of a missing-data error for the dataset `nice_name`.
pub open spec fn missing_data_hint(nice_name: Seq<char>) -> Seq<char> {
    "Download the '"@ + nice_name + "' data bundle to visualize this question."@
}

impl ShapeError {
    /// Whether this is the missing-data error naming the dataset
    /// `nice_name`.
    pub open spec fn is_missing_data(&self, nice_name: Seq<char>) -> bool {
        &&& self.class == ShapeErrorClass::MissingData
        &&& self.message@ == missing_data_message(nice_name)
        &&& self.resolution_hint matches Some(hint)
        &&& hint@ == missing_data_hint(nice_name)
    }

    /// Whether this error carries exactly the given texts and class.
    pub open spec fn is(
        &self,
        class: ShapeErrorClass,
        message: Seq<char>,
        hint: Option<Seq<char>>,
    ) -> bool {
        &&& self.class == class
        &&& self.message@ == message
        &&& match (self.resolution_hint, hint) {
            (Some(have), Some(want)) => have@ == want,
            (None, None) => true,
            _ => false,
        }
    }

    /// The error for a dataset that has not been downloaded.
    pub fn missing_data(nice_name: &str) -> (error: Self)
        ensures
            error.is_missing_data(nice_name@),
    {
        let mut message = String::from_str("Missing ");
        message.append(nice_name);
        message.append(" Data!");
        let mut hint = String::from_str("Download the '");
        hint.append(nice_name);
        hint.append("' data bundle to visualize this question.");
        ShapeError {
            message,
            resolution_hint: Some(hint),
            class: ShapeErrorClass::MissingData,
        }
    }

    /// The error for parameters that do not define a region.
    pub fn invalid_parameters(message: &str) -> (error: Self)
        ensures
            error.is(ShapeErrorClass::InvalidParameters, message@, None),
    {
        ShapeError {
            message: String::from_str(message),
            resolution_hint: None,
            class: ShapeErrorClass::InvalidParameters,
        }
    }
}

} // verus!
