//! "Send a photo of this."

use vstd::prelude::*;
use vstd::string::*;

use crate::hide_and_seek::question::{ShapeError, ShapeErrorClass};

verus! {

/// A request for a photo of `subject`. Its answer is judged by eye and
/// leaves no region to draw.
#[derive(Debug)]
pub struct PhotoQuestion {
    pub subject: String,
}

/// The message of the error for a question without a region.
pub open spec fn no_region_message() -> Seq<char> {
    "A photo cannot be drawn on the map."@
}

impl PhotoQuestion {
    /// Why the question has no shape, whatever the answer: it can only be
    /// judged out of band.
    pub fn shape_error(&self) -> (error: ShapeError)
        ensures
            error.is(ShapeErrorClass::Uncomputable, no_region_message(), None),
    {
        ShapeError {
            message: String::from_str("A photo cannot be drawn on the map."),
            resolution_hint: None,
            class: ShapeErrorClass::Uncomputable,
        }
    }
}

} // verus!
