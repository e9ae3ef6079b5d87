//! View state handed to the user interface.

use vstd::prelude::*;
use vstd::string::*;

verus! {

/// The state of the map view: the style it is drawn with.
#[derive(Debug)]
pub struct MapState {
    style_json: String,
}

impl View for MapState {
    type V = Seq<char>;

    closed spec fn view(&self) -> Seq<char> {
        self.style_json@
    }
}

impl MapState {
    /// The map state with the style `style_json`.
    pub fn with_style(style_json: &str) -> (state: Self)
        ensures
            state@ == style_json@,
    {
        MapState { style_json: String::from_str(style_json) }
    }

    /// A copy of the style, as JSON.
    pub fn get_style(&self) -> (style: String)
        ensures
            style@ == self@,
    {
        self.style_json.clone()
    }
}

} // verus!
