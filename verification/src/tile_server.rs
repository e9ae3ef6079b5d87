//! What serving map tiles can fail with, and the parts of the server that
//! are plain computation.

use vstd::prelude::*;
use vstd::string::*;

verus! {

/// A failure of the tile server.
#[derive(Debug)]
pub enum TileServerError {
    /// Reading or binding failed; the text is the system's message.
    IoError(String),
    PmTilesError(String),
}

/// The text a tile server error is reported with.
pub open spec fn error_text(error: TileServerError) -> Seq<char> {
    match error {
        TileServerError::IoError(message) => "IO error: "@ + message@,
        TileServerError::PmTilesError(message) => "PMTiles error: "@ + message@,
    }
}

impl TileServerError {
    /// The text the error is reported with.
    pub fn message(&self) -> (text: String)
        ensures
            text@ == error_text(*self),
    {
        match self {
            TileServerError::IoError(message) => {
                let mut text = String::from_str("IO error: ");
                text.append(message.as_str());
                text
            },
            TileServerError::PmTilesError(message) => {
                let mut text = String::from_str("PMTiles error: ");
                text.append(message.as_str());
                text
            },
        }
    }
}

} // verus!
