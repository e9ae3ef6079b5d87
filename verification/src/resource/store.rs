//! What storing a resource can fail with, and the check a download must
//! pass before it is kept.

use vstd::prelude::*;
use vstd::string::*;

use crate::resource::fetcher::FetchError;
use crate::resource::reference::{xxh3_64, ResourceReference};

verus! {

/// A failed store operation.
#[derive(Debug)]
pub enum StoreError {
    /// Reading or writing failed; the text is the system's message.
    Io(String),
    Fetch(FetchError),
}

/// The message of the error for a download whose hash is not the
/// reference's.
pub open spec fn hash_mismatch_message() -> Seq<char> {
    "Hash mismatch"@
}

/// Checks a download against its reference: the content is kept exactly
/// when its hash is the one the reference names.
pub fn verify_download(reference: &ResourceReference, data: &[u8]) -> (result: Result<
    (),
    StoreError,
>)
    ensures
        match result {
            Ok(()) => xxh3_64(data@) == reference@.hash,
            Err(StoreError::Fetch(FetchError::InvalidData(message))) => xxh3_64(data@)
                != reference@.hash && message@ == hash_mismatch_message(),
            Err(_) => false,
        },
{
    if !reference.matches(data) {
        return Err(StoreError::Fetch(FetchError::InvalidData("Hash mismatch".to_owned())));
    }
    Ok(())
}

/// The name of the file a resource is stored under: its identifier.
pub fn resource_file_name(reference: &ResourceReference) -> (name: String)
    ensures
        name@ == reference@.id,
{
    String::from_str(reference.id())
}

} // verus!
