//! What fetching a resource can fail with, and the parts of a fetch that
//! need no network: where to ask and how to read the answer's status.

use vstd::prelude::*;
use vstd::string::*;

use crate::resource::reference::ResourceReference;
use crate::text::{decimal, decimal_text};

verus! {

/// A failed fetch.
#[derive(Debug)]
pub enum FetchError {
    /// Reading or writing failed; the text is the system's message.
    Io(String),
    NotFound,
    Network(String),
    InvalidData(String),
}

/// The address of the metadata of the bundle `bundle_id`.
pub open spec fn bundle_address(base_url: Seq<char>, bundle_id: Seq<char>) -> Seq<char> {
    base_url + "/bundles/"@ + bundle_id
}

/// The address of the content of the resource `id`.
pub open spec fn resource_address(base_url: Seq<char>, id: Seq<char>) -> Seq<char> {
    base_url + "/resources/"@ + id
}

/// The message of the error for a response of HTTP status `status`.
pub open spec fn status_message(status: u16) -> Seq<char> {
    "HTTP "@ + decimal_text(status as nat)
}

/// Computes [`bundle_address`].
pub fn bundle_url(base_url: &str, bundle_id: &str) -> (url: String)
    ensures
        url@ == bundle_address(base_url@, bundle_id@),
{
    let mut url = String::from_str(base_url);
    url.append("/bundles/");
    url.append(bundle_id);
    url
}

/// Computes [`resource_address`] for `reference`.
pub fn resource_url(base_url: &str, reference: &ResourceReference) -> (url: String)
    ensures
        url@ == resource_address(base_url@, reference@.id),
{
    let mut url = String::from_str(base_url);
    url.append("/resources/");
    url.append(reference.id());
    url
}

/// Reads the status of a response: 404 means the resource does not exist,
/// any other status outside 200..=299 is a network failure that names the
/// status.
pub fn check_status(status: u16) -> (result: Result<(), FetchError>)
    ensures
        match result {
            Ok(()) => 200 <= status <= 299,
            Err(FetchError::NotFound) => status == 404,
            Err(FetchError::Network(message)) => status != 404 && !(200 <= status <= 299)
                && message@ == status_message(status),
            Err(_) => false,
        },
{
    if status == 404 {
        return Err(FetchError::NotFound);
    }
    if !(200 <= status && status <= 299) {
        let mut message = String::from_str("HTTP ");
        let digits = decimal(status as usize);
        message.append(digits.as_str());
        return Err(FetchError::Network(message));
    }
    Ok(())
}

} // verus!
