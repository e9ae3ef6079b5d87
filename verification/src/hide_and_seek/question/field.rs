//! The fields a question template asks its author to fill in.

use vstd::prelude::*;

verus! {

/// One choice of an enumerated field.
#[derive(Debug)]
pub struct FieldEnumVariant {
    pub identifier: String,
    pub display_name: String,
}

/// What kind of value a field takes.
#[derive(Debug)]
pub enum Field {
    Text,
    Enum { variants: Vec<FieldEnumVariant> },
}

} // verus!
