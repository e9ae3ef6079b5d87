//! Downloadable resources: references to files by content hash, bundles of
//! references, and the checks made when one is fetched.

pub mod bundle;
pub mod fetcher;
pub mod reference;
pub mod store;
