//! A reference to one downloadable file.

use vstd::prelude::*;
use vstd::string::*;

verus! {

/// The 64-bit XXH3 hash of `data` with the default seed and secret, as
/// computed by the `twox-hash` crate.
pub uninterp spec fn xxh3_64(data: Seq<u8>) -> u64;

/// Hashes `data` with `twox_hash::XxHash3_64::oneshot`.
///
/// Trusted: the result is a function of the bytes alone.
#[verifier::external_body]
pub(crate) fn hash_bytes(data: &[u8]) -> (hash: u64)
    ensures
        hash == xxh3_64(data@),
{
    twox_hash::XxHash3_64::oneshot(data)
}

/// What a reference says of its file.
pub struct ReferenceView {
    pub id: Seq<char>,
    pub version: u64,
    pub size: u64,
    pub hash: u64,
}

/// A file by identifier and version, with the size and the hash its content
/// must have.
#[derive(Debug)]
pub struct ResourceReference {
    version: u64,
    size: u64,
    xxhash: u64,
    id: String,
}

impl View for ResourceReference {
    type V = ReferenceView;

    closed spec fn view(&self) -> ReferenceView {
        ReferenceView { id: self.id@, version: self.version, size: self.size, hash: self.xxhash }
    }
}

impl Clone for ResourceReference {
    fn clone(&self) -> (copy: Self)
        ensures
            copy@ == self@,
    {
        ResourceReference {
            version: self.version,
            size: self.size,
            xxhash: self.xxhash,
            id: self.id.clone(),
        }
    }
}

impl ResourceReference {
    /// The reference to a file of the given size and hash.
    pub fn from_parts(id: &str, version: u64, size: u64, xxhash: u64) -> (reference: Self)
        ensures
            reference@ == (ReferenceView { id: id@, version, size, hash: xxhash }),
    {
        ResourceReference { version, size, xxhash, id: String::from_str(id) }
    }

    /// The reference to a file with the content `data`: its size is the
    /// number of bytes and its hash their XXH3 hash.
    pub fn from_bytes(id: &str, version: u64, data: &[u8]) -> (reference: Self)
        requires
            data@.len() <= u64::MAX,
        ensures
            reference@ == (ReferenceView {
                id: id@,
                version,
                size: data@.len() as u64,
                hash: xxh3_64(data@),
            }),
    {
        let size = data.len() as u64;
        let xxhash = hash_bytes(data);
        ResourceReference { version, size, xxhash, id: String::from_str(id) }
    }

    pub fn id(&self) -> (id: &str)
        ensures
            id@ == self@.id,
    {
        self.id.as_str()
    }

    pub fn version(&self) -> (version: u64)
        ensures
            version == self@.version,
    {
        self.version
    }

    pub fn size(&self) -> (size: u64)
        ensures
            size == self@.size,
    {
        self.size
    }

    pub fn hash(&self) -> (hash: u64)
        ensures
            hash == self@.hash,
    {
        self.xxhash
    }

    /// Whether `data` is the content the reference stands for, by hash.
    pub fn matches(&self, data: &[u8]) -> (ok: bool)
        ensures
            ok == (xxh3_64(data@) == self@.hash),
    {
        hash_bytes(data) == self.xxhash
    }
}

} // verus!
