//! Content hashing: a stable 256-bit digest over a file's bytes, rendered
//! as a 64-character lowercase hex string.

use vstd::prelude::*;

use crate::errors::FileError;

verus! {

/// The hex rendering of the content digest of `bytes`. The digest is a
/// function of the bytes alone, identical across runs and platforms.
pub uninterp spec fn blake3_hex_of(bytes: Seq<u8>) -> Seq<char>;

/// A lowercase hexadecimal digit.
pub open spec fn is_lower_hex_char(c: char) -> bool {
    ('0' <= c && c <= '9') || ('a' <= c && c <= 'f')
}

/// The shape every rendered digest has: 64 lowercase hex characters.
pub open spec fn is_hex_digest(s: Seq<char>) -> bool {
    &&& s.len() == 64
    &&& forall|i: int| 0 <= i < s.len() ==> is_lower_hex_char(s[i])
}

/// Relies on `blake3::hash` and `blake3::Hash::to_string`: the digest
/// depends on the input bytes alone, and its rendering is two lowercase
/// hex digits for each of the 32 digest bytes.
#[verifier::external_body]
fn blake3_hex(bytes: &[u8]) -> (r: String)
    ensures
        r@ == blake3_hex_of(bytes@),
        is_hex_digest(r@),
{
    blake3::hash(bytes).to_string()
}

/// The service-side hasher; its output is authoritative for duplicate
/// detection.
pub struct DefaultFileHash;

impl DefaultFileHash {
    pub fn new() -> (r: Self) {
        DefaultFileHash {}
    }

    /// Hashes the bytes. Never fails; the `Result` mirrors the strategy
    /// signature the pipeline consumes.
    pub fn calculate_hash(&self, buf: &Vec<u8>) -> (r: Result<String, FileError>)
        ensures
            r is Ok,
            r matches Ok(h) ==> h@ == blake3_hex_of(buf@) && is_hex_digest(h@),
    {
        Ok(blake3_hex(buf.as_slice()))
    }
}

/// The scanner-side hasher. It reports no digest: the service recomputes
/// hashes itself and ignores anything a scanner provides.
pub struct FileHash;

impl FileHash {
    pub fn new() -> (r: Self) {
        FileHash {}
    }

    pub fn calculate_hash(&self, _path: &str) -> (r: Result<String, FileError>)
        ensures
            r is Ok,
            r matches Ok(h) ==> h@ == Seq::<char>::empty(),
    {
        Ok(String::new())
    }
}

} // verus!
