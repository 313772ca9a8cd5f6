//! In-library text extraction: plain text is decoded as UTF-8 and
//! known-binary formats index as the empty string, so that duplicate
//! detection still sees them. The PDF category has no in-library
//! extractor: its extraction library can abort abnormally on malformed
//! input and no catch boundary can stand in verified code, so the
//! pipeline hands a PDF back to its caller, which runs the extraction
//! under its own isolation boundary (see the preparation functions).

use vstd::prelude::*;

use vstd::utf8::encode_utf8;

use crate::errors::FileError;
use crate::mime::MimeType;

verus! {

/// What UTF-8 decoding yields for `bytes`: the decoded characters, or
/// nothing when the bytes are not valid UTF-8. A function of the bytes
/// alone.
pub uninterp spec fn utf8_decode(bytes: Seq<u8>) -> Option<Seq<char>>;

/// Relies on `core::str::from_utf8` (reached as `std::str::from_utf8`):
/// it succeeds exactly on valid UTF-8, decodes deterministically, and the
/// decoded string's UTF-8 encoding is the input bytes (the function only
/// reinterprets the slice).
#[verifier::external_body]
fn decode_utf8(bytes: &[u8]) -> (r: Result<String, FileError>)
    ensures
        r is Ok <==> utf8_decode(bytes@) is Some,
        r is Ok ==> utf8_decode(bytes@) == Some((r->Ok_0)@),
        r is Ok ==> encode_utf8((r->Ok_0)@) == bytes@,
        r is Err ==> r->Err_0 == FileError::Decode,
{
    match core::str::from_utf8(bytes) {
        Ok(s) => Ok(s.to_owned()),
        Err(_) => Err(FileError::Decode),
    }
}

/// Decodes bytes as UTF-8 text.
pub struct ClearTextConversion;

impl ClearTextConversion {
    pub fn new() -> (r: Self) {
        Self {}
    }

    pub fn convert(&self, buf: &[u8]) -> (r: Result<String, FileError>)
        ensures
            r is Ok <==> utf8_decode(buf@) is Some,
            r matches Ok(s) ==> utf8_decode(buf@) == Some(s@),
            r matches Ok(s) ==> encode_utf8(s@) == buf@,
            r matches Err(e) ==> e == FileError::Decode,
    {
        decode_utf8(buf)
    }
}

/// Indexes a known-binary format as the empty string.
pub struct NoOpConversion;

impl NoOpConversion {
    pub fn new() -> (r: Self) {
        Self {}
    }

    pub fn convert(&self, _buf: &[u8]) -> (r: Result<String, FileError>)
        ensures
            r matches Ok(s) && s@ == Seq::<char>::empty(),
    {
        Ok(String::new())
    }
}

/// The extractor a content category maps to.
#[derive(Clone, Copy, Debug, PartialEq, Eq, Structural)]
pub enum ExtractorKind {
    ClearText,
    Pdf,
    NoOp,
}

/// The registry: plain text decodes, PDF goes to the caller's isolated
/// extractor, every other recognized category indexes as empty.
pub open spec fn spec_extractor_for(m: MimeType) -> ExtractorKind {
    match m {
        MimeType::TextPlain => ExtractorKind::ClearText,
        MimeType::ApplicationPdf => ExtractorKind::Pdf,
        _ => ExtractorKind::NoOp,
    }
}

/// What in-library extraction yields for a category and bytes, when it
/// succeeds. The PDF category is extracted by the caller, not here, so
/// this function is consulted only for the other categories.
pub open spec fn spec_extract(m: MimeType, bytes: Seq<u8>) -> Option<Seq<char>> {
    match spec_extractor_for(m) {
        ExtractorKind::ClearText => utf8_decode(bytes),
        ExtractorKind::Pdf => None,
        ExtractorKind::NoOp => Some(Seq::empty()),
    }
}

/// The per-file error extraction failure carries.
pub open spec fn spec_extract_error(m: MimeType) -> FileError {
    match spec_extractor_for(m) {
        ExtractorKind::ClearText => FileError::Decode,
        ExtractorKind::Pdf => FileError::Extraction,
        ExtractorKind::NoOp => FileError::Extraction,
    }
}

/// Looks the extractor up for `m`.
pub fn extractor_for(m: MimeType) -> (r: ExtractorKind)
    ensures
        r == spec_extractor_for(m),
{
    match m {
        MimeType::TextPlain => ExtractorKind::ClearText,
        MimeType::ApplicationPdf => ExtractorKind::Pdf,
        _ => ExtractorKind::NoOp,
    }
}

} // verus!
