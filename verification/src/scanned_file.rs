//! The ingestion-input record: a candidate file identified by absolute path.

use vstd::prelude::*;

verus! {

/// A file reported by the external directory scanner. Any hash a scanner
/// attaches is ignored; the service computes its own.
#[derive(Clone, Debug)]
pub struct ScannedFile {
    pub path: String,
}

} // verus!
