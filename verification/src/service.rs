//! The service surface: batch ingestion, full-text search, and duplicate
//! grouping. Query-side errors surface as empty results, never as
//! failures — a search that finds nothing and a search that errors look
//! identical to the caller, by design.

use vstd::prelude::*;

use crate::duplicates::{
    group_duplicates, group_le, listing_of, page_window, rows_with_hash, valid_group,
    DuplicatedFile, PAGE_SIZE,
};
use crate::errors::{BatchError, SearchError, StoreError};
use crate::metadata_store::{rows_match, MetaRow};
use crate::model::has_path;
use crate::pipeline::{
    batch_clean, batch_overwrite, batch_post, batch_reingest, overwrite_post, reingest_post,
    rows_post, Ingestor, PreparedFile,
};
use crate::scanned_file::ScannedFile;

verus! {

/// What the search handler returns for each outcome of the index query:
/// the hit paths on success, the empty list on any error.
pub fn paths_or_empty(outcome: Result<Vec<String>, SearchError>) -> (r: Vec<String>)
    ensures
        outcome is Ok ==> r == outcome->Ok_0,
        outcome is Err ==> r@.len() == 0,
{
    match outcome {
        Ok(v) => v,
        Err(_) => Vec::new(),
    }
}

/// What the duplicates handler returns for each outcome of the row fetch:
/// the first page of groups on success, the empty list on any error.
pub fn groups_or_empty(outcome: Result<Vec<MetaRow>, StoreError>) -> (r: Vec<DuplicatedFile>)
    ensures
        r@.len() <= PAGE_SIZE,
        outcome is Err ==> r@.len() == 0,
        outcome is Ok ==> {
            &&& forall|k: int|
                0 <= k < r@.len() ==> valid_group(#[trigger] r@[k], (outcome->Ok_0)@)
            &&& forall|k: int, l: int|
                0 <= k < l < r@.len() ==> group_le(#[trigger] r@[k], #[trigger] r@[l])
            &&& forall|k: int, l: int| 0 <= k < l < r@.len() ==> r@[k].hash@ != r@[l].hash@
            &&& exists|all: Seq<DuplicatedFile>|
                #[trigger] listing_of(all, (outcome->Ok_0)@) && r@ == page_window(all, 0)
            &&& r@.len() < PAGE_SIZE ==> forall|m: int|
                0 <= m < (outcome->Ok_0)@.len() && rows_with_hash(
                    (outcome->Ok_0)@,
                    (#[trigger] (outcome->Ok_0)@[m]).hash@,
                ).len() >= 2 ==> exists|k: int|
                    0 <= k < r@.len() && (#[trigger] r@[k]).hash@ == (outcome->Ok_0)@[m].hash@
        },
{
    match outcome {
        Ok(rows) => group_duplicates(&rows, 0),
        Err(_) => Vec::new(),
    }
}

/// The long-lived service: one shared ingestion state answering the three
/// request kinds.
pub struct FileIndexService {
    pub ingestor: Ingestor,
}

impl FileIndexService {
    pub fn new(ingestor: Ingestor) -> (r: Self)
        ensures
            r.ingestor == ingestor,
    {
        FileIndexService { ingestor }
    }

    /// Handles one ingestion batch of prepared files and returns the
    /// failed subset; the wire answer is empty, so a transport layer
    /// logs the subset and sends nothing.
    pub fn index_file(&mut self, scanned_files: Vec<PreparedFile>) -> (r: Result<
        Vec<ScannedFile>,
        BatchError,
    >)
        ensures
            batch_clean(old(self).ingestor, scanned_files@) ==> rows_post(
                old(self).ingestor,
                final(self).ingestor,
                scanned_files@,
            ),
            batch_clean(old(self).ingestor, scanned_files@) && r is Ok ==> batch_post(
                old(self).ingestor,
                final(self).ingestor,
                scanned_files@,
                (r->Ok_0)@,
            ),
            batch_overwrite(old(self).ingestor, scanned_files@) && r is Ok && (r->Ok_0)@.len()
                == 0 ==> overwrite_post(
                old(self).ingestor,
                final(self).ingestor,
                scanned_files@,
            ),
            batch_reingest(old(self).ingestor, scanned_files@) && r is Ok && (r->Ok_0)@.len() == 0
                ==> reingest_post(old(self).ingestor, final(self).ingestor),
            r is Err ==> final(self).ingestor.visible() == old(self).ingestor.visible(),
    {
        self.ingestor.index_files(scanned_files)
    }

    /// Answers a full-text query with the stored paths of the matching
    /// documents; empty or unparseable queries and internal errors yield
    /// the empty list.
    pub fn search_file_by_contents(&self, query: &String) -> (r: Vec<String>)
        ensures
            r@.len() <= 1000,
            r@.len() == 0 || r@.map_values(|s: String| s@) == self.ingestor.hits(query@),
            forall|i: int| 0 <= i < r@.len() ==> has_path(self.ingestor.visible(), r@[i]@),
    {
        paths_or_empty(self.ingestor.search(query))
    }

    /// Answers the duplicate-group query: always the first page of the
    /// ordered listing today; the starting-path filter is accepted but
    /// reserved.
    pub fn find_duplicated_files(&self, _starting_at_path: Option<String>) -> (r: Vec<
        DuplicatedFile,
    >)
        ensures
            r@.len() <= PAGE_SIZE,
            r@.len() > 0 ==> exists|rows: Seq<MetaRow>, all: Seq<DuplicatedFile>|
                #[trigger] rows_match(self.ingestor.rows(), rows) && #[trigger] listing_of(
                    all,
                    rows,
                ) && r@ == page_window(all, 0),
            forall|k: int, l: int|
                0 <= k < l < r@.len() ==> group_le(#[trigger] r@[k], #[trigger] r@[l]),
            forall|k: int, l: int| 0 <= k < l < r@.len() ==> r@[k].hash@ != r@[l].hash@,
    {
        let outcome = self.ingestor.fetch_rows();
        let ghost fetched = outcome;
        let r = groups_or_empty(outcome);
        proof {
            if r@.len() > 0 {
                assert(fetched is Ok);
                assert(rows_match(self.ingestor.rows(), (fetched->Ok_0)@));
            }
        }
        r
    }
}

} // verus!
