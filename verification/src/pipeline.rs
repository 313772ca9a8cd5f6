//! The per-file ingestion pipeline, in two halves. Preparation hashes and
//! classifies one file and extracts in-library text; a file resolved as
//! PDF comes back as a pending request, because its extraction library
//! can abort abnormally and no catch boundary can stand in verified code
//! — the caller runs that one call under its own isolation boundary and
//! hands the outcome back. The batch half consumes prepared outcomes
//! only: for each document it queues a path deletion and then the add
//! (so the last writer wins), persists the row with a compensating
//! delete on a persistence failure, commits once, and refreshes the
//! reader.

use vstd::prelude::*;

use vstd::utf8::encode_utf8;

use crate::determine_file_type::{
    spec_resolve, DefaultDetermineFileType, DefaultDetermineFileTypeFactory,
};
use crate::errors::{BatchError, BootstrapError, FileError};
use crate::extraction::{
    extractor_for, spec_extract, spec_extract_error, ClearTextConversion, ExtractorKind,
    NoOpConversion,
};
use crate::hashing::{blake3_hex_of, DefaultFileHash};
use crate::metadata_store::{
    connection_open, connection_open_in_memory, store_create_schema, store_rows, store_upsert,
};
use crate::mime::MimeType;
use crate::model::{
    apply_op, apply_ops, docs_with_path, has_path, joined, pair_set, DocModel, IndexOp, RowModel,
};
use crate::scanned_file::ScannedFile;
use crate::search_index::{
    committed_docs, index_add_document, index_commit, index_delete_path, index_doc_count,
    index_open_dir, index_open_ram, index_reload, index_search, pending_ops, visible_docs,
    SearchIndex, MAX_PATH_TERM_BYTES,
};

verus! {

/// A document ready for the index: the file's path, its authoritative
/// hash, and the extracted text.
#[derive(Debug)]
pub struct PreparedDoc {
    pub path: String,
    pub hash: String,
    pub contents: String,
}

impl PreparedDoc {
    /// The document this value stands for.
    pub open spec fn doc_view(&self) -> DocModel {
        DocModel { contents: self.contents@, path: self.path@, hash: self.hash@ }
    }
}

/// One file handed to the batch half: its path, its byte size, and the
/// outcome of preparing it — a document, or the per-file error (a load
/// failure, a failed preparation step, or an isolated extraction abort).
pub struct PreparedFile {
    pub path: String,
    pub size: u64,
    pub outcome: Result<PreparedDoc, FileError>,
}

impl PreparedFile {
    /// A prepared document speaks of the file it was prepared from.
    pub open spec fn consistent(&self) -> bool {
        self.outcome is Ok ==> (self.outcome->Ok_0).path@ == self.path@
    }
}

/// A file resolved as PDF, waiting for its caller-extracted text: the
/// path, the byte size, and the authoritative hash, all already fixed.
pub struct PendingPdf {
    pub path: String,
    pub size: u64,
    pub hash: String,
}

/// What starting preparation yields: a finished per-file outcome, or a
/// pending PDF whose text the caller extracts under its isolation
/// boundary and hands to `finish_prepare_pdf`.
pub enum Preparation {
    Done(PreparedFile),
    NeedsPdfText(PendingPdf),
}

/// Whether some failed file carries path `p`.
pub open spec fn path_in_failed(failed: Seq<ScannedFile>, p: Seq<char>) -> bool {
    exists|j: int| 0 <= j < failed.len() && (#[trigger] failed[j]).path@ == p
}

/// The position of the input carrying path `p`; meaningful when batch
/// paths are distinct.
pub open spec fn input_index(files: Seq<PreparedFile>, p: Seq<char>) -> int {
    choose|i: int| 0 <= i < files.len() && (#[trigger] files[i]).path@ == p
}

/// The failed files appear in batch submission order.
pub open spec fn failed_in_order(files: Seq<PreparedFile>, failed: Seq<ScannedFile>) -> bool {
    forall|j1: int, j2: int|
        0 <= j1 < j2 < failed.len() ==> input_index(files, (#[trigger] failed[j1]).path@)
            < input_index(files, (#[trigger] failed[j2]).path@)
}

/// Extending the failed list adds exactly the new file's path.
proof fn lemma_failed_push(failed: Seq<ScannedFile>, f: ScannedFile)
    ensures
        forall|p: Seq<char>|
            #[trigger] path_in_failed(failed.push(f), p) == (path_in_failed(failed, p) || f.path@
                == p),
{
    assert forall|p: Seq<char>|
        #[trigger] path_in_failed(failed.push(f), p) == (path_in_failed(failed, p) || f.path@
            == p) by {
        if path_in_failed(failed.push(f), p) {
            let j = choose|j: int|
                0 <= j < failed.push(f).len() && (#[trigger] failed.push(f)[j]).path@ == p;
            if j < failed.len() {
                assert(failed[j] == failed.push(f)[j]);
            }
        }
        if path_in_failed(failed, p) {
            let j = choose|j: int| 0 <= j < failed.len() && (#[trigger] failed[j]).path@ == p;
            assert(failed.push(f)[j].path@ == p);
        }
        if f.path@ == p {
            assert(failed.push(f)[failed.len() as int].path@ == p);
        }
    }
}

/// A well-shaped batch: distinct paths, each prepared document speaking
/// of its own file.
pub open spec fn batch_wf(files: Seq<PreparedFile>) -> bool {
    &&& forall|i: int, j: int|
        0 <= i < j < files.len() ==> (#[trigger] files[i]).path@ != (#[trigger] files[j]).path@
    &&& forall|i: int| 0 <= i < files.len() ==> (#[trigger] files[i]).consistent()
}

/// The state a batch of new files starts from for the batch contract to
/// bite: an empty operation queue, the join invariant, and well-shaped
/// input paths new to both stores.
pub open spec fn batch_clean(s: Ingestor, files: Seq<PreparedFile>) -> bool {
    &&& s.pending() == Seq::<IndexOp>::empty()
    &&& joined(s.committed(), s.rows())
    &&& batch_wf(files)
    &&& forall|i: int|
        0 <= i < files.len() ==> !has_path(s.committed(), (#[trigger] files[i]).path@)
            && !s.rows().dom().contains(files[i].path@)
}

/// The state an overwriting batch starts from: an empty queue, the join
/// invariant, and every input prepared successfully. Paths may or may
/// not be stored already; the last writer wins either way.
pub open spec fn batch_overwrite(s: Ingestor, files: Seq<PreparedFile>) -> bool {
    &&& s.pending() == Seq::<IndexOp>::empty()
    &&& joined(s.committed(), s.rows())
    &&& batch_wf(files)
    &&& forall|i: int| 0 <= i < files.len() ==> (#[trigger] files[i]).outcome is Ok
}

/// The state a batch of unchanged, already-stored files starts from:
/// an overwriting batch whose every input carries exactly the row its
/// path already holds.
pub open spec fn batch_reingest(s: Ingestor, files: Seq<PreparedFile>) -> bool {
    &&& batch_overwrite(s, files)
    &&& forall|i: int|
        0 <= i < files.len() ==> s.rows().dom().contains((#[trigger] files[i]).path@)
            && s.rows()[files[i].path@] == (RowModel {
            hash: ((files[i].outcome)->Ok_0).hash@,
            size: files[i].size,
        })
}

/// What a successful batch from a clean start guarantees: the queue is
/// drained, the join invariant stands, old documents survive as a prefix
/// and every new document carries an input path, the failed subset names
/// input paths in submission order (every failed preparation among
/// them), a failed file leaves no row and no live document, and a file
/// not in the failed subset leaves exactly its row and exactly its one
/// document.
pub open spec fn batch_post(
    pre: Ingestor,
    post: Ingestor,
    files: Seq<PreparedFile>,
    failed: Seq<ScannedFile>,
) -> bool {
    &&& post.pending() == Seq::<IndexOp>::empty()
    &&& joined(post.committed(), post.rows())
    &&& (post.visible() == post.committed() || post.visible() == pre.visible())
    &&& pre.committed().len() <= post.committed().len()
    &&& post.committed().subrange(0, pre.committed().len() as int) == pre.committed()
    &&& forall|k: int|
        pre.committed().len() <= k < post.committed().len() ==> exists|i: int|
            0 <= i < files.len() && (#[trigger] post.committed()[k]).path == files[i].path@
    &&& forall|p: Seq<char>|
        #[trigger] path_in_failed(failed, p) ==> exists|i: int|
            0 <= i < files.len() && (#[trigger] files[i]).path@ == p
    &&& failed_in_order(files, failed)
    &&& forall|i: int|
        0 <= i < files.len() && (#[trigger] files[i]).outcome is Err ==> path_in_failed(
            failed,
            files[i].path@,
        )
    &&& forall|i: int|
        0 <= i < files.len() && path_in_failed(failed, (#[trigger] files[i]).path@)
            ==> !post.rows().dom().contains(files[i].path@) && !has_path(
            post.committed(),
            files[i].path@,
        )
    &&& forall|i: int|
        0 <= i < files.len() && !path_in_failed(failed, (#[trigger] files[i]).path@) ==> {
            &&& files[i].outcome is Ok
            &&& post.rows().dom().contains(files[i].path@)
            &&& post.rows()[files[i].path@] == (RowModel {
                hash: ((files[i].outcome)->Ok_0).hash@,
                size: files[i].size,
            })
            &&& docs_with_path(post.committed(), files[i].path@) == seq![
                ((files[i].outcome)->Ok_0).doc_view(),
            ]
        }
}

/// Row effects of a clean batch that hold however the final commit went:
/// rows grow only by input paths, old rows survive unchanged, and a
/// failed preparation leaves no row.
pub open spec fn rows_post(pre: Ingestor, post: Ingestor, files: Seq<PreparedFile>) -> bool {
    &&& forall|p: Seq<char>|
        #[trigger] post.rows().contains_key(p) ==> pre.rows().contains_key(p) || exists|i: int|
            0 <= i < files.len() && (#[trigger] files[i]).path@ == p
    &&& forall|p: Seq<char>|
        #[trigger] pre.rows().contains_key(p) ==> post.rows().contains_key(p) && post.rows()[p]
            == pre.rows()[p]
    &&& forall|i: int|
        0 <= i < files.len() && (#[trigger] files[i]).outcome is Err
            ==> !post.rows().dom().contains(files[i].path@)
}

/// What a fully successful overwriting batch guarantees: the queue is
/// drained, the join invariant stands, every input path holds exactly
/// its new row and its one new document (the last writer won), and
/// every other path's documents and row are untouched.
pub open spec fn overwrite_post(pre: Ingestor, post: Ingestor, files: Seq<PreparedFile>) -> bool {
    &&& post.pending() == Seq::<IndexOp>::empty()
    &&& joined(post.committed(), post.rows())
    &&& (post.visible() == post.committed() || post.visible() == pre.visible())
    &&& forall|i: int|
        0 <= i < files.len() ==> {
            &&& post.rows().dom().contains((#[trigger] files[i]).path@)
            &&& post.rows()[files[i].path@] == (RowModel {
                hash: ((files[i].outcome)->Ok_0).hash@,
                size: files[i].size,
            })
            &&& docs_with_path(post.committed(), files[i].path@) == seq![
                ((files[i].outcome)->Ok_0).doc_view(),
            ]
        }
    &&& forall|p: Seq<char>|
        (#[trigger] docs_with_path(post.committed(), p)) == docs_with_path(pre.committed(), p)
            || exists|i: int| 0 <= i < files.len() && (#[trigger] files[i]).path@ == p
    &&& forall|p: Seq<char>|
        #[trigger] post.rows().contains_key(p) ==> pre.rows().contains_key(p) || exists|i: int|
            0 <= i < files.len() && (#[trigger] files[i]).path@ == p
    &&& forall|p: Seq<char>|
        #[trigger] pre.rows().contains_key(p) ==> post.rows().contains_key(p) && (post.rows()[p]
            == pre.rows()[p] || exists|i: int|
            0 <= i < files.len() && (#[trigger] files[i]).path@ == p)
}

/// What re-ingesting a batch of unchanged, already-stored files with no
/// failures guarantees: the rows are untouched, the join invariant
/// stands, and the set of live `(path, hash)` pairs is unchanged.
pub open spec fn reingest_post(pre: Ingestor, post: Ingestor) -> bool {
    &&& post.rows() == pre.rows()
    &&& joined(post.committed(), post.rows())
    &&& pair_set(post.committed()) == pair_set(pre.committed())
    &&& post.pending() == Seq::<IndexOp>::empty()
    &&& (post.visible() == post.committed() || post.visible() == pre.visible())
}

/// The size threshold up to which a file is read whole into memory; one
/// byte more and the loader memory-maps it instead. One gibibyte.
pub const BYTE_LOAD_THRESHOLD: u64 = 1073741824;

/// Whether a file of `size` bytes is loaded through a memory map rather
/// than a full read.
pub fn uses_mmap(size: u64) -> (r: bool)
    ensures
        r == (size > BYTE_LOAD_THRESHOLD),
{
    size > BYTE_LOAD_THRESHOLD
}

/// Relies on `chrono::Local::now` and `DateTime::to_rfc3339`: the current
/// local wall-clock time. The value depends on the clock, so nothing is
/// promised of it.
#[verifier::external_body]
fn local_now_string() -> (r: String) {
    chrono::Local::now().to_rfc3339()
}

/// Starts preparing one loaded file: hashes it, resolves its content
/// type, and extracts in-library text. A file resolved as PDF comes back
/// as `NeedsPdfText` with its hash and size already fixed: the caller
/// runs the extraction library — which can abort abnormally — under its
/// own isolation boundary and hands the outcome to `finish_prepare_pdf`.
pub fn begin_prepare(
    resolver: &DefaultDetermineFileType,
    hasher: &DefaultFileHash,
    file: &ScannedFile,
    bytes: &Vec<u8>,
) -> (r: Preparation)
    ensures
        r is Done ==> {
            &&& (r->Done_0).path@ == file.path@
            &&& (r->Done_0).size == bytes@.len()
            &&& (r->Done_0).consistent()
            &&& ((r->Done_0).outcome is Ok ==> ((r->Done_0).outcome->Ok_0).hash@
                == blake3_hex_of(bytes@))
        },
        r is NeedsPdfText ==> {
            &&& (r->NeedsPdfText_0).path@ == file.path@
            &&& (r->NeedsPdfText_0).size == bytes@.len()
            &&& (r->NeedsPdfText_0).hash@ == blake3_hex_of(bytes@)
        },
        resolver.wf() ==> match spec_resolve(file.path@, bytes@) {
            None => r is Done && (r->Done_0).outcome == Err::<PreparedDoc, FileError>(
                FileError::Classification,
            ),
            Some(m) => if m == MimeType::ApplicationPdf {
                r is NeedsPdfText
            } else {
                r is Done && (match spec_extract(m, bytes@) {
                    Some(text) => (r->Done_0).outcome is Ok && ((r->Done_0).outcome->Ok_0).doc_view()
                        == (DocModel {
                        contents: text,
                        path: file.path@,
                        hash: blake3_hex_of(bytes@),
                    }),
                    None => (r->Done_0).outcome == Err::<PreparedDoc, FileError>(
                        spec_extract_error(m),
                    ),
                })
            },
        },
{
    let size: u64 = bytes.len() as u64;
    let hash = match hasher.calculate_hash(bytes) {
        Ok(h) => h,
        Err(e) => {
            return Preparation::Done(PreparedFile {
                path: file.path.clone(),
                size,
                outcome: Err(e),
            });
        },
    };
    let mime = match resolver.determine(file, bytes.as_slice()) {
        Some(m) => m,
        None => {
            return Preparation::Done(PreparedFile {
                path: file.path.clone(),
                size,
                outcome: Err(FileError::Classification),
            });
        },
    };
    if mime == MimeType::ApplicationPdf {
        return Preparation::NeedsPdfText(PendingPdf { path: file.path.clone(), size, hash });
    }
    let extracted = match extractor_for(mime) {
        ExtractorKind::ClearText => ClearTextConversion::new().convert(bytes.as_slice()),
        ExtractorKind::NoOp => NoOpConversion::new().convert(bytes.as_slice()),
        // A PDF was handed back as pending above, so this arm never runs.
        ExtractorKind::Pdf => Err(FileError::Extraction),
    };
    match extracted {
        Ok(contents) => Preparation::Done(PreparedFile {
            path: file.path.clone(),
            size,
            outcome: Ok(PreparedDoc { path: file.path.clone(), hash, contents }),
        }),
        Err(e) => Preparation::Done(PreparedFile {
            path: file.path.clone(),
            size,
            outcome: Err(e),
        }),
    }
}

/// Finishes preparing a PDF from the caller-extracted text: a successful
/// extraction becomes the document under the already-fixed hash, and a
/// failure — including an isolated abnormal abort — becomes the file's
/// outcome.
pub fn finish_prepare_pdf(pending: PendingPdf, extracted: Result<String, FileError>) -> (r:
    PreparedFile)
    ensures
        r.path@ == pending.path@,
        r.size == pending.size,
        r.consistent(),
        extracted is Ok ==> r.outcome is Ok && (r.outcome->Ok_0).doc_view() == (DocModel {
            contents: (extracted->Ok_0)@,
            path: pending.path@,
            hash: pending.hash@,
        }),
        extracted is Err ==> r.outcome == Err::<PreparedDoc, FileError>(extracted->Err_0),
{
    match extracted {
        Ok(contents) => {
            let doc = PreparedDoc { path: pending.path.clone(), hash: pending.hash, contents };
            PreparedFile { path: pending.path, size: pending.size, outcome: Ok(doc) }
        },
        Err(e) => PreparedFile { path: pending.path, size: pending.size, outcome: Err(e) },
    }
}

/// The ingestion service state: the inverted index, the metadata store
/// connection they share, and the strategies preparation composes.
pub struct Ingestor {
    index: SearchIndex,
    conn: rusqlite::Connection,
    resolver: DefaultDetermineFileType,
    hasher: DefaultFileHash,
}

impl Ingestor {
    /// The documents durable in the index.
    pub closed spec fn committed(self) -> Seq<DocModel> {
        committed_docs(self.index)
    }

    /// The index operations queued since the last commit.
    pub closed spec fn pending(self) -> Seq<IndexOp> {
        pending_ops(self.index)
    }

    /// The documents searches currently see.
    pub closed spec fn visible(self) -> Seq<DocModel> {
        visible_docs(self.index)
    }

    /// The metadata rows, keyed by path.
    pub closed spec fn rows(self) -> Map<Seq<char>, RowModel> {
        store_rows(self.conn)
    }

    /// The type resolver carries the static extension table.
    pub closed spec fn resolver_ok(self) -> bool {
        self.resolver.wf()
    }

    /// The paths a query returns against what searches currently see.
    pub closed spec fn hits(self, query: Seq<char>) -> Seq<Seq<char>> {
        crate::search_index::search_hits(self.index, query)
    }

    /// Opens the service over an existing index directory and metadata
    /// database path, creating schema as needed.
    pub fn open_at(index_dir: &String, db_path: &String) -> (r: Result<Ingestor, BootstrapError>)
        ensures
            r is Ok ==> {
                &&& (r->Ok_0).pending() == Seq::<IndexOp>::empty()
                &&& (r->Ok_0).visible() == (r->Ok_0).committed()
                &&& (r->Ok_0).resolver_ok()
            },
    {
        let index = match index_open_dir(index_dir) {
            Ok(ix) => ix,
            Err(_) => {
                return Err(BootstrapError::Index);
            },
        };
        let mut conn = match connection_open(db_path) {
            Ok(c) => c,
            Err(_) => {
                return Err(BootstrapError::Store);
            },
        };
        match store_create_schema(&mut conn) {
            Ok(()) => {},
            Err(_) => {
                return Err(BootstrapError::Store);
            },
        }
        Ok(Ingestor {
            index,
            conn,
            resolver: DefaultDetermineFileTypeFactory::create(),
            hasher: DefaultFileHash::new(),
        })
    }

    /// Opens a fully in-memory service: an empty index over an empty
    /// store.
    pub fn open_in_memory() -> (r: Result<Ingestor, BootstrapError>)
        ensures
            r is Ok ==> {
                &&& (r->Ok_0).committed() == Seq::<DocModel>::empty()
                &&& (r->Ok_0).pending() == Seq::<IndexOp>::empty()
                &&& (r->Ok_0).visible() == Seq::<DocModel>::empty()
                &&& (r->Ok_0).rows() == (Map::<Seq<char>, RowModel>::empty())
                &&& (r->Ok_0).resolver_ok()
                &&& joined((r->Ok_0).committed(), (r->Ok_0).rows())
            },
    {
        let index = match index_open_ram() {
            Ok(ix) => ix,
            Err(_) => {
                return Err(BootstrapError::Index);
            },
        };
        let mut conn = match connection_open_in_memory() {
            Ok(c) => c,
            Err(_) => {
                return Err(BootstrapError::Store);
            },
        };
        match store_create_schema(&mut conn) {
            Ok(()) => {},
            Err(_) => {
                return Err(BootstrapError::Store);
            },
        }
        Ok(Ingestor {
            index,
            conn,
            resolver: DefaultDetermineFileTypeFactory::create(),
            hasher: DefaultFileHash::new(),
        })
    }

    /// How many documents searches currently see.
    pub fn visible_doc_count(&self) -> (r: u64)
        ensures
            r == self.visible().len(),
    {
        index_doc_count(&self.index)
    }

    /// Runs a query against the index the reader sees.
    pub fn search(&self, query: &String) -> (r: Result<Vec<String>, crate::errors::SearchError>)
        ensures
            r is Ok ==> (r->Ok_0)@.map_values(|s: String| s@) == self.hits(query@),
            r is Ok ==> (r->Ok_0)@.len() <= 1000,
            r is Ok ==> forall|i: int|
                0 <= i < (r->Ok_0)@.len() ==> has_path(self.visible(), (r->Ok_0)@[i]@),
    {
        index_search(&self.index, query)
    }

    /// Fetches the metadata rows as a list.
    pub fn fetch_rows(&self) -> (r: Result<
        Vec<crate::metadata_store::MetaRow>,
        crate::errors::StoreError,
    >)
        ensures
            r is Ok ==> crate::metadata_store::rows_match(self.rows(), (r->Ok_0)@),
    {
        crate::metadata_store::store_fetch_rows(&self.conn)
    }

    /// Starts preparing one loaded file with the service's own
    /// strategies; see `begin_prepare`.
    pub fn begin_prepare(&self, file: &ScannedFile, bytes: &Vec<u8>) -> (r: Preparation)
        ensures
            r is Done ==> {
                &&& (r->Done_0).path@ == file.path@
                &&& (r->Done_0).size == bytes@.len()
                &&& (r->Done_0).consistent()
                &&& ((r->Done_0).outcome is Ok ==> ((r->Done_0).outcome->Ok_0).hash@
                    == blake3_hex_of(bytes@))
            },
            r is NeedsPdfText ==> {
                &&& (r->NeedsPdfText_0).path@ == file.path@
                &&& (r->NeedsPdfText_0).size == bytes@.len()
                &&& (r->NeedsPdfText_0).hash@ == blake3_hex_of(bytes@)
            },
            self.resolver_ok() ==> match spec_resolve(file.path@, bytes@) {
                None => r is Done && (r->Done_0).outcome == Err::<PreparedDoc, FileError>(
                    FileError::Classification,
                ),
                Some(m) => if m == MimeType::ApplicationPdf {
                    r is NeedsPdfText
                } else {
                    r is Done && (match spec_extract(m, bytes@) {
                        Some(text) => (r->Done_0).outcome is Ok && ((
                        r->Done_0).outcome->Ok_0).doc_view() == (DocModel {
                            contents: text,
                            path: file.path@,
                            hash: blake3_hex_of(bytes@),
                        }),
                        None => (r->Done_0).outcome == Err::<PreparedDoc, FileError>(
                            spec_extract_error(m),
                        ),
                    })
                },
            },
    {
        begin_prepare(&self.resolver, &self.hasher, file, bytes)
    }

    /// Takes one prepared-or-failed file through the back half of
    /// ingestion: queue a deletion of the path (so the last writer
    /// wins), queue the document, persist the row, and on a persistence
    /// failure queue the compensating delete. A failed outcome touches
    /// nothing; a path whose UTF-8 form exceeds the engine's term cap is
    /// rejected untouched.
    pub fn apply_outcome(&mut self, size: u64, outcome: Result<PreparedDoc, FileError>) -> (r:
        Result<(), FileError>)
        ensures
            final(self).committed() == old(self).committed(),
            final(self).visible() == old(self).visible(),
            final(self).resolver_ok() == old(self).resolver_ok(),
            outcome is Err ==> {
                &&& r == Err::<(), FileError>(outcome->Err_0)
                &&& final(self).pending() == old(self).pending()
                &&& final(self).rows() == old(self).rows()
            },
            outcome is Ok && encode_utf8((outcome->Ok_0).path@).len() > MAX_PATH_TERM_BYTES ==> {
                &&& r == Err::<(), FileError>(FileError::IndexWrite)
                &&& final(self).pending() == old(self).pending()
                &&& final(self).rows() == old(self).rows()
            },
            outcome is Ok && r is Ok ==> {
                &&& final(self).pending() == old(self).pending().push(
                    IndexOp::DeletePath((outcome->Ok_0).path@),
                ).push(IndexOp::Add((outcome->Ok_0).doc_view()))
                &&& final(self).rows() == old(self).rows().insert(
                    (outcome->Ok_0).path@,
                    RowModel { hash: (outcome->Ok_0).hash@, size },
                )
            },
            outcome is Ok && r is Err ==> {
                &&& final(self).rows() == old(self).rows()
                &&& (r->Err_0 == FileError::IndexWrite && (final(self).pending() == old(
                    self,
                ).pending() || final(self).pending() == old(self).pending().push(
                    IndexOp::DeletePath((outcome->Ok_0).path@),
                ))) || (r->Err_0 == FileError::MetadataWrite && final(self).pending() == old(
                    self,
                ).pending().push(IndexOp::DeletePath((outcome->Ok_0).path@)).push(
                    IndexOp::Add((outcome->Ok_0).doc_view()),
                ).push(IndexOp::DeletePath((outcome->Ok_0).path@)))
            },
    {
        let prepared = match outcome {
            Ok(p) => p,
            Err(e) => {
                return Err(e);
            },
        };
        let path_bytes: usize = prepared.path.as_str().as_bytes().len();
        if path_bytes > MAX_PATH_TERM_BYTES {
            return Err(FileError::IndexWrite);
        }
        index_delete_path(&mut self.index, &prepared.path);
        match index_add_document(
            &mut self.index,
            &prepared.contents,
            &prepared.path,
            &prepared.hash,
        ) {
            Ok(()) => {},
            Err(_) => {
                return Err(FileError::IndexWrite);
            },
        }
        let indexed_at = local_now_string();
        match store_upsert(&mut self.conn, &prepared.path, &prepared.hash, size, &indexed_at) {
            Ok(()) => Ok(()),
            Err(_) => {
                index_delete_path(&mut self.index, &prepared.path);
                Err(FileError::MetadataWrite)
            },
        }
    }

    /// Commits every queued operation and refreshes the reader, making
    /// the batch durable and visible to subsequent searches.
    pub fn commit_batch(&mut self) -> (r: Result<(), BatchError>)
        ensures
            final(self).resolver_ok() == old(self).resolver_ok(),
            final(self).rows() == old(self).rows(),
            r is Ok ==> {
                &&& final(self).committed() == apply_ops(
                    old(self).committed(),
                    old(self).pending(),
                )
                &&& final(self).pending() == Seq::<IndexOp>::empty()
                &&& (final(self).visible() == final(self).committed() || final(self).visible()
                    == old(self).visible())
            },
            r is Err ==> final(self).visible() == old(self).visible(),
    {
        match index_commit(&mut self.index) {
            Ok(()) => {},
            Err(_) => {
                return Err(BatchError::Commit);
            },
        }
        let _ = index_reload(&mut self.index);
        Ok(())
    }

    /// Applies a batch of prepared files in submission order, isolating
    /// per-file failures, then commits once and refreshes the reader.
    /// Returns the failed subset; a commit failure rejects the whole
    /// batch and leaves the visible snapshot where it was.
    pub fn index_files(&mut self, scanned_files: Vec<PreparedFile>) -> (r: Result<
        Vec<ScannedFile>,
        BatchError,
    >)
        ensures
            final(self).resolver_ok() == old(self).resolver_ok(),
            batch_clean(*old(self), scanned_files@) ==> rows_post(
                *old(self),
                *final(self),
                scanned_files@,
            ),
            batch_clean(*old(self), scanned_files@) && r is Ok ==> batch_post(
                *old(self),
                *final(self),
                scanned_files@,
                (r->Ok_0)@,
            ),
            batch_overwrite(*old(self), scanned_files@) && r is Ok && (r->Ok_0)@.len() == 0
                ==> overwrite_post(*old(self), *final(self), scanned_files@),
            batch_reingest(*old(self), scanned_files@) && r is Ok && (r->Ok_0)@.len() == 0
                ==> reingest_post(*old(self), *final(self)),
            r is Err ==> final(self).visible() == old(self).visible(),
    {
        let ghost files0 = scanned_files@;
        let ghost c0 = self.committed();
        let ghost rows0 = self.rows();
        let ghost cb = batch_clean(*old(self), files0);
        let ghost cw = batch_overwrite(*old(self), files0);
        let ghost cr = batch_reingest(*old(self), files0);
        let ghost mut succ: Seq<DocModel> = Seq::empty();
        let ghost mut net: Seq<DocModel> = c0;
        let mut inputs = scanned_files;
        let mut failed: Vec<ScannedFile> = Vec::new();
        let n: usize = inputs.len();
        let mut i: usize = 0;
        proof {
            assert(c0 + succ =~= c0);
            assert(inputs@ =~= files0.subrange(0, n as int));
        }
        while inputs.len() > 0
            invariant
                n == files0.len(),
                i + inputs@.len() == n,
                i <= n,
                inputs@ == files0.subrange(i as int, n as int),
                cb == batch_clean(*old(self), files0),
                cw == batch_overwrite(*old(self), files0),
                cr == batch_reingest(*old(self), files0),
                self.committed() == old(self).committed(),
                self.visible() == old(self).visible(),
                self.resolver_ok() == old(self).resolver_ok(),
                c0 == old(self).committed(),
                rows0 == old(self).rows(),
                cb ==> apply_ops(c0, self.pending()) == c0 + succ,
                cb ==> joined(c0 + succ, self.rows()),
                cb ==> forall|p: Seq<char>|
                    #[trigger] has_path(succ, p) ==> exists|m: int|
                        0 <= m < i && (#[trigger] files0[m]).path@ == p,
                cb ==> forall|p: Seq<char>|
                    #[trigger] path_in_failed(failed@, p) ==> exists|m: int|
                        0 <= m < i && (#[trigger] files0[m]).path@ == p,
                cb ==> failed_in_order(files0, failed@),
                cb ==> forall|j: int|
                    0 <= j < failed@.len() ==> 0 <= input_index(
                        files0,
                        (#[trigger] failed@[j]).path@,
                    ) < i,
                cb ==> forall|m: int|
                    0 <= m < i && (#[trigger] files0[m]).outcome is Err ==> path_in_failed(
                        failed@,
                        files0[m].path@,
                    ),
                cb ==> forall|m: int|
                    0 <= m < i && path_in_failed(failed@, (#[trigger] files0[m]).path@)
                        ==> !self.rows().dom().contains(files0[m].path@) && !has_path(
                        c0 + succ,
                        files0[m].path@,
                    ),
                cb ==> forall|m: int|
                    0 <= m < i && !path_in_failed(failed@, (#[trigger] files0[m]).path@) ==> {
                        &&& files0[m].outcome is Ok
                        &&& self.rows().dom().contains(files0[m].path@)
                        &&& self.rows()[files0[m].path@] == (RowModel {
                            hash: ((files0[m].outcome)->Ok_0).hash@,
                            size: files0[m].size,
                        })
                        &&& docs_with_path(succ, files0[m].path@) == seq![
                            ((files0[m].outcome)->Ok_0).doc_view(),
                        ]
                    },
                cb ==> forall|p: Seq<char>|
                    #[trigger] self.rows().contains_key(p) ==> rows0.contains_key(p) || exists|
                        m: int,
                    |
                        0 <= m < i && (#[trigger] files0[m]).path@ == p,
                cb ==> forall|p: Seq<char>|
                    #[trigger] rows0.contains_key(p) ==> self.rows().contains_key(p)
                        && self.rows()[p] == rows0[p],
                cw && failed@.len() == 0 ==> apply_ops(c0, self.pending()) == net,
                cw && failed@.len() == 0 ==> joined(net, self.rows()),
                cw && failed@.len() == 0 ==> forall|m: int|
                    0 <= m < i ==> {
                        &&& self.rows().dom().contains((#[trigger] files0[m]).path@)
                        &&& self.rows()[files0[m].path@] == (RowModel {
                            hash: ((files0[m].outcome)->Ok_0).hash@,
                            size: files0[m].size,
                        })
                        &&& docs_with_path(net, files0[m].path@) == seq![
                            ((files0[m].outcome)->Ok_0).doc_view(),
                        ]
                    },
                cw && failed@.len() == 0 ==> forall|p: Seq<char>|
                    (#[trigger] docs_with_path(net, p)) == docs_with_path(c0, p) || exists|m: int|
                        0 <= m < i && (#[trigger] files0[m]).path@ == p,
                cw && failed@.len() == 0 ==> forall|p: Seq<char>|
                    #[trigger] self.rows().contains_key(p) ==> rows0.contains_key(p) || exists|
                        m: int,
                    |
                        0 <= m < i && (#[trigger] files0[m]).path@ == p,
                cw && failed@.len() == 0 ==> forall|p: Seq<char>|
                    #[trigger] rows0.contains_key(p) ==> self.rows().contains_key(p) && (
                    self.rows()[p] == rows0[p] || exists|m: int|
                        0 <= m < i && (#[trigger] files0[m]).path@ == p),
            decreases inputs@.len(),
        {
            let ghost pre_rows = self.rows();
            let ghost pre_pending = self.pending();
            let ghost pre_failed = failed@;
            let ghost pre_net = net;
            let ghost cur_g = files0[i as int];
            let cur = inputs.remove(0);
            proof {
                assert(cur == files0[i as int]);
                assert(inputs@ =~= files0.subrange(i + 1, n as int));
                if cb {
                    // The current path differs from every already processed one,
                    // so the two stores are still clean of it.
                    assert forall|m: int| 0 <= m < i implies (#[trigger] files0[m]).path@
                        != cur_g.path@ by {
                        assert(batch_clean(*old(self), files0));
                    }
                    assert(!pre_rows.contains_key(cur_g.path@));
                    assert(!has_path(c0, cur_g.path@));
                    assert(!has_path(succ, cur_g.path@));
                    crate::model::lemma_has_path_concat(c0, succ, cur_g.path@);
                }
            }
            let PreparedFile { path, size, outcome } = cur;
            let res = self.apply_outcome(size, outcome);
            match res {
                Ok(()) => {
                    proof {
                        let d = ((cur_g.outcome)->Ok_0).doc_view();
                        let p = cur_g.path@;
                        if cb || (cw && pre_failed.len() == 0) {
                            assert(cur_g.consistent());
                            assert(d.path == p);
                            crate::model::lemma_apply_ops_push(
                                c0,
                                pre_pending,
                                IndexOp::DeletePath(p),
                            );
                            crate::model::lemma_apply_ops_push(
                                c0,
                                pre_pending.push(IndexOp::DeletePath(p)),
                                IndexOp::Add(d),
                            );
                        }
                        if cb {
                            crate::model::lemma_delete_absent_path(c0 + succ, p);
                            assert((c0 + succ).push(d) =~= c0 + succ.push(d));
                            crate::model::lemma_joined_insert(c0 + succ, pre_rows, d, cur_g.size);
                            crate::model::lemma_docs_with_path_absent(succ, p);
                            assert forall|q: Seq<char>| #[trigger] has_path(succ.push(d), q) == (
                            has_path(succ, q) || d.path == q) by {
                                crate::model::lemma_has_path_push(succ, d, q);
                            }
                            assert forall|q: Seq<char>|
                                q != d.path implies #[trigger] docs_with_path(succ.push(d), q)
                                == docs_with_path(succ, q) by {
                                crate::model::lemma_docs_with_path_push(succ, d, q);
                            }
                            crate::model::lemma_docs_with_path_push(succ, d, p);
                            assert(docs_with_path(succ.push(d), p) =~= seq![d]);
                            succ = succ.push(d);
                        }
                        if cw && pre_failed.len() == 0 {
                            crate::model::lemma_joined_overwrite(pre_net, pre_rows, d, cur_g.size);
                            assert forall|q: Seq<char>|
                                (#[trigger] docs_with_path(
                                    apply_op(apply_op(pre_net, IndexOp::DeletePath(p)), IndexOp::Add(d)),
                                    q,
                                )) == if q == p {
                                    seq![d]
                                } else {
                                    docs_with_path(pre_net, q)
                                } by {
                                crate::model::lemma_dwp_delete(pre_net, p, q);
                                crate::model::lemma_docs_with_path_push(
                                    apply_op(pre_net, IndexOp::DeletePath(p)),
                                    d,
                                    q,
                                );
                                if q == p {
                                    assert(Seq::<DocModel>::empty().push(d) =~= seq![d]);
                                }
                            }
                            assert forall|m: int| 0 <= m < i implies (#[trigger] files0[m]).path@
                                != p by {
                                assert(batch_wf(files0));
                            }
                            net = apply_op(apply_op(pre_net, IndexOp::DeletePath(p)), IndexOp::Add(d));
                        }
                    }
                },
                Err(_) => {
                    failed.push(ScannedFile { path });
                    proof {
                        if cb {
                            let d = ((cur_g.outcome)->Ok_0).doc_view();
                            let p = cur_g.path@;
                            if self.pending() == pre_pending {
                            } else if self.pending() == pre_pending.push(IndexOp::DeletePath(p)) {
                                crate::model::lemma_apply_ops_push(
                                    c0,
                                    pre_pending,
                                    IndexOp::DeletePath(p),
                                );
                                crate::model::lemma_delete_absent_path(c0 + succ, p);
                            } else {
                                assert(cur_g.consistent());
                                assert(d.path == p);
                                crate::model::lemma_apply_ops_push(
                                    c0,
                                    pre_pending,
                                    IndexOp::DeletePath(p),
                                );
                                crate::model::lemma_apply_ops_push(
                                    c0,
                                    pre_pending.push(IndexOp::DeletePath(p)),
                                    IndexOp::Add(d),
                                );
                                crate::model::lemma_apply_ops_push(
                                    c0,
                                    pre_pending.push(IndexOp::DeletePath(p)).push(IndexOp::Add(d)),
                                    IndexOp::DeletePath(p),
                                );
                                crate::model::lemma_delete_absent_path(c0 + succ, p);
                                crate::model::lemma_add_then_delete(c0 + succ, d);
                            }
                            assert(apply_ops(c0, self.pending()) == c0 + succ);
                            assert(failed@ == pre_failed.push(ScannedFile { path: cur_g.path }));
                            lemma_failed_push(pre_failed, ScannedFile { path: cur_g.path });
                            // The new entry's input position is exactly i.
                            assert(files0[i as int].path@ == cur_g.path@);
                            assert forall|m: int|
                                0 <= m < files0.len() && (#[trigger] files0[m]).path@
                                    == cur_g.path@ implies m == i by {
                                assert(batch_clean(*old(self), files0));
                            }
                            let ii = input_index(files0, cur_g.path@);
                            assert(0 <= ii < files0.len() && files0[ii].path@ == cur_g.path@);
                            assert(ii == i);
                        }
                    }
                },
            }
            i = i + 1;
        }
        proof {
            assert(files0.subrange(0, n as int) =~= files0);
        }
        let ghost pre_commit_rows = self.rows();
        match index_commit(&mut self.index) {
            Ok(()) => {},
            Err(_) => {
                return Err(BatchError::Commit);
            },
        }
        let _ = index_reload(&mut self.index);
        proof {
            assert(self.rows() == pre_commit_rows);
            if cb {
                assert(self.committed() == c0 + succ);
                assert(self.committed().subrange(0, c0.len() as int) =~= c0);
                assert(c0.len() <= self.committed().len());
                assert forall|m: int| 0 <= m < n implies has_path(
                    self.committed(),
                    (#[trigger] files0[m]).path@,
                ) == (has_path(c0, files0[m].path@) || has_path(succ, files0[m].path@)) by {
                    crate::model::lemma_has_path_concat(c0, succ, files0[m].path@);
                }
                assert forall|m: int|
                    0 <= m < n && !path_in_failed(
                        failed@,
                        (#[trigger] files0[m]).path@,
                    ) implies docs_with_path(self.committed(), files0[m].path@) == seq![
                    ((files0[m].outcome)->Ok_0).doc_view(),
                ] by {
                    crate::model::lemma_docs_with_path_concat(c0, succ, files0[m].path@);
                    crate::model::lemma_docs_with_path_absent(c0, files0[m].path@);
                    assert(Seq::<DocModel>::empty() + docs_with_path(succ, files0[m].path@)
                        =~= docs_with_path(succ, files0[m].path@));
                }
                // Every document beyond the old prefix carries an input path.
                assert forall|k: int|
                    c0.len() <= k < self.committed().len() implies exists|i2: int|
                    0 <= i2 < files0.len() && (#[trigger] self.committed()[k]).path
                        == files0[i2].path@ by {
                    let j = k - c0.len();
                    assert(self.committed()[k] == succ[j]);
                    assert(has_path(succ, succ[j].path));
                }
            }
            if cw && failed@.len() == 0 {
                assert(self.committed() == net);
            }
            if cr && failed@.len() == 0 {
                assert(cw);
                // Re-ingestion: every insert wrote back the row its path
                // already held, so the rows are untouched.
                assert forall|p: Seq<char>| #[trigger] self.rows().contains_key(p)
                    == rows0.contains_key(p) by {
                    if self.rows().contains_key(p) && !rows0.contains_key(p) {
                        let m = choose|m: int|
                            0 <= m < n && (#[trigger] files0[m]).path@ == p;
                        assert(rows0.contains_key(files0[m].path@));
                    }
                }
                assert forall|p: Seq<char>| #[trigger] rows0.contains_key(p) implies self.rows()[p]
                    == rows0[p] by {
                    if self.rows()[p] != rows0[p] {
                        let m = choose|m: int|
                            0 <= m < n && (#[trigger] files0[m]).path@ == p;
                        assert(self.rows()[files0[m].path@] == (RowModel {
                            hash: ((files0[m].outcome)->Ok_0).hash@,
                            size: files0[m].size,
                        }));
                        assert(rows0[files0[m].path@] == (RowModel {
                            hash: ((files0[m].outcome)->Ok_0).hash@,
                            size: files0[m].size,
                        }));
                    }
                }
                assert(self.rows() =~= rows0);
                // The live pairs are unchanged: every input path's documents
                // carried the row's hash before and carry it after.
                assert forall|pr: (Seq<char>, Seq<char>)| #[trigger] pair_set(
                    self.committed(),
                ).contains(pr) == pair_set(c0).contains(pr) by {
                    crate::model::lemma_pair_via_dwp(self.committed(), pr);
                    crate::model::lemma_pair_via_dwp(c0, pr);
                    if exists|m: int| 0 <= m < n && (#[trigger] files0[m]).path@ == pr.0 {
                        let m = choose|m: int|
                            0 <= m < n && (#[trigger] files0[m]).path@ == pr.0;
                        let d = ((files0[m].outcome)->Ok_0).doc_view();
                        let h = rows0[pr.0].hash;
                        assert(h == d.hash);
                        assert(docs_with_path(self.committed(), pr.0) == seq![d]);
                        // New side: the pair is live exactly when it is the
                        // row's hash.
                        if pair_set(self.committed()).contains(pr) {
                            let j = choose|j: int|
                                0 <= j < docs_with_path(self.committed(), pr.0).len() && (
                                #[trigger] docs_with_path(self.committed(), pr.0)[j]).hash == pr.1;
                            assert(pr.1 == d.hash);
                        }
                        // Old side, forward: any live pair of this path has the
                        // row's hash, by the join invariant.
                        if pair_set(c0).contains(pr) {
                            let w = choose|w: int|
                                0 <= w < c0.len() && c0[w].path == pr.0 && c0[w].hash == pr.1;
                            assert(crate::model::doc_rowed(rows0, c0[w]));
                            assert(pr.1 == h);
                        }
                        // Old side, backward: the row's pair was live.
                        if pr.1 == h {
                            assert(rows0.dom().contains(pr.0));
                            assert(crate::model::row_doced(c0, pr.0, rows0[pr.0]));
                            let w = choose|w: int|
                                0 <= w < c0.len() && c0[w].path == pr.0 && c0[w].hash
                                    == rows0[pr.0].hash;
                            assert(pair_set(c0).contains(pr));
                            assert(docs_with_path(self.committed(), pr.0)[0].hash == pr.1);
                            assert(pair_set(self.committed()).contains(pr));
                        }
                    } else {
                        assert(docs_with_path(self.committed(), pr.0) == docs_with_path(c0, pr.0));
                    }
                }
                assert(pair_set(self.committed()) =~= pair_set(c0));
            }
        }
        Ok(failed)
    }
}

} // verus!
