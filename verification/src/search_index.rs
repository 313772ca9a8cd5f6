//! The inverted index: an append-only full-text index over
//! `(contents, path, hash)` documents, held behind the index engine. Its
//! state is modeled as the committed documents, the queue of pending
//! operations, and the documents the reader currently sees. The reader is
//! reloaded explicitly, so its view moves only at `refresh`.

use vstd::prelude::*;

use vstd::utf8::encode_utf8;

use tantivy::collector::TopDocs;
use tantivy::directory::MmapDirectory;
use tantivy::query::QueryParser;
use tantivy::schema::{Value, FAST, STORED, STRING, TEXT};
use tantivy::{Index, ReloadPolicy, TantivyDocument, Term};

use crate::errors::{IndexError, SearchError};
use crate::model::{apply_ops, has_path, DocModel, IndexOp};

verus! {

/// The handle over the index engine: index, single writer, reader, and
/// the three schema fields.
#[verifier::external_body]
pub struct SearchIndex {
    index: tantivy::Index,
    writer: tantivy::IndexWriter,
    reader: tantivy::IndexReader,
    contents_field: tantivy::schema::Field,
    path_field: tantivy::schema::Field,
    hash_field: tantivy::schema::Field,
}

/// The documents made durable by the last successful commit.
pub uninterp spec fn committed_docs(ix: SearchIndex) -> Seq<DocModel>;

/// The operations queued since the last commit, in order.
pub uninterp spec fn pending_ops(ix: SearchIndex) -> Seq<IndexOp>;

/// The documents the reader's current snapshot sees.
pub uninterp spec fn visible_docs(ix: SearchIndex) -> Seq<DocModel>;

/// The stored paths a query returns against the reader's snapshot, in
/// result order. Determined by the index state and the query string.
pub uninterp spec fn search_hits(ix: SearchIndex, query: Seq<char>) -> Seq<Seq<char>>;

/// The memory budget of the single writer: one gibibyte.
pub(crate) const WRITER_MEMORY_BUDGET: usize = 1_073_741_824;

/// The longest term, in UTF-8 bytes, the engine will index. A longer
/// token is stored but dropped from the postings, so a path above this
/// bound could never be matched by a point deletion; the add and delete
/// wrappers therefore refuse it.
pub const MAX_PATH_TERM_BYTES: usize = 65530;

/// Relies on tantivy's `SchemaBuilder` (three text fields: `contents`
/// tokenized, indexed and stored; `hash` stored and fast; `path` stored
/// and raw-indexed, so a whole path is one term and point deletion by
/// path can match it), `MmapDirectory::open`, `Index::open_or_create`,
/// `Index::writer`, and a reader built with manual reload. A fresh
/// writer has no pending operations, and a fresh reader sees the
/// committed documents.
#[verifier::external_body]
pub(crate) fn index_open_dir(dir: &String) -> (r: Result<SearchIndex, IndexError>)
    ensures
        r is Ok ==> pending_ops(r->Ok_0) == Seq::<IndexOp>::empty() && visible_docs(r->Ok_0)
            == committed_docs(r->Ok_0),
{
    let mut b = tantivy::schema::Schema::builder();
    let contents_field = b.add_text_field("contents", TEXT | STORED);
    let hash_field = b.add_text_field("hash", STORED | FAST);
    let path_field = b.add_text_field("path", STRING | STORED);
    let dir = MmapDirectory::open(dir.as_str()).map_err(|_| IndexError::Open)?;
    let index = Index::open_or_create(dir, b.build()).map_err(|_| IndexError::Open)?;
    let writer = index.writer(WRITER_MEMORY_BUDGET).map_err(|_| IndexError::Open)?;
    let reader = index.reader_builder().reload_policy(ReloadPolicy::Manual).try_into().map_err(|_| IndexError::Open)?;
    Ok(SearchIndex { index, writer, reader, contents_field, path_field, hash_field })
}

/// Relies on `Index::create_in_ram` and the same writer and reader setup:
/// a fresh in-memory index is empty in every respect.
#[verifier::external_body]
pub(crate) fn index_open_ram() -> (r: Result<SearchIndex, IndexError>)
    ensures
        r is Ok ==> committed_docs(r->Ok_0) == Seq::<DocModel>::empty() && pending_ops(r->Ok_0)
            == Seq::<IndexOp>::empty() && visible_docs(r->Ok_0) == Seq::<DocModel>::empty(),
{
    let mut b = tantivy::schema::Schema::builder();
    let contents_field = b.add_text_field("contents", TEXT | STORED);
    let hash_field = b.add_text_field("hash", STORED | FAST);
    let path_field = b.add_text_field("path", STRING | STORED);
    let index = Index::create_in_ram(b.build());
    let writer = index.writer(WRITER_MEMORY_BUDGET).map_err(|_| IndexError::Open)?;
    let reader = index.reader_builder().reload_policy(ReloadPolicy::Manual).try_into().map_err(|_| IndexError::Open)?;
    Ok(SearchIndex { index, writer, reader, contents_field, path_field, hash_field })
}

/// Relies on `IndexWriter::add_document`, with the document assembled by
/// `TantivyDocument::add_text` on the three fields: on success the add is
/// queued; on error it was not accepted. Nothing becomes visible or
/// durable before commit.
#[verifier::external_body]
pub(crate) fn index_add_document(
    ix: &mut SearchIndex,
    contents: &String,
    path: &String,
    hash: &String,
) -> (r: Result<(), IndexError>)
    requires
        encode_utf8(path@).len() <= MAX_PATH_TERM_BYTES,
    ensures
        r is Ok ==> pending_ops(*final(ix)) == pending_ops(*old(ix)).push(
            IndexOp::Add(DocModel { contents: contents@, path: path@, hash: hash@ }),
        ),
        r is Err ==> pending_ops(*final(ix)) == pending_ops(*old(ix)),
        committed_docs(*final(ix)) == committed_docs(*old(ix)),
        visible_docs(*final(ix)) == visible_docs(*old(ix)),
{
    let mut doc = TantivyDocument::new();
    doc.add_text(ix.contents_field, contents.as_str());
    doc.add_text(ix.path_field, path.as_str());
    doc.add_text(ix.hash_field, hash.as_str());
    ix.writer.add_document(doc).map(|_| ()).map_err(|_| IndexError::Write)
}

/// Relies on `Term::from_field_text` and `IndexWriter::delete_term`: it
/// queues deletion of every document whose `path` field holds `path`,
/// affecting documents added before it in operation order. The `path`
/// field is raw-indexed (see the open wrappers), so the whole path is a
/// term this deletion matches.
#[verifier::external_body]
pub(crate) fn index_delete_path(ix: &mut SearchIndex, path: &String)
    requires
        encode_utf8(path@).len() <= MAX_PATH_TERM_BYTES,
    ensures
        pending_ops(*final(ix)) == pending_ops(*old(ix)).push(IndexOp::DeletePath(path@)),
        committed_docs(*final(ix)) == committed_docs(*old(ix)),
        visible_docs(*final(ix)) == visible_docs(*old(ix)),
{
    let term = Term::from_field_text(ix.path_field, path.as_str());
    ix.writer.delete_term(term);
}

/// Relies on `IndexWriter::commit`: on success every queued operation is
/// applied in order, durably and atomically for subsequent readers. The
/// engine drops a term longer than its cap from the postings, which the
/// add and delete wrappers' precondition on the path term excludes, so a
/// queued path deletion matches every document carrying that path. The
/// reader is on manual reload, so its view does not move here.
#[verifier::external_body]
pub(crate) fn index_commit(ix: &mut SearchIndex) -> (r: Result<(), IndexError>)
    ensures
        r is Ok ==> committed_docs(*final(ix)) == apply_ops(
            committed_docs(*old(ix)),
            pending_ops(*old(ix)),
        ) && pending_ops(*final(ix)) == Seq::<IndexOp>::empty(),
        visible_docs(*final(ix)) == visible_docs(*old(ix)),
{
    ix.writer.commit().map(|_| ()).map_err(|_| IndexError::Commit)
}

/// Relies on `IndexReader::reload`: on success the reader's snapshot
/// becomes the last committed state.
#[verifier::external_body]
pub(crate) fn index_reload(ix: &mut SearchIndex) -> (r: Result<(), IndexError>)
    ensures
        r is Ok ==> visible_docs(*final(ix)) == committed_docs(*old(ix)),
        r is Err ==> visible_docs(*final(ix)) == visible_docs(*old(ix)),
        committed_docs(*final(ix)) == committed_docs(*old(ix)),
        pending_ops(*final(ix)) == pending_ops(*old(ix)),
{
    ix.reader.reload().map_err(|_| IndexError::Reload)
}

/// Relies on `Searcher::num_docs`: how many live documents the reader's
/// snapshot holds.
#[verifier::external_body]
pub(crate) fn index_doc_count(ix: &SearchIndex) -> (r: u64)
    ensures
        r == visible_docs(*ix).len(),
{
    ix.reader.searcher().num_docs()
}

/// Relies on `QueryParser::for_index` and `parse_query` over the
/// `contents` field, `Searcher::search` under `TopDocs::with_limit(1000)`,
/// `Searcher::doc`, and `TantivyDocument::get_all` on the `path` field:
/// the hits are determined by the reader's snapshot and the query, and
/// every returned path is a stored path of a snapshot document. Every
/// document this library writes stores exactly one path, and the model
/// reads the snapshot that way, so at most the 1000 collected documents
/// contribute one hit each.
#[verifier::external_body]
pub(crate) fn index_search(ix: &SearchIndex, query: &String) -> (r: Result<Vec<String>, SearchError>)
    ensures
        r is Ok ==> (r->Ok_0)@.map_values(|s: String| s@) == search_hits(*ix, query@),
        r is Ok ==> (r->Ok_0)@.len() <= 1000,
        r is Ok ==> forall|i: int|
            0 <= i < (r->Ok_0)@.len() ==> has_path(visible_docs(*ix), (r->Ok_0)@[i]@),
{
    let searcher = ix.reader.searcher();
    let parser = QueryParser::for_index(&ix.index, vec![ix.contents_field]);
    let query = parser.parse_query(query.as_str()).map_err(|_| SearchError::Parse)?;
    let top = searcher.search(&query, &TopDocs::with_limit(1000).order_by_score()).map_err(|_| SearchError::Execute)?;
    let mut out: Vec<String> = Vec::new();
    for (_score, addr) in top {
        let doc: TantivyDocument = searcher.doc(addr).map_err(|_| SearchError::Execute)?;
        for value in doc.get_all(ix.path_field) {
            if let Some(s) = value.as_str() {
                out.push(s.to_string());
            }
        }
    }
    Ok(out)
}

} // verus!
