//! Laws the pipeline obeys beyond the function contracts themselves.

use vstd::prelude::*;

use crate::model::{apply_op, DocModel, IndexOp, RowModel};

verus! {

/// The distinct documents among the live ones: duplicates of the same
/// `(contents, path, hash)` document do not enlarge it.
pub open spec fn doc_set(docs: Seq<DocModel>) -> Set<DocModel> {
    Set::new(|d: DocModel| docs.contains(d))
}

/// Idempotence of re-ingestion. The authoritative hash is a function of
/// the bytes alone, so an unchanged file hashes to the same value; this
/// lemma adds the storage side: when the metadata row for the path
/// already holds that hash and size, the upsert leaves the row map
/// unchanged, and re-adding the identical document leaves the set of
/// live documents — hence the set of `(path, hash)` pairs — unchanged.
pub proof fn lemma_reingest_unchanged(
    docs: Seq<DocModel>,
    rows: Map<Seq<char>, RowModel>,
    d: DocModel,
    size: u64,
)
    requires
        docs.contains(d),
        rows.contains_key(d.path),
        rows[d.path] == (RowModel { hash: d.hash, size }),
    ensures
        rows.insert(d.path, RowModel { hash: d.hash, size }) == rows,
        doc_set(apply_op(docs, IndexOp::Add(d))) == doc_set(docs),
{
    assert(rows.insert(d.path, RowModel { hash: d.hash, size }) =~= rows);
    let pushed = docs.push(d);
    assert forall|x: DocModel| #[trigger] pushed.contains(x) == docs.contains(x) by {
        if pushed.contains(x) {
            let i = choose|i: int| 0 <= i < pushed.len() && pushed[i] == x;
            if i < docs.len() {
                assert(docs[i] == x);
            } else {
                assert(x == d);
            }
        }
        if docs.contains(x) {
            let i = choose|i: int| 0 <= i < docs.len() && docs[i] == x;
            assert(pushed[i] == x);
        }
    }
    assert(doc_set(pushed) =~= doc_set(docs));
}

} // verus!
