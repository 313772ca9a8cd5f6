//! The mathematical model of the two persisted stores: the inverted index
//! as a sequence of live documents plus a queue of pending operations, and
//! the metadata store as a map from path to row. The join invariant ties
//! the two together.

use vstd::prelude::*;

verus! {

/// One live document of the inverted index.
pub struct DocModel {
    pub contents: Seq<char>,
    pub path: Seq<char>,
    pub hash: Seq<char>,
}

/// One row of the metadata table, keyed by its path.
pub struct RowModel {
    pub hash: Seq<char>,
    pub size: u64,
}

/// One queued index operation: an appended document, or a deletion of
/// every document carrying a path.
pub enum IndexOp {
    Add(DocModel),
    DeletePath(Seq<char>),
}

/// The effect of one queued operation on the live documents.
pub open spec fn apply_op(docs: Seq<DocModel>, op: IndexOp) -> Seq<DocModel> {
    match op {
        IndexOp::Add(d) => docs.push(d),
        IndexOp::DeletePath(p) => docs.filter(|d: DocModel| d.path != p),
    }
}

/// The effect of a queue of operations, applied in order.
pub open spec fn apply_ops(docs: Seq<DocModel>, ops: Seq<IndexOp>) -> Seq<DocModel>
    decreases ops.len(),
{
    if ops.len() == 0 {
        docs
    } else {
        apply_ops(apply_op(docs, ops.first()), ops.drop_first())
    }
}

/// Some live document carries path `p`.
pub open spec fn has_path(docs: Seq<DocModel>, p: Seq<char>) -> bool {
    exists|i: int| 0 <= i < docs.len() && docs[i].path == p
}

/// The metadata row for the document's path exists and records the
/// document's hash.
pub open spec fn doc_rowed(rows: Map<Seq<char>, RowModel>, d: DocModel) -> bool {
    rows.dom().contains(d.path) && rows[d.path].hash == d.hash
}

/// Some live document carries path `p` and the row's hash.
pub open spec fn row_doced(docs: Seq<DocModel>, p: Seq<char>, r: RowModel) -> bool {
    exists|i: int| 0 <= i < docs.len() && docs[i].path == p && docs[i].hash == r.hash
}

/// The join invariant: every live document has a metadata row with the
/// same path and hash, and every metadata row has such a live document.
pub open spec fn joined(docs: Seq<DocModel>, rows: Map<Seq<char>, RowModel>) -> bool {
    &&& forall|i: int| 0 <= i < docs.len() ==> doc_rowed(rows, #[trigger] docs[i])
    &&& forall|p: Seq<char>| #[trigger] rows.dom().contains(p) ==> row_doced(docs, p, rows[p])
}

/// Applying a queue extended by one operation is applying the queue, then
/// that operation.
pub proof fn lemma_apply_ops_push(docs: Seq<DocModel>, ops: Seq<IndexOp>, op: IndexOp)
    ensures
        apply_ops(docs, ops.push(op)) == apply_op(apply_ops(docs, ops), op),
    decreases ops.len(),
{
    if ops.len() == 0 {
        assert(ops.push(op).drop_first() =~= Seq::<IndexOp>::empty());
        assert(ops.push(op).first() == op);
        assert(apply_ops(apply_op(docs, op), Seq::<IndexOp>::empty()) == apply_op(docs, op));
        assert(apply_ops(docs, ops) == docs);
    } else {
        assert(ops.push(op).first() == ops.first());
        assert(ops.push(op).drop_first() =~= ops.drop_first().push(op));
        lemma_apply_ops_push(apply_op(docs, ops.first()), ops.drop_first(), op);
        assert(apply_ops(docs, ops.push(op)) == apply_ops(
            apply_op(docs, ops.first()),
            ops.drop_first().push(op),
        ));
        assert(apply_ops(docs, ops) == apply_ops(apply_op(docs, ops.first()), ops.drop_first()));
    }
}

/// A filter that keeps every element changes nothing.
pub proof fn lemma_filter_all_kept(docs: Seq<DocModel>, pred: spec_fn(DocModel) -> bool)
    requires
        forall|i: int| 0 <= i < docs.len() ==> pred(#[trigger] docs[i]),
    ensures
        docs.filter(pred) == docs,
    decreases docs.len(),
{
    reveal(Seq::filter);
    if docs.len() != 0 {
        assert(docs.drop_last().len() == docs.len() - 1);
        assert(forall|i: int|
            0 <= i < docs.drop_last().len() ==> pred(#[trigger] docs.drop_last()[i]));
        lemma_filter_all_kept(docs.drop_last(), pred);
        assert(docs.filter(pred) =~= docs);
    } else {
        assert(docs.filter(pred) =~= docs);
    }
}

/// Deleting a path no live document carries changes nothing.
pub proof fn lemma_delete_absent_path(docs: Seq<DocModel>, p: Seq<char>)
    requires
        !has_path(docs, p),
    ensures
        apply_op(docs, IndexOp::DeletePath(p)) == docs,
{
    assert(forall|i: int| 0 <= i < docs.len() ==> (#[trigger] docs[i]).path != p);
    lemma_filter_all_kept(docs, |d: DocModel| d.path != p);
}

/// Adding a document and then deleting its path, when no live document
/// carries that path, restores the live documents.
pub proof fn lemma_add_then_delete(docs: Seq<DocModel>, d: DocModel)
    requires
        !has_path(docs, d.path),
    ensures
        apply_op(apply_op(docs, IndexOp::Add(d)), IndexOp::DeletePath(d.path)) == docs,
{
    reveal(Seq::filter);
    let pushed = docs.push(d);
    assert(pushed.drop_last() =~= docs);
    assert(pushed.last() == d);
    lemma_delete_absent_path(docs, d.path);
}

/// The `(path, hash)` pairs the live documents carry.
pub open spec fn pair_set(docs: Seq<DocModel>) -> Set<(Seq<char>, Seq<char>)> {
    Set::new(
        |pr: (Seq<char>, Seq<char>)|
            exists|i: int| 0 <= i < docs.len() && docs[i].path == pr.0 && docs[i].hash == pr.1,
    )
}

/// The live documents carrying path `p`, in order.
pub open spec fn docs_with_path(docs: Seq<DocModel>, p: Seq<char>) -> Seq<DocModel> {
    docs.filter(|d: DocModel| d.path == p)
}

/// How a push changes the documents of one path.
pub proof fn lemma_docs_with_path_push(docs: Seq<DocModel>, d: DocModel, p: Seq<char>)
    ensures
        docs_with_path(docs.push(d), p) == if d.path == p {
            docs_with_path(docs, p).push(d)
        } else {
            docs_with_path(docs, p)
        },
{
    reveal(Seq::filter);
    assert(docs.push(d).drop_last() =~= docs);
    assert(docs.push(d).last() == d);
}

/// A path no document carries filters to nothing.
pub proof fn lemma_docs_with_path_absent(docs: Seq<DocModel>, p: Seq<char>)
    requires
        !has_path(docs, p),
    ensures
        docs_with_path(docs, p) == Seq::<DocModel>::empty(),
    decreases docs.len(),
{
    reveal(Seq::filter);
    if docs.len() == 0 {
        assert(docs_with_path(docs, p) =~= Seq::<DocModel>::empty());
    } else {
        assert(forall|i: int| 0 <= i < docs.len() ==> (#[trigger] docs[i]).path != p);
        assert(forall|i: int|
            0 <= i < docs.drop_last().len() ==> (#[trigger] docs.drop_last()[i]).path != p);
        lemma_docs_with_path_absent(docs.drop_last(), p);
        assert(docs.last().path != p);
    }
}

/// Filtering by path distributes over concatenation.
pub proof fn lemma_docs_with_path_concat(a: Seq<DocModel>, b: Seq<DocModel>, p: Seq<char>)
    ensures
        docs_with_path(a + b, p) == docs_with_path(a, p) + docs_with_path(b, p),
    decreases b.len(),
{
    reveal(Seq::filter);
    if b.len() == 0 {
        assert(a + b =~= a);
        assert(docs_with_path(b, p) =~= Seq::<DocModel>::empty());
        assert(docs_with_path(a, p) + docs_with_path(b, p) =~= docs_with_path(a, p));
    } else {
        lemma_docs_with_path_concat(a, b.drop_last(), p);
        lemma_docs_with_path_push(a + b.drop_last(), b.last(), p);
        assert((a + b.drop_last()).push(b.last()) =~= a + b);
        lemma_docs_with_path_push(b.drop_last(), b.last(), p);
        assert(b.drop_last().push(b.last()) =~= b);
        if b.last().path == p {
            assert(docs_with_path(a, p) + docs_with_path(b.drop_last(), p).push(b.last())
                =~= (docs_with_path(a, p) + docs_with_path(b.drop_last(), p)).push(b.last()));
        }
    }
}

/// Every filtered document is one of the originals.
pub proof fn lemma_filter_subset(docs: Seq<DocModel>, pred: spec_fn(DocModel) -> bool)
    ensures
        forall|j: int|
            0 <= j < docs.filter(pred).len() ==> exists|i: int|
                0 <= i < docs.len() && docs[i] == #[trigger] docs.filter(pred)[j],
    decreases docs.len(),
{
    reveal(Seq::filter);
    if docs.len() > 0 {
        let t = docs.drop_last();
        lemma_filter_subset(t, pred);
        assert forall|j: int| 0 <= j < docs.filter(pred).len() implies exists|i: int|
            0 <= i < docs.len() && docs[i] == #[trigger] docs.filter(pred)[j] by {
            if pred(docs.last()) {
                assert(docs.filter(pred) == t.filter(pred).push(docs.last()));
                if j < t.filter(pred).len() {
                    assert(docs.filter(pred)[j] == t.filter(pred)[j]);
                    let i = choose|i: int| 0 <= i < t.len() && t[i] == t.filter(pred)[j];
                    assert(docs[i] == t[i]);
                } else {
                    assert(docs.filter(pred)[j] == docs.last());
                    assert(docs[docs.len() - 1] == docs.last());
                }
            } else {
                assert(docs.filter(pred) == t.filter(pred));
                let i = choose|i: int| 0 <= i < t.len() && t[i] == t.filter(pred)[j];
                assert(docs[i] == t[i]);
            }
        }
    }
}

/// A path deletion clears exactly its own path's documents and leaves
/// every other path's documents unchanged.
pub proof fn lemma_dwp_delete(docs: Seq<DocModel>, p: Seq<char>, q: Seq<char>)
    ensures
        docs_with_path(apply_op(docs, IndexOp::DeletePath(p)), q) == if q == p {
            Seq::<DocModel>::empty()
        } else {
            docs_with_path(docs, q)
        },
    decreases docs.len(),
{
    reveal(Seq::filter);
    if docs.len() == 0 {
        assert(docs.filter(|d: DocModel| d.path != p) =~= docs);
        assert(docs_with_path(docs, q) =~= Seq::<DocModel>::empty());
    } else {
        let t = docs.drop_last();
        let x = docs.last();
        lemma_dwp_delete(t, p, q);
        if x.path != p {
            assert(docs.filter(|d: DocModel| d.path != p) == t.filter(
                |d: DocModel| d.path != p,
            ).push(x));
            lemma_docs_with_path_push(t.filter(|d: DocModel| d.path != p), x, q);
        } else {
            assert(docs.filter(|d: DocModel| d.path != p) == t.filter(|d: DocModel| d.path != p));
        }
        lemma_docs_with_path_push(t, x, q);
        assert(t.push(x) =~= docs);
    }
}

/// Overwriting a path: deleting its documents and adding one whose row
/// the updated map records preserves the join invariant.
pub proof fn lemma_joined_overwrite(
    docs: Seq<DocModel>,
    rows: Map<Seq<char>, RowModel>,
    d: DocModel,
    size: u64,
)
    requires
        joined(docs, rows),
    ensures
        joined(
            apply_op(apply_op(docs, IndexOp::DeletePath(d.path)), IndexOp::Add(d)),
            rows.insert(d.path, RowModel { hash: d.hash, size }),
        ),
{
    let kept = docs.filter(|dd: DocModel| dd.path != d.path);
    let docs2 = kept.push(d);
    let rows2 = rows.insert(d.path, RowModel { hash: d.hash, size });
    lemma_filter_subset(docs, |dd: DocModel| dd.path != d.path);
    docs.filter_lemma(|dd: DocModel| dd.path != d.path);
    assert forall|j: int| 0 <= j < docs2.len() implies doc_rowed(rows2, #[trigger] docs2[j]) by {
        if j < kept.len() {
            assert(docs2[j] == kept[j]);
            assert(kept[j].path != d.path);
            let i = choose|i: int| 0 <= i < docs.len() && docs[i] == kept[j];
            assert(doc_rowed(rows, docs[i]));
        } else {
            assert(docs2[j] == d);
        }
    }
    assert forall|p: Seq<char>| #[trigger] rows2.dom().contains(p) implies row_doced(
        docs2,
        p,
        rows2[p],
    ) by {
        if p == d.path {
            assert(docs2[kept.len() as int] == d);
        } else {
            assert(rows.dom().contains(p));
            assert(row_doced(docs, p, rows[p]));
            let i = choose|i: int|
                0 <= i < docs.len() && docs[i].path == p && docs[i].hash == rows[p].hash;
            assert(kept.contains(docs[i]));
            let j = choose|j: int| 0 <= j < kept.len() && kept[j] == docs[i];
            assert(docs2[j] == kept[j]);
        }
    }
}

/// A pair is live exactly when some document of its path carries its
/// hash.
pub proof fn lemma_pair_via_dwp(docs: Seq<DocModel>, pr: (Seq<char>, Seq<char>))
    ensures
        pair_set(docs).contains(pr) <==> exists|j: int|
            0 <= j < docs_with_path(docs, pr.0).len() && (#[trigger] docs_with_path(
                docs,
                pr.0,
            )[j]).hash == pr.1,
{
    let dw = docs_with_path(docs, pr.0);
    docs.filter_lemma(|d: DocModel| d.path == pr.0);
    lemma_filter_subset(docs, |d: DocModel| d.path == pr.0);
    if pair_set(docs).contains(pr) {
        let i = choose|i: int|
            0 <= i < docs.len() && docs[i].path == pr.0 && docs[i].hash == pr.1;
        assert(dw.contains(docs[i]));
        let j = choose|j: int| 0 <= j < dw.len() && dw[j] == docs[i];
        assert(dw[j].hash == pr.1);
    }
    if exists|j: int| 0 <= j < dw.len() && (#[trigger] dw[j]).hash == pr.1 {
        let j = choose|j: int| 0 <= j < dw.len() && (#[trigger] dw[j]).hash == pr.1;
        let i = choose|i: int| 0 <= i < docs.len() && docs[i] == dw[j];
        assert(docs[i].path == pr.0 && docs[i].hash == pr.1);
    }
}

/// Appending documents whose pairs the first part already carries leaves
/// the pair set unchanged.
pub proof fn lemma_pair_set_concat_subsumed(a: Seq<DocModel>, b: Seq<DocModel>)
    requires
        forall|k: int|
            0 <= k < b.len() ==> pair_set(a).contains(((#[trigger] b[k]).path, b[k].hash)),
    ensures
        pair_set(a + b) == pair_set(a),
{
    assert forall|pr: (Seq<char>, Seq<char>)| #[trigger] pair_set(a + b).contains(pr)
        == pair_set(a).contains(pr) by {
        if pair_set(a + b).contains(pr) {
            let i = choose|i: int|
                0 <= i < (a + b).len() && (a + b)[i].path == pr.0 && (a + b)[i].hash == pr.1;
            if i < a.len() {
                assert(a[i] == (a + b)[i]);
            } else {
                assert(b[i - a.len()] == (a + b)[i]);
                assert(pair_set(a).contains((b[i - a.len()].path, b[i - a.len()].hash)));
            }
        }
        if pair_set(a).contains(pr) {
            let i = choose|i: int| 0 <= i < a.len() && a[i].path == pr.0 && a[i].hash == pr.1;
            assert((a + b)[i] == a[i]);
        }
    }
    assert(pair_set(a + b) =~= pair_set(a));
}

/// A document whose path and hash the rows already record extends a
/// joined state to a joined state.
pub proof fn lemma_joined_push_rowed(
    docs: Seq<DocModel>,
    rows: Map<Seq<char>, RowModel>,
    d: DocModel,
)
    requires
        joined(docs, rows),
        doc_rowed(rows, d),
    ensures
        joined(docs.push(d), rows),
{
    let docs2 = docs.push(d);
    assert forall|i: int| 0 <= i < docs2.len() implies doc_rowed(rows, #[trigger] docs2[i]) by {
        if i < docs.len() {
            assert(docs2[i] == docs[i]);
        } else {
            assert(docs2[i] == d);
        }
    }
    assert forall|p: Seq<char>| #[trigger] rows.dom().contains(p) implies row_doced(
        docs2,
        p,
        rows[p],
    ) by {
        assert(row_doced(docs, p, rows[p]));
        let i = choose|i: int|
            0 <= i < docs.len() && docs[i].path == p && docs[i].hash == rows[p].hash;
        assert(docs2[i] == docs[i]);
    }
}

/// A pushed document carries a path exactly when the sequence did or the
/// new document does.
pub proof fn lemma_has_path_push(docs: Seq<DocModel>, d: DocModel, p: Seq<char>)
    ensures
        has_path(docs.push(d), p) == (has_path(docs, p) || d.path == p),
{
    if has_path(docs.push(d), p) {
        let i = choose|i: int| 0 <= i < docs.push(d).len() && docs.push(d)[i].path == p;
        if i < docs.len() {
            assert(docs[i] == docs.push(d)[i]);
        }
    }
    if has_path(docs, p) {
        let i = choose|i: int| 0 <= i < docs.len() && docs[i].path == p;
        assert(docs.push(d)[i].path == p);
    }
    if d.path == p {
        assert(docs.push(d)[docs.len() as int].path == p);
    }
}

/// A concatenation carries a path exactly when one of its parts does.
pub proof fn lemma_has_path_concat(a: Seq<DocModel>, b: Seq<DocModel>, p: Seq<char>)
    ensures
        has_path(a + b, p) == (has_path(a, p) || has_path(b, p)),
{
    if has_path(a + b, p) {
        let i = choose|i: int| 0 <= i < (a + b).len() && (a + b)[i].path == p;
        if i < a.len() {
            assert(a[i] == (a + b)[i]);
        } else {
            assert(b[i - a.len()] == (a + b)[i]);
        }
    }
    if has_path(a, p) {
        let i = choose|i: int| 0 <= i < a.len() && a[i].path == p;
        assert((a + b)[i].path == p);
    }
    if has_path(b, p) {
        let i = choose|i: int| 0 <= i < b.len() && b[i].path == p;
        assert((a + b)[a.len() + i].path == p);
    }
}

/// A fresh document and its row extend a joined state to a joined state.
pub proof fn lemma_joined_insert(
    docs: Seq<DocModel>,
    rows: Map<Seq<char>, RowModel>,
    d: DocModel,
    size: u64,
)
    requires
        joined(docs, rows),
        !has_path(docs, d.path),
        !rows.dom().contains(d.path),
    ensures
        joined(docs.push(d), rows.insert(d.path, RowModel { hash: d.hash, size })),
{
    let docs2 = docs.push(d);
    let rows2 = rows.insert(d.path, RowModel { hash: d.hash, size });
    assert forall|i: int| 0 <= i < docs2.len() implies doc_rowed(rows2, #[trigger] docs2[i]) by {
        if i < docs.len() {
            assert(docs2[i] == docs[i]);
            assert(doc_rowed(rows, docs[i]));
            // The inserted path is fresh, so the old document's row survives.
            assert(docs[i].path != d.path || has_path(docs, d.path));
        } else {
            assert(docs2[i] == d);
        }
    }
    assert forall|p: Seq<char>| #[trigger] rows2.dom().contains(p) implies row_doced(
        docs2,
        p,
        rows2[p],
    ) by {
        if p == d.path {
            assert(docs2[docs.len() as int] == d);
        } else {
            assert(rows.dom().contains(p));
            assert(row_doced(docs, p, rows[p]));
            let i = choose|i: int| 0 <= i < docs.len() && docs[i].path == p && docs[i].hash
                == rows[p].hash;
            assert(docs2[i] == docs[i]);
        }
    }
}

} // verus!
