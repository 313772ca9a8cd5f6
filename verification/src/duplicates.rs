//! Duplicate-file grouping: every hash held by at least two metadata rows
//! becomes one group carrying the member paths, their count and their
//! summed size, ordered by aggregated size descending with ties broken by
//! hash, and served in pages of five hundred.

use vstd::prelude::*;

use vstd::multiset::Multiset;

use crate::metadata_store::MetaRow;

verus! {

/// How many groups one page holds.
pub const PAGE_SIZE: usize = 500;

/// Lexicographic order on character sequences, by code point.
pub open spec fn lex_le(a: Seq<char>, b: Seq<char>) -> bool
    decreases a.len(),
{
    if a.len() == 0 {
        true
    } else if b.len() == 0 {
        false
    } else if (a[0] as int) < (b[0] as int) {
        true
    } else if (a[0] as int) > (b[0] as int) {
        false
    } else {
        lex_le(a.drop_first(), b.drop_first())
    }
}

pub proof fn lemma_lex_le_refl(a: Seq<char>)
    ensures
        lex_le(a, a),
    decreases a.len(),
{
    if a.len() != 0 {
        lemma_lex_le_refl(a.drop_first());
    }
}

pub proof fn lemma_lex_le_total(a: Seq<char>, b: Seq<char>)
    ensures
        lex_le(a, b) || lex_le(b, a),
    decreases a.len(),
{
    if a.len() != 0 && b.len() != 0 && a[0] == b[0] {
        lemma_lex_le_total(a.drop_first(), b.drop_first());
    }
}

pub proof fn lemma_lex_le_trans(a: Seq<char>, b: Seq<char>, c: Seq<char>)
    requires
        lex_le(a, b),
        lex_le(b, c),
    ensures
        lex_le(a, c),
    decreases a.len(),
{
    if a.len() != 0 && b.len() != 0 && c.len() != 0 && a[0] == b[0] && b[0] == c[0] {
        lemma_lex_le_trans(a.drop_first(), b.drop_first(), c.drop_first());
    }
}

/// Whether `a` is lexicographically at most `b`.
pub fn str_lex_le(a: &String, b: &String) -> (r: bool)
    ensures
        r == lex_le(a@, b@),
{
    let an: usize = a.as_str().unicode_len();
    let bn: usize = b.as_str().unicode_len();
    let mut i: usize = 0;
    proof {
        assert(a@.skip(0) =~= a@);
        assert(b@.skip(0) =~= b@);
    }
    loop
        invariant
            i <= an,
            i <= bn,
            an == a@.len(),
            bn == b@.len(),
            forall|k: int| 0 <= k < i ==> a@[k] == b@[k],
            lex_le(a@, b@) == lex_le(a@.skip(i as int), b@.skip(i as int)),
        decreases an - i,
    {
        if i == an {
            proof {
                assert(a@.skip(i as int).len() == 0);
            }
            return true;
        }
        if i == bn {
            proof {
                assert(b@.skip(i as int).len() == 0);
                assert(a@.skip(i as int).len() > 0);
            }
            return false;
        }
        let ca = a.as_str().get_char(i);
        let cb = b.as_str().get_char(i);
        proof {
            assert(a@.skip(i as int)[0] == a@[i as int]);
            assert(b@.skip(i as int)[0] == b@[i as int]);
            assert(a@.skip(i as int).drop_first() =~= a@.skip(i + 1));
            assert(b@.skip(i as int).drop_first() =~= b@.skip(i + 1));
        }
        let cai: u32 = ca as u32;
        let cbi: u32 = cb as u32;
        if cai < cbi {
            return true;
        }
        if cai > cbi {
            return false;
        }
        i = i + 1;
    }
}

/// A derived duplicate group: all member paths share `hash`, `duplicates`
/// counts them, and `aggregated_size` sums their sizes (saturating).
pub struct DuplicatedFile {
    pub paths: Vec<String>,
    pub duplicates: u64,
    pub aggregated_size: u64,
    pub hash: String,
}

/// The metadata rows whose hash is `h`, in row order.
pub open spec fn rows_with_hash(rows: Seq<MetaRow>, h: Seq<char>) -> Seq<MetaRow> {
    rows.filter(|r: MetaRow| r.hash@ == h)
}

/// The summed sizes of a sequence of rows.
pub open spec fn sum_sizes(rows: Seq<MetaRow>) -> int
    decreases rows.len(),
{
    if rows.len() == 0 {
        0
    } else {
        sum_sizes(rows.drop_last()) + rows.last().size
    }
}

pub proof fn lemma_sum_sizes_nonneg(rows: Seq<MetaRow>)
    ensures
        sum_sizes(rows) >= 0,
    decreases rows.len(),
{
    if rows.len() != 0 {
        lemma_sum_sizes_nonneg(rows.drop_last());
    }
}

/// An unbounded sum clamped into a machine word.
pub open spec fn saturate_u64(x: int) -> u64 {
    if x > u64::MAX {
        u64::MAX
    } else if x < 0 {
        0
    } else {
        x as u64
    }
}

/// What a returned group must say about the rows it was derived from.
pub open spec fn valid_group(g: DuplicatedFile, rows: Seq<MetaRow>) -> bool {
    &&& rows_with_hash(rows, g.hash@).len() >= 2
    &&& g.duplicates as int == rows_with_hash(rows, g.hash@).len()
    &&& g.paths@.map_values(|s: String| s@) == rows_with_hash(rows, g.hash@).map_values(
        |r: MetaRow| r.path@,
    )
    &&& g.duplicates as int == g.paths@.len()
    &&& g.aggregated_size == saturate_u64(sum_sizes(rows_with_hash(rows, g.hash@)))
}

/// Group order: aggregated size descending, ties by hash ascending.
pub open spec fn group_le(a: DuplicatedFile, b: DuplicatedFile) -> bool {
    ||| a.aggregated_size > b.aggregated_size
    ||| (a.aggregated_size == b.aggregated_size && lex_le(a.hash@, b.hash@))
}

proof fn lemma_group_le_total(a: DuplicatedFile, b: DuplicatedFile)
    ensures
        group_le(a, b) || group_le(b, a),
{
    if a.aggregated_size == b.aggregated_size {
        lemma_lex_le_total(a.hash@, b.hash@);
    }
}

proof fn lemma_group_le_trans(a: DuplicatedFile, b: DuplicatedFile, c: DuplicatedFile)
    requires
        group_le(a, b),
        group_le(b, c),
    ensures
        group_le(a, c),
{
    if a.aggregated_size == b.aggregated_size && b.aggregated_size == c.aggregated_size {
        lemma_lex_le_trans(a.hash@, b.hash@, c.hash@);
    }
}

/// Whether `a` comes no later than `b` in the duplicate listing.
pub fn group_le_exec(a: &DuplicatedFile, b: &DuplicatedFile) -> (r: bool)
    ensures
        r == group_le(*a, *b),
{
    if a.aggregated_size > b.aggregated_size {
        true
    } else if a.aggregated_size == b.aggregated_size {
        str_lex_le(&a.hash, &b.hash)
    } else {
        false
    }
}

/// Collects the group for hash `h` over all rows: member paths in row
/// order, their count, and their saturating size sum.
fn gather_group(rows: &Vec<MetaRow>, h: &String) -> (g: DuplicatedFile)
    ensures
        g.hash@ == h@,
        g.paths@.map_values(|s: String| s@) == rows_with_hash(rows@, h@).map_values(
            |r: MetaRow| r.path@,
        ),
        g.duplicates as int == rows_with_hash(rows@, h@).len(),
        g.duplicates as int == g.paths@.len(),
        g.aggregated_size == saturate_u64(sum_sizes(rows_with_hash(rows@, h@))),
{
    let n: usize = rows.len();
    let mut paths: Vec<String> = Vec::new();
    let mut count: u64 = 0;
    let mut total: u64 = 0;
    let mut j: usize = 0;
    proof {
        assert(rows@.subrange(0, 0).filter(|r: MetaRow| r.hash@ == h@)
            =~= Seq::<MetaRow>::empty());
        reveal(Seq::filter);
    }
    while j < n
        invariant
            n == rows@.len(),
            j <= n,
            count as int == rows_with_hash(rows@.subrange(0, j as int), h@).len(),
            paths@.map_values(|s: String| s@) == rows_with_hash(
                rows@.subrange(0, j as int),
                h@,
            ).map_values(|r: MetaRow| r.path@),
            count as int == paths@.len(),
            total == saturate_u64(sum_sizes(rows_with_hash(rows@.subrange(0, j as int), h@))),
        decreases n - j,
    {
        proof {
            reveal(Seq::filter);
            assert(rows@.subrange(0, j + 1).drop_last() =~= rows@.subrange(0, j as int));
            assert(rows@.subrange(0, j + 1).last() == rows@[j as int]);
        }
        let ghost pre = rows_with_hash(rows@.subrange(0, j as int), h@);
        let row = &rows[j];
        if row.hash == *h {
            proof {
                assert(rows_with_hash(rows@.subrange(0, j + 1), h@) == pre.push(rows@[j as int]));
                assert(pre.push(rows@[j as int]).drop_last() =~= pre);
                assert(pre.push(rows@[j as int]).map_values(|r: MetaRow| r.path@)
                    =~= pre.map_values(|r: MetaRow| r.path@).push(rows@[j as int].path@));
                assert(sum_sizes(pre.push(rows@[j as int])) == sum_sizes(pre) + rows@[j as int].size);
                lemma_sum_sizes_nonneg(pre);
            }
            paths.push(row.path.clone());
            count = count + 1;
            total = if row.size > u64::MAX - total {
                u64::MAX
            } else {
                total + row.size
            };
            proof {
                assert(paths@.map_values(|s: String| s@) =~= rows_with_hash(
                    rows@.subrange(0, j + 1),
                    h@,
                ).map_values(|r: MetaRow| r.path@));
            }
        } else {
            proof {
                assert(rows_with_hash(rows@.subrange(0, j + 1), h@) == pre);
            }
        }
        j = j + 1;
    }
    proof {
        assert(rows@.subrange(0, n as int) =~= rows@);
    }
    DuplicatedFile { paths, duplicates: count, aggregated_size: total, hash: h.clone() }
}

/// Whether the hash of row `i` already occurs among the rows before it.
fn hash_seen_before(rows: &Vec<MetaRow>, i: usize) -> (r: bool)
    requires
        i < rows@.len(),
    ensures
        r == exists|j: int| 0 <= j < i && (#[trigger] rows@[j]).hash@ == rows@[i as int].hash@,
{
    let mut j: usize = 0;
    while j < i
        invariant
            i < rows@.len(),
            j <= i,
            forall|k: int| 0 <= k < j ==> (#[trigger] rows@[k]).hash@ != rows@[i as int].hash@,
        decreases i - j,
    {
        if rows[j].hash == rows[i].hash {
            return true;
        }
        j = j + 1;
    }
    false
}

/// Builds one group per hash that at least two rows share, in the order
/// the hashes first appear.
pub fn all_duplicate_groups(rows: &Vec<MetaRow>) -> (r: Vec<DuplicatedFile>)
    ensures
        forall|k: int| 0 <= k < r@.len() ==> valid_group(#[trigger] r@[k], rows@),
        forall|k: int, l: int| 0 <= k < l < r@.len() ==> r@[k].hash@ != r@[l].hash@,
        forall|m: int|
            0 <= m < rows@.len() && rows_with_hash(rows@, (#[trigger] rows@[m]).hash@).len() >= 2
                ==> exists|k: int| 0 <= k < r@.len() && (#[trigger] r@[k]).hash@ == rows@[m].hash@,
{
    let n: usize = rows.len();
    let mut groups: Vec<DuplicatedFile> = Vec::new();
    let mut i: usize = 0;
    while i < n
        invariant
            n == rows@.len(),
            i <= n,
            forall|k: int| 0 <= k < groups@.len() ==> valid_group(#[trigger] groups@[k], rows@),
            forall|k: int, l: int|
                0 <= k < l < groups@.len() ==> groups@[k].hash@ != groups@[l].hash@,
            forall|k: int|
                0 <= k < groups@.len() ==> exists|m: int|
                    0 <= m < i && (#[trigger] groups@[k]).hash@ == rows@[m].hash@,
            forall|m: int|
                0 <= m < i && rows_with_hash(rows@, (#[trigger] rows@[m]).hash@).len() >= 2
                    ==> exists|k: int|
                    0 <= k < groups@.len() && (#[trigger] groups@[k]).hash@ == rows@[m].hash@,
        decreases n - i,
    {
        if !hash_seen_before(rows, i) {
            let g = gather_group(rows, &rows[i].hash);
            if g.duplicates >= 2 {
                let ghost pre_groups = groups@;
                groups.push(g);
                proof {
                    // The new hash first occurs at row i, so no earlier group
                    // carries it.
                    assert(groups@[pre_groups.len() as int] == g);
                    assert forall|k: int| 0 <= k < pre_groups.len() implies (
                    #[trigger] pre_groups[k]).hash@ != g.hash@ by {
                        let m = choose|m: int|
                            0 <= m < i && (#[trigger] pre_groups[k]).hash@ == rows@[m].hash@;
                    }
                    assert(forall|k: int|
                        0 <= k < pre_groups.len() ==> groups@[k] == pre_groups[k]);
                }
            } else {
                proof {
                    // Fewer than two rows share this hash, so it qualifies
                    // nowhere.
                    assert(rows_with_hash(rows@, rows@[i as int].hash@).len() < 2);
                }
            }
        } else {
            proof {
                // An earlier row has the same hash, so the invariant for that
                // row already provides the group.
                let j = choose|j: int|
                    0 <= j < i && (#[trigger] rows@[j]).hash@ == rows@[i as int].hash@;
                assert(rows_with_hash(rows@, rows@[j].hash@) == rows_with_hash(
                    rows@,
                    rows@[i as int].hash@,
                ));
            }
        }
        i = i + 1;
    }
    groups
}

/// Orders groups by aggregated size descending, ties by hash ascending:
/// the result is a permutation of the input, pairwise ordered.
pub fn sort_groups(groups: Vec<DuplicatedFile>) -> (r: Vec<DuplicatedFile>)
    ensures
        r@.to_multiset() == groups@.to_multiset(),
        r@.len() == groups@.len(),
        forall|k: int, l: int| 0 <= k < l < r@.len() ==> group_le(#[trigger] r@[k], #[trigger] r@[l]),
{
    broadcast use vstd::seq_lib::group_to_multiset_ensures;

    let mut rest = groups;
    let mut out: Vec<DuplicatedFile> = Vec::new();
    proof {
        assert(out@.to_multiset().add(rest@.to_multiset()) =~= groups@.to_multiset());
    }
    while rest.len() > 0
        invariant
            out@.to_multiset().add(rest@.to_multiset()) == groups@.to_multiset(),
            out@.len() + rest@.len() == groups@.len(),
            forall|k: int, l: int|
                0 <= k < l < out@.len() ==> group_le(#[trigger] out@[k], #[trigger] out@[l]),
            forall|k: int, l: int|
                0 <= k < out@.len() && 0 <= l < rest@.len() ==> group_le(
                    #[trigger] out@[k],
                    #[trigger] rest@[l],
                ),
        decreases rest@.len(),
    {
        let mut m: usize = 0;
        let mut t: usize = 1;
        proof {
            lemma_group_le_refl(rest@[0]);
        }
        while t < rest.len()
            invariant
                rest@.len() > 0,
                m < t <= rest@.len() || (m == 0 && t <= rest@.len()),
                m < rest@.len(),
                forall|u: int| 0 <= u < t ==> group_le(rest@[m as int], #[trigger] rest@[u]),
            decreases rest@.len() - t,
        {
            if !group_le_exec(&rest[m], &rest[t]) {
                proof {
                    lemma_group_le_total(rest@[m as int], rest@[t as int]);
                    assert forall|u: int| 0 <= u < t + 1 implies group_le(
                        rest@[t as int],
                        #[trigger] rest@[u],
                    ) by {
                        if u < t {
                            lemma_group_le_trans(rest@[t as int], rest@[m as int], rest@[u]);
                        } else {
                            lemma_group_le_refl(rest@[t as int]);
                        }
                    }
                }
                m = t;
            }
            t = t + 1;
        }
        let ghost pre_rest = rest@;
        let ghost pre_out = out@;
        let x = rest.remove(m);
        out.push(x);
        proof {
            broadcast use vstd::seq_lib::group_to_multiset_ensures;

            assert(rest@ == pre_rest.remove(m as int));
            assert(x == pre_rest[m as int]);
            assert(pre_rest.contains(x));
            assert(pre_rest.to_multiset().count(x) > 0);
            assert(rest@.to_multiset() =~= pre_rest.to_multiset().remove(x));
            assert(out@.to_multiset() =~= pre_out.to_multiset().insert(x));
            assert(rest@ =~= pre_rest.subrange(0, m as int) + pre_rest.subrange(
                m + 1,
                pre_rest.len() as int,
            ));
            assert forall|l: int| 0 <= l < rest@.len() implies group_le(x, #[trigger] rest@[l]) by {
                if l < m {
                    assert(rest@[l] == pre_rest[l]);
                } else {
                    assert(rest@[l] == pre_rest[l + 1]);
                }
            }
            assert forall|k: int, l: int|
                0 <= k < out@.len() && 0 <= l < rest@.len() implies group_le(
                #[trigger] out@[k],
                #[trigger] rest@[l],
            ) by {
                if k < pre_out.len() {
                    if l < m {
                        assert(rest@[l] == pre_rest[l]);
                    } else {
                        assert(rest@[l] == pre_rest[l + 1]);
                    }
                } else {
                    assert(out@[k] == x);
                }
            }
            assert(out@ == pre_out.push(x));
            assert(out@.to_multiset().add(rest@.to_multiset()) =~= groups@.to_multiset());
        }
    }
    out
}

proof fn lemma_group_le_refl(a: DuplicatedFile)
    ensures
        group_le(a, a),
{
    lemma_lex_le_refl(a.hash@);
}

/// The page window: groups `PAGE_SIZE * page` up to the next
/// `PAGE_SIZE`, clipped to the sequence.
pub open spec fn page_window(all: Seq<DuplicatedFile>, page: int) -> Seq<DuplicatedFile> {
    let start = if (PAGE_SIZE as int) * page <= all.len() {
        (PAGE_SIZE as int) * page
    } else {
        all.len() as int
    };
    let end = if start + (PAGE_SIZE as int) <= all.len() {
        start + (PAGE_SIZE as int)
    } else {
        all.len() as int
    };
    all.subrange(start, end)
}

/// Cuts one page out of the ordered group list.
pub fn page_of_groups(all: Vec<DuplicatedFile>, page: usize) -> (r: Vec<DuplicatedFile>)
    ensures
        r@ == page_window(all@, page as int),
{
    let mut rest = all;
    let len: usize = rest.len();
    let wide: u128 = (page as u128) * (PAGE_SIZE as u128);
    let start: usize = if wide >= len as u128 {
        len
    } else {
        page * PAGE_SIZE
    };
    let ghost all0 = rest@;
    let mut k: usize = 0;
    while k < start
        invariant
            k <= start <= all0.len(),
            rest@ == all0.subrange(k as int, all0.len() as int),
        decreases start - k,
    {
        let ghost pre = rest@;
        let _ = rest.remove(0);
        proof {
            assert(rest@ =~= pre.subrange(1, pre.len() as int));
            assert(rest@ =~= all0.subrange(k + 1, all0.len() as int));
        }
        k = k + 1;
    }
    let mut out: Vec<DuplicatedFile> = Vec::new();
    while out.len() < PAGE_SIZE && rest.len() > 0
        invariant
            start <= all0.len(),
            start + out@.len() <= all0.len(),
            out@.len() <= PAGE_SIZE,
            out@ == all0.subrange(start as int, start + out@.len()),
            rest@ == all0.subrange(start + out@.len(), all0.len() as int),
        decreases rest@.len(),
    {
        let ghost pre_out = out@;
        let ghost pre_rest = rest@;
        let ghost done = start + pre_out.len();
        let x = rest.remove(0);
        out.push(x);
        proof {
            assert(pre_rest == all0.subrange(done as int, all0.len() as int));
            assert(0 < pre_rest.len());
            assert(done < all0.len());
            assert(x == pre_rest[0]);
            assert(pre_rest[0] == all0.subrange(done as int, all0.len() as int)[0]);
            assert(pre_rest[0] == all0[done as int]);
            assert(rest@ =~= pre_rest.subrange(1, pre_rest.len() as int));
            assert(rest@ =~= all0.subrange(done + 1, all0.len() as int));
            assert(out@ == pre_out.push(x));
            assert(out@ =~= all0.subrange(start as int, done + 1));
        }
    }
    proof {
        let start_s = if (PAGE_SIZE as int) * (page as int) <= all0.len() {
            (PAGE_SIZE as int) * (page as int)
        } else {
            all0.len() as int
        };
        assert(start == start_s);
        let end_s = if start_s + (PAGE_SIZE as int) <= all0.len() {
            start_s + (PAGE_SIZE as int)
        } else {
            all0.len() as int
        };
        assert(start + out@.len() == end_s);
        assert(out@ =~= page_window(all0, page as int));
    }
    out
}

/// The full ordered duplicate listing of a row snapshot: every entry a
/// valid group, pairwise ordered, one group per hash, and every hash at
/// least two rows share represented.
pub open spec fn listing_of(all: Seq<DuplicatedFile>, rows: Seq<MetaRow>) -> bool {
    &&& forall|k: int| 0 <= k < all.len() ==> valid_group(#[trigger] all[k], rows)
    &&& forall|k: int, l: int|
        0 <= k < l < all.len() ==> group_le(#[trigger] all[k], #[trigger] all[l])
    &&& forall|k: int, l: int| 0 <= k < l < all.len() ==> all[k].hash@ != all[l].hash@
    &&& forall|m: int|
        0 <= m < rows.len() && rows_with_hash(rows, (#[trigger] rows[m]).hash@).len() >= 2
            ==> exists|k: int| 0 <= k < all.len() && (#[trigger] all[k]).hash@ == rows[m].hash@
}

/// Selects, for every hash at least two rows share, the member paths, the
/// count and the summed size; orders groups by aggregated size descending
/// with ties broken by hash; and returns the requested page — the page'th
/// window of the full ordered listing, at most five hundred groups.
pub fn group_duplicates(rows: &Vec<MetaRow>, page: usize) -> (r: Vec<DuplicatedFile>)
    ensures
        r@.len() <= PAGE_SIZE,
        forall|k: int| 0 <= k < r@.len() ==> valid_group(#[trigger] r@[k], rows@),
        forall|k: int, l: int|
            0 <= k < l < r@.len() ==> group_le(#[trigger] r@[k], #[trigger] r@[l]),
        forall|k: int, l: int| 0 <= k < l < r@.len() ==> r@[k].hash@ != r@[l].hash@,
        exists|all: Seq<DuplicatedFile>|
            #[trigger] listing_of(all, rows@) && r@ == page_window(all, page as int),
        page == 0 && r@.len() < PAGE_SIZE ==> forall|m: int|
            0 <= m < rows@.len() && rows_with_hash(rows@, (#[trigger] rows@[m]).hash@).len() >= 2
                ==> exists|k: int| 0 <= k < r@.len() && (#[trigger] r@[k]).hash@ == rows@[m].hash@,
{
    broadcast use vstd::seq_lib::group_to_multiset_ensures;

    let base = all_duplicate_groups(rows);
    let ghost base_s = base@;
    let sorted = sort_groups(base);
    let ghost sorted_s = sorted@;
    let r = page_of_groups(sorted, page);
    proof {
        let ghost win = page_window(sorted_s, page as int);
        assert(r@ == win);
        // Every served group is one of the sorted groups, hence one of the
        // built groups.
        assert forall|k: int| 0 <= k < r@.len() implies valid_group(#[trigger] r@[k], rows@) by {
            lemma_member_of(sorted_s, base_s, win[k]);
            assert(sorted_s.contains(win[k])) by {
                let start = win_start(sorted_s, page as int);
                assert(win[k] == sorted_s[start + k]);
            }
        }
        assert forall|k: int, l: int| 0 <= k < l < r@.len() implies r@[k].hash@ != r@[l].hash@ by {
            let start = win_start(sorted_s, page as int);
            assert(r@[k] == sorted_s[start + k]);
            assert(r@[l] == sorted_s[start + l]);
            lemma_sorted_hashes_distinct(sorted_s, base_s, rows@, start + k, start + l);
        }
        assert forall|k: int| 0 <= k < sorted_s.len() implies valid_group(
            #[trigger] sorted_s[k],
            rows@,
        ) by {
            assert(sorted_s.contains(sorted_s[k]));
            lemma_member_of(sorted_s, base_s, sorted_s[k]);
        }
        assert forall|k: int, l: int| 0 <= k < l < sorted_s.len() implies sorted_s[k].hash@
            != sorted_s[l].hash@ by {
            lemma_sorted_hashes_distinct(sorted_s, base_s, rows@, k, l);
        }
        assert forall|m: int|
            0 <= m < rows@.len() && rows_with_hash(
                rows@,
                (#[trigger] rows@[m]).hash@,
            ).len() >= 2 implies exists|k: int|
            0 <= k < sorted_s.len() && (#[trigger] sorted_s[k]).hash@ == rows@[m].hash@ by {
            let k0 = choose|k0: int|
                0 <= k0 < base_s.len() && (#[trigger] base_s[k0]).hash@ == rows@[m].hash@;
            assert(base_s.contains(base_s[k0]));
            lemma_member_of(base_s, sorted_s, base_s[k0]);
            let k = choose|k: int| 0 <= k < sorted_s.len() && sorted_s[k] == base_s[k0];
            assert(sorted_s[k].hash@ == rows@[m].hash@);
        }
        assert(listing_of(sorted_s, rows@));
        if page == 0 && r@.len() < PAGE_SIZE {
            assert(r@ =~= sorted_s);
            assert forall|m: int|
                0 <= m < rows@.len() && rows_with_hash(
                    rows@,
                    (#[trigger] rows@[m]).hash@,
                ).len() >= 2 implies exists|k: int|
                0 <= k < r@.len() && (#[trigger] r@[k]).hash@ == rows@[m].hash@ by {
                let k0 = choose|k0: int|
                    0 <= k0 < base_s.len() && (#[trigger] base_s[k0]).hash@ == rows@[m].hash@;
                assert(base_s.contains(base_s[k0]));
                lemma_member_of(base_s, sorted_s, base_s[k0]);
                let k = choose|k: int| 0 <= k < sorted_s.len() && sorted_s[k] == base_s[k0];
                assert(r@[k].hash@ == rows@[m].hash@);
            }
        }
    }
    r
}

pub proof fn lemma_lex_le_antisym(a: Seq<char>, b: Seq<char>)
    requires
        lex_le(a, b),
        lex_le(b, a),
    ensures
        a == b,
    decreases a.len(),
{
    if a.len() == 0 {
        assert(b.len() == 0);
        assert(a =~= b);
    } else {
        assert(b.len() != 0);
        assert(a[0] == b[0]);
        lemma_lex_le_antisym(a.drop_first(), b.drop_first());
        assert forall|i: int| 0 <= i < a.len() implies a[i] == b[i] by {
            if i > 0 {
                assert(a[i] == a.drop_first()[i - 1]);
                assert(b[i] == b.drop_first()[i - 1]);
            }
        }
        assert(a =~= b);
    }
}

/// Whether some group of `all` carries hash `h`.
pub open spec fn has_hash(all: Seq<DuplicatedFile>, h: Seq<char>) -> bool {
    exists|k: int| 0 <= k < all.len() && (#[trigger] all[k]).hash@ == h
}

/// Two group lists describe the same groups in the same order, up to the
/// strings carrying equal text.
pub open spec fn group_views_match(a: Seq<DuplicatedFile>, b: Seq<DuplicatedFile>) -> bool {
    &&& a.len() == b.len()
    &&& forall|k: int|
        0 <= k < a.len() ==> {
            &&& (#[trigger] a[k]).hash@ == b[k].hash@
            &&& a[k].duplicates == b[k].duplicates
            &&& a[k].aggregated_size == b[k].aggregated_size
            &&& a[k].paths@.map_values(|s: String| s@) == b[k].paths@.map_values(
                |s: String| s@,
            )
        }
}

/// Ordered, hash-distinct lists of valid groups with the same hashes are
/// equal position by position.
proof fn lemma_ordered_groups_unique(
    a: Seq<DuplicatedFile>,
    b: Seq<DuplicatedFile>,
    rows: Seq<MetaRow>,
)
    requires
        forall|k: int| 0 <= k < a.len() ==> valid_group(#[trigger] a[k], rows),
        forall|k: int, l: int| 0 <= k < l < a.len() ==> group_le(#[trigger] a[k], #[trigger] a[l]),
        forall|k: int, l: int| 0 <= k < l < a.len() ==> a[k].hash@ != a[l].hash@,
        forall|k: int| 0 <= k < b.len() ==> valid_group(#[trigger] b[k], rows),
        forall|k: int, l: int| 0 <= k < l < b.len() ==> group_le(#[trigger] b[k], #[trigger] b[l]),
        forall|k: int, l: int| 0 <= k < l < b.len() ==> b[k].hash@ != b[l].hash@,
        forall|h: Seq<char>| #[trigger] has_hash(a, h) == has_hash(b, h),
    ensures
        group_views_match(a, b),
    decreases a.len(),
{
    if a.len() == 0 {
        if b.len() > 0 {
            assert(has_hash(b, b[0].hash@));
            assert(has_hash(a, b[0].hash@));
            let k = choose|k: int| 0 <= k < a.len() && (#[trigger] a[k]).hash@ == b[0].hash@;
        }
        assert(b.len() == 0);
    } else {
        assert(has_hash(a, a[0].hash@));
        assert(has_hash(b, a[0].hash@));
        let l = choose|l: int| 0 <= l < b.len() && (#[trigger] b[l]).hash@ == a[0].hash@;
        assert(has_hash(b, b[0].hash@));
        assert(has_hash(a, b[0].hash@));
        let k = choose|k: int| 0 <= k < a.len() && (#[trigger] a[k]).hash@ == b[0].hash@;
        // The two heads carry the same hash: each is bounded by the
        // other's occurrence in its own list, and both orders together
        // force equal sizes and, by antisymmetry, equal hashes.
        if a[0].hash@ != b[0].hash@ {
            assert(l != 0 && k != 0);
            assert(group_le(b[0], b[l]));
            assert(group_le(a[0], a[k]));
            // Valid groups of one hash agree on the aggregated size.
            assert(b[l].aggregated_size == a[0].aggregated_size);
            assert(a[k].aggregated_size == b[0].aggregated_size);
            assert(a[0].aggregated_size == b[0].aggregated_size);
            assert(lex_le(b[0].hash@, b[l].hash@));
            assert(lex_le(a[0].hash@, a[k].hash@));
            lemma_lex_le_antisym(a[0].hash@, b[0].hash@);
        }
        // Same hash, same rows: every stated field agrees.
        assert(a[0].duplicates == b[0].duplicates);
        assert(a[0].aggregated_size == b[0].aggregated_size);
        assert(a[0].paths@.map_values(|s: String| s@) == b[0].paths@.map_values(|s: String| s@));
        let ta = a.drop_first();
        let tb = b.drop_first();
        assert forall|h: Seq<char>| #[trigger] has_hash(ta, h) == has_hash(tb, h) by {
            lemma_has_hash_drop_first(a, h);
            lemma_has_hash_drop_first(b, h);
        }
        assert forall|x: int, y: int| 0 <= x < y < ta.len() implies group_le(
            #[trigger] ta[x],
            #[trigger] ta[y],
        ) && ta[x].hash@ != ta[y].hash@ by {
            assert(ta[x] == a[x + 1]);
            assert(ta[y] == a[y + 1]);
        }
        assert forall|x: int, y: int| 0 <= x < y < tb.len() implies group_le(
            #[trigger] tb[x],
            #[trigger] tb[y],
        ) && tb[x].hash@ != tb[y].hash@ by {
            assert(tb[x] == b[x + 1]);
            assert(tb[y] == b[y + 1]);
        }
        assert forall|x: int| 0 <= x < ta.len() implies valid_group(#[trigger] ta[x], rows) by {
            assert(ta[x] == a[x + 1]);
        }
        assert forall|x: int| 0 <= x < tb.len() implies valid_group(#[trigger] tb[x], rows) by {
            assert(tb[x] == b[x + 1]);
        }
        lemma_ordered_groups_unique(ta, tb, rows);
        assert forall|x: int| 0 <= x < a.len() implies {
            &&& (#[trigger] a[x]).hash@ == b[x].hash@
            &&& a[x].duplicates == b[x].duplicates
            &&& a[x].aggregated_size == b[x].aggregated_size
            &&& a[x].paths@.map_values(|s: String| s@) == b[x].paths@.map_values(|s: String| s@)
        } by {
            if x > 0 {
                assert(a[x] == ta[x - 1]);
                assert(b[x] == tb[x - 1]);
            }
        }
    }
}

/// Dropping the head of a hash-distinct list removes exactly its hash.
proof fn lemma_has_hash_drop_first(a: Seq<DuplicatedFile>, h: Seq<char>)
    requires
        a.len() > 0,
        forall|k: int, l: int| 0 <= k < l < a.len() ==> a[k].hash@ != a[l].hash@,
    ensures
        has_hash(a.drop_first(), h) == (has_hash(a, h) && h != a[0].hash@),
{
    let t = a.drop_first();
    if has_hash(t, h) {
        let k = choose|k: int| 0 <= k < t.len() && (#[trigger] t[k]).hash@ == h;
        assert(a[k + 1].hash@ == h);
        assert(a[0].hash@ != a[k + 1].hash@);
    }
    if has_hash(a, h) && h != a[0].hash@ {
        let k = choose|k: int| 0 <= k < a.len() && (#[trigger] a[k]).hash@ == h;
        assert(k != 0);
        assert(t[k - 1].hash@ == h);
    }
}

/// The ordered duplicate listing of a row snapshot is unique: any two
/// listings describe the same groups in the same order.
pub proof fn lemma_listing_unique(
    a: Seq<DuplicatedFile>,
    b: Seq<DuplicatedFile>,
    rows: Seq<MetaRow>,
)
    requires
        listing_of(a, rows),
        listing_of(b, rows),
    ensures
        group_views_match(a, b),
{
    assert forall|h: Seq<char>| #[trigger] has_hash(a, h) == has_hash(b, h) by {
        if has_hash(a, h) {
            lemma_listing_covers(a, b, rows, h);
        }
        if has_hash(b, h) {
            lemma_listing_covers(b, a, rows, h);
        }
    }
    lemma_ordered_groups_unique(a, b, rows);
}

/// A hash one listing carries qualifies, so the other listing carries it
/// too.
proof fn lemma_listing_covers(
    a: Seq<DuplicatedFile>,
    b: Seq<DuplicatedFile>,
    rows: Seq<MetaRow>,
    h: Seq<char>,
)
    requires
        listing_of(a, rows),
        listing_of(b, rows),
        has_hash(a, h),
    ensures
        has_hash(b, h),
{
    let k = choose|k: int| 0 <= k < a.len() && (#[trigger] a[k]).hash@ == h;
    assert(valid_group(a[k], rows));
    assert(rows_with_hash(rows, h).len() >= 2);
    // Some row carries this hash, so completeness of the other listing
    // applies to it.
    lemma_some_row_has_hash(rows, h);
    let m = choose|m: int| 0 <= m < rows.len() && (#[trigger] rows[m]).hash@ == h;
    let l = choose|l: int| 0 <= l < b.len() && (#[trigger] b[l]).hash@ == rows[m].hash@;
    assert(b[l].hash@ == h);
}

/// A hash whose group is non-empty occurs on some row.
proof fn lemma_some_row_has_hash(rows: Seq<MetaRow>, h: Seq<char>)
    requires
        rows_with_hash(rows, h).len() > 0,
    ensures
        exists|m: int| 0 <= m < rows.len() && (#[trigger] rows[m]).hash@ == h,
    decreases rows.len(),
{
    reveal(Seq::filter);
    if rows.len() > 0 {
        if rows.last().hash@ == h {
            assert(rows[rows.len() - 1].hash@ == h);
        } else {
            lemma_some_row_has_hash(rows.drop_last(), h);
            let m = choose|m: int|
                0 <= m < rows.drop_last().len() && (#[trigger] rows.drop_last()[m]).hash@ == h;
            assert(rows[m].hash@ == h);
        }
    }
}

/// Where a page starts inside the ordered list.
pub open spec fn win_start(all: Seq<DuplicatedFile>, page: int) -> int {
    if (PAGE_SIZE as int) * page <= all.len() {
        (PAGE_SIZE as int) * page
    } else {
        all.len() as int
    }
}

/// A member of the sorted list is a member of the list it permutes.
proof fn lemma_member_of(sorted: Seq<DuplicatedFile>, base: Seq<DuplicatedFile>, x: DuplicatedFile)
    requires
        sorted.to_multiset() == base.to_multiset(),
        sorted.contains(x),
    ensures
        base.contains(x),
{
    broadcast use vstd::seq_lib::group_to_multiset_ensures;

    assert(sorted.to_multiset().count(x) > 0);
    assert(base.to_multiset().count(x) > 0);
}

/// Two positions of the sorted list never share a hash: the groups were
/// built with pairwise distinct hashes.
proof fn lemma_sorted_hashes_distinct(
    sorted: Seq<DuplicatedFile>,
    base: Seq<DuplicatedFile>,
    rows: Seq<MetaRow>,
    k: int,
    l: int,
)
    requires
        sorted.to_multiset() == base.to_multiset(),
        forall|a: int, b: int| 0 <= a < b < base.len() ==> base[a].hash@ != base[b].hash@,
        0 <= k < l < sorted.len(),
    ensures
        sorted[k].hash@ != sorted[l].hash@,
{
    broadcast use vstd::seq_lib::group_to_multiset_ensures;

    if sorted[k].hash@ == sorted[l].hash@ {
        assert(sorted.contains(sorted[k]));
        assert(sorted.contains(sorted[l]));
        lemma_member_of(sorted, base, sorted[k]);
        lemma_member_of(sorted, base, sorted[l]);
        let a = choose|a: int| 0 <= a < base.len() && base[a] == sorted[k];
        let b = choose|b: int| 0 <= b < base.len() && base[b] == sorted[l];
        // Equal hashes force the same base position, so the two sorted
        // positions hold the same value twice.
        assert(a == b);
        assert(sorted[k] == sorted[l]);
        lemma_count_two(sorted, k, l);
        assert(sorted.to_multiset().count(sorted[k]) >= 2);
        lemma_count_le_one(base, sorted[k]);
    }
}

/// A value at two distinct positions counts at least twice.
proof fn lemma_count_two(s: Seq<DuplicatedFile>, k: int, l: int)
    requires
        0 <= k < l < s.len(),
        s[k] == s[l],
    ensures
        s.to_multiset().count(s[k]) >= 2,
    decreases s.len(),
{
    broadcast use vstd::seq_lib::group_to_multiset_ensures;

    if l == s.len() - 1 {
        assert(s.drop_last().push(s.last()) =~= s);
        assert(s.to_multiset() =~= s.drop_last().to_multiset().insert(s.last()));
        assert(s.drop_last()[k] == s[k]);
        assert(s.drop_last().contains(s[k]));
        assert(s.drop_last().to_multiset().count(s[k]) >= 1);
    } else {
        assert(s.drop_last().push(s.last()) =~= s);
        assert(s.to_multiset() =~= s.drop_last().to_multiset().insert(s.last()));
        assert(s.drop_last()[k] == s[k]);
        assert(s.drop_last()[l] == s[l]);
        lemma_count_two(s.drop_last(), k, l);
    }
}

/// In a list with pairwise distinct hashes, a value counts at most once.
proof fn lemma_count_le_one(base: Seq<DuplicatedFile>, x: DuplicatedFile)
    requires
        forall|a: int, b: int| 0 <= a < b < base.len() ==> base[a].hash@ != base[b].hash@,
    ensures
        base.to_multiset().count(x) <= 1,
    decreases base.len(),
{
    broadcast use vstd::seq_lib::group_to_multiset_ensures;

    if base.len() == 0 {
        assert(base.to_multiset() =~= Multiset::<DuplicatedFile>::empty());
    } else {
        assert(base.drop_last().push(base.last()) =~= base);
        assert(base.to_multiset() =~= base.drop_last().to_multiset().insert(base.last()));
        assert(forall|a: int, b: int|
            0 <= a < b < base.drop_last().len() ==> base.drop_last()[a].hash@
                != base.drop_last()[b].hash@);
        lemma_count_le_one(base.drop_last(), x);
        if x == base.last() {
            // The last hash occurs nowhere earlier, so x occurs nowhere
            // earlier either.
            if base.drop_last().to_multiset().count(x) > 0 {
                assert(base.drop_last().contains(x));
                let a = choose|a: int|
                    0 <= a < base.drop_last().len() && base.drop_last()[a] == x;
                assert(base[a].hash@ == base[base.len() - 1].hash@);
            }
        }
    }
}

} // verus!

