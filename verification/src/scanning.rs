//! Decisions the directory scanner makes: which entries to visit, and how
//! to split the found paths into chunks for parallel hashing. The walking
//! itself is I/O and lives with the caller.

use vstd::prelude::*;

use crate::pathname::{file_part, file_part_start, suffix_equals};

verus! {

/// Whether the final component of `path` equals some name in `names`.
pub open spec fn name_is_disallowed(names: Seq<Seq<char>>, path: Seq<char>) -> bool {
    exists|i: int| 0 <= i < names.len() && names[i] == file_part(path)
}

/// Filters scanner entries by their final path component against a fixed
/// list of disallowed names. An entry with an empty final component is
/// never visited.
pub struct ShouldBeVisited {
    pub disallowed_entry_names: Vec<String>,
}

impl ShouldBeVisited {
    pub fn new(disallowed_entry_names: Vec<String>) -> (r: Self)
        ensures
            r.disallowed_entry_names@ == disallowed_entry_names@,
    {
        ShouldBeVisited { disallowed_entry_names }
    }

    /// Whether the scanner should descend into `path`: its final
    /// component is non-empty and not disallowed.
    pub fn should_be_visited(&self, path: &str) -> (r: bool)
        ensures
            r == (file_part(path@).len() > 0 && !name_is_disallowed(
                self.disallowed_entry_names@.map_values(|s: String| s@),
                path@,
            )),
    {
        let ghost names = self.disallowed_entry_names@.map_values(|s: String| s@);
        let start = file_part_start(path);
        let len = path.unicode_len();
        if start == len {
            proof {
                assert(file_part(path@).len() == 0);
            }
            return false;
        }
        let n: usize = self.disallowed_entry_names.len();
        let mut i: usize = 0;
        while i < n
            invariant
                n == self.disallowed_entry_names@.len(),
                i <= n,
                start <= path@.len(),
                names == self.disallowed_entry_names@.map_values(|s: String| s@),
                file_part(path@) == path@.subrange(start as int, path@.len() as int),
                forall|k: int| 0 <= k < i ==> names[k] != file_part(path@),
            decreases n - i,
        {
            if suffix_equals(path, start, self.disallowed_entry_names[i].as_str()) {
                proof {
                    assert(names[i as int] == file_part(path@));
                }
                return false;
            }
            i = i + 1;
        }
        true
    }
}

impl Default for ShouldBeVisited {
    /// The stock filter: package caches and system folders stay out.
    fn default() -> (r: Self)
        ensures
            r.disallowed_entry_names@.map_values(|s: String| s@) == seq![
                "node_modules"@,
                "WpSystem"@,
                ".cache"@,
                "cache"@,
            ],
    {
        let mut names: Vec<String> = Vec::new();
        names.push("node_modules".to_owned());
        names.push("WpSystem".to_owned());
        names.push(".cache".to_owned());
        names.push("cache".to_owned());
        let r = ShouldBeVisited { disallowed_entry_names: names };
        proof {
            assert(r.disallowed_entry_names@.map_values(|s: String| s@) =~= seq![
                "node_modules"@,
                "WpSystem"@,
                ".cache"@,
                "cache"@,
            ]);
        }
        r
    }
}

/// The concatenation of a sequence of chunks.
pub open spec fn flatten_chunks<T>(chunks: Seq<Seq<T>>) -> Seq<T>
    decreases chunks.len(),
{
    if chunks.len() == 0 {
        Seq::empty()
    } else {
        flatten_chunks(chunks.drop_last()) + chunks.last()
    }
}

/// Splits `paths` into chunks for the worker pool: with a usable
/// `num_threads` the chunks hold `paths.len() / num_threads` entries each
/// (the last one whatever remains); otherwise everything stays in one
/// chunk. Order is kept and nothing is lost.
pub fn split_vec_into_chunks<T>(paths: Vec<T>, num_threads: usize) -> (r: Vec<Vec<T>>)
    ensures
        flatten_chunks(r@.map_values(|c: Vec<T>| c@)) == paths@,
        (num_threads == 0 || num_threads > paths@.len()) ==> r@.len() == 1 && (r@[0])@ == paths@,
        1 <= num_threads <= paths@.len() ==> {
            &&& forall|k: int|
                0 <= k < r@.len() ==> 1 <= (#[trigger] r@[k])@.len() <= paths@.len() as int
                    / num_threads as int
            &&& forall|k: int|
                0 <= k < r@.len() - 1 ==> (#[trigger] r@[k])@.len() == paths@.len() as int
                    / num_threads as int
        },
        paths@.len() > 0 ==> r@.len() > 0,
{
    let ghost paths0 = paths@;
    let n: usize = paths.len();
    if num_threads == 0 || num_threads > n {
        let mut out: Vec<Vec<T>> = Vec::new();
        out.push(paths);
        proof {
            assert(out@.map_values(|c: Vec<T>| c@) =~= seq![paths0]);
            assert(flatten_chunks(seq![paths0]) == flatten_chunks(
                seq![paths0].drop_last(),
            ) + paths0);
            assert(seq![paths0].drop_last() =~= Seq::<Seq<T>>::empty());
            assert(flatten_chunks(Seq::<Seq<T>>::empty()) + paths0 =~= paths0);
        }
        return out;
    }
    let size: usize = n / num_threads;
    let mut rest = paths;
    let mut out: Vec<Vec<T>> = Vec::new();
    let mut cur: Vec<T> = Vec::new();
    let mut taken: usize = 0;
    proof {
        assert(size >= 1) by (nonlinear_arith)
            requires
                num_threads != 0,
                num_threads <= n,
                size == n / num_threads,
        ;
        assert(out@.map_values(|c: Vec<T>| c@) =~= Seq::<Seq<T>>::empty());
        assert(flatten_chunks(Seq::<Seq<T>>::empty()) =~= Seq::<T>::empty());
        assert(flatten_chunks(out@.map_values(|c: Vec<T>| c@)) + cur@ + rest@ =~= paths0);
    }
    while rest.len() > 0
        invariant
            size >= 1,
            size == paths0.len() as int / num_threads as int,
            taken == cur@.len(),
            taken < size,
            flatten_chunks(out@.map_values(|c: Vec<T>| c@)) + cur@ + rest@ == paths0,
            forall|k: int| 0 <= k < out@.len() ==> (#[trigger] out@[k])@.len() == size as int,
        decreases rest@.len(),
    {
        let ghost pre_rest = rest@;
        let ghost pre_cur = cur@;
        let x = rest.remove(0);
        cur.push(x);
        proof {
            assert(rest@ =~= pre_rest.subrange(1, pre_rest.len() as int));
            assert(pre_cur.push(pre_rest[0]) + rest@ =~= pre_cur + pre_rest);
            assert(flatten_chunks(out@.map_values(|c: Vec<T>| c@)) + cur@ + rest@
                =~= flatten_chunks(out@.map_values(|c: Vec<T>| c@)) + pre_cur + pre_rest);
        }
        taken = taken + 1;
        if taken == size {
            let ghost pre_out = out@;
            let full = cur;
            let ghost full_s = full@;
            cur = Vec::new();
            out.push(full);
            taken = 0;
            proof {
                assert(out@.map_values(|c: Vec<T>| c@) =~= pre_out.map_values(
                    |c: Vec<T>| c@,
                ).push(full_s));
                assert(flatten_chunks(pre_out.map_values(|c: Vec<T>| c@).push(full_s))
                    == flatten_chunks(
                    pre_out.map_values(|c: Vec<T>| c@).push(full_s).drop_last(),
                ) + full_s);
                assert(pre_out.map_values(|c: Vec<T>| c@).push(full_s).drop_last()
                    =~= pre_out.map_values(|c: Vec<T>| c@));
                assert(flatten_chunks(out@.map_values(|c: Vec<T>| c@)) + cur@ + rest@
                    =~= flatten_chunks(pre_out.map_values(|c: Vec<T>| c@)) + full_s + rest@);
            }
        }
    }
    if cur.len() > 0 {
        let ghost pre_out = out@;
        let ghost cur_s = cur@;
        out.push(cur);
        proof {
            assert(out@.map_values(|c: Vec<T>| c@) =~= pre_out.map_values(|c: Vec<T>| c@).push(
                cur_s,
            ));
            assert(flatten_chunks(pre_out.map_values(|c: Vec<T>| c@).push(cur_s))
                == flatten_chunks(pre_out.map_values(|c: Vec<T>| c@).push(cur_s).drop_last())
                + cur_s);
            assert(pre_out.map_values(|c: Vec<T>| c@).push(cur_s).drop_last() =~= pre_out
                .map_values(|c: Vec<T>| c@));
            assert(flatten_chunks(out@.map_values(|c: Vec<T>| c@)) =~= paths0);
        }
    } else {
        proof {
            assert(flatten_chunks(out@.map_values(|c: Vec<T>| c@)) + cur@ + rest@
                =~= flatten_chunks(out@.map_values(|c: Vec<T>| c@)));
        }
    }
    proof {
        if n > 0 && out@.len() == 0 {
            assert(out@.map_values(|c: Vec<T>| c@) =~= Seq::<Seq<T>>::empty());
            assert(flatten_chunks(Seq::<Seq<T>>::empty()) =~= Seq::<T>::empty());
        }
    }
    out
}

} // verus!
