//! Character-level reasoning about file paths: the final path component,
//! its extension, and ASCII-lowercase comparison.

use vstd::prelude::*;

verus! {

/// A path separator. Both kinds are accepted so that paths from either
/// convention classify the same way.
pub open spec fn is_sep(c: char) -> bool {
    c == '/' || c == '\\'
}

/// The final component of a path: everything after the last separator.
pub open spec fn file_part(path: Seq<char>) -> Seq<char>
    decreases path.len(),
{
    if path.len() == 0 {
        Seq::empty()
    } else if is_sep(path.last()) {
        Seq::empty()
    } else {
        file_part(path.drop_last()).push(path.last())
    }
}

/// The extension of a file name: the suffix after the last dot, where only
/// dots after the first character count. A name with no such dot has no
/// extension; a name ending in a dot has the empty extension.
pub open spec fn ext_of_name(name: Seq<char>) -> Option<Seq<char>>
    decreases name.len(),
{
    if name.len() <= 1 {
        None
    } else if name.last() == '.' {
        Some(Seq::empty())
    } else {
        match ext_of_name(name.drop_last()) {
            None => None,
            Some(e) => Some(e.push(name.last())),
        }
    }
}

/// The extension of a path's final component.
pub open spec fn spec_extension(path: Seq<char>) -> Option<Seq<char>> {
    ext_of_name(file_part(path))
}

/// The code point of a character after ASCII lowercasing.
pub open spec fn lower_code(c: char) -> int {
    if 65 <= c as int && c as int <= 90 {
        c as int + 32
    } else {
        c as int
    }
}

/// `s` equals `key` once `s` is ASCII-lowercased, character by character.
pub open spec fn matches_lower(s: Seq<char>, key: Seq<char>) -> bool {
    &&& s.len() == key.len()
    &&& forall|i: int| 0 <= i < s.len() ==> lower_code(s[i]) == key[i] as int
}

/// Where the extension of `path` begins: the index just after the last
/// qualifying dot of the final component, or `None` when the component
/// has no extension.
pub fn extension_start(path: &str) -> (r: Option<usize>)
    ensures
        match r {
            Some(d) => {
                &&& d <= path@.len()
                &&& spec_extension(path@) == Some(path@.subrange(d as int, path@.len() as int))
            },
            None => spec_extension(path@) is None,
        },
{
    let n: usize = path.unicode_len();
    let mut i: usize = 0;
    // Start index of the final component seen so far.
    let mut fp_start: usize = 0;
    // Index just after the last qualifying dot of that component.
    let mut dot: Option<usize> = None;
    while i < n
        invariant
            n == path@.len(),
            i <= n,
            fp_start <= i,
            file_part(path@.subrange(0, i as int)) == path@.subrange(fp_start as int, i as int),
            match dot {
                Some(d) => {
                    &&& fp_start < d <= i
                    &&& ext_of_name(file_part(path@.subrange(0, i as int))) == Some(
                        path@.subrange(d as int, i as int),
                    )
                },
                None => ext_of_name(file_part(path@.subrange(0, i as int))) is None,
            },
        decreases n - i,
    {
        let c = path.get_char(i);
        proof {
            assert(path@.subrange(0, i + 1).drop_last() =~= path@.subrange(0, i as int));
            assert(path@.subrange(0, i + 1).last() == path@[i as int]);
        }
        if c == '/' || c == '\\' {
            fp_start = i + 1;
            dot = None;
            proof {
                assert(file_part(path@.subrange(0, i + 1)) =~= path@.subrange(
                    i + 1 as int,
                    i + 1 as int,
                ));
            }
        } else {
            proof {
                let fp = file_part(path@.subrange(0, i as int));
                assert(file_part(path@.subrange(0, i + 1)) == fp.push(path@[i as int]));
                assert(fp.push(path@[i as int]).drop_last() =~= fp);
                assert(path@.subrange(fp_start as int, i as int).push(path@[i as int])
                    =~= path@.subrange(fp_start as int, i + 1));
            }
            if c == '.' {
                if i > fp_start {
                    dot = Some(i + 1);
                    proof {
                        assert(Seq::<char>::empty() =~= path@.subrange(
                            i + 1 as int,
                            i + 1 as int,
                        ));
                    }
                } else {
                    // A dot as the component's first character does not qualify.
                    proof {
                        assert(file_part(path@.subrange(0, i as int)).len() == 0);
                    }
                }
            } else {
                proof {
                    if let Some(d) = dot {
                        assert(path@.subrange(d as int, i as int).push(path@[i as int])
                            =~= path@.subrange(d as int, i + 1));
                    }
                }
            }
        }
        i = i + 1;
    }
    proof {
        assert(path@.subrange(0, n as int) =~= path@);
    }
    dot
}

/// Where the final component of `path` begins: the index just after the
/// last separator.
pub fn file_part_start(path: &str) -> (s: usize)
    ensures
        s <= path@.len(),
        file_part(path@) == path@.subrange(s as int, path@.len() as int),
{
    let n: usize = path.unicode_len();
    let mut i: usize = 0;
    let mut fp_start: usize = 0;
    while i < n
        invariant
            n == path@.len(),
            i <= n,
            fp_start <= i,
            file_part(path@.subrange(0, i as int)) == path@.subrange(fp_start as int, i as int),
        decreases n - i,
    {
        let c = path.get_char(i);
        proof {
            assert(path@.subrange(0, i + 1).drop_last() =~= path@.subrange(0, i as int));
            assert(path@.subrange(0, i + 1).last() == path@[i as int]);
        }
        if c == '/' || c == '\\' {
            fp_start = i + 1;
            proof {
                assert(file_part(path@.subrange(0, i + 1)) =~= path@.subrange(
                    i + 1 as int,
                    i + 1 as int,
                ));
            }
        } else {
            proof {
                assert(file_part(path@.subrange(0, i + 1)) == file_part(
                    path@.subrange(0, i as int),
                ).push(path@[i as int]));
                assert(path@.subrange(fp_start as int, i as int).push(path@[i as int])
                    =~= path@.subrange(fp_start as int, i + 1));
            }
        }
        i = i + 1;
    }
    proof {
        assert(path@.subrange(0, n as int) =~= path@);
    }
    fp_start
}

/// Whether the suffix of `path` starting at `from` equals `key` exactly.
pub fn suffix_equals(path: &str, from: usize, key: &str) -> (r: bool)
    requires
        from <= path@.len(),
    ensures
        r == (path@.subrange(from as int, path@.len() as int) == key@),
{
    let n: usize = path.unicode_len();
    let m: usize = key.unicode_len();
    if n - from != m {
        proof {
            assert(path@.subrange(from as int, n as int).len() != key@.len());
        }
        return false;
    }
    let mut j: usize = 0;
    while j < m
        invariant
            n == path@.len(),
            m == key@.len(),
            from + m == n,
            j <= m,
            forall|k: int| 0 <= k < j ==> path@[from + k] == key@[k],
        decreases m - j,
    {
        let c = path.get_char(from + j);
        let k = key.get_char(j);
        if c != k {
            proof {
                assert(path@.subrange(from as int, n as int)[j as int] == path@[from + j]);
            }
            return false;
        }
        j = j + 1;
    }
    proof {
        assert(path@.subrange(from as int, n as int) =~= key@);
    }
    true
}

/// Whether the suffix of `path` starting at `from` lowercases to `key`.
pub fn suffix_matches_lower(path: &str, from: usize, key: &str) -> (r: bool)
    requires
        from <= path@.len(),
    ensures
        r == matches_lower(path@.subrange(from as int, path@.len() as int), key@),
{
    let n: usize = path.unicode_len();
    let m: usize = key.unicode_len();
    if n - from != m {
        return false;
    }
    let mut j: usize = 0;
    while j < m
        invariant
            n == path@.len(),
            m == key@.len(),
            from + m == n,
            j <= m,
            forall|k: int|
                0 <= k < j ==> lower_code(path@[from + k]) == key@[k] as int,
        decreases m - j,
    {
        let c = path.get_char(from + j);
        let k = key.get_char(j);
        let ci: u32 = c as u32;
        let ki: u32 = k as u32;
        let lowered: u32 = if 65 <= ci && ci <= 90 {
            ci + 32
        } else {
            ci
        };
        if lowered != ki {
            assert(lower_code(path@[from + j]) != key@[j as int] as int);
            return false;
        }
        j = j + 1;
    }
    assert forall|k: int| 0 <= k < m implies lower_code(
        path@.subrange(from as int, n as int)[k],
    ) == key@[k] as int by {
        assert(path@.subrange(from as int, n as int)[k] == path@[from + k]);
    }
    true
}

} // verus!
