//! Deciding whether bytes look like human-readable text: the fraction of
//! ASCII-graphic or ASCII-whitespace bytes must strictly exceed 7/10.

use vstd::prelude::*;

verus! {

/// ASCII graphic (0x21..=0x7E) or ASCII whitespace (space, tab, newline,
/// form feed, carriage return).
pub open spec fn is_readable_byte(b: u8) -> bool {
    ||| 33 <= b <= 126
    ||| b == 32
    ||| b == 9
    ||| b == 10
    ||| b == 12
    ||| b == 13
}

/// How many bytes of `s` are readable.
pub open spec fn count_readable(s: Seq<u8>) -> int
    decreases s.len(),
{
    if s.len() == 0 {
        0
    } else {
        count_readable(s.drop_last()) + if is_readable_byte(s.last()) {
            1int
        } else {
            0int
        }
    }
}

/// More than 7/10 of the bytes are readable. Empty input does not qualify.
pub open spec fn mostly_readable(s: Seq<u8>) -> bool {
    10 * count_readable(s) > 7 * s.len()
}

/// Whether `b` is ASCII graphic or ASCII whitespace.
pub fn readable_byte(b: u8) -> (r: bool)
    ensures
        r == is_readable_byte(b),
{
    (33 <= b && b <= 126) || b == 32 || b == 9 || b == 10 || b == 12 || b == 13
}

/// Whether the readable fraction of `bytes` strictly exceeds 7/10.
pub fn readable_fraction_exceeds_threshold(bytes: &[u8]) -> (r: bool)
    ensures
        r == mostly_readable(bytes@),
{
    let n: usize = bytes.len();
    let mut count: usize = 0;
    let mut i: usize = 0;
    while i < n
        invariant
            n == bytes@.len(),
            i <= n,
            count == count_readable(bytes@.subrange(0, i as int)),
            count <= i,
        decreases n - i,
    {
        proof {
            assert(bytes@.subrange(0, i + 1).drop_last() =~= bytes@.subrange(0, i as int));
            assert(bytes@.subrange(0, i + 1).last() == bytes@[i as int]);
        }
        if readable_byte(bytes[i]) {
            count = count + 1;
        }
        i = i + 1;
    }
    proof {
        assert(bytes@.subrange(0, n as int) =~= bytes@);
    }
    (count as u128) * 10 > (n as u128) * 7
}

/// Decides whether a file's leading bytes look like readable text. The
/// caller supplies the sample it read; the decision is a function of those
/// bytes alone.
pub struct DetermineReadabilityOfFile;

impl DetermineReadabilityOfFile {
    pub fn new() -> (r: Self) {
        DetermineReadabilityOfFile {}
    }

    /// Whether a sample of a file's bytes reads as text.
    pub fn is_sample_readable(&self, sample: &[u8]) -> (r: bool)
        ensures
            r == mostly_readable(sample@),
    {
        readable_fraction_exceeds_threshold(sample)
    }
}

} // verus!
