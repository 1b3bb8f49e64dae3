use vstd::prelude::*;

use crate::kmer::slice_window;

verus! {

/// The position just past the last `b` in `s`, or 0 where `s` has none.
pub open spec fn after_last(s: Seq<u8>, b: u8) -> int
    decreases s.len(),
{
    if s.len() == 0 {
        0
    } else if s.last() == b {
        s.len() as int
    } else {
        after_last(s.drop_last(), b)
    }
}

/// The last `/`-separated segment of a path.
pub open spec fn basename(path: Seq<u8>) -> Seq<u8> {
    path.subrange(after_last(path, 47), path.len() as int)
}

/// The base name of a path without its last extension; a name whose only
/// dot leads it is kept whole.
pub open spec fn file_stem(path: Seq<u8>) -> Seq<u8> {
    let base = basename(path);
    let dot = after_last(base, 46);
    if dot > 1 {
        base.subrange(0, dot - 1)
    } else {
        base
    }
}

/// The position just past the last `b` in `s`, or 0.
pub fn find_after_last(s: &[u8], b: u8) -> (r: usize)
    ensures
        r == after_last(s@, b),
        r <= s@.len(),
{
    let mut i: usize = s.len();
    assert(s@.subrange(0, s@.len() as int) =~= s@);
    while i > 0 && s[i - 1] != b
        invariant
            i <= s@.len(),
            after_last(s@.subrange(0, i as int), b) == after_last(s@, b),
        decreases i,
    {
        assert(s@.subrange(0, i as int).drop_last() =~= s@.subrange(0, i - 1));
        i = i - 1;
    }
    proof {
        if i > 0 {
            assert(s@.subrange(0, i as int).last() == b);
        }
    }
    i
}

/// The last `/`-separated segment of `path`.
pub fn basename_of(path: &[u8]) -> (r: Vec<u8>)
    ensures
        r@ == basename(path@),
{
    let start = find_after_last(path, 47);
    slice_window(path, start, path.len() - start)
}

/// The base name of `path` without its last extension.
pub fn file_stem_of(path: &[u8]) -> (r: Vec<u8>)
    ensures
        r@ == file_stem(path@),
{
    let base = basename_of(path);
    let dot = find_after_last(base.as_slice(), 46);
    if dot > 1 {
        slice_window(base.as_slice(), 0, dot - 1)
    } else {
        base
    }
}

} // verus!
