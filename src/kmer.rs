use vstd::prelude::*;

use vstd::utf8::{
    decode_utf8, encode_utf8, encode_utf8_decode_utf8, encode_utf8_valid_utf8,
    is_char_boundary_iff_is_leading_byte, pop_first_scalar, valid_utf8, valid_utf8_concat,
    valid_utf8_split,
};

use crate::text::{string_from_utf8, to_upper, upper_of};

verus! {

/// The window of width `k` that starts at position `p` of `s`.
pub open spec fn window(s: Seq<u8>, k: nat, p: int) -> Seq<u8> {
    s.subrange(p, p + k)
}

/// The k-mers of `s` in order of position: one for each start from 0 through
/// `len - k`, none when `s` is shorter than `k`.
pub open spec fn kmers_of(s: Seq<u8>, k: nat) -> Seq<Seq<u8>> {
    if s.len() < k {
        Seq::empty()
    } else {
        Seq::new((s.len() - k + 1) as nat, |p: int| window(s, k, p))
    }
}

/// Extracts every k-mer of `seq`, sliding a window of width `k` one byte at a
/// time. A sequence shorter than `k` has none.
pub fn extract_kmers(seq: &[u8], k: usize) -> (r: Vec<Vec<u8>>)
    requires
        k > 0,
    ensures
        r@.len() == if seq@.len() >= k { seq@.len() - k + 1 } else { 0 },
        forall|p: int| 0 <= p < r@.len() ==> #[trigger] r@[p]@ == window(seq@, k as nat, p),
{
    let mut r: Vec<Vec<u8>> = Vec::new();
    if seq.len() < k {
        return r;
    }
    let n: usize = seq.len() - k + 1;
    let mut start: usize = 0;
    while start < n
        invariant
            n == seq@.len() - k + 1,
            start <= n,
            k > 0,
            r@.len() == start,
            forall|p: int| 0 <= p < start ==> #[trigger] r@[p]@ == window(seq@, k as nat, p),
        decreases n - start,
    {
        let w = slice_window(seq, start, k);
        r.push(w);
        start = start + 1;
    }
    r
}

/// Copies `seq[start..start + k]` into a vector of its own.
pub(crate) fn slice_window(seq: &[u8], start: usize, k: usize) -> (r: Vec<u8>)
    requires
        start + k <= seq@.len(),
    ensures
        r@ == window(seq@, k as nat, start as int),
{
    let mut r: Vec<u8> = Vec::with_capacity(k);
    let len: usize = seq.len();
    assert(start + k <= len);
    let end: usize = start + k;
    let mut i: usize = start;
    while i < end
        invariant
            start <= i <= end,
            end == start + k,
            end <= seq@.len(),
            r@ == seq@.subrange(start as int, i as int),
        decreases end - i,
    {
        r.push(seq[i]);
        i = i + 1;
        assert(r@ =~= seq@.subrange(start as int, i as int));
    }
    r
}

/// The lines of `s` joined: every line feed is removed, together with a
/// carriage return right before it; a carriage return elsewhere stays.
pub open spec fn joined(s: Seq<u8>) -> Seq<u8>
    decreases s.len(),
{
    if s.len() == 0 {
        Seq::empty()
    } else if s.last() == 10 {
        if s.len() >= 2 && s[s.len() - 2] == 13 {
            joined(s.subrange(0, s.len() - 2))
        } else {
            joined(s.drop_last())
        }
    } else {
        joined(s.drop_last()).push(s.last())
    }
}

/// The sequence that k-mers are taken from: the lines of the UTF-8 text `s`
/// joined and, when `upper` is set, upper-cased by `str::to_uppercase`.
pub open spec fn normalized(s: Seq<u8>, upper: bool) -> Seq<u8> {
    if upper {
        encode_utf8(upper_of(decode_utf8(joined(s))))
    } else {
        joined(s)
    }
}

/// Removing one ASCII byte from valid UTF-8 leaves valid UTF-8.
proof fn lemma_remove_ascii(b: Seq<u8>, j: int)
    requires
        valid_utf8(b),
        0 <= j < b.len(),
        b[j] < 128,
    ensures
        valid_utf8(b.subrange(0, j) + b.subrange(j + 1, b.len() as int)),
{
    is_char_boundary_iff_is_leading_byte(b, j);
    valid_utf8_split(b, j);
    let tail = b.subrange(j, b.len() as int);
    assert(valid_utf8(tail));
    assert(pop_first_scalar(tail) =~= b.subrange(j + 1, b.len() as int));
    valid_utf8_concat(b.subrange(0, j), b.subrange(j + 1, b.len() as int));
}

/// Joins the lines of `seq`; joining keeps UTF-8 text valid.
fn join_lines(seq: &[u8]) -> (r: Vec<u8>)
    ensures
        r@ == joined(seq@),
        valid_utf8(seq@) ==> valid_utf8(r@),
{
    let mut r: Vec<u8> = Vec::with_capacity(seq.len());
    let n: usize = seq.len();
    let mut i: usize = 0;
    assert(r@ + seq@.subrange(0, n as int) =~= seq@);
    while i < n
        invariant
            n == seq@.len(),
            i <= n,
            r@ == joined(seq@.subrange(0, i as int)),
            0 < i < n && seq@[i - 1] == 13 ==> seq@[i as int] != 10,
            valid_utf8(seq@) ==> valid_utf8(r@ + seq@.subrange(i as int, n as int)),
        decreases n - i,
    {
        let ghost rest = r@ + seq@.subrange(i as int, n as int);
        let b = seq[i];
        if b == 13 && i + 1 < n && seq[i + 1] == 10 {
            proof {
                assert(seq@.subrange(0, i + 2).subrange(0, i as int) =~= seq@.subrange(0, i as int));
                if valid_utf8(seq@) {
                    let j = r@.len() as int;
                    lemma_remove_ascii(rest, j);
                    let once = rest.subrange(0, j) + rest.subrange(j + 1, rest.len() as int);
                    assert(once =~= r@ + seq@.subrange(i + 1, n as int));
                    lemma_remove_ascii(once, j);
                    assert(once.subrange(0, j) + once.subrange(j + 1, once.len() as int) =~= r@ + seq@.subrange(i + 2, n as int));
                }
            }
            i = i + 2;
        } else if b == 10 {
            proof {
                assert(seq@.subrange(0, i + 1).drop_last() =~= seq@.subrange(0, i as int));
                if valid_utf8(seq@) {
                    let j = r@.len() as int;
                    lemma_remove_ascii(rest, j);
                    assert(rest.subrange(0, j) + rest.subrange(j + 1, rest.len() as int) =~= r@ + seq@.subrange(i + 1, n as int));
                }
            }
            i = i + 1;
        } else {
            proof {
                assert(seq@.subrange(0, i + 1).drop_last() =~= seq@.subrange(0, i as int));
            }
            r.push(b);
            assert(r@ + seq@.subrange(i + 1, n as int) =~= rest);
            i = i + 1;
        }
    }
    assert(seq@.subrange(0, n as int) =~= seq@);
    assert(r@ + seq@.subrange(n as int, n as int) =~= r@);
    r
}

/// Joins the lines of a raw sequence and, when `upper` is set, upper-cases
/// it.
pub fn normalize(seq: &str, upper: bool) -> (r: Vec<u8>)
    ensures
        r@ == normalized(encode_utf8(seq@), upper),
{
    let bytes = seq.as_bytes();
    proof {
        encode_utf8_valid_utf8(seq@);
    }
    let lines = join_lines(bytes);
    if !upper {
        return lines;
    }
    let ghost joined_bytes = lines@;
    match string_from_utf8(lines) {
        Some(text) => {
            proof {
                encode_utf8_decode_utf8(text@);
            }
            let up = to_upper(text.as_str());
            let ub = up.as_str().as_bytes();
            let r = slice_window(ub, 0, ub.len());
            assert(ub@.subrange(0, ub@.len() as int) =~= ub@);
            r
        },
        None => {
            proof {
                assert(false);
            }
            Vec::new()
        },
    }
}

} // verus!
