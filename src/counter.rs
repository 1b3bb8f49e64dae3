use vstd::prelude::*;

use vstd::multiset::Multiset;

use crate::kmer::{extract_kmers, kmers_of};

verus! {

broadcast use vstd::multiset::group_multiset_properties, vstd::seq_lib::group_to_multiset_ensures;

/// Occurrence counts of k-mers, scoped to one genome.
///
/// Its model is the multiset of the k-mers counted so far; each k-mer seen is
/// held once, beside its number of occurrences.
pub struct KmerCounter {
    kmers: Vec<Vec<u8>>,
    counts: Vec<usize>,
    contents: Ghost<Multiset<Seq<u8>>>,
}

impl View for KmerCounter {
    type V = Multiset<Seq<u8>>;

    closed spec fn view(&self) -> Multiset<Seq<u8>> {
        self.contents@
    }
}

impl KmerCounter {
    /// The distinct k-mers held, in the order in which they were first seen.
    pub closed spec fn keys(&self) -> Seq<Seq<u8>> {
        self.kmers@.map_values(|v: Vec<u8>| v@)
    }

    /// Each k-mer is held once, with its count, and every k-mer of the
    /// model is held.
    pub closed spec fn wf(&self) -> bool {
        &&& self.kmers@.len() == self.counts@.len()
        &&& forall|i: int|
            0 <= i < self.kmers@.len() ==> {
                &&& self.counts@[i] == self.contents@.count(#[trigger] self.kmers@[i]@)
                &&& self.counts@[i] > 0
            }
        &&& forall|i: int, j: int|
            0 <= i < self.kmers@.len() && 0 <= j < self.kmers@.len() && i != j
                ==> self.kmers@[i]@ != self.kmers@[j]@
        &&& forall|x: Seq<u8>|
            self.contents@.count(x) > 0 ==> exists|i: int|
                0 <= i < self.kmers@.len() && #[trigger] self.kmers@[i]@ == x
    }

    /// What a well-formed counter shows of its keys.
    pub proof fn lemma_keys(&self)
        requires
            self.wf(),
        ensures
            forall|i: int| 0 <= i < self.keys().len() ==> self@.count(#[trigger] self.keys()[i]) > 0,
            forall|x: Seq<u8>| self@.count(x) > 0 ==> #[trigger] self.keys().contains(x),
            self.keys().no_duplicates(),
    {
        assert forall|x: Seq<u8>| self@.count(x) > 0 implies #[trigger] self.keys().contains(x) by {
            let i = choose|i: int| 0 <= i < self.kmers@.len() && #[trigger] self.kmers@[i]@ == x;
            assert(self.keys()[i] == x);
        }
    }

    /// A counter that holds nothing.
    pub fn new() -> (r: KmerCounter)
        ensures
            r.wf(),
            r@ =~= Multiset::empty(),
    {
        KmerCounter { kmers: Vec::new(), counts: Vec::new(), contents: Ghost(Multiset::empty()) }
    }

    /// The number of distinct k-mers held.
    pub fn len(&self) -> (r: usize)
        ensures
            r == self.keys().len(),
    {
        self.kmers.len()
    }

    /// The `i`-th distinct k-mer held.
    pub fn kmer_at(&self, i: usize) -> (r: &Vec<u8>)
        requires
            i < self.keys().len(),
        ensures
            r@ == self.keys()[i as int],
    {
        &self.kmers[i]
    }

    /// The number of occurrences of the `i`-th distinct k-mer held.
    pub fn count_at(&self, i: usize) -> (r: usize)
        requires
            self.wf(),
            i < self.keys().len(),
        ensures
            r == self@.count(self.keys()[i as int]),
    {
        self.counts[i]
    }

    /// Where `kmer` is held, or `None`.
    fn position_of(&self, kmer: &[u8]) -> (r: Option<usize>)
        requires
            self.wf(),
        ensures
            match r {
                Some(i) => i < self.kmers@.len() && self.kmers@[i as int]@ == kmer@,
                None => self@.count(kmer@) == 0,
            },
    {
        let mut i: usize = 0;
        while i < self.kmers.len()
            invariant
                self.wf(),
                i <= self.kmers@.len(),
                forall|j: int| 0 <= j < i ==> self.kmers@[j]@ != kmer@,
            decreases self.kmers@.len() - i,
        {
            if bytes_equal(self.kmers[i].as_slice(), kmer) {
                return Some(i);
            }
            i = i + 1;
        }
        None
    }

    /// The number of occurrences of `kmer` counted.
    pub fn count(&self, kmer: &[u8]) -> (r: usize)
        requires
            self.wf(),
        ensures
            r == self@.count(kmer@),
    {
        match self.position_of(kmer) {
            Some(i) => self.counts[i],
            None => 0,
        }
    }

    /// Counts one more occurrence of `kmer`.
    fn add_one(&mut self, kmer: Vec<u8>)
        requires
            old(self).wf(),
            old(self)@.len() < usize::MAX,
        ensures
            final(self).wf(),
            final(self)@ =~= old(self)@.insert(kmer@),
    {
        let ghost prev = self@;
        match self.position_of(kmer.as_slice()) {
            Some(i) => {
                assert(self.counts@[i as int] <= prev.len());
                let c = self.counts[i] + 1;
                self.counts.set(i, c);
                self.contents = Ghost(prev.insert(kmer@));
                assert forall|x: Seq<u8>| self.contents@.count(x) > 0 implies exists|j: int|
                    0 <= j < self.kmers@.len() && #[trigger] self.kmers@[j]@ == x by {
                    if x != kmer@ {
                        assert(prev.count(x) > 0);
                        let j = choose|j: int| 0 <= j < old(self).kmers@.len() && #[trigger] old(self).kmers@[j]@ == x;
                        assert(self.kmers@[j]@ == x);
                    } else {
                        assert(self.kmers@[i as int]@ == x);
                    }
                }
            },
            None => {
                let ghost kv = kmer@;
                self.kmers.push(kmer);
                self.counts.push(1);
                self.contents = Ghost(prev.insert(kv));
                assert(self.kmers@[self.kmers@.len() - 1]@ == kv);
                assert forall|x: Seq<u8>| self.contents@.count(x) > 0 implies exists|j: int|
                    0 <= j < self.kmers@.len() && #[trigger] self.kmers@[j]@ == x by {
                    if x != kv {
                        assert(prev.count(x) > 0);
                        let j = choose|j: int| 0 <= j < old(self).kmers@.len() && #[trigger] old(self).kmers@[j]@ == x;
                        assert(self.kmers@[j]@ == x);
                    }
                }
            },
        }
    }

    /// Counts every k-mer of `seq` on top of what is held.
    pub fn add_kmers(&mut self, seq: &[u8], k: usize)
        requires
            old(self).wf(),
            k > 0,
            old(self)@.len() + seq@.len() <= usize::MAX,
        ensures
            final(self).wf(),
            final(self)@ =~= old(self)@.add(kmers_of(seq@, k as nat).to_multiset()),
    {
        let ghost start = self@;
        let ghost all = kmers_of(seq@, k as nat);
        let windows = extract_kmers(seq, k);
        assert(windows@.len() == all.len());
        let mut p: usize = 0;
        while p < windows.len()
            invariant
                self.wf(),
                p <= windows@.len(),
                windows@.len() == all.len(),
                all.len() <= seq@.len(),
                forall|q: int| 0 <= q < windows@.len() ==> #[trigger] windows@[q]@ == all[q],
                start.len() + seq@.len() <= usize::MAX,
                self@ =~= start.add(all.subrange(0, p as int).to_multiset()),
            decreases windows@.len() - p,
        {
            assert(all.subrange(0, p + 1) =~= all.subrange(0, p as int).push(all[p as int]));
            let w = windows[p].clone();
            self.add_one(w);
            p = p + 1;
        }
        assert(all.subrange(0, all.len() as int) =~= all);
    }
}

/// Byte-wise equality of two slices.
pub fn bytes_equal(a: &[u8], b: &[u8]) -> (r: bool)
    ensures
        r == (a@ == b@),
{
    if a.len() != b.len() {
        return false;
    }
    let mut i: usize = 0;
    while i < a.len()
        invariant
            a@.len() == b@.len(),
            i <= a@.len(),
            forall|j: int| 0 <= j < i ==> a@[j] == b@[j],
        decreases a@.len() - i,
    {
        if a[i] != b[i] {
            return false;
        }
        i = i + 1;
    }
    assert(a@ =~= b@);
    true
}

/// Counts the k-mers of one normalized sequence from scratch.
pub fn count_kmers(seq: &[u8], k: usize) -> (r: KmerCounter)
    requires
        k > 0,
    ensures
        r.wf(),
        r@ =~= kmers_of(seq@, k as nat).to_multiset(),
        r@.len() == if seq@.len() >= k { seq@.len() - k + 1 } else { 0 },
{
    let mut r = KmerCounter::new();
    let n: usize = seq.len();
    assert(n == seq@.len());
    r.add_kmers(seq, k);
    r
}

/// Counting the same sequence twice gives the same counter: the result
/// depends on the sequence and `k` alone.
pub proof fn lemma_count_kmers_deterministic(seq: Seq<u8>, k: nat, a: KmerCounter, b: KmerCounter)
    requires
        a@ =~= kmers_of(seq, k).to_multiset(),
        b@ =~= kmers_of(seq, k).to_multiset(),
    ensures
        a@ == b@,
        forall|x: Seq<u8>| a@.count(x) == b@.count(x),
{
}

} // verus!
