use vstd::prelude::*;

use crate::counter::{bytes_equal, KmerCounter};

verus! {

/// The merged genome-by-k-mer matrix: one row per k-mer seen in any genome,
/// each row holding one count per genome, in genome order.
pub struct KmerMap {
    kmers: Vec<Vec<u8>>,
    rows: Vec<Vec<usize>>,
    genomes: usize,
}

/// Every genome counter in `counters` is well formed.
pub open spec fn all_wf(counters: Seq<KmerCounter>) -> bool {
    forall|g: int| 0 <= g < counters.len() ==> (#[trigger] counters[g]).wf()
}

/// `x` has been counted at least once by one of `counters`.
pub open spec fn seen_anywhere(counters: Seq<KmerCounter>, x: Seq<u8>) -> bool {
    exists|g: int| 0 <= g < counters.len() && (#[trigger] counters[g])@.count(x) > 0
}

impl KmerMap {
    /// The row keys, in the order in which they were first seen.
    pub closed spec fn keys(&self) -> Seq<Seq<u8>> {
        self.kmers@.map_values(|v: Vec<u8>| v@)
    }

    /// The number of genome columns.
    pub closed spec fn genome_count(&self) -> nat {
        self.genomes as nat
    }

    /// The rows, one for each key, in the same order.
    pub closed spec fn rows(&self) -> Seq<Seq<usize>> {
        self.rows@.map_values(|v: Vec<usize>| v@)
    }

    /// Keys are distinct and every row has one slot per genome.
    pub closed spec fn wf(&self) -> bool {
        &&& self.kmers@.len() == self.rows@.len()
        &&& forall|j: int| 0 <= j < self.rows@.len() ==> (#[trigger] self.rows@[j])@.len() == self.genomes
        &&& forall|i: int, j: int|
            0 <= i < self.kmers@.len() && 0 <= j < self.kmers@.len() && i != j
                ==> self.kmers@[i]@ != self.kmers@[j]@
    }

    /// `x` has a row.
    pub open spec fn has_row(&self, x: Seq<u8>) -> bool {
        self.keys().contains(x)
    }

    /// The count of `x` in genome `g`: the slot of its row, or zero where it
    /// has none.
    pub open spec fn entry(&self, x: Seq<u8>, g: int) -> nat {
        if self.has_row(x) {
            self.rows()[self.keys().index_of(x)][g] as nat
        } else {
            0
        }
    }

    /// The number of rows.
    pub fn len(&self) -> (r: usize)
        ensures
            r == self.keys().len(),
    {
        self.kmers.len()
    }

    /// The number of genome columns.
    pub fn genome_columns(&self) -> (r: usize)
        ensures
            r == self.genome_count(),
    {
        self.genomes
    }

    /// The key of row `j`.
    pub fn kmer_at(&self, j: usize) -> (r: &Vec<u8>)
        requires
            j < self.keys().len(),
        ensures
            r@ == self.keys()[j as int],
    {
        &self.kmers[j]
    }

    /// Row `j`.
    pub fn row_at(&self, j: usize) -> (r: &Vec<usize>)
        requires
            self.wf(),
            j < self.keys().len(),
        ensures
            r@ == self.rows()[j as int],
            r@.len() == self.genome_count(),
    {
        &self.rows[j]
    }

    /// The row of `kmer`, or `None` where it has none.
    pub fn row_of(&self, kmer: &[u8]) -> (r: Option<&Vec<usize>>)
        requires
            self.wf(),
        ensures
            r is Some <==> self.has_row(kmer@),
            r matches Some(row) ==> row@.len() == self.genome_count() && forall|g: int|
                0 <= g < self.genome_count() ==> row@[g] as nat == #[trigger] self.entry(kmer@, g),
    {
        match self.row_index(kmer) {
            Some(j) => {
                proof {
                    assert(self.keys()[j as int] == kmer@);
                    let i = self.keys().index_of(kmer@);
                    assert(self.kmers@[i]@ == kmer@);
                    assert(i == j);
                }
                Some(&self.rows[j])
            },
            None => {
                proof {
                    if self.has_row(kmer@) {
                        let i = self.keys().index_of(kmer@);
                        assert(self.kmers@[i]@ == kmer@);
                    }
                }
                None
            },
        }
    }

    /// A well-formed map has one row per key, each with a slot per genome.
    pub proof fn lemma_shape(&self)
        requires
            self.wf(),
        ensures
            self.rows().len() == self.keys().len(),
            self.keys().no_duplicates(),
            forall|j: int| 0 <= j < self.rows().len() ==> (#[trigger] self.rows()[j]).len() == self.genome_count(),
    {
    }

    /// Where `x` has a row, or `None`.
    fn row_index(&self, x: &[u8]) -> (r: Option<usize>)
        ensures
            match r {
                Some(j) => j < self.kmers@.len() && self.kmers@[j as int]@ == x@,
                None => forall|j: int| 0 <= j < self.kmers@.len() ==> self.kmers@[j]@ != x@,
            },
    {
        let mut j: usize = 0;
        while j < self.kmers.len()
            invariant
                j <= self.kmers@.len(),
                forall|i: int| 0 <= i < j ==> self.kmers@[i]@ != x@,
            decreases self.kmers@.len() - j,
        {
            if bytes_equal(self.kmers[j].as_slice(), x) {
                return Some(j);
            }
            j = j + 1;
        }
        None
    }
}

/// Merges one counter per genome into a matrix with a row for every k-mer
/// that any genome holds and a slot per genome in each row; a genome that
/// lacks the k-mer keeps zero in its slot.
pub fn merge_counters(counters: &Vec<KmerCounter>) -> (r: KmerMap)
    requires
        all_wf(counters@),
    ensures
        r.wf(),
        r.genome_count() == counters@.len(),
        forall|x: Seq<u8>| #[trigger] r.has_row(x) <==> seen_anywhere(counters@, x),
        forall|x: Seq<u8>, g: int| 0 <= g < counters@.len() ==> #[trigger] r.entry(x, g) == counters@[g]@.count(x),
        forall|x: Seq<u8>| #[trigger] r.has_row(x) ==> r.rows()[r.keys().index_of(x)].len() == counters@.len(),
{
    let total: usize = counters.len();
    let mut r = KmerMap { kmers: Vec::new(), rows: Vec::new(), genomes: total };
    let mut g: usize = 0;
    while g < total
        invariant
            total == counters@.len(),
            all_wf(counters@),
            g <= total,
            r.wf(),
            r.genomes == total,
            forall|j: int, h: int| 0 <= j < r.rows@.len() && 0 <= h < g
                ==> #[trigger] r.rows@[j]@[h] == counters@[h]@.count(r.kmers@[j]@),
            forall|j: int, h: int| 0 <= j < r.rows@.len() && g <= h < total
                ==> #[trigger] r.rows@[j]@[h] == 0,
            forall|h: int, x: Seq<u8>| 0 <= h < g && #[trigger] counters@[h]@.count(x) > 0
                ==> r.keys().contains(x),
            forall|j: int| 0 <= j < r.kmers@.len() ==> seen_anywhere(counters@, #[trigger] r.kmers@[j]@),
        decreases total - g,
    {
        let c = &counters[g];
        proof {
            c.lemma_keys();
        }
        let n = c.len();
        let mut e: usize = 0;
        while e < n
            invariant
                total == counters@.len(),
                all_wf(counters@),
                g < total,
                *c == counters@[g as int],
                c.wf(),
                n == c.keys().len(),
                forall|i: int| 0 <= i < c.keys().len() ==> c@.count(#[trigger] c.keys()[i]) > 0,
                e <= n,
                r.wf(),
                r.genomes == total,
                forall|j: int, h: int| 0 <= j < r.rows@.len() && 0 <= h < g
                    ==> #[trigger] r.rows@[j]@[h] == counters@[h]@.count(r.kmers@[j]@),
                forall|j: int, h: int| 0 <= j < r.rows@.len() && g < h < total
                    ==> #[trigger] r.rows@[j]@[h] == 0,
                forall|j: int| 0 <= j < r.rows@.len() ==> #[trigger] r.rows@[j]@[g as int] == if c.keys().subrange(0, e as int).contains(r.kmers@[j]@) {
                        c@.count(r.kmers@[j]@)
                    } else {
                        0
                    },
                forall|h: int, x: Seq<u8>| 0 <= h < g && #[trigger] counters@[h]@.count(x) > 0
                    ==> r.keys().contains(x),
                forall|t: int| 0 <= t < e ==> r.keys().contains(#[trigger] c.keys()[t]),
                forall|j: int| 0 <= j < r.kmers@.len() ==> seen_anywhere(counters@, #[trigger] r.kmers@[j]@),
            decreases n - e,
        {
            let x = c.kmer_at(e);
            let cnt = c.count_at(e);
            assert(c.keys().subrange(0, e + 1) =~= c.keys().subrange(0, e as int).push(x@));
            let ghost before = r;
            proof {
                lemma_push_contains(c.keys().subrange(0, e as int), x@);
            }
            match r.row_index(x.as_slice()) {
                Some(j) => {
                    let mut row = r.rows[j].clone();
                    assert(row@ == before.rows@[j as int]@);
                    row.set(g, cnt);
                    r.rows.set(j, row);
                    assert forall|i: int, h: int| 0 <= i < r.rows@.len() && 0 <= h < total && h != g
                        implies #[trigger] r.rows@[i]@[h] == before.rows@[i]@[h] by {
                        if i == j {
                            assert(r.rows@[i]@ == before.rows@[i]@.update(g as int, cnt));
                        }
                    }
                    assert(r.keys() =~= before.keys());
                    assert(r.keys()[j as int] == x@);
                },
                None => {
                    let mut row: Vec<usize> = vec![0; total];
                    row.set(g, cnt);
                    r.kmers.push(x.clone());
                    r.rows.push(row);
                    let ghost last = before.kmers@.len() as int;
                    assert(r.kmers@[last]@ == x@);
                    assert(r.keys() =~= before.keys().push(x@));
                    proof {
                        lemma_push_contains(before.keys(), x@);
                    }
                    assert(!before.keys().contains(x@)) by {
                        if before.keys().contains(x@) {
                            let i = choose|i: int| 0 <= i < before.keys().len() && before.keys()[i] == x@;
                            assert(before.kmers@[i]@ == x@);
                        }
                    }
                    assert forall|h: int| 0 <= h < g implies #[trigger] counters@[h]@.count(x@) == 0 by {
                        if counters@[h]@.count(x@) > 0 {
                            assert(before.keys().contains(x@));
                        }
                    }
                    assert(seen_anywhere(counters@, r.kmers@[last]@)) by {
                        assert(counters@[g as int]@.count(x@) > 0);
                    }
                    assert forall|i: int| 0 <= i < last implies r.kmers@[i]@ != x@ by {
                        assert(before.kmers@[i]@ != x@);
                    }
                    assert forall|t: int| 0 <= t < e implies r.keys().contains(#[trigger] c.keys()[t]) by {
                        lemma_push_contains(before.keys(), x@);
                    }
                },
            }
            assert(r.keys().contains(x@));
            assert(c.keys()[e as int] == x@);
            e = e + 1;
        }
        proof {
            assert(c.keys().subrange(0, n as int) =~= c.keys());
            assert forall|j: int| 0 <= j < r.rows@.len() implies #[trigger] r.rows@[j]@[g as int] == counters@[g as int]@.count(r.kmers@[j]@) by {
                if !c.keys().contains(r.kmers@[j]@) {
                    assert(c@.count(r.kmers@[j]@) == 0);
                }
            }
            assert forall|x: Seq<u8>| #[trigger] counters@[g as int]@.count(x) > 0 implies r.keys().contains(x) by {
                assert(c.keys().contains(x));
                let t = choose|t: int| 0 <= t < c.keys().len() && c.keys()[t] == x;
                assert(r.keys().contains(c.keys()[t]));
            }
        }
        g = g + 1;
    }
    proof {
        assert forall|x: Seq<u8>| #[trigger] r.has_row(x) <==> seen_anywhere(counters@, x) by {
            if r.has_row(x) {
                let j = choose|j: int| 0 <= j < r.keys().len() && r.keys()[j] == x;
                assert(r.kmers@[j]@ == x);
            }
            if seen_anywhere(counters@, x) {
                let h = choose|h: int| 0 <= h < counters@.len() && (#[trigger] counters@[h])@.count(x) > 0;
                assert(r.keys().contains(x));
            }
        }
        assert forall|x: Seq<u8>| #[trigger] r.has_row(x) implies r.rows()[r.keys().index_of(x)].len() == counters@.len() by {
            let j = r.keys().index_of(x);
            assert(r.rows()[j] == r.rows@[j]@);
        }
        assert forall|x: Seq<u8>, h: int| 0 <= h < counters@.len() implies #[trigger] r.entry(x, h) == counters@[h]@.count(x) by {
            if r.has_row(x) {
                let j = r.keys().index_of(x);
                assert(r.kmers@[j]@ == x);
            } else {
                if counters@[h]@.count(x) > 0 {
                    assert(r.keys().contains(x));
                }
            }
        }
    }
    r
}

/// What pushing onto a sequence does to what it contains.
pub proof fn lemma_push_contains<A>(s: Seq<A>, a: A)
    ensures
        forall|b: A| #[trigger] s.push(a).contains(b) <==> s.contains(b) || b == a,
{
    assert forall|b: A| #[trigger] s.push(a).contains(b) <==> s.contains(b) || b == a by {
        if s.contains(b) {
            let i = choose|i: int| 0 <= i < s.len() && s[i] == b;
            assert(s.push(a)[i] == b);
        }
        if b == a {
            assert(s.push(a)[s.len() as int] == b);
        }
    }
}

} // verus!
