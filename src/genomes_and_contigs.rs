use vstd::prelude::*;

use vstd::multiset::Multiset;
use vstd::utf8::encode_utf8;

use crate::counter::KmerCounter;
use crate::kmer::{kmers_of, normalize, normalized};
use crate::matrix::{all_wf, merge_counters, seen_anywhere, KmerMap};

verus! {

broadcast use vstd::multiset::group_multiset_properties, vstd::seq_lib::group_to_multiset_ensures;

/// The registry of genomes and their contigs.
///
/// Genomes get dense indices in order of registration. Each contig has a
/// name, a raw sequence and the index of the genome that owns it.
#[derive(Debug)]
pub struct GenomesAndContigs {
    genomes: Vec<String>,
    contig_names: Vec<String>,
    contig_to_genome: Vec<usize>,
    sequences: Vec<String>,
}

/// Why a k-mer matrix could not be built.
#[derive(Debug, PartialEq, Eq, Structural)]
pub enum KmerError {
    /// A k-mer length of zero was asked for.
    ZeroLength,
    /// The normalized sequences of one genome are together longer than a
    /// `usize` can count.
    TooLarge,
}

/// The k-mers of the contigs among the first `n` of `seqs` that `owners`
/// assigns to genome `g`, each contig normalized on its own; no k-mer spans
/// two contigs.
pub open spec fn genome_kmers_upto(
    owners: Seq<usize>,
    seqs: Seq<Seq<u8>>,
    g: int,
    k: nat,
    upper: bool,
    n: int,
) -> Multiset<Seq<u8>>
    decreases n,
{
    if n <= 0 {
        Multiset::empty()
    } else {
        let prev = genome_kmers_upto(owners, seqs, g, k, upper, n - 1);
        if owners[n - 1] == g {
            prev.add(kmers_of(normalized(seqs[n - 1], upper), k).to_multiset())
        } else {
            prev
        }
    }
}

/// The summed length of the normalized contigs among the first `n` of
/// `seqs` that `owners` assigns to genome `g`.
pub open spec fn genome_len_upto(owners: Seq<usize>, seqs: Seq<Seq<u8>>, g: int, upper: bool, n: int) -> nat
    decreases n,
{
    if n <= 0 {
        0
    } else {
        genome_len_upto(owners, seqs, g, upper, n - 1) + if owners[n - 1] == g {
            normalized(seqs[n - 1], upper).len()
        } else {
            0
        }
    }
}

proof fn lemma_genome_len_monotone(owners: Seq<usize>, seqs: Seq<Seq<u8>>, g: int, upper: bool, a: int, b: int)
    requires
        a <= b,
    ensures
        genome_len_upto(owners, seqs, g, upper, a) <= genome_len_upto(owners, seqs, g, upper, b),
    decreases b - a,
{
    if a < b {
        lemma_genome_len_monotone(owners, seqs, g, upper, a, b - 1);
    }
}

proof fn lemma_genome_kmers_len(owners: Seq<usize>, seqs: Seq<Seq<u8>>, g: int, k: nat, upper: bool, n: int)
    requires
        k > 0,
    ensures
        genome_kmers_upto(owners, seqs, g, k, upper, n).len() <= genome_len_upto(owners, seqs, g, upper, n),
    decreases n,
{
    if n > 0 {
        lemma_genome_kmers_len(owners, seqs, g, k, upper, n - 1);
    }
}

/// What `establish_kmers` promises of a matrix built from `reg` with
/// k-mer length `k`.
pub open spec fn matrix_of(reg: GenomesAndContigs, k: nat, upper: bool, m: KmerMap) -> bool {
    &&& m.genome_count() == reg.genome_names().len()
    &&& forall|x: Seq<u8>| #[trigger] m.has_row(x) <==> exists|g: int|
        0 <= g < reg.genome_names().len() && reg.genome_kmers(g, k, upper).count(x) > 0
    &&& forall|x: Seq<u8>, g: int| 0 <= g < reg.genome_names().len()
        ==> #[trigger] m.entry(x, g) == reg.genome_kmers(g, k, upper).count(x)
}

/// Building the matrix twice from the same registry gives the same rows and
/// the same counts: no state is carried from one run to the next.
pub proof fn lemma_matrix_deterministic(reg: GenomesAndContigs, k: nat, upper: bool, a: KmerMap, b: KmerMap)
    requires
        matrix_of(reg, k, upper, a),
        matrix_of(reg, k, upper, b),
    ensures
        a.genome_count() == b.genome_count(),
        forall|x: Seq<u8>| #[trigger] a.has_row(x) == b.has_row(x),
        forall|x: Seq<u8>, g: int| 0 <= g < a.genome_count() ==> #[trigger] a.entry(x, g) == b.entry(x, g),
{
}

proof fn lemma_single_contig_upto(
    owners: Seq<usize>,
    seqs: Seq<Seq<u8>>,
    g: int,
    c: int,
    k: nat,
    upper: bool,
    n: int,
)
    requires
        0 <= n <= owners.len(),
        forall|d: int| 0 <= d < owners.len() && d != c ==> owners[d] != g,
        0 <= c < owners.len(),
        owners[c] == g,
    ensures
        genome_kmers_upto(owners, seqs, g, k, upper, n) =~= if c < n {
            kmers_of(normalized(seqs[c], upper), k).to_multiset()
        } else {
            Multiset::empty()
        },
    decreases n,
{
    if n > 0 {
        lemma_single_contig_upto(owners, seqs, g, c, k, upper, n - 1);
    }
}

/// Where contig `c` is the only contig of genome `g`, the k-mers counted for
/// `g` are exactly the windows of that contig's normalized sequence, each as
/// often as it occurs there.
pub proof fn lemma_single_contig_genome(reg: GenomesAndContigs, g: int, c: int, k: nat, upper: bool)
    requires
        reg.wf(),
        0 <= c < reg.owners().len(),
        reg.owners()[c] == g,
        forall|d: int| 0 <= d < reg.owners().len() && d != c ==> reg.owners()[d] != g,
    ensures
        reg.genome_kmers(g, k, upper) =~= kmers_of(normalized(reg.sequences()[c], upper), k).to_multiset(),
{
    lemma_single_contig_upto(reg.owners(), reg.sequences(), g, c, k, upper, reg.owners().len() as int);
}

/// The position of the first occurrence of `x` in `s`.
pub open spec fn first_index<A>(s: Seq<A>, x: A) -> int {
    choose|i: int| 0 <= i < s.len() && s[i] == x && forall|j: int| 0 <= j < i ==> s[j] != x
}

/// Finds the first occurrence of `element` in `slice`.
pub fn find_first(slice: &[String], element: &String) -> (r: Result<usize, &'static str>)
    ensures
        match r {
            Ok(i) => i < slice@.len() && slice@[i as int]@ == element@ && forall|j: int|
                0 <= j < i ==> slice@[j]@ != element@,
            Err(_) => forall|j: int| 0 <= j < slice@.len() ==> slice@[j]@ != element@,
        },
        r is Err ==> r == Err::<usize, &'static str>("Element not found in slice"),
{
    let mut index: usize = 0;
    while index < slice.len()
        invariant
            index <= slice@.len(),
            forall|j: int| 0 <= j < index ==> slice@[j]@ != element@,
        decreases slice@.len() - index,
    {
        if slice[index] == *element {
            return Ok(index);
        }
        index = index + 1;
    }
    Err("Element not found in slice")
}

impl GenomesAndContigs {
    /// The genome names, by index.
    pub closed spec fn genome_names(&self) -> Seq<Seq<char>> {
        self.genomes@.map_values(|s: String| s@)
    }

    /// The contig names, in order of insertion.
    pub closed spec fn contig_names(&self) -> Seq<Seq<char>> {
        self.contig_names@.map_values(|s: String| s@)
    }

    /// The index of the genome that owns each contig.
    pub closed spec fn owners(&self) -> Seq<usize> {
        self.contig_to_genome@
    }

    /// The raw sequence of each contig, as UTF-8 bytes.
    pub closed spec fn sequences(&self) -> Seq<Seq<u8>> {
        self.sequences@.map_values(|s: String| encode_utf8(s@))
    }

    /// One name, owner and sequence per contig, and each owner is a
    /// registered genome.
    pub open spec fn wf(&self) -> bool {
        &&& self.contig_names().len() == self.owners().len()
        &&& self.sequences().len() == self.owners().len()
        &&& forall|c: int| 0 <= c < self.owners().len() ==> #[trigger] self.owners()[c] < self.genome_names().len()
    }

    /// The summed length of the normalized contigs of genome `g`.
    pub open spec fn genome_len(&self, g: int, upper: bool) -> nat {
        genome_len_upto(self.owners(), self.sequences(), g, upper, self.owners().len() as int)
    }

    /// Some genome's normalized contigs are together longer than a `usize`
    /// can count.
    pub open spec fn too_large(&self, upper: bool) -> bool {
        exists|g: int| 0 <= g < self.genome_names().len() && self.genome_len(g, upper) > usize::MAX
    }

    /// The k-mers of genome `g`: those of each of its contigs, normalized.
    pub open spec fn genome_kmers(&self, g: int, k: nat, upper: bool) -> Multiset<Seq<u8>> {
        genome_kmers_upto(self.owners(), self.sequences(), g, k, upper, self.owners().len() as int)
    }

    /// The name of the genome that owns the first contig named `contig`.
    pub open spec fn genome_of(&self, contig: Seq<char>) -> Seq<char> {
        self.genome_names()[self.owners()[first_index(self.contig_names(), contig)] as int]
    }

    /// An empty registry.
    pub fn new() -> (r: GenomesAndContigs)
        ensures
            r.wf(),
            r.genome_names() =~= Seq::<Seq<char>>::empty(),
            r.contig_names() =~= Seq::<Seq<char>>::empty(),
            r.owners() =~= Seq::<usize>::empty(),
            r.sequences() =~= Seq::<Seq<u8>>::empty(),
    {
        GenomesAndContigs {
            genomes: Vec::new(),
            contig_names: Vec::new(),
            contig_to_genome: Vec::new(),
            sequences: Vec::new(),
        }
    }

    /// Registers a genome and returns its index. The same name registered
    /// twice makes two genomes.
    pub fn establish_genome(&mut self, genome_name: String) -> (r: usize)
        requires
            old(self).wf(),
        ensures
            final(self).wf(),
            r == old(self).genome_names().len(),
            final(self).genome_names() =~= old(self).genome_names().push(genome_name@),
            final(self).contig_names() == old(self).contig_names(),
            final(self).owners() == old(self).owners(),
            final(self).sequences() == old(self).sequences(),
    {
        let index = self.genomes.len();
        self.genomes.push(genome_name);
        proof {
            assert(self.contig_names() =~= old(self).contig_names());
            assert(self.sequences() =~= old(self).sequences());
        }
        index
    }

    /// Adds a contig of genome `genome_index` with sequence `sequence`.
    pub fn insert_contig(&mut self, contig_name: String, sequence: String, genome_index: usize)
        requires
            old(self).wf(),
            genome_index < old(self).genome_names().len(),
        ensures
            final(self).wf(),
            final(self).genome_names() == old(self).genome_names(),
            final(self).contig_names() =~= old(self).contig_names().push(contig_name@),
            final(self).owners() =~= old(self).owners().push(genome_index),
            final(self).sequences() =~= old(self).sequences().push(encode_utf8(sequence@)),
    {
        self.contig_names.push(contig_name);
        self.contig_to_genome.push(genome_index);
        self.sequences.push(sequence);
        proof {
            assert(self.genome_names() =~= old(self).genome_names());
            assert(self.contig_names() =~= old(self).contig_names().push(contig_name@));
            assert(self.sequences() =~= old(self).sequences().push(encode_utf8(sequence@)));
        }
    }

    /// Adds a contig of genome `genome_index` with an empty sequence.
    pub fn insert(&mut self, contig_name: String, genome_index: usize)
        requires
            old(self).wf(),
            genome_index < old(self).genome_names().len(),
        ensures
            final(self).wf(),
            final(self).genome_names() == old(self).genome_names(),
            final(self).contig_names() =~= old(self).contig_names().push(contig_name@),
            final(self).owners() =~= old(self).owners().push(genome_index),
            final(self).sequences() =~= old(self).sequences().push(Seq::<u8>::empty()),
    {
        self.insert_contig(contig_name, String::new(), genome_index);
    }

    /// The name of the genome that owns the first contig named `contig_name`,
    /// or an error where no contig has that name.
    pub fn genome_of_contig(&self, contig_name: &String) -> (r: Result<&String, &'static str>)
        requires
            self.wf(),
        ensures
            self.contig_names().contains(contig_name@) <==> r is Ok,
            r matches Ok(name) ==> name@ == self.genome_of(contig_name@),
    {
        match find_first(self.contig_names.as_slice(), contig_name) {
            Ok(c) => {
                proof {
                    assert(self.contig_names()[c as int] == contig_name@);
                    let names = self.contig_names();
                    assert(forall|j: int| 0 <= j < c ==> names[j] != contig_name@);
                    let i = first_index(names, contig_name@);
                    assert(names[i] == contig_name@ && forall|j: int| 0 <= j < i ==> names[j] != contig_name@);
                    assert(i == c);
                }
                Ok(&self.genomes[self.contig_to_genome[c]])
            },
            Err(e) => {
                proof {
                    if self.contig_names().contains(contig_name@) {
                        let j = choose|j: int| 0 <= j < self.contig_names().len() && self.contig_names()[j] == contig_name@;
                        assert(self.contig_names@[j]@ == contig_name@);
                    }
                }
                Err(e)
            },
        }
    }

    /// The number of genomes.
    pub fn genome_count(&self) -> (r: usize)
        ensures
            r == self.genome_names().len(),
    {
        self.genomes.len()
    }

    /// The name of genome `g`.
    pub fn genome_name(&self, g: usize) -> (r: &String)
        requires
            g < self.genome_names().len(),
        ensures
            r@ == self.genome_names()[g as int],
    {
        &self.genomes[g]
    }

    /// The genome names, by index.
    pub fn genomes(&self) -> (r: &Vec<String>)
        ensures
            r@.map_values(|s: String| s@) == self.genome_names(),
    {
        &self.genomes
    }

    /// The number of contigs.
    pub fn contig_count(&self) -> (r: usize)
        requires
            self.wf(),
        ensures
            r == self.owners().len(),
    {
        self.contig_to_genome.len()
    }

    /// The name of contig `c`.
    pub fn contig_name(&self, c: usize) -> (r: &String)
        requires
            self.wf(),
            c < self.owners().len(),
        ensures
            r@ == self.contig_names()[c as int],
    {
        &self.contig_names[c]
    }

    /// The index of the genome that owns contig `c`.
    pub fn contig_genome(&self, c: usize) -> (r: usize)
        requires
            self.wf(),
            c < self.owners().len(),
        ensures
            r == self.owners()[c as int],
            r < self.genome_names().len(),
    {
        self.contig_to_genome[c]
    }

    /// The raw sequence of contig `c`.
    pub fn contig_sequence(&self, c: usize) -> (r: &String)
        requires
            self.wf(),
            c < self.owners().len(),
        ensures
            encode_utf8(r@) == self.sequences()[c as int],
    {
        &self.sequences[c]
    }

    /// Counts the k-mers of genome `g`, contig by contig; `None` where its
    /// normalized contigs are together too long to count. A contig shorter
    /// than `k` adds nothing.
    pub fn count_genome(&self, g: usize, k: usize, normalize_case: bool) -> (r: Option<KmerCounter>)
        requires
            self.wf(),
            k > 0,
        ensures
            r is None <==> self.genome_len(g as int, normalize_case) > usize::MAX,
            r matches Some(c) ==> c.wf() && c@ =~= self.genome_kmers(g as int, k as nat, normalize_case),
    {
        let mut counter = KmerCounter::new();
        let n = self.sequences.len();
        let mut total: usize = 0;
        let mut c: usize = 0;
        while c < n
            invariant
                self.wf(),
                k > 0,
                n == self.owners().len(),
                c <= n,
                total == genome_len_upto(self.owners(), self.sequences(), g as int, normalize_case, c as int),
                counter.wf(),
                counter@ =~= genome_kmers_upto(self.owners(), self.sequences(), g as int, k as nat, normalize_case, c as int),
            decreases n - c,
        {
            if self.contig_to_genome[c] == g {
                let seq = normalize(self.sequences[c].as_str(), normalize_case);
                assert(self.sequences()[c as int] == encode_utf8(self.sequences@[c as int]@));
                proof {
                    lemma_genome_kmers_len(self.owners(), self.sequences(), g as int, k as nat, normalize_case, c as int);
                }
                match total.checked_add(seq.len()) {
                    Some(t) => {
                        counter.add_kmers(seq.as_slice(), k);
                        total = t;
                    },
                    None => {
                        proof {
                            lemma_genome_len_monotone(self.owners(), self.sequences(), g as int, normalize_case, c + 1, n as int);
                        }
                        return None;
                    },
                }
            }
            c = c + 1;
        }
        Some(counter)
    }

    /// Builds the genome-by-k-mer matrix: a row for every k-mer that occurs in
    /// some genome, holding its number of occurrences in each genome, zero
    /// where it does not occur. A length of zero is refused, and so is a
    /// genome too long to count.
    pub fn establish_kmers(&self, kmer_size: usize, normalize_case: bool) -> (r: Result<KmerMap, KmerError>)
        requires
            self.wf(),
        ensures
            r is Err <==> kmer_size == 0 || self.too_large(normalize_case),
            kmer_size == 0 ==> r == Err::<KmerMap, KmerError>(KmerError::ZeroLength),
            kmer_size > 0 && self.too_large(normalize_case) ==> r == Err::<KmerMap, KmerError>(KmerError::TooLarge),
            r matches Ok(m) ==> {
                &&& m.wf()
                &&& matrix_of(*self, kmer_size as nat, normalize_case, m)
                &&& forall|x: Seq<u8>| #[trigger] m.has_row(x) ==> m.rows()[m.keys().index_of(x)].len() == self.genome_names().len()
            },
    {
        if kmer_size == 0 {
            return Err(KmerError::ZeroLength);
        }
        let total = self.genomes.len();
        let mut counters: Vec<KmerCounter> = Vec::with_capacity(total);
        let mut g: usize = 0;
        while g < total
            invariant
                self.wf(),
                kmer_size > 0,
                total == self.genome_names().len(),
                g <= total,
                counters@.len() == g,
                all_wf(counters@),
                forall|h: int| 0 <= h < g ==> (#[trigger] counters@[h])@ =~= self.genome_kmers(h, kmer_size as nat, normalize_case),
                forall|h: int| 0 <= h < g ==> self.genome_len(h, normalize_case) <= usize::MAX,
            decreases total - g,
        {
            match self.count_genome(g, kmer_size, normalize_case) {
                Some(counter) => counters.push(counter),
                None => return Err(KmerError::TooLarge),
            }
            g = g + 1;
        }
        let m = merge_counters(&counters);
        proof {
            assert forall|x: Seq<u8>| #[trigger] m.has_row(x) <==> exists|h: int|
                0 <= h < self.genome_names().len() && self.genome_kmers(h, kmer_size as nat, normalize_case).count(x) > 0 by {
                if m.has_row(x) {
                    assert(seen_anywhere(counters@, x));
                    let h = choose|h: int| 0 <= h < counters@.len() && (#[trigger] counters@[h])@.count(x) > 0;
                    assert(self.genome_kmers(h, kmer_size as nat, normalize_case).count(x) > 0);
                }
                if exists|h: int| 0 <= h < self.genome_names().len() && self.genome_kmers(h, kmer_size as nat, normalize_case).count(x) > 0 {
                    let h = choose|h: int| 0 <= h < self.genome_names().len() && self.genome_kmers(h, kmer_size as nat, normalize_case).count(x) > 0;
                    assert(counters@[h]@.count(x) > 0);
                    assert(seen_anywhere(counters@, x));
                }
            }
        }
        Ok(m)
    }
}

} // verus!
