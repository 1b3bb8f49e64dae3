use vstd::prelude::*;

use vstd::utf8::encode_utf8;

use crate::genomes_and_contigs::GenomesAndContigs;
use crate::matrix::KmerMap;
use crate::names::{basename, basename_of};

verus! {

/// The decimal digits of `n`, most significant first.
pub open spec fn decimal(n: nat) -> Seq<u8>
    decreases n,
{
    if n < 10 {
        seq![(48 + n) as u8]
    } else {
        decimal(n / 10).push((48 + n % 10) as u8)
    }
}

/// Each field preceded by a tab.
pub open spec fn tab_fields(fields: Seq<Seq<u8>>) -> Seq<u8>
    decreases fields.len(),
{
    if fields.len() == 0 {
        Seq::empty()
    } else {
        tab_fields(fields.drop_last()) + seq![9u8] + fields.last()
    }
}

/// The bytes of `K-Mer`.
pub open spec fn kmer_title() -> Seq<u8> {
    seq![75u8, 45u8, 77u8, 101u8, 114u8]
}

/// The column label of a genome: the last segment of its name.
pub open spec fn label(name: Seq<char>) -> Seq<u8> {
    basename(encode_utf8(name))
}

/// The header line: `K-Mer`, then a label per genome.
pub open spec fn header_line(names: Seq<Seq<char>>) -> Seq<u8> {
    kmer_title() + tab_fields(names.map_values(|n: Seq<char>| label(n))) + seq![10u8]
}

/// One row: the k-mer, then its count in each genome.
pub open spec fn row_line(kmer: Seq<u8>, counts: Seq<usize>) -> Seq<u8> {
    kmer + tab_fields(counts.map_values(|c: usize| decimal(c as nat))) + seq![10u8]
}

/// The first `n` rows.
pub open spec fn rows_text(keys: Seq<Seq<u8>>, rows: Seq<Seq<usize>>, n: int) -> Seq<u8>
    decreases n,
{
    if n <= 0 {
        Seq::empty()
    } else {
        rows_text(keys, rows, n - 1) + row_line(keys[n - 1], rows[n - 1])
    }
}

/// The whole report: the header line, then one line per row of the matrix.
pub open spec fn report_text(names: Seq<Seq<char>>, m: KmerMap) -> Seq<u8> {
    header_line(names) + rows_text(m.keys(), m.rows(), m.keys().len() as int)
}

/// One record of the indexer input: `>`, the genome name, a line feed, the
/// sequence, a line feed.
pub open spec fn indexer_record(name: Seq<char>, seq: Seq<u8>) -> Seq<u8> {
    seq![62u8] + encode_utf8(name) + seq![10u8] + seq + seq![10u8]
}

/// The indexer input for the first `n` contigs.
pub open spec fn indexer_text(reg: GenomesAndContigs, n: int) -> Seq<u8>
    decreases n,
{
    if n <= 0 {
        Seq::empty()
    } else {
        indexer_text(reg, n - 1) + indexer_record(
            reg.genome_names()[reg.owners()[n - 1] as int],
            reg.sequences()[n - 1],
        )
    }
}

fn append_bytes(out: &mut Vec<u8>, b: &[u8])
    ensures
        final(out)@ == old(out)@ + b@,
{
    let ghost start = out@;
    let mut i: usize = 0;
    while i < b.len()
        invariant
            i <= b@.len(),
            out@ == start + b@.subrange(0, i as int),
        decreases b@.len() - i,
    {
        out.push(b[i]);
        i = i + 1;
        assert(out@ =~= start + b@.subrange(0, i as int));
    }
    assert(b@.subrange(0, b@.len() as int) =~= b@);
}

fn append_decimal(out: &mut Vec<u8>, n: usize)
    ensures
        final(out)@ == old(out)@ + decimal(n as nat),
    decreases n,
{
    if n >= 10 {
        append_decimal(out, n / 10);
    }
    out.push(48 + (n % 10) as u8);
    assert(out@ =~= old(out)@ + decimal(n as nat));
}

/// Renders the matrix as text: a header line `K-Mer` followed by each
/// genome's label, then a line per k-mer with its counts, tab separated, in
/// row order.
pub fn format_report(genome_names: &[String], m: &KmerMap) -> (r: Vec<u8>)
    requires
        m.wf(),
    ensures
        r@ == report_text(genome_names@.map_values(|s: String| s@), *m),
{
    let ghost names = genome_names@.map_values(|s: String| s@);
    let ghost labels = names.map_values(|n: Seq<char>| label(n));
    let mut out: Vec<u8> = Vec::new();
    out.push(75);
    out.push(45);
    out.push(77);
    out.push(101);
    out.push(114);
    assert(out@ =~= kmer_title());
    let mut i: usize = 0;
    while i < genome_names.len()
        invariant
            i <= genome_names@.len(),
            names == genome_names@.map_values(|s: String| s@),
            labels == names.map_values(|n: Seq<char>| label(n)),
            out@ == kmer_title() + tab_fields(labels.subrange(0, i as int)),
        decreases genome_names@.len() - i,
    {
        let base = basename_of(genome_names[i].as_str().as_bytes());
        out.push(9);
        append_bytes(&mut out, base.as_slice());
        assert(labels.subrange(0, i + 1).drop_last() =~= labels.subrange(0, i as int));
        assert(out@ =~= kmer_title() + tab_fields(labels.subrange(0, i + 1)));
        i = i + 1;
    }
    assert(labels.subrange(0, labels.len() as int) =~= labels);
    out.push(10);
    assert(out@ =~= header_line(names));
    proof {
        m.lemma_shape();
    }
    let mut j: usize = 0;
    while j < m.len()
        invariant
            m.wf(),
            j <= m.keys().len(),
            m.rows().len() == m.keys().len(),
            forall|t: int| 0 <= t < m.rows().len() ==> (#[trigger] m.rows()[t]).len() == m.genome_count(),
            out@ == header_line(names) + rows_text(m.keys(), m.rows(), j as int),
        decreases m.keys().len() - j,
    {
        let ghost before = out@;
        let kmer = m.kmer_at(j);
        let row = m.row_at(j);
        let ghost cells = row@.map_values(|c: usize| decimal(c as nat));
        append_bytes(&mut out, kmer.as_slice());
        let mut g: usize = 0;
        while g < row.len()
            invariant
                g <= row@.len(),
                cells == row@.map_values(|c: usize| decimal(c as nat)),
                out@ == before + kmer@ + tab_fields(cells.subrange(0, g as int)),
            decreases row@.len() - g,
        {
            out.push(9);
            append_decimal(&mut out, row[g]);
            assert(cells.subrange(0, g + 1).drop_last() =~= cells.subrange(0, g as int));
            assert(out@ =~= before + kmer@ + tab_fields(cells.subrange(0, g + 1)));
            g = g + 1;
        }
        assert(cells.subrange(0, cells.len() as int) =~= cells);
        out.push(10);
        assert(out@ =~= before + row_line(m.keys()[j as int], m.rows()[j as int]));
        j = j + 1;
    }
    out
}

/// The text handed to an external indexer: for each contig, in order, a `>`
/// line with the name of its genome, then its sequence.
pub fn indexer_input(reg: &GenomesAndContigs) -> (r: Vec<u8>)
    requires
        reg.wf(),
    ensures
        r@ == indexer_text(*reg, reg.owners().len() as int),
{
    let mut out: Vec<u8> = Vec::new();
    let n = reg.contig_count();
    let mut c: usize = 0;
    while c < n
        invariant
            reg.wf(),
            n == reg.owners().len(),
            c <= n,
            out@ == indexer_text(*reg, c as int),
        decreases n - c,
    {
        let ghost before = out@;
        let name = reg.genome_name(reg.contig_genome(c));
        out.push(62);
        append_bytes(&mut out, name.as_str().as_bytes());
        out.push(10);
        append_bytes(&mut out, reg.contig_sequence(c).as_str().as_bytes());
        out.push(10);
        assert(out@ =~= before + indexer_record(reg.genome_names()[reg.owners()[c as int] as int], reg.sequences()[c as int]));
        c = c + 1;
    }
    out
}

} // verus!
