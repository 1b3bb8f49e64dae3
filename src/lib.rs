use vstd::prelude::*;

pub mod counter;
pub mod fasta;
pub mod genomes_and_contigs;
pub mod kmer;
pub mod matrix;
pub mod names;
pub mod report;
pub mod text;

use vstd::utf8::{encode_utf8, valid_utf8};

use crate::fasta::{records_from, FastaError, Reader};
use crate::text::string_from_utf8;
use crate::genomes_and_contigs::GenomesAndContigs;
use crate::names::{file_stem, file_stem_of};

verus! {

/// A FASTA file as path bytes and contents.
pub open spec fn file_view(f: (String, Vec<u8>)) -> (Seq<u8>, Seq<u8>) {
    (encode_utf8(f.0@), f.1@)
}

/// A file can be read: its records can, and its stem is UTF-8.
pub open spec fn file_ok(f: (Seq<u8>, Seq<u8>)) -> bool {
    records_from(f.1, 0) is Some && valid_utf8(file_stem(f.0))
}

/// Each record of `rs` tagged with genome `g`.
pub open spec fn tagged(rs: Seq<(Seq<u8>, Seq<u8>)>, g: int) -> Seq<(Seq<u8>, Seq<u8>, int)> {
    rs.map_values(|r: (Seq<u8>, Seq<u8>)| (r.0, r.1, g))
}

/// The contigs of the first `n` files: each record of file `i`, as
/// identifier, sequence and genome `i`, file after file.
pub open spec fn file_contigs(files: Seq<(Seq<u8>, Seq<u8>)>, n: int) -> Seq<(Seq<u8>, Seq<u8>, int)>
    decreases n,
{
    if n <= 0 {
        Seq::empty()
    } else {
        file_contigs(files, n - 1) + match records_from(files[n - 1].1, 0) {
            Some(rs) => tagged(rs, n - 1),
            None => Seq::empty(),
        }
    }
}

/// The registry holds exactly the contigs `cs`, in order.
pub open spec fn holds_contigs(reg: GenomesAndContigs, cs: Seq<(Seq<u8>, Seq<u8>, int)>) -> bool {
    &&& reg.contig_names().len() == cs.len()
    &&& forall|c: int| 0 <= c < cs.len() ==> {
        &&& encode_utf8(#[trigger] reg.contig_names()[c]) == cs[c].0
        &&& reg.sequences()[c] == cs[c].1
        &&& reg.owners()[c] == cs[c].2
    }
}

/// Builds a registry from FASTA files: one genome per file, named by the
/// file's stem, owning a contig for each of the file's records.
pub fn read_genome_fasta_files(fasta_files: &[(String, Vec<u8>)]) -> (r: Result<GenomesAndContigs, FastaError>)
    ensures
        r is Ok <==> forall|i: int| 0 <= i < fasta_files@.len() ==> file_ok(file_view(#[trigger] fasta_files@[i])),
        r matches Ok(reg) ==> {
            &&& reg.wf()
            &&& reg.genome_names().len() == fasta_files@.len()
            &&& forall|i: int| 0 <= i < fasta_files@.len()
                ==> encode_utf8(#[trigger] reg.genome_names()[i]) == file_stem(file_view(fasta_files@[i]).0)
            &&& holds_contigs(reg, file_contigs(fasta_files@.map_values(|f: (String, Vec<u8>)| file_view(f)), fasta_files@.len() as int))
        },
{
    let ghost fv = fasta_files@.map_values(|f: (String, Vec<u8>)| file_view(f));
    let mut reg = GenomesAndContigs::new();
    let mut i: usize = 0;
    while i < fasta_files.len()
        invariant
            i <= fasta_files@.len(),
            fv == fasta_files@.map_values(|f: (String, Vec<u8>)| file_view(f)),
            reg.wf(),
            reg.genome_names().len() == i,
            forall|j: int| 0 <= j < i ==> encode_utf8(#[trigger] reg.genome_names()[j]) == file_stem(fv[j].0),
            forall|j: int| 0 <= j < i ==> file_ok(#[trigger] fv[j]),
            holds_contigs(reg, file_contigs(fv, i as int)),
        decreases fasta_files@.len() - i,
    {
        assert(fv[i as int] == file_view(fasta_files@[i as int]));
        let stem = file_stem_of(fasta_files[i].0.as_str().as_bytes());
        let name = match string_from_utf8(stem) {
            Some(s) => s,
            None => {
                assert(!file_ok(file_view(fasta_files@[i as int])));
                return Err(FastaError::NotUtf8);
            },
        };
        let g = reg.establish_genome(name);
        let mut records = Reader::new(fasta_files[i].1.clone()).records();
        let ghost d = fv[i as int].1;
        let ghost mut acc: Seq<(Seq<u8>, Seq<u8>)> = Seq::empty();
        let ghost base = file_contigs(fv, i as int);
        loop
            invariant_except_break
                match records_from(d, records.reader().position()) {
                    Some(rest) => records_from(d, 0) == Some(acc + rest),
                    None => records_from(d, 0) is None,
                },
            invariant
                i < fasta_files@.len(),
                fv == fasta_files@.map_values(|f: (String, Vec<u8>)| file_view(f)),
                d == fv[i as int].1,
                g == i,
                base == file_contigs(fv, i as int),
                reg.wf(),
                reg.genome_names().len() == i + 1,
                forall|j: int| 0 <= j <= i ==> encode_utf8(#[trigger] reg.genome_names()[j]) == file_stem(fv[j].0),
                forall|j: int| 0 <= j < i ==> file_ok(#[trigger] fv[j]),
                valid_utf8(file_stem(fv[i as int].0)),
                records.wf(),
                records.reader().data() == d,
                !records.failed(),
                holds_contigs(reg, base + tagged(acc, i as int)),
            ensures
                records_from(d, 0) == Some(acc),
            decreases d.len() - records.reader().position(),
        {
            let ghost pos0 = records.reader().position();
            match records.next() {
                None => {
                    assert(acc + Seq::<(Seq<u8>, Seq<u8>)>::empty() =~= acc);
                    break;
                },
                Some(Err(e)) => {
                    assert(!file_ok(file_view(fasta_files@[i as int])));
                    return Err(e);
                },
                Some(Ok(rec)) => {
                    let ghost prev = reg;
                    let ghost item = (encode_utf8(rec.id_view()), encode_utf8(rec.seq_view()));
                    reg.insert_contig(rec.id().to_owned(), rec.seq(), g);
                    proof {
                        match records_from(d, records.reader().position()) {
                            Some(rest) => {
                                assert(records_from(d, pos0) == Some(seq![item] + rest));
                                assert(acc + (seq![item] + rest) =~= acc.push(item) + rest);
                            },
                            None => {
                                assert(records_from(d, pos0) is None);
                            },
                        }
                        acc = acc.push(item);
                        assert(base + tagged(acc, i as int) =~= (base + tagged(acc.drop_last(), i as int)).push((item.0, item.1, i as int)));
                        let cs = base + tagged(acc, i as int);
                        assert forall|c: int| 0 <= c < cs.len() implies {
                            &&& encode_utf8(#[trigger] reg.contig_names()[c]) == cs[c].0
                            &&& reg.sequences()[c] == cs[c].1
                            &&& reg.owners()[c] == cs[c].2
                        } by {
                            if c < cs.len() - 1 {
                                assert(reg.contig_names()[c] == prev.contig_names()[c]);
                            }
                        }
                    }
                },
            }
        }
        proof {
            assert(file_contigs(fv, i + 1) == base + tagged(acc, i as int));
            assert(file_ok(fv[i as int]));
        }
        i = i + 1;
    }
    proof {
        assert forall|j: int| 0 <= j < fasta_files@.len() implies file_ok(file_view(#[trigger] fasta_files@[j])) by {
            assert(fv[j] == file_view(fasta_files@[j]));
        }
        assert forall|j: int| 0 <= j < fasta_files@.len() implies encode_utf8(#[trigger] reg.genome_names()[j])
            == file_stem(file_view(fasta_files@[j]).0) by {
            assert(fv[j] == file_view(fasta_files@[j]));
        }
    }
    Ok(reg)
}

} // verus!
