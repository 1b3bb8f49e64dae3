use kmer_indexer::fasta::FastaError;
use kmer_indexer::genomes_and_contigs::{find_first, GenomesAndContigs};
use kmer_indexer::read_genome_fasta_files;

#[test]
fn test_contig_to_genome() {
    let mut contig_to_genome = GenomesAndContigs::new();
    let genome = String::from("genome0");
    let index = contig_to_genome.establish_genome(genome);
    contig_to_genome.insert(String::from("contig1"), index);
    assert_eq!(
        String::from("genome0"),
        *(contig_to_genome.genome_of_contig(&String::from("contig1")).unwrap())
    );
}

#[test]
fn test_read_genome_fasta_files_one_genome() {
    let files = vec![(
        String::from("tests/data/genome1.fna"),
        b">seq1 first contig\nACGTACGT\nACGT\n>seq2\nGGCCAATT\n".to_vec(),
    )];
    let contig_to_genome = read_genome_fasta_files(&files).unwrap();
    assert_eq!(String::from("genome1"), *contig_to_genome.genome_of_contig(&String::from("seq1")).unwrap());
    assert_eq!(String::from("genome1"), *contig_to_genome.genome_of_contig(&String::from("seq2")).unwrap());
}

#[test]
fn lookup_resolves_each_contig_to_its_genome() {
    let mut reg = GenomesAndContigs::new();
    let g0 = reg.establish_genome(String::from("g0"));
    let g1 = reg.establish_genome(String::from("g1"));
    reg.insert_contig(String::from("AAAA"), String::from("AAAA"), g0);
    reg.insert_contig(String::from("CCCC"), String::from("CCCC"), g1);
    assert_eq!(reg.genome_of_contig(&String::from("AAAA")).unwrap(), "g0");
    assert_eq!(reg.genome_of_contig(&String::from("CCCC")).unwrap(), "g1");
    assert!(reg.genome_of_contig(&String::from("GGGG")).is_err());
}

#[test]
fn establish_genome_gives_dense_indices_without_dedup() {
    let mut reg = GenomesAndContigs::new();
    assert_eq!(reg.establish_genome(String::from("a")), 0);
    assert_eq!(reg.establish_genome(String::from("b")), 1);
    assert_eq!(reg.establish_genome(String::from("a")), 2);
    assert_eq!(reg.genome_count(), 3);
    assert_eq!(reg.genome_name(2), "a");
}

#[test]
fn lookup_takes_first_contig_of_a_repeated_name() {
    let mut reg = GenomesAndContigs::new();
    let a = reg.establish_genome(String::from("a"));
    let b = reg.establish_genome(String::from("b"));
    reg.insert(String::from("c"), b);
    reg.insert(String::from("c"), a);
    assert_eq!(reg.genome_of_contig(&String::from("c")).unwrap(), "b");
    assert_eq!(reg.contig_count(), 2);
    assert_eq!(reg.contig_genome(1), 0);
}

#[test]
fn find_first_reports_position_or_error() {
    let v = vec![String::from("x"), String::from("y"), String::from("y")];
    assert_eq!(find_first(&v, &String::from("y")), Ok(1));
    assert_eq!(find_first(&v, &String::from("z")), Err("Element not found in slice"));
}

#[test]
fn read_files_one_genome_per_file() {
    let files = vec![
        (String::from("data/a.fna"), b">c1\nAC\n>c2\nGT\n".to_vec()),
        (String::from("b.fa.gz"), b">c3 desc here\nTTTT\nAAAA\n".to_vec()),
    ];
    let reg = read_genome_fasta_files(&files).unwrap();
    assert_eq!(reg.genome_count(), 2);
    assert_eq!(reg.genome_name(0), "a");
    assert_eq!(reg.genome_name(1), "b.fa");
    assert_eq!(reg.contig_count(), 3);
    assert_eq!(reg.contig_name(2), "c3");
    assert_eq!(reg.contig_genome(2), 1);
    assert_eq!(reg.contig_sequence(0), "AC\n");
    assert_eq!(reg.contig_sequence(2), "TTTT\nAAAA\n");
    assert_eq!(reg.genome_of_contig(&String::from("c2")).unwrap(), "a");
}

#[test]
fn read_files_rejects_text_without_header() {
    let files = vec![(String::from("x.fna"), b"ACGT\n".to_vec())];
    assert_eq!(read_genome_fasta_files(&files).err(), Some(FastaError::ExpectedHeader));
}

#[test]
fn read_files_rejects_invalid_utf8() {
    let files = vec![(String::from("x.fna"), vec![b'>', b'a', 0xff, b'\n', b'A', b'\n'])];
    assert_eq!(read_genome_fasta_files(&files).err(), Some(FastaError::NotUtf8));
}

#[test]
fn read_files_with_empty_file_makes_genome_without_contigs() {
    let files = vec![(String::from("empty.fna"), Vec::new())];
    let reg = read_genome_fasta_files(&files).unwrap();
    assert_eq!(reg.genome_count(), 1);
    assert_eq!(reg.contig_count(), 0);
}
