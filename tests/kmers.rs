use kmer_indexer::counter::count_kmers;
use kmer_indexer::genomes_and_contigs::{GenomesAndContigs, KmerError};
use kmer_indexer::kmer::{extract_kmers, normalize};
use kmer_indexer::report::{format_report, indexer_input};

#[test]
fn extracts_overlapping_kmers_in_order() {
    let kmers = extract_kmers(b"ACGTACGT", 4);
    let expected: Vec<Vec<u8>> = vec![
        b"ACGT".to_vec(),
        b"CGTA".to_vec(),
        b"GTAC".to_vec(),
        b"TACG".to_vec(),
        b"ACGT".to_vec(),
    ];
    assert_eq!(kmers, expected);
    let counter = count_kmers(b"ACGTACGT", 4);
    assert_eq!(counter.count(b"ACGT"), 2);
    assert_eq!(counter.count(b"CGTA"), 1);
    assert_eq!(counter.count(b"GTAC"), 1);
    assert_eq!(counter.count(b"TACG"), 1);
    assert_eq!(counter.count(b"AAAA"), 0);
    assert_eq!(counter.len(), 4);
}

#[test]
fn number_of_kmers_is_length_minus_k_plus_one() {
    assert_eq!(extract_kmers(b"ACGTA", 1).len(), 5);
    assert_eq!(extract_kmers(b"ACGTA", 3).len(), 3);
    assert_eq!(extract_kmers(b"ACGTA", 5).len(), 1);
    assert_eq!(extract_kmers(b"ACGTA", 6).len(), 0);
    assert_eq!(extract_kmers(b"", 1).len(), 0);
    assert_eq!(count_kmers(b"", 3).len(), 0);
}

#[test]
fn counting_twice_gives_the_same_counter() {
    let a = count_kmers(b"GATTACAGATTACA", 3);
    let b = count_kmers(b"GATTACAGATTACA", 3);
    assert_eq!(a.len(), b.len());
    for i in 0..a.len() {
        assert_eq!(a.kmer_at(i), b.kmer_at(i));
        assert_eq!(a.count_at(i), b.count_at(i));
    }
    assert_eq!(a.count(b"GAT"), 2);
    assert_eq!(a.count(b"CAG"), 1);
}

#[test]
fn normalize_joins_lines_and_folds_case_when_asked() {
    assert_eq!(normalize("acgt\nAC\r\ngg\n", true), b"ACGTACGG".to_vec());
    assert_eq!(normalize("acgt\nAC\r\ngg\n", false), b"acgtACgg".to_vec());
    assert_eq!(normalize("", true), Vec::<u8>::new());
    assert_eq!(normalize("n-1*z{", true), b"N-1*Z{".to_vec());
}

#[test]
fn normalize_keeps_a_lone_carriage_return() {
    assert_eq!(normalize("A\rC", true), b"A\rC".to_vec());
    assert_eq!(normalize("A\r\r\nC\r", false), b"A\rC\r".to_vec());
}

#[test]
fn normalize_upper_cases_beyond_ascii() {
    assert_eq!(normalize("\u{df}", true), b"SS".to_vec());
    assert_eq!(normalize("\u{e9}a", true), "\u{c9}A".as_bytes().to_vec());
    assert_eq!(normalize("\u{df}", false), "\u{df}".as_bytes().to_vec());
}

#[test]
fn lone_carriage_return_is_part_of_kmers() {
    let mut reg = GenomesAndContigs::new();
    let g = reg.establish_genome(String::from("g"));
    reg.insert_contig(String::from("c"), String::from("A\rC"), g);
    let three = reg.establish_kmers(3, true).unwrap();
    assert_eq!(three.len(), 1);
    assert_eq!(three.row_of(b"A\rC"), Some(&vec![1]));
    let two = reg.establish_kmers(2, true).unwrap();
    assert_eq!(two.row_of(b"A\r"), Some(&vec![1]));
    assert_eq!(two.row_of(b"AC"), None);
}

#[test]
fn sharp_s_and_double_s_count_alike_when_folded() {
    let mut a = GenomesAndContigs::new();
    let g = a.establish_genome(String::from("g"));
    a.insert_contig(String::from("c"), String::from("\u{df}"), g);
    let mut b = GenomesAndContigs::new();
    let h = b.establish_genome(String::from("g"));
    b.insert_contig(String::from("c"), String::from("SS"), h);
    let ma = a.establish_kmers(1, true).unwrap();
    let mb = b.establish_kmers(1, true).unwrap();
    assert_eq!(ma.row_of(b"S"), Some(&vec![2]));
    assert_eq!(mb.row_of(b"S"), Some(&vec![2]));
    assert_eq!(ma.len(), 1);
    assert_eq!(mb.len(), 1);
}

fn two_genomes() -> GenomesAndContigs {
    let mut reg = GenomesAndContigs::new();
    let g0 = reg.establish_genome(String::from("g0"));
    let g1 = reg.establish_genome(String::from("g1"));
    reg.insert_contig(String::from("c0"), String::from("AAAA"), g0);
    reg.insert_contig(String::from("c1"), String::from("AAAT"), g1);
    reg
}

#[test]
fn merged_matrix_has_zero_where_a_genome_lacks_a_kmer() {
    let reg = two_genomes();
    let m = reg.establish_kmers(3, true).unwrap();
    assert_eq!(m.len(), 2);
    assert_eq!(m.genome_columns(), 2);
    assert_eq!(m.row_of(b"AAA"), Some(&vec![2, 1]));
    assert_eq!(m.row_of(b"AAT"), Some(&vec![0, 1]));
    assert_eq!(m.row_of(b"TTT"), None);
}

#[test]
fn case_folding_is_selectable() {
    let mut reg = GenomesAndContigs::new();
    let g = reg.establish_genome(String::from("g"));
    reg.insert_contig(String::from("c"), String::from("aaAA\nAA"), g);
    let folded = reg.establish_kmers(2, true).unwrap();
    assert_eq!(folded.len(), 1);
    assert_eq!(folded.row_of(b"AA"), Some(&vec![5]));
    let raw = reg.establish_kmers(2, false).unwrap();
    assert_eq!(raw.len(), 3);
    assert_eq!(raw.row_of(b"aa"), Some(&vec![1]));
    assert_eq!(raw.row_of(b"aA"), Some(&vec![1]));
    assert_eq!(raw.row_of(b"AA"), Some(&vec![3]));
}

#[test]
fn contigs_of_one_genome_add_up_without_spanning() {
    let mut reg = GenomesAndContigs::new();
    let g = reg.establish_genome(String::from("g"));
    let h = reg.establish_genome(String::from("h"));
    reg.insert_contig(String::from("c0"), String::from("AC"), g);
    reg.insert_contig(String::from("c1"), String::from("GT"), h);
    reg.insert_contig(String::from("c2"), String::from("ACG"), g);
    let m = reg.establish_kmers(2, true).unwrap();
    assert_eq!(m.row_of(b"AC"), Some(&vec![2, 0]));
    assert_eq!(m.row_of(b"CG"), Some(&vec![1, 0]));
    assert_eq!(m.row_of(b"GT"), Some(&vec![0, 1]));
    assert_eq!(m.row_of(b"CA"), None);
}

#[test]
fn short_sequences_give_empty_rows_not_errors() {
    let reg = two_genomes();
    let m = reg.establish_kmers(10, true).unwrap();
    assert_eq!(m.len(), 0);
    assert_eq!(m.genome_columns(), 2);
}

#[test]
fn zero_kmer_length_is_rejected() {
    let reg = two_genomes();
    assert_eq!(reg.establish_kmers(0, true).err(), Some(KmerError::ZeroLength));
}

#[test]
fn report_lists_labels_and_counts() {
    let mut reg = GenomesAndContigs::new();
    let g0 = reg.establish_genome(String::from("dir/sub/g0.fna"));
    let g1 = reg.establish_genome(String::from("g1"));
    reg.insert_contig(String::from("c0"), String::from("AAAA"), g0);
    reg.insert_contig(String::from("c1"), String::from("AAAT"), g1);
    let m = reg.establish_kmers(3, true).unwrap();
    let text = String::from_utf8(format_report(reg.genomes(), &m)).unwrap();
    assert_eq!(text, "K-Mer\tg0.fna\tg1\nAAA\t2\t1\nAAT\t0\t1\n");
}

#[test]
fn report_prints_multi_digit_counts() {
    let mut reg = GenomesAndContigs::new();
    let g = reg.establish_genome(String::from("g"));
    reg.insert_contig(String::from("c"), "A".repeat(13), g);
    let m = reg.establish_kmers(1, true).unwrap();
    let text = String::from_utf8(format_report(reg.genomes(), &m)).unwrap();
    assert_eq!(text, "K-Mer\tg\nA\t13\n");
}

#[test]
fn indexer_input_prefixes_each_contig_with_its_genome() {
    let reg = two_genomes();
    let text = String::from_utf8(indexer_input(&reg)).unwrap();
    assert_eq!(text, ">g0\nAAAA\n>g1\nAAAT\n");
}
