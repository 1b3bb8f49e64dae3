use kmer_indexer::fasta::{FastaError, Reader, Record};
use kmer_indexer::names::{basename_of, file_stem_of};

#[test]
fn reads_records_with_and_without_description() {
    let mut reader = Reader::new(b">id desc text\nAAAA\nCC\n>id2\nGG".to_vec());
    let mut record = Record::new();
    assert!(reader.read(&mut record).is_ok());
    assert_eq!(record.id(), "id");
    assert_eq!(record.desc(), Some("desc text"));
    assert_eq!(record.seq(), "AAAA\nCC\n");
    assert!(reader.read(&mut record).is_ok());
    assert_eq!(record.id(), "id2");
    assert_eq!(record.desc(), None);
    assert_eq!(record.seq(), "GG");
    assert!(reader.read(&mut record).is_ok());
    assert!(record.is_empty());
}

#[test]
fn header_whitespace_is_trimmed() {
    let mut reader = Reader::new(b">x y \r\nA\n".to_vec());
    let mut record = Record::new();
    assert!(reader.read(&mut record).is_ok());
    assert_eq!(record.id(), "x");
    assert_eq!(record.desc(), Some("y"));
}

#[test]
fn missing_header_is_an_error() {
    let mut reader = Reader::new(b"AAAA\n".to_vec());
    let mut record = Record::with_attrs("old", Some("stale"), String::from("GG"));
    assert_eq!(reader.read(&mut record), Err(FastaError::ExpectedHeader));
    assert!(record.is_empty());
}

#[test]
fn header_trailing_unicode_white_space_is_trimmed() {
    let mut reader = Reader::new(">id\u{a0}\u{3000}\nAC\n".as_bytes().to_vec());
    let mut record = Record::new();
    assert!(reader.read(&mut record).is_ok());
    assert_eq!(record.id(), "id");
    assert_eq!(record.desc(), None);
    assert_eq!(record.seq(), "AC\n");
}

#[test]
fn records_stop_after_an_error() {
    let mut records = Reader::new(b">a\nAC\n>b\nGT\n".to_vec()).records();
    assert_eq!(records.next().unwrap().unwrap().id(), "a");
    assert_eq!(records.next().unwrap().unwrap().seq(), "GT\n");
    assert!(records.next().is_none());

    let mut bad = Reader::new(b"junk\n>a\nAC\n".to_vec()).records();
    assert_eq!(bad.next().unwrap().err(), Some(FastaError::ExpectedHeader));
    assert!(bad.next().is_none());
}

#[test]
fn invalid_utf8_is_reported() {
    let mut reader = Reader::new(vec![b'>', b'i', b'\n', 0xc3, 0x28, b'\n']);
    let mut record = Record::with_attrs("old", None, String::new());
    assert_eq!(reader.read(&mut record), Err(FastaError::NotUtf8));
    assert!(record.is_empty());
}

#[test]
fn record_check_and_attributes() {
    let r = Record::with_attrs("id", Some("d"), String::from("ACGT"));
    assert_eq!(r.check(), Ok(()));
    assert_eq!(r.desc(), Some("d"));
    assert!(!r.is_empty());
    let no_id = Record::with_attrs("", None, String::from("ACGT"));
    assert_eq!(no_id.check(), Err("Expecting id for Fasta record."));
    let wide = Record::with_attrs("id", None, String::from("AC\u{e9}"));
    assert_eq!(wide.check(), Err("Non-ascii character found in sequence."));
    assert!(Record::new().is_empty());
}

#[test]
fn path_names() {
    assert_eq!(basename_of(b"a/b/c.fna"), b"c.fna".to_vec());
    assert_eq!(file_stem_of(b"a/b/c.fna"), b"c".to_vec());
    assert_eq!(file_stem_of(b".hidden"), b".hidden".to_vec());
    assert_eq!(file_stem_of(b"plain"), b"plain".to_vec());
}
