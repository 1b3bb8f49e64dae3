use vstd::prelude::*;

use vstd::utf8::{decode_utf8, encode_utf8, encode_utf8_decode_utf8, valid_utf8};

use crate::kmer::slice_window;
use crate::text::{string_from_utf8, trim_end_str, trim_white_space};

verus! {

/// Why a FASTA text could not be read.
#[derive(Debug, PartialEq, Eq, Structural)]
pub enum FastaError {
    /// A record does not start with a `>` header line.
    ExpectedHeader,
    /// An identifier, description or sequence is not valid UTF-8.
    NotUtf8,
}

/// What reading one record at a position gives.
pub enum Step {
    /// The text is used up.
    End,
    /// The record cannot be read.
    Fail(FastaError),
    /// A record: identifier, description, sequence, and where the next one starts.
    Found(Seq<u8>, Option<Seq<u8>>, Seq<u8>, int),
}

/// Where the line that starts at `p` ends: just past its line feed, or at the
/// end of the text.
pub open spec fn line_end(d: Seq<u8>, p: int) -> int
    decreases d.len() - p,
{
    if p >= d.len() {
        d.len() as int
    } else if d[p] == 10 {
        p + 1
    } else {
        line_end(d, p + 1)
    }
}

/// Where the sequence lines from `p` on end: at the start of the next line
/// that begins with `>`, or at the end of the text. `at_start` says whether
/// `p` begins a line.
pub open spec fn body_end(d: Seq<u8>, p: int, at_start: bool) -> int
    decreases d.len() - p,
{
    if p >= d.len() {
        d.len() as int
    } else if at_start && d[p] == 62 {
        p
    } else {
        body_end(d, p + 1, d[p] == 10)
    }
}

/// The position of the first space in `h`, or its length.
pub open spec fn first_space(h: Seq<u8>) -> nat
    decreases h.len(),
{
    if h.len() == 0 || h[0] == 32 {
        0
    } else {
        1 + first_space(h.drop_first())
    }
}

/// The line of the record at `p` after its `>`, line feed included.
pub open spec fn header_line(d: Seq<u8>, p: int) -> Seq<u8> {
    d.subrange(p + 1, line_end(d, p))
}

/// The header of the record at `p`: its line after the `>`, without
/// trailing White_Space.
pub open spec fn header(d: Seq<u8>, p: int) -> Seq<u8> {
    encode_utf8(trim_white_space(decode_utf8(header_line(d, p))))
}

/// The identifier of a header: up to its first space.
pub open spec fn id_of(h: Seq<u8>) -> Seq<u8> {
    h.subrange(0, first_space(h) as int)
}

/// The description of a header: what follows its first space, if any.
pub open spec fn desc_of(h: Seq<u8>) -> Option<Seq<u8>> {
    if first_space(h) < h.len() {
        Some(h.subrange(first_space(h) as int + 1, h.len() as int))
    } else {
        None
    }
}

/// What reading at `p` gives: nothing at the end of the text, an error where
/// no header starts there or a line is not UTF-8, else the record, whose
/// sequence is every line (line breaks kept) up to the next header.
pub open spec fn step_at(d: Seq<u8>, p: int) -> Step {
    if p >= d.len() {
        Step::End
    } else if d[p] != 62 {
        Step::Fail(FastaError::ExpectedHeader)
    } else {
        let h = header(d, p);
        let s = d.subrange(line_end(d, p), body_end(d, line_end(d, p), true));
        let ok_desc = match desc_of(h) {
            Some(t) => valid_utf8(t),
            None => true,
        };
        if valid_utf8(header_line(d, p)) && valid_utf8(id_of(h)) && ok_desc && valid_utf8(s) {
            Step::Found(id_of(h), desc_of(h), s, body_end(d, line_end(d, p), true))
        } else {
            Step::Fail(FastaError::NotUtf8)
        }
    }
}

/// The identifier and sequence of each record of `d` from `p` on, up to the
/// end of the text or an empty record; `None` where a record cannot be read.
pub open spec fn records_from(d: Seq<u8>, p: int) -> Option<Seq<(Seq<u8>, Seq<u8>)>>
    decreases d.len() - p,
{
    match step_at(d, p) {
        Step::End => Some(Seq::empty()),
        Step::Fail(_) => None,
        Step::Found(id, desc, seq, next) => {
            if id.len() == 0 && desc is None && seq.len() == 0 {
                Some(Seq::empty())
            } else if p < next <= d.len() {
                match records_from(d, next) {
                    Some(rest) => Some(seq![(id, seq)] + rest),
                    None => None,
                }
            } else {
                None
            }
        },
    }
}

proof fn lemma_line_end(d: Seq<u8>, p: int)
    requires
        0 <= p < d.len(),
    ensures
        p < line_end(d, p) <= d.len(),
    decreases d.len() - p,
{
    if d[p] != 10 {
        if p + 1 < d.len() {
            lemma_line_end(d, p + 1);
        } else {
            assert(line_end(d, p + 1) == d.len());
        }
    }
}

proof fn lemma_body_end(d: Seq<u8>, p: int, at_start: bool)
    requires
        0 <= p <= d.len(),
    ensures
        p <= body_end(d, p, at_start) <= d.len(),
    decreases d.len() - p,
{
    if p < d.len() {
        lemma_body_end(d, p + 1, d[p] == 10);
    }
}


fn find_line_end(d: &Vec<u8>, p: usize) -> (r: usize)
    requires
        p < d@.len(),
    ensures
        r == line_end(d@, p as int),
        p < r <= d@.len(),
{
    proof {
        lemma_line_end(d@, p as int);
    }
    let mut i: usize = p;
    while i < d.len() && d[i] != 10
        invariant
            p <= i <= d@.len(),
            line_end(d@, i as int) == line_end(d@, p as int),
        decreases d@.len() - i,
    {
        i = i + 1;
    }
    if i < d.len() {
        i + 1
    } else {
        i
    }
}

fn find_body_end(d: &Vec<u8>, p: usize) -> (r: usize)
    requires
        p <= d@.len(),
    ensures
        r == body_end(d@, p as int, true),
        p <= r <= d@.len(),
{
    let mut i: usize = p;
    let mut at_start = true;
    while i < d.len() && !(at_start && d[i] == 62)
        invariant
            p <= i <= d@.len(),
            body_end(d@, i as int, at_start) == body_end(d@, p as int, true),
        decreases d@.len() - i,
    {
        at_start = d[i] == 10;
        i = i + 1;
    }
    i
}

fn find_space(d: &Vec<u8>, a: usize, e: usize) -> (r: usize)
    requires
        a <= e <= d@.len(),
    ensures
        a <= r <= e,
        r - a == first_space(d@.subrange(a as int, e as int)),
{
    let mut i: usize = a;
    while i < e && d[i] != 32
        invariant
            a <= i <= e,
            e <= d@.len(),
            first_space(d@.subrange(a as int, e as int)) == (i - a) + first_space(d@.subrange(i as int, e as int)),
        decreases e - i,
    {
        assert(d@.subrange(i as int, e as int).drop_first() =~= d@.subrange(i + 1, e as int));
        i = i + 1;
    }
    i
}

fn copy_range(d: &Vec<u8>, a: usize, b: usize) -> (r: Vec<u8>)
    requires
        a <= b <= d@.len(),
    ensures
        r@ == d@.subrange(a as int, b as int),
{
    slice_window(d.as_slice(), a, b - a)
}

/// A FASTA record.
#[derive(Debug)]
pub struct Record {
    id: String,
    desc: Option<String>,
    seq: String,
}

impl Record {
    /// The identifier.
    pub closed spec fn id_view(&self) -> Seq<char> {
        self.id@
    }

    /// The description, if any.
    pub closed spec fn desc_view(&self) -> Option<Seq<char>> {
        match self.desc {
            Some(d) => Some(d@),
            None => None,
        }
    }

    /// The sequence, line breaks included.
    pub closed spec fn seq_view(&self) -> Seq<char> {
        self.seq@
    }

    /// No identifier, no description and no sequence.
    pub open spec fn spec_is_empty(&self) -> bool {
        self.id_view().len() == 0 && self.desc_view() is None && self.seq_view().len() == 0
    }

    /// An empty record.
    pub fn new() -> (r: Record)
        ensures
            r.spec_is_empty(),
    {
        Record { id: String::new(), desc: None, seq: String::new() }
    }

    /// A record with the given attributes.
    pub fn with_attrs(id: &str, desc: Option<&str>, seq: String) -> (r: Record)
        ensures
            r.id_view() == id@,
            r.desc_view() == match desc {
                Some(d) => Some(d@),
                None => None::<Seq<char>>,
            },
            r.seq_view() == seq@,
    {
        let desc = match desc {
            Some(d) => Some(d.to_owned()),
            None => None,
        };
        Record { id: id.to_owned(), desc, seq }
    }

    /// Whether the record is empty.
    pub fn is_empty(&self) -> (r: bool)
        ensures
            r == self.spec_is_empty(),
    {
        self.id.as_str().is_empty() && self.desc.is_none() && self.seq.as_str().is_empty()
    }

    /// Checks that the record has an identifier and an ASCII sequence.
    pub fn check(&self) -> (r: Result<(), &'static str>)
        ensures
            r is Ok <==> self.id_view().len() > 0 && vstd::utf8::is_ascii_chars(self.seq_view()),
            self.id_view().len() == 0 ==> r == Err::<(), &'static str>("Expecting id for Fasta record."),
            self.id_view().len() > 0 && !vstd::utf8::is_ascii_chars(self.seq_view())
                ==> r == Err::<(), &'static str>("Non-ascii character found in sequence."),
    {
        if self.id.as_str().is_empty() {
            return Err("Expecting id for Fasta record.");
        }
        if !self.seq.as_str().is_ascii() {
            return Err("Non-ascii character found in sequence.");
        }
        Ok(())
    }

    /// The identifier.
    pub fn id(&self) -> (r: &str)
        ensures
            r@ == self.id_view(),
    {
        self.id.as_str()
    }

    /// The description, if present.
    pub fn desc(&self) -> (r: Option<&str>)
        ensures
            match r {
                Some(d) => self.desc_view() == Some(d@),
                None => self.desc_view() is None,
            },
    {
        match &self.desc {
            Some(d) => Some(d.as_str()),
            None => None,
        }
    }

    /// The sequence.
    pub fn seq(&self) -> (r: String)
        ensures
            r@ == self.seq_view(),
    {
        self.seq.clone()
    }

    /// Empties the record.
    pub(crate) fn clear(&mut self)
        ensures
            final(self).spec_is_empty(),
    {
        self.id = String::new();
        self.desc = None;
        self.seq = String::new();
    }
}

/// A FASTA reader over a text held in memory.
#[derive(Debug)]
pub struct Reader {
    data: Vec<u8>,
    pos: usize,
}

impl Reader {
    /// The text read.
    pub closed spec fn data(&self) -> Seq<u8> {
        self.data@
    }

    /// Where the next record starts.
    pub closed spec fn position(&self) -> int {
        self.pos as int
    }

    /// The position lies within the text.
    pub open spec fn wf(&self) -> bool {
        0 <= self.position() <= self.data().len()
    }

    /// A reader at the start of `data`.
    pub fn new(data: Vec<u8>) -> (r: Reader)
        ensures
            r.wf(),
            r.data() == data@,
            r.position() == 0,
    {
        Reader { data, pos: 0 }
    }

    /// Reads the next record into `record`: nothing at the end of the text,
    /// else the record whose header starts here.
    pub fn read(&mut self, record: &mut Record) -> (r: Result<(), FastaError>)
        requires
            old(self).wf(),
        ensures
            final(self).wf(),
            final(self).data() == old(self).data(),
            match step_at(old(self).data(), old(self).position()) {
                Step::End => r is Ok && final(record).spec_is_empty() && final(self).position() == old(self).position(),
                Step::Fail(e) => {
                    &&& r == Err::<(), FastaError>(e)
                    &&& final(record).spec_is_empty()
                    &&& final(self).position() == old(self).position()
                },
                Step::Found(id, desc, seq, next) => {
                    &&& r is Ok
                    &&& encode_utf8(final(record).id_view()) == id
                    &&& match desc {
                        Some(t) => final(record).desc_view() matches Some(v) && encode_utf8(v) == t,
                        None => final(record).desc_view() is None,
                    }
                    &&& encode_utf8(final(record).seq_view()) == seq
                    &&& final(self).position() == next
                    &&& next > old(self).position()
                },
            },
    {
        record.clear();
        let p = self.pos;
        if p >= self.data.len() {
            return Ok(());
        }
        if self.data[p] != 62 {
            return Err(FastaError::ExpectedHeader);
        }
        let le = find_line_end(&self.data, p);
        let be = find_body_end(&self.data, le);
        let ghost d = self.data@;
        let line = match string_from_utf8(copy_range(&self.data, p + 1, le)) {
            Some(t) => t,
            None => return Err(FastaError::NotUtf8),
        };
        proof {
            encode_utf8_decode_utf8(line@);
        }
        let trimmed = trim_end_str(line.as_str());
        let tb = trimmed.as_bytes();
        let h = slice_window(tb, 0, tb.len());
        assert(tb@.subrange(0, tb@.len() as int) =~= tb@);
        assert(h@ == header(d, p as int));
        let he = h.len();
        let sp = find_space(&h, 0, he);
        proof {
            assert(h@.subrange(0, he as int) =~= h@);
            assert(id_of(h@) =~= h@.subrange(0, sp as int));
            if sp < he {
                assert(desc_of(h@) == Some(h@.subrange(sp + 1, he as int)));
            }
        }
        let id = match string_from_utf8(copy_range(&h, 0, sp)) {
            Some(s) => s,
            None => return Err(FastaError::NotUtf8),
        };
        let desc = if sp < he {
            match string_from_utf8(copy_range(&h, sp + 1, he)) {
                Some(s) => Some(s),
                None => return Err(FastaError::NotUtf8),
            }
        } else {
            None
        };
        let seq = match string_from_utf8(copy_range(&self.data, le, be)) {
            Some(s) => s,
            None => return Err(FastaError::NotUtf8),
        };
        record.id = id;
        record.desc = desc;
        record.seq = seq;
        self.pos = be;
        Ok(())
    }

    /// The records of the rest of the text, one at a time.
    pub fn records(self) -> (r: Records)
        requires
            self.wf(),
        ensures
            r.wf(),
            r.reader() == self,
            !r.failed(),
    {
        Records { reader: self, error_has_occured: false }
    }
}

/// The records of a FASTA text, one at a time. After an error it yields
/// nothing more.
pub struct Records {
    reader: Reader,
    error_has_occured: bool,
}

impl Records {
    /// The reader that records are taken from.
    pub closed spec fn reader(&self) -> Reader {
        self.reader
    }

    /// Whether an error has been yielded.
    pub closed spec fn failed(&self) -> bool {
        self.error_has_occured
    }

    /// The reader is well formed.
    pub open spec fn wf(&self) -> bool {
        self.reader().wf()
    }

    /// The next record, an error, or `None` once the text is used up, an
    /// empty record is met, or an error has been yielded.
    pub fn next(&mut self) -> (r: Option<Result<Record, FastaError>>)
        requires
            old(self).wf(),
        ensures
            final(self).wf(),
            final(self).reader().data() == old(self).reader().data(),
            old(self).failed() ==> r is None && *final(self) == *old(self),
            !old(self).failed() ==> match step_at(old(self).reader().data(), old(self).reader().position()) {
                Step::End => r is None && !final(self).failed(),
                Step::Fail(e) => r == Some(Err::<Record, FastaError>(e)) && final(self).failed(),
                Step::Found(id, desc, seq, next) => {
                    &&& !final(self).failed()
                    &&& final(self).reader().position() == next
                    &&& next > old(self).reader().position()
                    &&& if id.len() == 0 && desc is None && seq.len() == 0 {
                        r is None
                    } else {
                        r matches Some(Ok(rec)) && {
                            &&& encode_utf8(rec.id_view()) == id
                            &&& match desc {
                                Some(t) => rec.desc_view() matches Some(v) && encode_utf8(v) == t,
                                None => rec.desc_view() is None,
                            }
                            &&& encode_utf8(rec.seq_view()) == seq
                        }
                    }
                },
            },
    {
        if self.error_has_occured {
            return None;
        }
        let mut record = Record::new();
        match self.reader.read(&mut record) {
            Ok(()) => {
                if record.is_empty() {
                    proof {
                        if record.id_view().len() == 0 {
                            assert(encode_utf8(record.id_view()) =~= Seq::<u8>::empty());
                        }
                        assert(encode_utf8(record.seq_view()) =~= Seq::<u8>::empty());
                    }
                    None
                } else {
                    Some(Ok(record))
                }
            },
            Err(e) => {
                self.error_has_occured = true;
                Some(Err(e))
            },
        }
    }
}

} // verus!
