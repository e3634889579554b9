//! Decoding a whole graph, at once or as its bytes arrive.
//!
//! [`mccortex`] takes the complete input. [`Stream`] takes it in pieces: it
//! keeps what no decode has consumed yet, and each push hands out what has
//! become complete. What is handed out is a value, a [`Batch`]; whoever owns
//! the byte source passes it on.

use crate::error::{DecodeError, Fault};
use crate::header::{header, header_of, Header, HeaderModel};
use crate::kmer::{read_kmer, record_at, record_len, Kmer, KmerModel};
use vstd::prelude::*;

verus! {

/// A decoded graph: the header and the k-mers, in the order of the file.
#[derive(Debug, PartialEq, Eq)]
pub struct McCortex {
    pub header: Header,
    pub kmers: Vec<Kmer>,
}

/// A [`McCortex`] as a mathematical value.
pub ghost struct McCortexModel {
    pub header: HeaderModel,
    pub kmers: Seq<KmerModel>,
}

/// The model of each record.
pub open spec fn kmer_models(records: Seq<Kmer>) -> Seq<KmerModel> {
    Seq::new(records.len(), |i: int| records[i]@)
}

impl View for McCortex {
    type V = McCortexModel;

    open spec fn view(&self) -> McCortexModel {
        McCortexModel { header: self.header@, kmers: kmer_models(self.kmers@) }
    }
}

/// What one push hands out: the header, if this push completed it, and the
/// records that this push completed, in the order of the file. The header
/// comes before the records.
#[derive(Debug, PartialEq, Eq)]
pub struct Batch {
    pub header: Option<Header>,
    pub kmers: Vec<Kmer>,
}

/// A [`Batch`] as a mathematical value.
pub ghost struct BatchModel {
    pub header: Option<HeaderModel>,
    pub kmers: Seq<KmerModel>,
}

impl View for Batch {
    type V = BatchModel;

    open spec fn view(&self) -> BatchModel {
        BatchModel {
            header: match self.header {
                Some(value) => Some(value@),
                None => None,
            },
            kmers: kmer_models(self.kmers@),
        }
    }
}

/// One thing that a stream hands out: the header or one record.
pub ghost enum Event {
    Header(HeaderModel),
    Kmer(KmerModel),
}

impl BatchModel {
    /// A batch with nothing in it.
    pub open spec fn empty() -> BatchModel {
        BatchModel { header: None, kmers: Seq::empty() }
    }

    /// What the batch hands out, one thing after the other: the header, if
    /// there is one, and then the records.
    pub open spec fn events(self) -> Seq<Event> {
        let records = Seq::new(self.kmers.len(), |i: int| Event::Kmer(self.kmers[i]));
        match self.header {
            Some(header) => seq![Event::Header(header)] + records,
            None => records,
        }
    }
}

/// The records that lie whole in `s` from `at` on, with `w` packed words and
/// `c` colours. Records of no bytes are not counted: there would be no end
/// of them.
pub open spec fn kmers_from(s: Seq<u8>, at: int, w: u32, c: u32) -> Seq<KmerModel>
    decreases s.len() - at,
{
    if record_len(w, c) > 0 && at + record_len(w, c) <= s.len() {
        seq![record_at(s, at, w, c)] + kmers_from(s, at + record_len(w, c), w, c)
    } else {
        Seq::empty()
    }
}

/// The position behind the last record that lies whole in `s` from `at` on.
pub open spec fn kmers_end(s: Seq<u8>, at: int, w: u32, c: u32) -> int
    decreases s.len() - at,
{
    if record_len(w, c) > 0 && at + record_len(w, c) <= s.len() {
        kmers_end(s, at + record_len(w, c), w, c)
    } else {
        at
    }
}

/// What a complete input decodes to: the position behind the last whole
/// record, and the graph. Bytes behind that position are the start of a
/// record that was cut short; they are left alone and are no error.
pub open spec fn graph_of(s: Seq<u8>) -> Result<(int, McCortexModel), Fault> {
    match header_of(s) {
        Ok((end, header)) => Ok(
            (
                kmers_end(s, end, header.n_words_per_kmer, header.n_colours),
                McCortexModel {
                    header,
                    kmers: kmers_from(s, end, header.n_words_per_kmer, header.n_colours),
                },
            ),
        ),
        Err(fault) => Err(fault),
    }
}

/// Decodes the records that lie whole in `input` from `at` on.
fn read_kmers(input: &[u8], at: usize, n_words_per_kmer: u32, cols: u32) -> (r: (usize, Vec<Kmer>))
    requires
        at <= input@.len(),
    ensures
        at <= r.0 <= input@.len(),
        r.0 == kmers_end(input@, at as int, n_words_per_kmer, cols),
        kmer_models(r.1@) == kmers_from(input@, at as int, n_words_per_kmer, cols),
{
    let mut kmers: Vec<Kmer> = Vec::new();
    let mut pos = at;
    let mut more = n_words_per_kmer != 0 || cols != 0;
    while more
        invariant
            at <= pos <= input@.len(),
            more ==> record_len(n_words_per_kmer, cols) > 0,
            !more ==> kmers_end(input@, pos as int, n_words_per_kmer, cols) == pos
                && kmers_from(input@, pos as int, n_words_per_kmer, cols)
                == Seq::<KmerModel>::empty(),
            kmers_end(input@, at as int, n_words_per_kmer, cols) == kmers_end(
                input@,
                pos as int,
                n_words_per_kmer,
                cols,
            ),
            kmers_from(input@, at as int, n_words_per_kmer, cols) == kmer_models(kmers@)
                + kmers_from(input@, pos as int, n_words_per_kmer, cols),
        decreases input@.len() - pos, more as int,
    {
        match read_kmer(input, pos, n_words_per_kmer, cols) {
            Ok((end, record)) => {
                kmers.push(record);
                pos = end;
            },
            Err(_) => {
                more = false;
            },
        }
    }
    (pos, kmers)
}

/// Decodes a complete graph file: the header, then every record that lies
/// whole in `input`. The count says how many bytes that took.
pub fn mccortex(input: &[u8]) -> (r: Result<(usize, McCortex), DecodeError>)
    ensures
        match r {
            Ok((used, graph)) => used <= input@.len() && graph@.header.wf() && graph_of(input@)
                == Ok::<(int, McCortexModel), Fault>((used as int, graph@)),
            Err(e) => graph_of(input@) == Err::<(int, McCortexModel), Fault>(e@),
        },
{
    let (at, header) = match header(input) {
        Ok(decoded) => decoded,
        Err(e) => return Err(e),
    };
    let (end, kmers) = read_kmers(input, at, header.n_words_per_kmer, header.n_colours);
    Ok((end, McCortex { header, kmers }))
}

/// Where a [`Stream`] stands, as a mathematical value.
pub ghost enum StreamModel {
    /// No header has been decoded yet. `buffer` is every byte pushed so far.
    AwaitingHeader { buffer: Seq<u8> },
    /// The header is known. `buffer` is what was pushed behind the last
    /// whole record.
    AwaitingKmer { n_words_per_kmer: u32, n_colours: u32, buffer: Seq<u8> },
    /// The header was found to be wrong. Nothing more is decoded.
    Aborted { fault: Fault },
}

impl StreamModel {
    /// Where every stream starts.
    pub open spec fn start() -> StreamModel {
        StreamModel::AwaitingHeader { buffer: Seq::empty() }
    }

    /// Where the stream stands once `bytes` have been pushed.
    pub open spec fn after(self, bytes: Seq<u8>) -> StreamModel {
        match self {
            StreamModel::AwaitingHeader { buffer } => match header_of(buffer + bytes) {
                Ok((end, header)) => StreamModel::AwaitingKmer {
                    n_words_per_kmer: header.n_words_per_kmer,
                    n_colours: header.n_colours,
                    buffer: (buffer + bytes).skip(
                        kmers_end(buffer + bytes, end, header.n_words_per_kmer, header.n_colours),
                    ),
                },
                Err(fault) => if fault.is_fatal() {
                    StreamModel::Aborted { fault }
                } else {
                    StreamModel::AwaitingHeader { buffer: buffer + bytes }
                },
            },
            StreamModel::AwaitingKmer { n_words_per_kmer, n_colours, buffer } => {
                StreamModel::AwaitingKmer {
                    n_words_per_kmer,
                    n_colours,
                    buffer: (buffer + bytes).skip(
                        kmers_end(buffer + bytes, 0, n_words_per_kmer, n_colours),
                    ),
                }
            },
            StreamModel::Aborted { fault } => self,
        }
    }

    /// What a push of `bytes` hands out.
    pub open spec fn batch(self, bytes: Seq<u8>) -> BatchModel {
        match self {
            StreamModel::AwaitingHeader { buffer } => match header_of(buffer + bytes) {
                Ok((end, header)) => BatchModel {
                    header: Some(header),
                    kmers: kmers_from(
                        buffer + bytes,
                        end,
                        header.n_words_per_kmer,
                        header.n_colours,
                    ),
                },
                Err(_) => BatchModel::empty(),
            },
            StreamModel::AwaitingKmer { n_words_per_kmer, n_colours, buffer } => BatchModel {
                header: None,
                kmers: kmers_from(buffer + bytes, 0, n_words_per_kmer, n_colours),
            },
            StreamModel::Aborted { fault } => BatchModel::empty(),
        }
    }

    /// The bytes that were pushed and that no decode has consumed.
    pub open spec fn pending(self) -> Seq<u8> {
        match self {
            StreamModel::AwaitingHeader { buffer } => buffer,
            StreamModel::AwaitingKmer { buffer, .. } => buffer,
            StreamModel::Aborted { .. } => Seq::empty(),
        }
    }
}

/// What the stream is waiting for.
#[derive(Clone, Copy)]
enum Phase {
    AwaitingHeader,
    AwaitingKmer { n_words_per_kmer: u32, n_colours: u32 },
    Aborted { error: DecodeError },
}

/// A decoder that takes its input in pieces.
///
/// It waits for the header first and for k-mer records from then on. A
/// header that is wrong ends the decode: that push and every later one
/// return the error, and nothing more is handed out. A header or a record
/// that is only cut short is no error, however long the rest stays away;
/// [`Stream::finish`] returns what was left over.
pub struct Stream {
    phase: Phase,
    buffer: Vec<u8>,
}

impl Stream {
    /// An aborted stream holds a final error and no bytes.
    #[verifier::type_invariant]
    spec fn inv(self) -> bool {
        self.phase matches Phase::Aborted { error } ==> error@.is_fatal() && self.buffer@.len() == 0
    }
}

impl View for Stream {
    type V = StreamModel;

    closed spec fn view(&self) -> StreamModel {
        match self.phase {
            Phase::AwaitingHeader => StreamModel::AwaitingHeader { buffer: self.buffer@ },
            Phase::AwaitingKmer { n_words_per_kmer, n_colours } => StreamModel::AwaitingKmer {
                n_words_per_kmer,
                n_colours,
                buffer: self.buffer@,
            },
            Phase::Aborted { error } => StreamModel::Aborted { fault: error@ },
        }
    }
}

impl Stream {
    /// A stream that has seen no input.
    pub fn new() -> (stream: Stream)
        ensures
            stream@ == StreamModel::start(),
    {
        Stream { phase: Phase::AwaitingHeader, buffer: Vec::new() }
    }

    /// Takes the next piece of input and hands out what it completed.
    pub fn push(&mut self, bytes: &[u8]) -> (r: Result<Batch, DecodeError>)
        ensures
            final(self)@ == old(self)@.after(bytes@),
            match r {
                Ok(batch) => batch@ == old(self)@.batch(bytes@) && !(final(self)@ is Aborted),
                Err(e) => e@.is_fatal() && final(self)@ == (StreamModel::Aborted { fault: e@ }),
            },
    {
        proof {
            use_type_invariant(&*self);
        }
        let known = match self.phase {
            Phase::Aborted { error } => {
                return Err(error);
            },
            Phase::AwaitingHeader => None,
            Phase::AwaitingKmer { n_words_per_kmer, n_colours } => Some(
                (n_words_per_kmer, n_colours),
            ),
        };
        let mut all: Vec<u8> = Vec::new();
        all.extend_from_slice(self.buffer.as_slice());
        all.extend_from_slice(bytes);
        assert(all@ == self.buffer@ + bytes@);
        let (at, header, n_words_per_kmer, n_colours) = match known {
            Some((n_words_per_kmer, n_colours)) => (0, None, n_words_per_kmer, n_colours),
            None => match header(all.as_slice()) {
                Ok((end, value)) => {
                    let n_words_per_kmer = value.n_words_per_kmer;
                    let n_colours = value.n_colours;
                    (end, Some(value), n_words_per_kmer, n_colours)
                },
                Err(e) => {
                    assert(kmer_models(Seq::<Kmer>::empty()) == Seq::<KmerModel>::empty());
                    if e.is_fatal() {
                        self.buffer = Vec::new();
                        self.phase = Phase::Aborted { error: e };
                        return Err(e);
                    }
                    self.buffer = all;
                    return Ok(Batch { header: None, kmers: Vec::new() });
                },
            },
        };
        let (end, kmers) = read_kmers(all.as_slice(), at, n_words_per_kmer, n_colours);
        self.buffer = all.split_off(end);
        self.phase = Phase::AwaitingKmer { n_words_per_kmer, n_colours };
        Ok(Batch { header, kmers })
    }

    /// The number of bytes that were pushed and that no decode has consumed.
    pub fn pending(&self) -> (n: usize)
        ensures
            n == self@.pending().len(),
    {
        match self.phase {
            Phase::Aborted { .. } => 0,
            _ => self.buffer.len(),
        }
    }

    /// Ends the decode and returns the bytes that no decode has consumed:
    /// none at a clean end of input, else the start of a header or of a
    /// record that was cut short.
    pub fn finish(self) -> (rest: Vec<u8>)
        ensures
            rest@ == self@.pending(),
    {
        match self.phase {
            Phase::Aborted { .. } => Vec::new(),
            _ => self.buffer,
        }
    }
}

} // verus!
