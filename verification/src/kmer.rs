//! One k-mer record: the packed k-mer, and for each colour how often the
//! k-mer was seen and which bases were seen next to it.

use crate::codec::{base_at, edges, incoming, nucleotides, outgoing};
use crate::error::{DecodeError, Fault};
use crate::wire::{read_bytes, read_u32s, read_u64s, u32s_at, u64s_at};
use vstd::prelude::*;
use vstd::string::StringExecFns;

verus! {

/// A decoded k-mer record.
///
/// `kmer` holds 32 nucleotides for each packed word, also where the k-mer
/// size of the header is smaller: the record does not say which of them are
/// padding, and none is dropped here. Each entry of `edges_per_colour` is
/// the bases before the k-mer, then the bases after it.
#[derive(Debug, PartialEq, Eq)]
pub struct Kmer {
    pub kmer: String,
    pub coverage_per_colour: Vec<u32>,
    pub edges_per_colour: Vec<(Vec<char>, Vec<char>)>,
}

/// A [`Kmer`] as a mathematical value.
pub ghost struct KmerModel {
    pub kmer: Seq<char>,
    pub coverage_per_colour: Seq<u32>,
    pub edges_per_colour: Seq<(Seq<char>, Seq<char>)>,
}

/// The contents of each pair of edge sets.
pub open spec fn edge_sets(pairs: Seq<(Vec<char>, Vec<char>)>) -> Seq<(Seq<char>, Seq<char>)> {
    Seq::new(pairs.len(), |i: int| (pairs[i].0@, pairs[i].1@))
}

impl View for Kmer {
    type V = KmerModel;

    open spec fn view(&self) -> KmerModel {
        KmerModel {
            kmer: self.kmer@,
            coverage_per_colour: self.coverage_per_colour@,
            edges_per_colour: edge_sets(self.edges_per_colour@),
        }
    }
}

/// The number of bytes of a record with `w` packed words and `c` colours:
/// eight for each word, and for each colour four of coverage and one of
/// edges.
pub open spec fn record_len(w: u32, c: u32) -> int {
    8 * w + 4 * c + c
}

/// The nucleotides of a run of packed words: 32 for each word, in the order
/// of the words.
pub open spec fn unpack(words: Seq<u64>) -> Seq<char> {
    Seq::new(32 * words.len(), |j: int| base_at(words[j / 32], j % 32))
}

/// The edge sets of the `n` masks that lie from `at` on.
pub open spec fn edge_sets_at(s: Seq<u8>, at: int, n: nat) -> Seq<(Seq<char>, Seq<char>)> {
    Seq::new(n, |i: int| (incoming(s[at + i]), outgoing(s[at + i])))
}

/// The value of the record that begins at `at`, with `w` packed words and
/// `c` colours: the words, then the coverage of each colour, then the edge
/// mask of each colour.
pub open spec fn record_at(s: Seq<u8>, at: int, w: u32, c: u32) -> KmerModel {
    KmerModel {
        kmer: unpack(u64s_at(s, at, w as nat)),
        coverage_per_colour: u32s_at(s, at + 8 * w, c as nat),
        edges_per_colour: edge_sets_at(s, at + 8 * w + 4 * c, c as nat),
    }
}

/// What the record that begins at `at` decodes to: the position behind it
/// and its value. A record is never malformed; it can only be cut short.
pub open spec fn kmer_at(s: Seq<u8>, at: int, w: u32, c: u32) -> Result<(int, KmerModel), Fault> {
    if s.len() < at + record_len(w, c) {
        Err(Fault::Incomplete)
    } else {
        Ok((at + record_len(w, c), record_at(s, at, w, c)))
    }
}

/// Decodes a run of packed words into their nucleotides.
fn unpack_words(words: &Vec<u64>) -> (text: String)
    ensures
        text@ == unpack(words@),
{
    let mut text = String::new();
    let mut i: usize = 0;
    while i < words.len()
        invariant
            i <= words@.len(),
            text@ == unpack(words@.take(i as int)),
        decreases words@.len() - i,
    {
        let part = nucleotides(words[i]);
        text.append(part.as_str());
        i += 1;
    }
    text
}

/// Decodes a run of edge masks.
fn unpack_edges(masks: &Vec<u8>) -> (sets: Vec<(Vec<char>, Vec<char>)>)
    ensures
        edge_sets(sets@) == edge_sets_at(masks@, 0, masks@.len()),
{
    let mut sets: Vec<(Vec<char>, Vec<char>)> = Vec::new();
    let mut i: usize = 0;
    while i < masks.len()
        invariant
            i <= masks@.len(),
            edge_sets(sets@) == edge_sets_at(masks@, 0, i as nat),
        decreases masks@.len() - i,
    {
        let ghost before = sets@;
        let pair = edges(masks[i]);
        sets.push(pair);
        assert(edge_sets(sets@) == edge_sets(before).push(
            (incoming(masks@[i as int]), outgoing(masks@[i as int])),
        ));
        i += 1;
    }
    sets
}

/// Decodes the record that begins at `at`.
pub(crate) fn read_kmer(input: &[u8], at: usize, n_words_per_kmer: u32, cols: u32) -> (r: Result<
    (usize, Kmer),
    DecodeError,
>)
    requires
        at <= input@.len(),
    ensures
        match r {
            Ok((end, record)) => end <= input@.len() && kmer_at(
                input@,
                at as int,
                n_words_per_kmer,
                cols,
            ) == Ok::<(int, KmerModel), Fault>((end as int, record@)),
            Err(e) => kmer_at(input@, at as int, n_words_per_kmer, cols) == Err::<
                (int, KmerModel),
                Fault,
            >(e@),
        },
{
    let (pos, words) = match read_u64s(input, at, n_words_per_kmer) {
        Some(fields) => fields,
        None => return Err(DecodeError::Incomplete),
    };
    let (pos, coverage_per_colour) = match read_u32s(input, pos, cols) {
        Some(fields) => fields,
        None => return Err(DecodeError::Incomplete),
    };
    let (end, masks) = match read_bytes(input, pos, cols as usize) {
        Some(fields) => fields,
        None => return Err(DecodeError::Incomplete),
    };
    let edges_per_colour = unpack_edges(&masks);
    assert(edge_sets(edges_per_colour@) == edge_sets_at(input@, pos as int, cols as nat));
    Ok((end, Kmer { kmer: unpack_words(&words), coverage_per_colour, edges_per_colour }))
}

/// Decodes one record from the start of `input`, with `n_words_per_kmer`
/// packed words and `cols` colours, and says how many bytes it took.
pub fn kmer(n_words_per_kmer: u32, cols: u32, input: &[u8]) -> (r: Result<
    (usize, Kmer),
    DecodeError,
>)
    ensures
        match r {
            Ok((used, record)) => used == record_len(n_words_per_kmer, cols) && used
                <= input@.len() && kmer_at(input@, 0, n_words_per_kmer, cols) == Ok::<
                (int, KmerModel),
                Fault,
            >((used as int, record@)),
            Err(e) => e == DecodeError::Incomplete && input@.len() < record_len(
                n_words_per_kmer,
                cols,
            ),
        },
{
    read_kmer(input, 0, n_words_per_kmer, cols)
}

} // verus!
