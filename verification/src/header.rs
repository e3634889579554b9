//! The header of a graph file: the graph's parameters and, for each colour,
//! what is known of the sample it came from.

use crate::error::{DecodeError, Fault, Field};
use crate::header_laws::lemma_header_within;
use crate::text::{read_text, text_at, text_len};
use crate::wire::{
    expect_signature, le_u32_at, read_u32, read_u32s, read_u64s, read_u8, signature_at, skip,
    u32s_at, u64s_at,
};
use vstd::prelude::*;

verus! {

/// The cleaning that was applied to one colour before the graph was
/// written.
#[derive(Debug, PartialEq, Eq)]
pub struct Cleaning {
    pub top_clip: bool,
    pub remove_low_covg_supernodes: bool,
    pub remove_low_covg_kmers: bool,
    pub cleaned_against_graph: bool,
    pub remove_low_coverage_supernodes_threshold: u32,
    pub remove_low_coverage_kmer_threshold: u32,
    pub graph_name: String,
}

/// A [`Cleaning`] as a mathematical value.
pub ghost struct CleaningModel {
    pub top_clip: bool,
    pub remove_low_covg_supernodes: bool,
    pub remove_low_covg_kmers: bool,
    pub cleaned_against_graph: bool,
    pub remove_low_coverage_supernodes_threshold: u32,
    pub remove_low_coverage_kmer_threshold: u32,
    pub graph_name: Seq<char>,
}

impl View for Cleaning {
    type V = CleaningModel;

    open spec fn view(&self) -> CleaningModel {
        CleaningModel {
            top_clip: self.top_clip,
            remove_low_covg_supernodes: self.remove_low_covg_supernodes,
            remove_low_covg_kmers: self.remove_low_covg_kmers,
            cleaned_against_graph: self.cleaned_against_graph,
            remove_low_coverage_supernodes_threshold: self.remove_low_coverage_supernodes_threshold,
            remove_low_coverage_kmer_threshold: self.remove_low_coverage_kmer_threshold,
            graph_name: self.graph_name@,
        }
    }
}

/// The header of a graph file. Each of the four vectors has one entry per
/// colour, in the order of the colours.
#[derive(Debug, PartialEq, Eq)]
pub struct Header {
    pub version: u32,
    pub kmer_size: u32,
    pub n_words_per_kmer: u32,
    pub n_colours: u32,
    pub mean_read_len_per_colour: Vec<u32>,
    pub total_seq_per_colour: Vec<u64>,
    pub sample_names: Vec<String>,
    pub cleaning_info_per_colour: Vec<Cleaning>,
}

/// A [`Header`] as a mathematical value.
pub ghost struct HeaderModel {
    pub version: u32,
    pub kmer_size: u32,
    pub n_words_per_kmer: u32,
    pub n_colours: u32,
    pub mean_read_len_per_colour: Seq<u32>,
    pub total_seq_per_colour: Seq<u64>,
    pub sample_names: Seq<Seq<char>>,
    pub cleaning_info_per_colour: Seq<CleaningModel>,
}

/// The characters of each string.
pub open spec fn texts(strings: Seq<String>) -> Seq<Seq<char>> {
    Seq::new(strings.len(), |i: int| strings[i]@)
}

/// The model of each cleaning record.
pub open spec fn cleanings(records: Seq<Cleaning>) -> Seq<CleaningModel> {
    Seq::new(records.len(), |i: int| records[i]@)
}

impl View for Header {
    type V = HeaderModel;

    open spec fn view(&self) -> HeaderModel {
        HeaderModel {
            version: self.version,
            kmer_size: self.kmer_size,
            n_words_per_kmer: self.n_words_per_kmer,
            n_colours: self.n_colours,
            mean_read_len_per_colour: self.mean_read_len_per_colour@,
            total_seq_per_colour: self.total_seq_per_colour@,
            sample_names: texts(self.sample_names@),
            cleaning_info_per_colour: cleanings(self.cleaning_info_per_colour@),
        }
    }
}

impl HeaderModel {
    /// Each per-colour sequence has one entry for each colour.
    pub open spec fn wf(self) -> bool {
        &&& self.mean_read_len_per_colour.len() == self.n_colours
        &&& self.total_seq_per_colour.len() == self.n_colours
        &&& self.sample_names.len() == self.n_colours
        &&& self.cleaning_info_per_colour.len() == self.n_colours
    }
}

/// What the cleaning record that begins at `at` decodes to: four flags of
/// one byte each, two thresholds, and the name of a graph.
pub open spec fn cleaning_at(s: Seq<u8>, at: int) -> Result<(int, CleaningModel), Fault> {
    if s.len() < at + 12 {
        Err(Fault::Incomplete)
    } else {
        match text_at(s, at + 12, Field::GraphName) {
            Ok((end, graph_name)) => Ok(
                (
                    end,
                    CleaningModel {
                        top_clip: s[at] != 0,
                        remove_low_covg_supernodes: s[at + 1] != 0,
                        remove_low_covg_kmers: s[at + 2] != 0,
                        cleaned_against_graph: s[at + 3] != 0,
                        remove_low_coverage_supernodes_threshold: le_u32_at(s, at + 4),
                        remove_low_coverage_kmer_threshold: le_u32_at(s, at + 8),
                        graph_name,
                    },
                ),
            ),
            Err(fault) => Err(fault),
        }
    }
}

/// What `n` text fields, one behind the other from `at` on, decode to. The
/// first field that fails decides.
pub open spec fn texts_at(s: Seq<u8>, at: int, n: nat, field: Field) -> Result<
    (int, Seq<Seq<char>>),
    Fault,
>
    decreases n,
{
    if n == 0 {
        Ok((at, Seq::empty()))
    } else {
        match texts_at(s, at, (n - 1) as nat, field) {
            Ok((mid, done)) => match text_at(s, mid, field) {
                Ok((end, text)) => Ok((end, done.push(text))),
                Err(fault) => Err(fault),
            },
            Err(fault) => Err(fault),
        }
    }
}

/// What `n` cleaning records, one behind the other from `at` on, decode to.
/// The first record that fails decides.
pub open spec fn cleanings_at(s: Seq<u8>, at: int, n: nat) -> Result<
    (int, Seq<CleaningModel>),
    Fault,
>
    decreases n,
{
    if n == 0 {
        Ok((at, Seq::empty()))
    } else {
        match cleanings_at(s, at, (n - 1) as nat) {
            Ok((mid, done)) => match cleaning_at(s, mid) {
                Ok((end, record)) => Ok((end, done.push(record))),
                Err(fault) => Err(fault),
            },
            Err(fault) => Err(fault),
        }
    }
}

/// What a header at the start of `s` decodes to: the position behind it and
/// its value.
///
/// The layout, in this order: the signature; version, k-mer size, words per
/// k-mer and the number of colours `c`, 32 bits each; `c` mean read lengths
/// of 32 bits; `c` total sequence lengths of 64 bits; `c` sample names;
/// `16 * c` bytes that are passed over; `c` cleaning records; the signature
/// again. The first part that fails decides the outcome.
pub open spec fn header_of(s: Seq<u8>) -> Result<(int, HeaderModel), Fault> {
    match signature_at(s, 0, Field::LeadingSignature) {
        Err(fault) => Err(fault),
        Ok(_) => if s.len() < 22 {
            Err(Fault::Incomplete)
        } else {
            let c = le_u32_at(s, 18);
            if s.len() < 22 + 12 * c {
                Err(Fault::Incomplete)
            } else {
                match texts_at(s, 22 + 12 * c, c as nat, Field::SampleName) {
                    Err(fault) => Err(fault),
                    Ok((names_end, sample_names)) => if s.len() < names_end + 16 * c {
                        Err(Fault::Incomplete)
                    } else {
                        match cleanings_at(s, names_end + 16 * c, c as nat) {
                            Err(fault) => Err(fault),
                            Ok((cleaning_end, cleaning_info_per_colour)) => match signature_at(
                                s,
                                cleaning_end,
                                Field::TrailingSignature,
                            ) {
                                Err(fault) => Err(fault),
                                Ok(end) => Ok(
                                    (
                                        end,
                                        HeaderModel {
                                            version: le_u32_at(s, 6),
                                            kmer_size: le_u32_at(s, 10),
                                            n_words_per_kmer: le_u32_at(s, 14),
                                            n_colours: c,
                                            mean_read_len_per_colour: u32s_at(s, 22, c as nat),
                                            total_seq_per_colour: u64s_at(s, 22 + 4 * c, c as nat),
                                            sample_names,
                                            cleaning_info_per_colour,
                                        },
                                    ),
                                ),
                            },
                        }
                    },
                }
            }
        },
    }
}

/// The number of bytes that a run of text fields takes.
pub open spec fn texts_len(texts: Seq<Seq<char>>) -> int
    decreases texts.len(),
{
    if texts.len() == 0 {
        0
    } else {
        texts_len(texts.drop_last()) + text_len(texts.last())
    }
}

/// The number of bytes that a cleaning record takes: four flags, two
/// thresholds and the name of a graph.
pub open spec fn cleaning_len(record: CleaningModel) -> int {
    4 + 8 + text_len(record.graph_name)
}

/// The number of bytes that a run of cleaning records takes.
pub open spec fn cleanings_len(records: Seq<CleaningModel>) -> int
    decreases records.len(),
{
    if records.len() == 0 {
        0
    } else {
        cleanings_len(records.drop_last()) + cleaning_len(records.last())
    }
}

/// The number of bytes that a header takes: the signature, four integers,
/// the mean read lengths, the total sequence lengths, the sample names, the
/// bytes passed over, the cleaning records, and the signature again.
pub open spec fn header_len(header: HeaderModel) -> int {
    6 + 16 + 4 * header.n_colours + 8 * header.n_colours + texts_len(header.sample_names) + 16
        * header.n_colours + cleanings_len(header.cleaning_info_per_colour) + 6
}

/// Once a text field has failed, so has every longer run of them.
proof fn lemma_texts_fail(s: Seq<u8>, at: int, n: nat, more: nat, field: Field)
    requires
        n <= more,
        texts_at(s, at, n, field) is Err,
    ensures
        texts_at(s, at, more, field) == texts_at(s, at, n, field),
    decreases more,
{
    if n < more {
        lemma_texts_fail(s, at, n, (more - 1) as nat, field);
    }
}

/// Once a cleaning record has failed, so has every longer run of them.
proof fn lemma_cleanings_fail(s: Seq<u8>, at: int, n: nat, more: nat)
    requires
        n <= more,
        cleanings_at(s, at, n) is Err,
    ensures
        cleanings_at(s, at, more) == cleanings_at(s, at, n),
    decreases more,
{
    if n < more {
        lemma_cleanings_fail(s, at, n, (more - 1) as nat);
    }
}

/// Decodes `n` text fields from `at` on.
fn read_texts(input: &[u8], at: usize, n: u32, field: Field) -> (r: Result<
    (usize, Vec<String>),
    DecodeError,
>)
    requires
        at <= input@.len(),
    ensures
        match r {
            Ok((end, strings)) => end <= input@.len() && strings@.len() == n && texts_at(
                input@,
                at as int,
                n as nat,
                field,
            ) == Ok::<(int, Seq<Seq<char>>), Fault>((end as int, texts(strings@))),
            Err(e) => texts_at(input@, at as int, n as nat, field) == Err::<
                (int, Seq<Seq<char>>),
                Fault,
            >(e@),
        },
{
    let mut strings: Vec<String> = Vec::new();
    let mut pos = at;
    let mut i: u32 = 0;
    assert(texts(strings@) == Seq::<Seq<char>>::empty());
    while i < n
        invariant
            i <= n,
            pos <= input@.len(),
            strings@.len() == i,
            texts_at(input@, at as int, i as nat, field) == Ok::<(int, Seq<Seq<char>>), Fault>(
                (pos as int, texts(strings@)),
            ),
        decreases n - i,
    {
        let ghost before = strings@;
        match read_text(input, pos, field) {
            Ok((end, text)) => {
                strings.push(text);
                pos = end;
                assert(texts(strings@) == texts(before).push(text@));
            },
            Err(e) => {
                proof {
                    lemma_texts_fail(input@, at as int, (i + 1) as nat, n as nat, field);
                }
                return Err(e);
            },
        }
        i += 1;
    }
    Ok((pos, strings))
}

/// Decodes the cleaning record that begins at `at`.
fn read_cleaning(input: &[u8], at: usize) -> (r: Result<(usize, Cleaning), DecodeError>)
    requires
        at <= input@.len(),
    ensures
        match r {
            Ok((end, record)) => end <= input@.len() && cleaning_at(input@, at as int) == Ok::<
                (int, CleaningModel),
                Fault,
            >((end as int, record@)),
            Err(e) => cleaning_at(input@, at as int) == Err::<(int, CleaningModel), Fault>(e@),
        },
{
    let (pos, top_clip) = match read_u8(input, at) {
        Some(flag) => flag,
        None => return Err(DecodeError::Incomplete),
    };
    let (pos, remove_low_covg_supernodes) = match read_u8(input, pos) {
        Some(flag) => flag,
        None => return Err(DecodeError::Incomplete),
    };
    let (pos, remove_low_covg_kmers) = match read_u8(input, pos) {
        Some(flag) => flag,
        None => return Err(DecodeError::Incomplete),
    };
    let (pos, cleaned_against_graph) = match read_u8(input, pos) {
        Some(flag) => flag,
        None => return Err(DecodeError::Incomplete),
    };
    let (pos, remove_low_coverage_supernodes_threshold) = match read_u32(input, pos) {
        Some(threshold) => threshold,
        None => return Err(DecodeError::Incomplete),
    };
    let (pos, remove_low_coverage_kmer_threshold) = match read_u32(input, pos) {
        Some(threshold) => threshold,
        None => return Err(DecodeError::Incomplete),
    };
    let (end, graph_name) = match read_text(input, pos, Field::GraphName) {
        Ok(name) => name,
        Err(e) => return Err(e),
    };
    Ok(
        (
            end,
            Cleaning {
                top_clip: top_clip != 0,
                remove_low_covg_supernodes: remove_low_covg_supernodes != 0,
                remove_low_covg_kmers: remove_low_covg_kmers != 0,
                cleaned_against_graph: cleaned_against_graph != 0,
                remove_low_coverage_supernodes_threshold,
                remove_low_coverage_kmer_threshold,
                graph_name,
            },
        ),
    )
}

/// Decodes `n` cleaning records from `at` on.
fn read_cleanings(input: &[u8], at: usize, n: u32) -> (r: Result<
    (usize, Vec<Cleaning>),
    DecodeError,
>)
    requires
        at <= input@.len(),
    ensures
        match r {
            Ok((end, records)) => end <= input@.len() && records@.len() == n && cleanings_at(
                input@,
                at as int,
                n as nat,
            ) == Ok::<(int, Seq<CleaningModel>), Fault>((end as int, cleanings(records@))),
            Err(e) => cleanings_at(input@, at as int, n as nat) == Err::<
                (int, Seq<CleaningModel>),
                Fault,
            >(e@),
        },
{
    let mut records: Vec<Cleaning> = Vec::new();
    let mut pos = at;
    let mut i: u32 = 0;
    assert(cleanings(records@) == Seq::<CleaningModel>::empty());
    while i < n
        invariant
            i <= n,
            pos <= input@.len(),
            records@.len() == i,
            cleanings_at(input@, at as int, i as nat) == Ok::<(int, Seq<CleaningModel>), Fault>(
                (pos as int, cleanings(records@)),
            ),
        decreases n - i,
    {
        let ghost before = records@;
        match read_cleaning(input, pos) {
            Ok((end, record)) => {
                let ghost model = record@;
                records.push(record);
                pos = end;
                assert(cleanings(records@) == cleanings(before).push(model));
            },
            Err(e) => {
                proof {
                    lemma_cleanings_fail(input@, at as int, (i + 1) as nat, n as nat);
                }
                return Err(e);
            },
        }
        i += 1;
    }
    Ok((pos, records))
}

/// Decodes one cleaning record from the start of `input` and says how many
/// bytes it took.
pub fn cleaning(input: &[u8]) -> (r: Result<(usize, Cleaning), DecodeError>)
    ensures
        match r {
            Ok((used, record)) => used <= input@.len() && cleaning_at(input@, 0) == Ok::<
                (int, CleaningModel),
                Fault,
            >((used as int, record@)),
            Err(e) => cleaning_at(input@, 0) == Err::<(int, CleaningModel), Fault>(e@),
        },
{
    read_cleaning(input, 0)
}

/// Decodes the header at the start of `input` and says how many bytes it
/// took.
pub fn header(input: &[u8]) -> (r: Result<(usize, Header), DecodeError>)
    ensures
        match r {
            Ok((used, value)) => header_of(input@) == Ok::<(int, HeaderModel), Fault>(
                (used as int, value@),
            ) && value@.wf() && used == header_len(value@) && used <= input@.len(),
            Err(e) => header_of(input@) == Err::<(int, HeaderModel), Fault>(e@),
        },
{
    proof {
        lemma_header_within(input@);
    }
    let pos = match expect_signature(input, 0, Field::LeadingSignature) {
        Ok(end) => end,
        Err(e) => return Err(e),
    };
    let (pos, version) = match read_u32(input, pos) {
        Some(field) => field,
        None => return Err(DecodeError::Incomplete),
    };
    let (pos, kmer_size) = match read_u32(input, pos) {
        Some(field) => field,
        None => return Err(DecodeError::Incomplete),
    };
    let (pos, n_words_per_kmer) = match read_u32(input, pos) {
        Some(field) => field,
        None => return Err(DecodeError::Incomplete),
    };
    let (pos, n_colours) = match read_u32(input, pos) {
        Some(field) => field,
        None => return Err(DecodeError::Incomplete),
    };
    let (pos, mean_read_len_per_colour) = match read_u32s(input, pos, n_colours) {
        Some(fields) => fields,
        None => return Err(DecodeError::Incomplete),
    };
    let (pos, total_seq_per_colour) = match read_u64s(input, pos, n_colours) {
        Some(fields) => fields,
        None => return Err(DecodeError::Incomplete),
    };
    let (pos, sample_names) = match read_texts(input, pos, n_colours, Field::SampleName) {
        Ok(fields) => fields,
        Err(e) => return Err(e),
    };
    let pos = match skip(input, pos, 16 * (n_colours as u64)) {
        Some(end) => end,
        None => return Err(DecodeError::Incomplete),
    };
    let (pos, cleaning_info_per_colour) = match read_cleanings(input, pos, n_colours) {
        Ok(fields) => fields,
        Err(e) => return Err(e),
    };
    let end = match expect_signature(input, pos, Field::TrailingSignature) {
        Ok(end) => end,
        Err(e) => return Err(e),
    };
    Ok(
        (
            end,
            Header {
                version,
                kmer_size,
                n_words_per_kmer,
                n_colours,
                mean_read_len_per_colour,
                total_seq_per_colour,
                sample_names,
                cleaning_info_per_colour,
            },
        ),
    )
}

} // verus!
