use mccortex::{mccortex, Batch, Cleaning, DecodeError, Field, Header, Kmer, Stream};

/// The header of a graph with one colour, 91 bytes long.
fn sample_header_bytes() -> Vec<u8> {
    let mut bytes = Vec::new();
    bytes.extend_from_slice(b"CORTEX");
    bytes.extend_from_slice(&6u32.to_le_bytes());
    bytes.extend_from_slice(&31u32.to_le_bytes());
    bytes.extend_from_slice(&1u32.to_le_bytes());
    bytes.extend_from_slice(&1u32.to_le_bytes());
    bytes.extend_from_slice(&177u32.to_le_bytes());
    bytes.extend_from_slice(&3918788033u64.to_le_bytes());
    bytes.extend_from_slice(&6u32.to_le_bytes());
    bytes.extend_from_slice(b"sample");
    bytes.extend_from_slice(&[0u8; 16]);
    bytes.extend_from_slice(&[1, 1, 0, 0]);
    bytes.extend_from_slice(&26u32.to_le_bytes());
    bytes.extend_from_slice(&4294967295u32.to_le_bytes());
    bytes.extend_from_slice(&9u32.to_le_bytes());
    bytes.extend_from_slice(b"undefined");
    bytes.extend_from_slice(b"CORTEX");
    bytes
}

/// A graph file with one colour and three k-mers.
fn sample() -> Vec<u8> {
    let mut bytes = sample_header_bytes();
    bytes.extend_from_slice(&0x769c_5581_d498_82c4u64.to_le_bytes());
    bytes.extend_from_slice(&759u32.to_le_bytes());
    bytes.push(0x44);
    bytes.extend_from_slice(&0xffff_ffff_ffff_ffffu64.to_le_bytes());
    bytes.extend_from_slice(&1u32.to_le_bytes());
    bytes.push(0xff);
    bytes.extend_from_slice(&0u64.to_le_bytes());
    bytes.extend_from_slice(&0u32.to_le_bytes());
    bytes.push(0x00);
    bytes
}

fn sample_header() -> Header {
    Header {
        version: 6,
        kmer_size: 31,
        n_words_per_kmer: 1,
        n_colours: 1,
        mean_read_len_per_colour: vec![177],
        total_seq_per_colour: vec![3918788033],
        sample_names: vec!["sample".to_string()],
        cleaning_info_per_colour: vec![Cleaning {
            top_clip: true,
            remove_low_covg_supernodes: true,
            remove_low_covg_kmers: false,
            cleaned_against_graph: false,
            remove_low_coverage_supernodes_threshold: 26,
            remove_low_coverage_kmer_threshold: 4294967295,
            graph_name: "undefined".to_string(),
        }],
    }
}

fn sample_kmers() -> Vec<Kmer> {
    vec![
        Kmer {
            kmer: String::from("CTCGGCTACCCCGAACTCCAGCGAGAAGTACA"),
            coverage_per_colour: vec![759],
            edges_per_colour: vec![(vec!['C'], vec!['G'])],
        },
        Kmer {
            kmer: "T".repeat(32),
            coverage_per_colour: vec![1],
            edges_per_colour: vec![(vec!['T', 'G', 'C', 'A'], vec!['A', 'C', 'G', 'T'])],
        },
        Kmer {
            kmer: "A".repeat(32),
            coverage_per_colour: vec![0],
            edges_per_colour: vec![(vec![], vec![])],
        },
    ]
}

/// Pushes `input` in pieces of `size` bytes and gathers what comes out.
fn feed(input: &[u8], size: usize) -> (Vec<Header>, Vec<Kmer>, Result<Vec<u8>, DecodeError>) {
    let mut stream = Stream::new();
    let mut headers = Vec::new();
    let mut kmers = Vec::new();
    for piece in input.chunks(size) {
        match stream.push(piece) {
            Ok(batch) => {
                if batch.header.is_some() {
                    assert!(kmers.is_empty());
                }
                headers.extend(batch.header);
                kmers.extend(batch.kmers);
            }
            Err(e) => return (headers, kmers, Err(e)),
        }
    }
    (headers, kmers, Ok(stream.finish()))
}

#[test]
fn one_byte_at_a_time_yields_the_whole_graph() {
    let file = sample();
    let (used, graph) = mccortex(&file).unwrap();
    let (headers, kmers, rest) = feed(&file, 1);
    assert_eq!(headers, vec![graph.header]);
    assert_eq!(kmers, graph.kmers);
    assert_eq!(rest, Ok(file[used..].to_vec()));
    assert_eq!(headers, vec![sample_header()]);
    assert_eq!(kmers, sample_kmers());
    assert_eq!(rest, Ok(vec![]));
}

#[test]
fn pieces_of_any_size_yield_the_whole_graph() {
    let file = sample();
    for size in 1..=file.len() + 1 {
        let (headers, kmers, rest) = feed(&file, size);
        assert_eq!(headers, vec![sample_header()], "pieces of {}", size);
        assert_eq!(kmers, sample_kmers(), "pieces of {}", size);
        assert_eq!(rest, Ok(vec![]), "pieces of {}", size);
    }
}

#[test]
fn every_cut_of_the_input_agrees_with_the_decode_at_once() {
    let file = sample();
    for cut in 0..=file.len() {
        let input = &file[..cut];
        let (headers, kmers, rest) = feed(input, 1);
        match mccortex(input) {
            Ok((used, graph)) => {
                assert_eq!(headers, vec![graph.header]);
                assert_eq!(kmers, graph.kmers);
                assert_eq!(rest, Ok(input[used..].to_vec()));
            }
            Err(e) => {
                assert_eq!(e, DecodeError::Incomplete);
                assert!(headers.is_empty());
                assert!(kmers.is_empty());
                assert_eq!(rest, Ok(input.to_vec()));
            }
        }
    }
}

#[test]
fn the_header_comes_with_the_push_that_completes_it() {
    let file = sample();
    let mut stream = Stream::new();
    assert_eq!(stream.push(&file[..90]), Ok(Batch { header: None, kmers: vec![] }));
    assert_eq!(stream.pending(), 90);
    assert_eq!(
        stream.push(&file[90..91]),
        Ok(Batch { header: Some(sample_header()), kmers: vec![] })
    );
    assert_eq!(stream.pending(), 0);
    assert_eq!(stream.push(&file[91..103]), Ok(Batch { header: None, kmers: vec![] }));
    assert_eq!(stream.pending(), 12);
    let mut kmers = sample_kmers();
    kmers.truncate(2);
    assert_eq!(stream.push(&file[103..119]), Ok(Batch { header: None, kmers }));
    assert_eq!(stream.pending(), 2);
    assert_eq!(stream.finish(), file[117..119].to_vec());
}

#[test]
fn one_push_can_complete_the_header_and_records() {
    let file = sample();
    let mut stream = Stream::new();
    let batch = stream.push(&file[..125]).unwrap();
    assert_eq!(batch.header, Some(sample_header()));
    assert_eq!(batch.kmers.len(), 2);
    assert_eq!(stream.pending(), 125 - 117);
    let batch = stream.push(&file[125..]).unwrap();
    assert_eq!(batch.header, None);
    assert_eq!(batch.kmers.len(), 1);
    assert_eq!(stream.pending(), 0);
    let batch = stream.push(&[]).unwrap();
    assert_eq!(batch, Batch { header: None, kmers: vec![] });
}

#[test]
fn wrong_signature_at_the_start_aborts_before_anything_is_handed_out() {
    let wrong = DecodeError::Malformed { offset: 0, field: Field::LeadingSignature };
    let mut file = sample();
    file[0] = b'K';
    let (headers, kmers, rest) = feed(&file, 1);
    assert!(headers.is_empty());
    assert!(kmers.is_empty());
    assert_eq!(rest, Err(wrong));
    let (headers, kmers, rest) = feed(&file, file.len());
    assert!(headers.is_empty());
    assert!(kmers.is_empty());
    assert_eq!(rest, Err(wrong));

    let mut stream = Stream::new();
    assert_eq!(stream.push(b"COR"), Ok(Batch { header: None, kmers: vec![] }));
    assert_eq!(stream.push(b"K"), Err(wrong));
}

#[test]
fn an_aborted_stream_stays_aborted() {
    let wrong = DecodeError::Malformed { offset: 0, field: Field::LeadingSignature };
    let file = sample();
    let mut stream = Stream::new();
    assert_eq!(stream.push(b"CORTEZ"), Err(wrong));
    assert_eq!(stream.pending(), 0);
    assert_eq!(stream.push(&file), Err(wrong));
    assert_eq!(stream.push(&[]), Err(wrong));
    assert_eq!(stream.finish(), vec![]);
}

#[test]
fn invalid_text_aborts_the_stream() {
    let mut file = sample();
    file[34 + 4] = 0x80;
    let wrong = DecodeError::InvalidText { offset: 34, field: Field::SampleName };
    for size in [1, 7, 44, 200] {
        let (headers, kmers, rest) = feed(&file, size);
        assert!(headers.is_empty());
        assert!(kmers.is_empty());
        assert_eq!(rest, Err(wrong));
    }
    let mut stream = Stream::new();
    assert_eq!(stream.push(&file[..43]), Ok(Batch { header: None, kmers: vec![] }));
    assert_eq!(stream.push(&file[43..44]), Err(wrong));
}

#[test]
fn a_fresh_stream_holds_nothing() {
    let stream = Stream::new();
    assert_eq!(stream.pending(), 0);
    assert_eq!(stream.finish(), vec![]);
}

#[test]
fn a_cut_header_is_left_over() {
    let file = sample();
    let (headers, kmers, rest) = feed(&file[..50], 3);
    assert!(headers.is_empty());
    assert!(kmers.is_empty());
    assert_eq!(rest, Ok(file[..50].to_vec()));
}

#[test]
fn a_stream_hands_out_no_records_of_no_bytes() {
    let mut bytes = Vec::new();
    bytes.extend_from_slice(b"CORTEX");
    bytes.extend_from_slice(&6u32.to_le_bytes());
    bytes.extend_from_slice(&31u32.to_le_bytes());
    bytes.extend_from_slice(&0u32.to_le_bytes());
    bytes.extend_from_slice(&0u32.to_le_bytes());
    bytes.extend_from_slice(b"CORTEX");
    bytes.extend_from_slice(&[1, 2, 3]);
    let (headers, kmers, rest) = feed(&bytes, 1);
    assert_eq!(headers.len(), 1);
    assert!(kmers.is_empty());
    assert_eq!(rest, Ok(vec![1, 2, 3]));
}
