use mccortex::{cleaning, header, kmer, mccortex, Cleaning, DecodeError, Field, Header, Kmer};

fn text(name: &str) -> Vec<u8> {
    let mut bytes = (name.len() as u32).to_le_bytes().to_vec();
    bytes.extend_from_slice(name.as_bytes());
    bytes
}

fn cleaning_bytes(flags: [u8; 4], first: u32, second: u32, graph: &[u8]) -> Vec<u8> {
    let mut bytes = flags.to_vec();
    bytes.extend_from_slice(&first.to_le_bytes());
    bytes.extend_from_slice(&second.to_le_bytes());
    bytes.extend_from_slice(&(graph.len() as u32).to_le_bytes());
    bytes.extend_from_slice(graph);
    bytes
}

/// The header of a graph with one colour, 91 bytes long.
fn sample_header_bytes() -> Vec<u8> {
    let mut bytes = Vec::new();
    bytes.extend_from_slice(b"CORTEX");
    bytes.extend_from_slice(&6u32.to_le_bytes());
    bytes.extend_from_slice(&31u32.to_le_bytes());
    bytes.extend_from_slice(&1u32.to_le_bytes());
    bytes.extend_from_slice(&1u32.to_le_bytes());
    bytes.extend_from_slice(&177u32.to_le_bytes());
    bytes.extend_from_slice(&3918788033u64.to_le_bytes());
    bytes.extend_from_slice(&text("sample"));
    bytes.extend_from_slice(&[0xaau8; 16]);
    bytes.extend_from_slice(&cleaning_bytes([1, 1, 0, 0], 26, 4294967295, b"undefined"));
    bytes.extend_from_slice(b"CORTEX");
    bytes
}

/// A graph file with one colour and two k-mers.
fn sample() -> Vec<u8> {
    let mut bytes = sample_header_bytes();
    bytes.extend_from_slice(&0x769c_5581_d498_82c4u64.to_le_bytes());
    bytes.extend_from_slice(&759u32.to_le_bytes());
    bytes.push(0x44);
    bytes.extend_from_slice(&0xffff_ffff_ffff_ffffu64.to_le_bytes());
    bytes.extend_from_slice(&1u32.to_le_bytes());
    bytes.push(0xff);
    bytes
}

fn sample_cleaning() -> Cleaning {
    Cleaning {
        top_clip: true,
        remove_low_covg_supernodes: true,
        remove_low_covg_kmers: false,
        cleaned_against_graph: false,
        remove_low_coverage_supernodes_threshold: 26,
        remove_low_coverage_kmer_threshold: 4294967295,
        graph_name: "undefined".to_string(),
    }
}

fn sample_header() -> Header {
    Header {
        version: 6,
        kmer_size: 31,
        n_words_per_kmer: 1,
        n_colours: 1,
        mean_read_len_per_colour: vec![177],
        total_seq_per_colour: vec![3918788033],
        sample_names: vec!["sample".to_string()],
        cleaning_info_per_colour: vec![sample_cleaning()],
    }
}

fn first_kmer() -> Kmer {
    Kmer {
        kmer: String::from("CTCGGCTACCCCGAACTCCAGCGAGAAGTACA"),
        coverage_per_colour: vec![759],
        edges_per_colour: vec![(vec!['C'], vec!['G'])],
    }
}

fn second_kmer() -> Kmer {
    Kmer {
        kmer: "T".repeat(32),
        coverage_per_colour: vec![1],
        edges_per_colour: vec![(vec!['T', 'G', 'C', 'A'], vec!['A', 'C', 'G', 'T'])],
    }
}

/// A header with two colours, whose names hold characters of two and of
/// three bytes.
fn two_colours() -> (Vec<u8>, Header) {
    let mut bytes = Vec::new();
    bytes.extend_from_slice(b"CORTEX");
    bytes.extend_from_slice(&6u32.to_le_bytes());
    bytes.extend_from_slice(&63u32.to_le_bytes());
    bytes.extend_from_slice(&2u32.to_le_bytes());
    bytes.extend_from_slice(&2u32.to_le_bytes());
    bytes.extend_from_slice(&100u32.to_le_bytes());
    bytes.extend_from_slice(&0x0403_0201u32.to_le_bytes());
    bytes.extend_from_slice(&0x0807_0605_0403_0201u64.to_le_bytes());
    bytes.extend_from_slice(&u64::MAX.to_le_bytes());
    bytes.extend_from_slice(&text("é"));
    bytes.extend_from_slice(&text(""));
    bytes.extend_from_slice(&[0u8; 32]);
    bytes.extend_from_slice(&cleaning_bytes([0, 0, 7, 255], 0, 1, "日本".as_bytes()));
    bytes.extend_from_slice(&cleaning_bytes([0, 0, 0, 0], 2, 3, b""));
    bytes.extend_from_slice(b"CORTEX");
    let value = Header {
        version: 6,
        kmer_size: 63,
        n_words_per_kmer: 2,
        n_colours: 2,
        mean_read_len_per_colour: vec![100, 0x0403_0201],
        total_seq_per_colour: vec![0x0807_0605_0403_0201, u64::MAX],
        sample_names: vec!["é".to_string(), String::new()],
        cleaning_info_per_colour: vec![
            Cleaning {
                top_clip: false,
                remove_low_covg_supernodes: false,
                remove_low_covg_kmers: true,
                cleaned_against_graph: true,
                remove_low_coverage_supernodes_threshold: 0,
                remove_low_coverage_kmer_threshold: 1,
                graph_name: "日本".to_string(),
            },
            Cleaning {
                top_clip: false,
                remove_low_covg_supernodes: false,
                remove_low_covg_kmers: false,
                cleaned_against_graph: false,
                remove_low_coverage_supernodes_threshold: 2,
                remove_low_coverage_kmer_threshold: 3,
                graph_name: String::new(),
            },
        ],
    };
    (bytes, value)
}

#[test]
fn parse_header() {
    let file = sample();
    let parsed = match header(&file[..]) {
        Ok((_, parsed)) => parsed,
        Err(e) => panic!("{:?}", e),
    };
    assert_eq!(parsed, sample_header());
}

#[test]
fn parse_kmer() {
    let file = sample();
    let (used, header) = match header(&file[..]) {
        Ok((used, header)) => (used, header),
        Err(e) => panic!("{:?}", e),
    };
    let remain = &file[used..];
    let parsed = match kmer(header.n_words_per_kmer, header.n_colours, &remain[..13]) {
        Ok((_, parsed)) => parsed,
        Err(e) => panic!("{:?}", e),
    };
    assert_eq!(parsed, first_kmer());
}

#[test]
fn header_takes_the_bytes_of_its_parts() {
    let file = sample();
    let (used, _) = header(&file).unwrap();
    assert_eq!(used, 6 + 16 + 4 + 8 + (4 + 6) + 16 + (12 + 4 + 9) + 6);
    assert_eq!(used, 91);
    assert_eq!(used, sample_header_bytes().len());
}

#[test]
fn header_with_two_colours() {
    let (bytes, value) = two_colours();
    let (used, parsed) = header(&bytes).unwrap();
    assert_eq!(parsed, value);
    assert_eq!(used, bytes.len());
    assert_eq!(used, 6 + 16 + 8 + 16 + (4 + 2) + 4 + 32 + (12 + 4 + 6) + (12 + 4) + 6);
}

#[test]
fn header_without_colours() {
    let mut bytes = Vec::new();
    bytes.extend_from_slice(b"CORTEX");
    bytes.extend_from_slice(&6u32.to_le_bytes());
    bytes.extend_from_slice(&31u32.to_le_bytes());
    bytes.extend_from_slice(&1u32.to_le_bytes());
    bytes.extend_from_slice(&0u32.to_le_bytes());
    bytes.extend_from_slice(b"CORTEX");
    let (used, parsed) = header(&bytes).unwrap();
    assert_eq!(used, 28);
    assert_eq!(
        parsed,
        Header {
            version: 6,
            kmer_size: 31,
            n_words_per_kmer: 1,
            n_colours: 0,
            mean_read_len_per_colour: vec![],
            total_seq_per_colour: vec![],
            sample_names: vec![],
            cleaning_info_per_colour: vec![],
        }
    );
}

#[test]
fn header_decoded_again_from_its_own_bytes() {
    let file = sample();
    let (used, first) = header(&file).unwrap();
    let (used_again, second) = header(&file[..used]).unwrap();
    assert_eq!(used_again, used);
    assert_eq!(second, first);
}

#[test]
fn header_ignores_what_follows() {
    let mut bytes = sample_header_bytes();
    let alone = header(&bytes).unwrap();
    bytes.extend_from_slice(&[0x99; 40]);
    assert_eq!(header(&bytes).unwrap(), alone);
}

#[test]
fn every_proper_prefix_of_a_header_is_incomplete() {
    let bytes = sample_header_bytes();
    for cut in 0..bytes.len() {
        assert_eq!(header(&bytes[..cut]), Err(DecodeError::Incomplete), "cut at {}", cut);
    }
    let (bytes, _) = two_colours();
    for cut in 0..bytes.len() {
        assert_eq!(header(&bytes[..cut]), Err(DecodeError::Incomplete), "cut at {}", cut);
    }
}

#[test]
fn wrong_leading_signature_is_malformed() {
    let wrong = DecodeError::Malformed { offset: 0, field: Field::LeadingSignature };
    for at in 0..6 {
        let mut bytes = sample_header_bytes();
        bytes[at] ^= 0x20;
        assert_eq!(header(&bytes), Err(wrong));
        assert_eq!(header(&bytes[..at + 1]), Err(wrong));
        assert_eq!(header(&bytes[..at]), Err(DecodeError::Incomplete));
    }
    assert_eq!(header(b"X"), Err(wrong));
    assert_eq!(header(b"CORTEZ"), Err(wrong));
    assert_eq!(header(b"cortex"), Err(wrong));
}

#[test]
fn wrong_trailing_signature_is_malformed() {
    let mut bytes = sample_header_bytes();
    bytes[85 + 2] = b'X';
    let wrong = DecodeError::Malformed { offset: 85, field: Field::TrailingSignature };
    assert_eq!(header(&bytes), Err(wrong));
    assert_eq!(header(&bytes[..88]), Err(wrong));
    assert_eq!(header(&bytes[..87]), Err(DecodeError::Incomplete));
}

#[test]
fn sample_name_that_is_not_utf8_is_invalid_text() {
    let mut bytes = sample_header_bytes();
    bytes[34 + 4 + 2] = 0xff;
    let wrong = DecodeError::InvalidText { offset: 34, field: Field::SampleName };
    assert_eq!(header(&bytes), Err(wrong));
    assert_eq!(header(&bytes[..44]), Err(wrong));
    assert_eq!(header(&bytes[..43]), Err(DecodeError::Incomplete));
}

#[test]
fn graph_name_that_is_not_utf8_is_invalid_text() {
    let mut bytes = sample_header_bytes();
    bytes[72 + 4] = 0xc0;
    let wrong = DecodeError::InvalidText { offset: 72, field: Field::GraphName };
    assert_eq!(header(&bytes), Err(wrong));
    assert_eq!(header(&bytes[..85]), Err(wrong));
    assert_eq!(header(&bytes[..84]), Err(DecodeError::Incomplete));
}

#[test]
fn text_cut_inside_a_character_is_invalid_text() {
    let mut bytes = cleaning_bytes([0; 4], 0, 0, "é".as_bytes());
    bytes[12] = 1;
    bytes.truncate(17);
    assert_eq!(
        cleaning(&bytes),
        Err(DecodeError::InvalidText { offset: 12, field: Field::GraphName })
    );
}

#[test]
fn the_first_wrong_part_decides() {
    let mut bytes = sample_header_bytes();
    bytes[34 + 4] = 0xff;
    bytes[72 + 4] = 0xff;
    bytes[85] = b'X';
    assert_eq!(
        header(&bytes),
        Err(DecodeError::InvalidText { offset: 34, field: Field::SampleName })
    );
    bytes[0] = b'X';
    assert_eq!(
        header(&bytes),
        Err(DecodeError::Malformed { offset: 0, field: Field::LeadingSignature })
    );
}

#[test]
fn cleaning_record() {
    let mut bytes = cleaning_bytes([1, 1, 0, 0], 26, 4294967295, b"undefined");
    assert_eq!(cleaning(&bytes), Ok((25, sample_cleaning())));
    bytes.extend_from_slice(b"more");
    assert_eq!(cleaning(&bytes), Ok((25, sample_cleaning())));
    for cut in 0..25 {
        assert_eq!(cleaning(&bytes[..cut]), Err(DecodeError::Incomplete));
    }
}

#[test]
fn cleaning_flags_are_true_when_not_zero() {
    let bytes = cleaning_bytes([0, 2, 0x80, 0xff], 0x0102_0304, 0xa0b0_c0d0, b"g");
    assert_eq!(
        cleaning(&bytes),
        Ok((
            17,
            Cleaning {
                top_clip: false,
                remove_low_covg_supernodes: true,
                remove_low_covg_kmers: true,
                cleaned_against_graph: true,
                remove_low_coverage_supernodes_threshold: 0x0102_0304,
                remove_low_coverage_kmer_threshold: 0xa0b0_c0d0,
                graph_name: "g".to_string(),
            }
        ))
    );
}

#[test]
fn kmer_takes_eight_bytes_a_word_and_five_a_colour() {
    let bytes = vec![0u8; 100];
    for (w, c) in [(0u32, 0u32), (1, 1), (1, 0), (0, 1), (2, 3), (3, 2), (12, 0), (0, 20)] {
        let len = (8 * w + 4 * c + c) as usize;
        let (used, parsed) = kmer(w, c, &bytes).unwrap();
        assert_eq!(used, len);
        assert_eq!(parsed.kmer.chars().count(), 32 * w as usize);
        assert_eq!(parsed.coverage_per_colour.len(), c as usize);
        assert_eq!(parsed.edges_per_colour.len(), c as usize);
        assert_eq!(kmer(w, c, &bytes[..len]).unwrap().0, len);
        if len > 0 {
            assert_eq!(kmer(w, c, &bytes[..len - 1]), Err(DecodeError::Incomplete));
            assert_eq!(kmer(w, c, &[]), Err(DecodeError::Incomplete));
        }
    }
    assert_eq!(kmer(u32::MAX, u32::MAX, &bytes), Err(DecodeError::Incomplete));
}

#[test]
fn kmer_with_two_words_and_two_colours() {
    let mut bytes = Vec::new();
    bytes.extend_from_slice(&0x1b00_0000_0000_0000u64.to_le_bytes());
    bytes.extend_from_slice(&0x0000_0000_0000_00e4u64.to_le_bytes());
    bytes.extend_from_slice(&5u32.to_le_bytes());
    bytes.extend_from_slice(&0x0100_0000u32.to_le_bytes());
    bytes.push(0x81);
    bytes.push(0x00);
    let mut text = String::from("ACGT");
    text.push_str(&"A".repeat(28 + 28));
    text.push_str("TGCA");
    assert_eq!(
        kmer(2, 2, &bytes),
        Ok((
            26,
            Kmer {
                kmer: text,
                coverage_per_colour: vec![5, 0x0100_0000],
                edges_per_colour: vec![(vec!['A'], vec!['A']), (vec![], vec![])],
            }
        ))
    );
}

#[test]
fn whole_graph_at_once() {
    let file = sample();
    let (used, graph) = mccortex(&file).unwrap();
    assert_eq!(used, file.len());
    assert_eq!(used, 91 + 13 + 13);
    assert_eq!(graph.header, sample_header());
    assert_eq!(graph.kmers, vec![first_kmer(), second_kmer()]);
}

#[test]
fn whole_graph_leaves_a_cut_record_alone() {
    let file = sample();
    for cut in 91..file.len() {
        let (used, graph) = mccortex(&file[..cut]).unwrap();
        let whole = (cut - 91) / 13;
        assert_eq!(used, 91 + 13 * whole);
        assert_eq!(graph.kmers.len(), whole);
        assert_eq!(graph.header, sample_header());
    }
}

#[test]
fn whole_graph_needs_a_whole_header() {
    let file = sample();
    assert_eq!(mccortex(&file[..90]), Err(DecodeError::Incomplete));
    assert_eq!(mccortex(&[]), Err(DecodeError::Incomplete));
    assert_eq!(
        mccortex(b"CORTEY"),
        Err(DecodeError::Malformed { offset: 0, field: Field::LeadingSignature })
    );
}

#[test]
fn records_of_no_bytes_are_not_counted() {
    let mut bytes = Vec::new();
    bytes.extend_from_slice(b"CORTEX");
    bytes.extend_from_slice(&6u32.to_le_bytes());
    bytes.extend_from_slice(&31u32.to_le_bytes());
    bytes.extend_from_slice(&0u32.to_le_bytes());
    bytes.extend_from_slice(&0u32.to_le_bytes());
    bytes.extend_from_slice(b"CORTEX");
    bytes.extend_from_slice(&[1, 2, 3]);
    let (used, graph) = mccortex(&bytes).unwrap();
    assert_eq!(used, 28);
    assert!(graph.kmers.is_empty());
}

#[test]
fn only_incomplete_is_not_fatal() {
    assert!(!DecodeError::Incomplete.is_fatal());
    assert!(DecodeError::Malformed { offset: 0, field: Field::LeadingSignature }.is_fatal());
    assert!(DecodeError::InvalidText { offset: 34, field: Field::SampleName }.is_fatal());
}
