use wavemeta::{
    extract_labeled_text_from_list, pad_size_16, parse_cue_points, ByteCursor, ByteSource,
    BoundedCursor, ChunkHead, ContainerSplit, CuePoint, Error, LabeledText,
};

#[test]
fn chunk_head_encodes_tag_then_le_size() {
    let head = ChunkHead { tag: *b"abcd", size: 0x0102_0304 };
    assert_eq!(head.as_bytes(), [0x61, 0x62, 0x63, 0x64, 0x04, 0x03, 0x02, 0x01]);
    assert_eq!(head.tag(), *b"abcd");
    assert_eq!(head.size(), 0x0102_0304);
}

#[test]
fn cue_point_round_trips() {
    let cue = CuePoint {
        id: 7,
        position: 11,
        data_tag: *b"data",
        chunk_start: 13,
        block_start: 17,
        sample_offset: 99,
    };
    let bytes = cue.as_bytes();
    assert_eq!(&bytes[0..4], &7u32.to_le_bytes());
    assert_eq!(&bytes[8..12], b"data");
    assert_eq!(&bytes[20..24], &99u32.to_le_bytes());
    assert_eq!(CuePoint::parse(&bytes), cue);
}

#[test]
fn from_sample_offset_zero_fills_positions() {
    let cue = CuePoint::from_sample_offset(3, 444);
    assert_eq!(cue.id, 3);
    assert_eq!(cue.position, 0);
    assert_eq!(cue.data_tag, *b"data");
    assert_eq!(cue.chunk_start, 0);
    assert_eq!(cue.block_start, 0);
    assert_eq!(cue.sample_offset, 444);
}

#[test]
fn cue_list_ignores_trailing_partial_record() {
    let cue = CuePoint::from_sample_offset(1, 55);
    let mut body = vec![1u8, 0, 0, 0];
    body.extend_from_slice(&cue.as_bytes());
    body.extend_from_slice(&[1, 2, 3]);
    let cues = parse_cue_points(&body);
    assert_eq!(cues.len(), 1);
    assert_eq!(cues[0], cue);
}

#[test]
fn labeled_text_round_trips_empty_and_odd_text() {
    let mut a = LabeledText::from_cue_length(9, 100);
    assert_eq!(a.text, "");
    let a_bytes = a.as_bytes();
    assert_eq!(a_bytes.len(), 20);
    assert_eq!(LabeledText::parse(&a_bytes), a);

    a.text = String::from("odd");
    let b_bytes = a.as_bytes();
    assert_eq!(b_bytes.len(), 23);
    assert_eq!(LabeledText::parse(&b_bytes), a);

    a.text = String::from("h\u{e9}llo");
    let c_bytes = a.as_bytes();
    assert_eq!(LabeledText::parse(&c_bytes), a);
}

#[test]
fn labeled_text_parse_replaces_invalid_utf8() {
    let label = LabeledText::from_cue_length(1, 2);
    let mut bytes = label.as_bytes();
    bytes.push(0xFF);
    let parsed = LabeledText::parse(&bytes);
    assert_eq!(parsed.text, "\u{FFFD}");
}

#[test]
fn extraction_skips_malformed_sub_chunks() {
    let good = LabeledText::from_cue_length(21, 42);
    let good_bytes = good.as_bytes();

    let mut body = Vec::new();
    body.extend_from_slice(b"adtl");
    // wrong tag: discarded
    body.extend_from_slice(b"note");
    body.extend_from_slice(&4u32.to_le_bytes());
    body.extend_from_slice(&[0, 0, 0, 0]);
    // ltxt with a size below the fixed fields: discarded
    body.extend_from_slice(b"ltxt");
    body.extend_from_slice(&6u32.to_le_bytes());
    body.extend_from_slice(&[0, 0, 0, 0, 0, 0]);
    // well-formed record: kept
    body.extend_from_slice(b"ltxt");
    body.extend_from_slice(&(good_bytes.len() as u32).to_le_bytes());
    body.extend_from_slice(&good_bytes);
    // truncated record: its declared size passes the end, discarded
    body.extend_from_slice(b"ltxt");
    body.extend_from_slice(&400u32.to_le_bytes());
    body.extend_from_slice(&[0; 10]);

    let records = extract_labeled_text_from_list(&body);
    assert_eq!(records.len(), 1);
    assert_eq!(records[0], good);
}

#[test]
fn extraction_of_short_body_is_empty() {
    assert_eq!(extract_labeled_text_from_list(&[1, 2, 3]).len(), 0);
    assert_eq!(extract_labeled_text_from_list(b"adtl").len(), 0);
}

#[test]
fn pad_size_16_rounds_odd_sizes_up() {
    assert_eq!(pad_size_16(0), Some(0));
    assert_eq!(pad_size_16(4), Some(4));
    assert_eq!(pad_size_16(5), Some(6));
    assert_eq!(pad_size_16(usize::MAX), None);
}

#[test]
fn bounded_cursor_reads_across_header_boundary() {
    let mut data = vec![0xEEu8; 4];
    data.extend_from_slice(b"RIFFxxxxWAVEabcdefgh");
    let base = ByteCursor::new(data);
    // rooted at 4: the synthetic header shadows "RIFFxxxx"
    let mut bounded = BoundedCursor::new(base, 4, 12);

    let opening = bounded.read_exact(12).unwrap();
    assert_eq!(&opening[0..4], b"RIFF");
    assert_eq!(&opening[4..8], &12u32.to_le_bytes());
    assert_eq!(&opening[8..12], b"WAVE");

    bounded.seek_to(6);
    let across = bounded.read_exact(4).unwrap();
    assert_eq!(&across[0..2], &12u32.to_le_bytes()[2..4]);
    assert_eq!(&across[2..4], b"WA");

    let err = bounded.read_exact(11).unwrap_err();
    assert!(matches!(err, Error::Wave(_)));

    let end = bounded.seek_end(-2).unwrap();
    assert_eq!(end, 18);
    let tail = bounded.read_exact(2).unwrap();
    assert_eq!(&tail[..], b"gh");

    let err = bounded.seek_by(-100).unwrap_err();
    assert!(matches!(err, Error::Wave(_)));
}

#[test]
fn bounded_cursor_seeking_is_lazy() {
    let base = ByteCursor::new(b"RIFFxxxxWAVE".to_vec());
    let mut bounded = BoundedCursor::new(base, 0, 400);
    bounded.seek_to(300);
    let err = bounded.read_exact(4).unwrap_err();
    assert!(matches!(err, Error::Io(_)));
    assert_eq!(bounded.position(), 300);
}

#[test]
fn split_container_excludes_appendix() {
    let fmt_size = 16u32;
    let data_size = 88200u32;
    let appendix = vec![0xABu8; 200];

    let mut bytes = Vec::new();
    bytes.extend_from_slice(b"RIFF");
    let declared = 4 + 8 + fmt_size + 8 + data_size + 200;
    bytes.extend_from_slice(&declared.to_le_bytes());
    bytes.extend_from_slice(b"WAVE");
    bytes.extend_from_slice(b"fmt ");
    bytes.extend_from_slice(&fmt_size.to_le_bytes());
    bytes.resize(bytes.len() + fmt_size as usize, 0);
    bytes.extend_from_slice(b"data");
    bytes.extend_from_slice(&data_size.to_le_bytes());
    bytes.resize(bytes.len() + data_size as usize, 7);
    bytes.extend_from_slice(&appendix);

    let corrected = 4 + 8 + fmt_size + 8 + data_size;
    let appendix_start = (28 + fmt_size + data_size) as u64;

    let split = ContainerSplit::new(ByteCursor::new(bytes.clone())).unwrap();
    assert_eq!(split.corrected_size(), corrected);
    assert_eq!(split.appendix_start(), appendix_start);

    let mut wave = split.wave_cursor();
    let opening = wave.read_exact(12).unwrap();
    assert_eq!(&opening[0..4], b"RIFF");
    assert_eq!(&opening[4..8], &corrected.to_le_bytes());
    assert_eq!(&opening[8..12], b"WAVE");
    // the corrected logical stream ends where the appendix begins
    wave.seek_to(8 + corrected as u64);
    assert!(matches!(wave.read_exact(1).unwrap_err(), Error::Wave(_)));

    let split = ContainerSplit::new(ByteCursor::new(bytes)).unwrap();
    let mut tail = split.appendix_cursor();
    assert_eq!(tail.position(), appendix_start);
    let got = tail.read_exact(200).unwrap();
    assert_eq!(got, appendix);
    assert!(matches!(tail.read_exact(1).unwrap_err(), Error::Io(_)));
}

#[test]
fn split_requires_data_after_fmt() {
    let mut bytes = Vec::new();
    bytes.extend_from_slice(b"RIFF");
    bytes.extend_from_slice(&36u32.to_le_bytes());
    bytes.extend_from_slice(b"WAVE");
    bytes.extend_from_slice(b"fmt ");
    bytes.extend_from_slice(&4u32.to_le_bytes());
    bytes.extend_from_slice(&[0; 4]);
    bytes.extend_from_slice(b"cue ");
    bytes.extend_from_slice(&4u32.to_le_bytes());
    bytes.extend_from_slice(&[0; 4]);
    let err = ContainerSplit::new(ByteCursor::new(bytes)).unwrap_err();
    assert!(matches!(err, Error::Wave(_)));
}

#[test]
fn byte_cursor_write_extends_and_overwrites() {
    let mut cursor = ByteCursor::new(vec![1, 2, 3, 4]);
    cursor.seek_to(2);
    cursor.write_all(&[9, 9, 9]).unwrap();
    assert_eq!(cursor.position(), 5);
    cursor.seek_to(7);
    cursor.write_all(&[5]).unwrap();
    assert_eq!(cursor.into_inner(), vec![1, 2, 9, 9, 9, 0, 0, 5]);
}

#[test]
fn error_message_carries_text() {
    let err = Error::wave("Not a WAVE file");
    assert_eq!(err.message(), "Not a WAVE file");
}

#[test]
fn chunk_reader_runs_over_a_split_wave_region() {
    let fmt_size = 16u32;
    let data_size = 10u32;

    let mut bytes = Vec::new();
    bytes.extend_from_slice(b"RIFF");
    // the declared size wrongly counts the appendix; the splitter corrects it
    bytes.extend_from_slice(&(4 + 8 + fmt_size + 8 + data_size + 6).to_le_bytes());
    bytes.extend_from_slice(b"WAVE");
    bytes.extend_from_slice(b"fmt ");
    bytes.extend_from_slice(&fmt_size.to_le_bytes());
    bytes.resize(bytes.len() + fmt_size as usize, 3);
    bytes.extend_from_slice(b"data");
    bytes.extend_from_slice(&data_size.to_le_bytes());
    bytes.extend_from_slice(&[5u8; 10]);
    bytes.extend_from_slice(b"extra!");

    let split = wavemeta::ContainerSplit::new(ByteCursor::new(bytes)).unwrap();
    let wave = split.wave_cursor();
    let mut reader = wavemeta::WaveCursor::new(wave).unwrap();
    let (tag, body) = reader.read_next_chunk(Some(*b"data")).unwrap().unwrap();
    assert_eq!(&tag, b"data");
    assert_eq!(body, vec![5u8; 10]);
    // the corrected region holds no chunk beyond data: the scan ends empty
    let absent = reader.read_next_chunk(Some(*b"cue ")).unwrap();
    assert!(absent.is_none());
}

#[test]
fn split_skips_pad_after_odd_fmt_size() {
    let fmt_size = 17u32;
    let data_size = 4u32;

    let mut bytes = Vec::new();
    bytes.extend_from_slice(b"RIFF");
    bytes.extend_from_slice(&60u32.to_le_bytes());
    bytes.extend_from_slice(b"WAVE");
    bytes.extend_from_slice(b"fmt ");
    bytes.extend_from_slice(&fmt_size.to_le_bytes());
    bytes.resize(bytes.len() + fmt_size as usize + 1, 0);
    bytes.extend_from_slice(b"data");
    bytes.extend_from_slice(&data_size.to_le_bytes());
    bytes.extend_from_slice(&[1, 2, 3, 4]);
    bytes.extend_from_slice(b"tail");

    let split = ContainerSplit::new(ByteCursor::new(bytes)).unwrap();
    // 4 (form) + 8 + 17 + 1 (fmt, padded) + 8 + 4 (data): even, appendix excluded
    assert_eq!(split.corrected_size(), 42);
    assert_eq!(split.appendix_start(), 50);
    let mut tail = split.appendix_cursor();
    assert_eq!(tail.read_exact(4).unwrap(), b"tail".to_vec());
}

#[test]
fn split_names_the_unexpected_tag() {
    let mut bytes = Vec::new();
    bytes.extend_from_slice(b"RIFF");
    bytes.extend_from_slice(&36u32.to_le_bytes());
    bytes.extend_from_slice(b"WAVE");
    bytes.extend_from_slice(b"fmt ");
    bytes.extend_from_slice(&4u32.to_le_bytes());
    bytes.extend_from_slice(&[0; 4]);
    bytes.extend_from_slice(b"cue ");
    bytes.extend_from_slice(&4u32.to_le_bytes());
    bytes.extend_from_slice(&[0; 4]);
    let err = ContainerSplit::new(ByteCursor::new(bytes)).unwrap_err();
    match err {
        Error::Wave(msg) => assert!(msg.contains("cue ")),
        Error::Io(_) => panic!("expected a format failure"),
    }
}
