use wavemeta::{
    extract_labeled_text_from_list, parse_cue_points, ByteCursor, ByteSource, ChunkHead,
    ChunkWriter, CuePoint, Error, LabeledText, WaveCursor, CHUNK_HEAD_SZ, CUE_SZ,
};

fn riff_head(size: u32) -> ChunkHead {
    ChunkHead { tag: *b"RIFF", size }
}

fn real_size(size: u32) -> u32 {
    if size & 1 == 1 {
        size + 1
    } else {
        size
    }
}

fn wave_bytes(chunk_heads: &[(ChunkHead, Option<&[u8]>)]) -> Vec<u8> {
    let mut v = vec![0u8; CHUNK_HEAD_SZ];
    v.extend_from_slice(b"WAVE");
    let mut riff_sz = 4u32;

    for (head, payload) in chunk_heads {
        v.extend_from_slice(&head.as_bytes()[..]);
        let rsz = real_size(head.size);

        match payload {
            None => v.resize(v.len() + rsz as usize, 0u8),
            Some(bytes) => v.extend_from_slice(bytes),
        }

        riff_sz += rsz + CHUNK_HEAD_SZ as u32;
    }

    let riff_head = riff_head(riff_sz);
    v[..8].copy_from_slice(&riff_head.as_bytes()[..]);

    v
}

#[test]
fn get_cue_points() {
    let cue1 = CuePoint::from_sample_offset(1, 20);
    let cue2 = CuePoint::from_sample_offset(2, 200);
    let mut cue_bytes = vec![2u8, 0, 0, 0];
    cue_bytes.extend_from_slice(&cue1.as_bytes()[..]);
    cue_bytes.extend_from_slice(&cue2.as_bytes()[..]);
    let cue_head = ChunkHead { tag: *b"cue ", size: 4 + 2 * CUE_SZ as u32 };
    let fmt_head = ChunkHead { tag: *b"fmt ", size: 23 };
    let data_head = ChunkHead { tag: *b"data", size: 3001 };

    let check_chunks = |chunks: &[(ChunkHead, Option<&[u8]>)]| {
        let bytes = wave_bytes(chunks);
        let base_cursor = ByteCursor::new(bytes);
        let initial_position = base_cursor.position();
        let mut cursor = WaveCursor::new(base_cursor).unwrap();

        let (_, chunk_bytes) = cursor.read_next_chunk(Some(*b"cue ")).unwrap().unwrap();

        let cue_points = parse_cue_points(&chunk_bytes[..]);
        assert_eq!(cue_points[0], cue1);
        assert_eq!(cue_points[1], cue2);
        assert_eq!(cue_points.len(), 2);
        let base_cursor = cursor.restore_cursor().unwrap();
        assert_eq!(base_cursor.position(), initial_position);
    };

    check_chunks(
        &vec![(fmt_head, None), (data_head, None), (cue_head, Some(&cue_bytes[..]))][..],
    );

    check_chunks(
        &vec![(fmt_head, None), (cue_head, Some(&cue_bytes[..])), (data_head, None)][..],
    );

    check_chunks(
        &vec![(cue_head, Some(&cue_bytes[..])), (fmt_head, None), (data_head, None)][..],
    );
}

#[test]
fn append_cue_points() {
    let cue1 = CuePoint::from_sample_offset(1, 333);
    let cue2 = CuePoint::from_sample_offset(2, 477);
    let mut cue_bytes = vec![2u8, 0, 0, 0];
    cue_bytes.extend_from_slice(&cue1.as_bytes()[..]);
    cue_bytes.extend_from_slice(&cue2.as_bytes()[..]);
    let cues = [cue1, cue2];

    let fmt_head = ChunkHead { tag: *b"fmt ", size: 33 };

    let data_head = ChunkHead { tag: *b"data", size: 1 };

    let initial_wave_bytes = wave_bytes(&[(fmt_head, None), (data_head, None)]);

    let cursor = ByteCursor::new(initial_wave_bytes.clone());
    assert_eq!(cursor.position(), 0);
    let mut writer = ChunkWriter::new(cursor).unwrap();
    writer.append_cue_chunk(&cues[..]).unwrap();
    let cursor = writer.restore_cursor().unwrap();
    assert_eq!(cursor.position(), 0);
    let wave_bytes = cursor.into_inner();

    assert_eq!(wave_bytes[..4], initial_wave_bytes[..4],);

    assert_eq!(wave_bytes[8..initial_wave_bytes.len()], initial_wave_bytes[8..],);

    assert_eq!(
        u32::from_le_bytes(*wave_bytes[4..8].first_chunk().unwrap()) as usize,
        u32::from_le_bytes(*initial_wave_bytes[4..8].first_chunk().unwrap()) as usize
            + CHUNK_HEAD_SZ
            + cue_bytes.len(),
    );

    let cue_start = initial_wave_bytes.len();

    assert_eq!(
        wave_bytes[cue_start..cue_start + CHUNK_HEAD_SZ],
        ChunkHead { tag: *b"cue ", size: cue_bytes.len() as u32 }.as_bytes()[..],
    );

    assert_eq!(wave_bytes[cue_start + CHUNK_HEAD_SZ..], cue_bytes[..]);

    assert_eq!(wave_bytes.len(), initial_wave_bytes.len() + cue_bytes.len() + CHUNK_HEAD_SZ,);
}

#[test]
fn get_labeled_text() {
    let cue = CuePoint::from_sample_offset(1, 333);
    let mut ltxt1 = LabeledText::from_cue_length(1, 269);
    let ltxt2 = LabeledText::from_cue_length(13, 1234);
    ltxt1.text = String::from("hello");
    let ltxt1_bytes = ltxt1.as_bytes();
    let ltxt2_bytes = ltxt2.as_bytes();
    let mut cue_bytes = vec![1u8, 0, 0, 0];
    cue_bytes.extend_from_slice(&cue.as_bytes()[..]);
    let mut list_bytes = Vec::new();
    list_bytes.extend_from_slice(b"adtl");
    list_bytes.extend_from_slice(b"ltxt");
    list_bytes.extend_from_slice(&(ltxt1_bytes.len() as u32).to_le_bytes());
    list_bytes.extend_from_slice(&ltxt1_bytes);
    list_bytes.extend_from_slice(b"\0");
    list_bytes.extend_from_slice(b"ltxt");
    list_bytes.extend_from_slice(&(ltxt2_bytes.len() as u32).to_le_bytes());
    list_bytes.extend_from_slice(&ltxt2_bytes);

    let cue_head = ChunkHead { tag: *b"cue ", size: cue_bytes.len() as u32 };

    let list_head = ChunkHead {
        tag: *b"LIST",
        size: (ltxt1_bytes.len() + ltxt2_bytes.len()) as u32 + 21,
    };

    let chunks = [(cue_head, Some(&cue_bytes[..])), (list_head, Some(&list_bytes[..]))];

    let bytes = wave_bytes(&chunks[..]);
    let base_cursor = ByteCursor::new(bytes);
    let mut cursor = WaveCursor::new(base_cursor).unwrap();

    let (_, chunk_bytes) = cursor.read_next_chunk(Some(*b"LIST")).unwrap().unwrap();

    let labeled_texts = extract_labeled_text_from_list(&chunk_bytes);

    assert_eq!(labeled_texts.len(), 2);
    assert_eq!(labeled_texts[0], ltxt1);
    assert_eq!(labeled_texts[1], ltxt2);
}

#[test]
fn append_labeled_text() {
    let cue = CuePoint::from_sample_offset(1, 123);
    let mut ltxt1 = LabeledText::from_cue_length(1, 456);
    let ltxt2 = LabeledText::from_cue_length(2, 2999);
    ltxt1.text = String::from("hello");
    let cues = [cue];
    let ltxt1_bytes = ltxt1.as_bytes();
    let ltxt2_bytes = ltxt2.as_bytes();
    let labeled_texts = [ltxt1, ltxt2];

    let mut cue_bytes = vec![1u8, 0, 0, 0];
    cue_bytes.extend_from_slice(&cue.as_bytes()[..]);

    let mut list_chunk_bytes = Vec::new();
    list_chunk_bytes.extend_from_slice(b"adtl");
    list_chunk_bytes.extend_from_slice(b"ltxt");
    list_chunk_bytes.extend_from_slice(&(ltxt1_bytes.len() as u32).to_le_bytes());
    list_chunk_bytes.extend_from_slice(&ltxt1_bytes);
    list_chunk_bytes.extend_from_slice(b"\0");
    list_chunk_bytes.extend_from_slice(b"ltxt");
    list_chunk_bytes.extend_from_slice(&(ltxt2_bytes.len() as u32).to_le_bytes());
    list_chunk_bytes.extend_from_slice(&ltxt2_bytes);

    let fmt_head = ChunkHead { tag: *b"fmt ", size: 33 };

    let data_head = ChunkHead { tag: *b"data", size: 1 };

    let initial_wave_bytes = wave_bytes(&[(fmt_head, None), (data_head, None)]);

    let cursor = ByteCursor::new(initial_wave_bytes.clone());
    assert_eq!(cursor.position(), 0);
    let mut writer = ChunkWriter::new(cursor).unwrap();
    writer.append_cue_chunk(&cues[..]).unwrap();
    writer.append_label_chunk(&labeled_texts[..]).unwrap();
    let cursor = writer.restore_cursor().unwrap();
    assert_eq!(cursor.position(), 0);
    let wave_bytes = cursor.into_inner();

    let cue_start = initial_wave_bytes.len();

    let list_start = cue_start
        + CHUNK_HEAD_SZ
        + u32::from_le_bytes(
            *wave_bytes[cue_start + 4..cue_start + 8].first_chunk::<4>().unwrap(),
        ) as usize;

    assert_eq!(&wave_bytes[list_start..list_start + 4], b"LIST");

    assert_eq!(
        &wave_bytes[list_start + 4..list_start + CHUNK_HEAD_SZ],
        &(list_chunk_bytes.len() as u32).to_le_bytes()
    );

    assert_eq!(&wave_bytes[list_start + CHUNK_HEAD_SZ..], &list_chunk_bytes,);
}

#[test]
fn absent_chunk_is_empty_result_at_wave_end() {
    let fmt_head = ChunkHead { tag: *b"fmt ", size: 23 };
    let data_head = ChunkHead { tag: *b"data", size: 3001 };
    let bytes = wave_bytes(&[(fmt_head, None), (data_head, None)]);
    let wave_end = bytes.len() as u64;

    let mut cursor = WaveCursor::new(ByteCursor::new(bytes)).unwrap();
    let found = cursor.read_next_chunk(Some(*b"cue ")).unwrap();
    assert!(found.is_none());
    assert_eq!(cursor.base_cursor.position(), wave_end);
    assert_eq!(cursor.wave_end, wave_end);
}

#[test]
fn reset_allows_repeated_scans() {
    let fmt_head = ChunkHead { tag: *b"fmt ", size: 16 };
    let data_head = ChunkHead { tag: *b"data", size: 10 };
    let bytes = wave_bytes(&[(fmt_head, None), (data_head, None)]);

    let mut cursor = WaveCursor::new(ByteCursor::new(bytes)).unwrap();
    let (tag1, body1) = cursor.read_next_chunk(None).unwrap().unwrap();
    let (tag2, _) = cursor.read_next_chunk(None).unwrap().unwrap();
    assert_eq!(&tag1, b"fmt ");
    assert_eq!(&tag2, b"data");
    cursor.reset().unwrap();
    let (tag1_again, body1_again) = cursor.read_next_chunk(None).unwrap().unwrap();
    assert_eq!(&tag1_again, b"fmt ");
    assert_eq!(body1, body1_again);
}

#[test]
fn restore_cursor_returns_construction_offset() {
    let fmt_head = ChunkHead { tag: *b"fmt ", size: 16 };
    let data_head = ChunkHead { tag: *b"data", size: 10 };
    let cue = CuePoint::from_sample_offset(1, 5);
    let mut cue_bytes = vec![1u8, 0, 0, 0];
    cue_bytes.extend_from_slice(&cue.as_bytes()[..]);
    let cue_head = ChunkHead { tag: *b"cue ", size: cue_bytes.len() as u32 };
    let mut prefix = vec![7u8; 5];
    let container =
        wave_bytes(&[(fmt_head, None), (data_head, None), (cue_head, Some(&cue_bytes[..]))]);
    prefix.extend_from_slice(&container);

    let mut base = ByteCursor::new(prefix);
    base.seek_to(5);
    let mut cursor = WaveCursor::new(base).unwrap();
    let _ = cursor.read_next_chunk(None).unwrap();
    let _ = cursor.read_next_chunk(None).unwrap();
    let _ = cursor.read_next_chunk(None).unwrap();
    let base = cursor.restore_cursor().unwrap();
    assert_eq!(base.position(), 5);
}

#[test]
fn append_overflow_fails_without_partial_write() {
    let mut bytes = Vec::new();
    bytes.extend_from_slice(b"RIFF");
    bytes.extend_from_slice(&0xFFFF_FFF0u32.to_le_bytes());
    bytes.extend_from_slice(b"WAVE");
    let original = bytes.clone();

    let cue = CuePoint::from_sample_offset(1, 2);
    let mut cursor = ByteCursor::new(bytes);
    let err = wavemeta::append_cue_chunk(&mut cursor, &[cue]).unwrap_err();
    assert!(matches!(err, Error::Wave(_)));
    assert_eq!(cursor.into_inner(), original);
}

#[test]
fn label_append_overflow_fails_without_partial_write() {
    let mut bytes = Vec::new();
    bytes.extend_from_slice(b"RIFF");
    bytes.extend_from_slice(&0xFFFF_FFF0u32.to_le_bytes());
    bytes.extend_from_slice(b"WAVE");
    let original = bytes.clone();

    let label = LabeledText::from_cue_length(1, 2);
    let mut cursor = ByteCursor::new(bytes);
    let err = wavemeta::append_label_chunk(&mut cursor, &[label]).unwrap_err();
    assert!(matches!(err, Error::Wave(_)));
    assert_eq!(cursor.into_inner(), original);
}

#[test]
fn odd_chunk_pad_is_skipped_exactly_once() {
    let odd_head = ChunkHead { tag: *b"junk", size: 7 };
    let mut odd_body_padded = vec![9u8; 7];
    odd_body_padded.push(0);
    let data_head = ChunkHead { tag: *b"data", size: 4 };
    let data_body = [1u8, 2, 3, 4];
    let bytes = wave_bytes(
        &[(odd_head, Some(&odd_body_padded[..])), (data_head, Some(&data_body[..]))],
    );

    let mut cursor = WaveCursor::new(ByteCursor::new(bytes)).unwrap();
    let (tag, body) = cursor.read_next_chunk(Some(*b"data")).unwrap().unwrap();
    assert_eq!(&tag, b"data");
    assert_eq!(body, data_body.to_vec());
}

#[test]
fn not_a_wave_file_is_a_format_error() {
    let mut bytes = Vec::new();
    bytes.extend_from_slice(b"RIFX");
    bytes.extend_from_slice(&4u32.to_le_bytes());
    bytes.extend_from_slice(b"WAVE");
    let err = WaveCursor::new(ByteCursor::new(bytes)).unwrap_err();
    assert!(matches!(err, Error::Wave(_)));
}

#[test]
fn odd_riff_size_is_a_format_error() {
    let mut bytes = Vec::new();
    bytes.extend_from_slice(b"RIFF");
    bytes.extend_from_slice(&5u32.to_le_bytes());
    bytes.extend_from_slice(b"WAVE");
    bytes.push(0);
    let err = WaveCursor::new(ByteCursor::new(bytes)).unwrap_err();
    assert!(matches!(err, Error::Wave(_)));
}

#[test]
fn truncated_container_is_an_io_error() {
    let bytes = b"RIFF\x04".to_vec();
    let err = WaveCursor::new(ByteCursor::new(bytes)).unwrap_err();
    assert!(matches!(err, Error::Io(_)));
}

#[test]
fn appended_cues_read_back_from_container() {
    let fmt_head = ChunkHead { tag: *b"fmt ", size: 16 };
    let data_head = ChunkHead { tag: *b"data", size: 8 };
    let initial = wave_bytes(&[(fmt_head, None), (data_head, None)]);

    let cue1 = CuePoint::from_sample_offset(11, 4000);
    let cue2 = CuePoint::from_sample_offset(12, 8000);
    let mut writer = ChunkWriter::new(ByteCursor::new(initial)).unwrap();
    writer.append_cue_chunk(&[cue1, cue2]).unwrap();
    let cursor = writer.restore_cursor().unwrap();

    let mut reader = WaveCursor::new(cursor).unwrap();
    let (_, body) = reader.read_next_chunk(Some(*b"cue ")).unwrap().unwrap();
    let cues = parse_cue_points(&body);
    assert_eq!(cues.len(), 2);
    assert_eq!(cues[0], cue1);
    assert_eq!(cues[1], cue2);
}

#[test]
fn appended_labels_read_back_from_container() {
    let fmt_head = ChunkHead { tag: *b"fmt ", size: 16 };
    let data_head = ChunkHead { tag: *b"data", size: 8 };
    let initial = wave_bytes(&[(fmt_head, None), (data_head, None)]);

    let mut with_text = LabeledText::from_cue_length(5, 77);
    with_text.text = String::from("marker one");
    let plain = LabeledText::from_cue_length(6, 88);
    let labels = [with_text, plain];

    let mut writer = ChunkWriter::new(ByteCursor::new(initial)).unwrap();
    writer.append_label_chunk(&labels).unwrap();
    let cursor = writer.restore_cursor().unwrap();

    let mut reader = WaveCursor::new(cursor).unwrap();
    let (_, body) = reader.read_next_chunk(Some(*b"LIST")).unwrap().unwrap();
    let records = extract_labeled_text_from_list(&body);
    assert_eq!(records.len(), 2);
    assert_eq!(records[0], labels[0]);
    assert_eq!(records[1], labels[1]);
}

#[test]
fn chunk_size_crossing_wave_end_is_a_format_error() {
    // the RIFF head declares size 16, so the container ends at offset 24,
    // but the single chunk inside declares 100 payload bytes
    let mut bytes = Vec::new();
    bytes.extend_from_slice(b"RIFF");
    bytes.extend_from_slice(&16u32.to_le_bytes());
    bytes.extend_from_slice(b"WAVE");
    bytes.extend_from_slice(b"junk");
    bytes.extend_from_slice(&100u32.to_le_bytes());
    // plenty of underlying bytes: the container end, not the data, must stop the reader
    bytes.resize(140, 9);

    let mut cursor = WaveCursor::new(ByteCursor::new(bytes.clone())).unwrap();
    let err = cursor.read_next_chunk(None).unwrap_err();
    assert!(matches!(err, Error::Wave(_)));

    // stepping over the chunk may not cross the end either
    let mut cursor = WaveCursor::new(ByteCursor::new(bytes)).unwrap();
    let err = cursor.read_next_chunk(Some(*b"cue ")).unwrap_err();
    assert!(matches!(err, Error::Wave(_)));
}

#[test]
fn trailing_sliver_before_wave_end_is_a_format_error() {
    // declared size 10: the container ends at 18, leaving 6 bytes after the
    // form tag — too few for a chunk head, which may not be read past the end
    let mut bytes = Vec::new();
    bytes.extend_from_slice(b"RIFF");
    bytes.extend_from_slice(&10u32.to_le_bytes());
    bytes.extend_from_slice(b"WAVE");
    bytes.resize(18, 0);

    let mut cursor = WaveCursor::new(ByteCursor::new(bytes)).unwrap();
    let err = cursor.read_next_chunk(None).unwrap_err();
    assert!(matches!(err, Error::Wave(_)));
}
