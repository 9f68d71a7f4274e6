use rustcast::{decode, end_of_stream_block, metadata_block, meta_data_support, session_id_header, start_response, write_frame, META_DATA_INTERVAL};

#[test]
fn metadata_block_length_byte_counts_sixteens() {
    let block = metadata_block(&b"Unknown Artist".to_vec(), &b"a".to_vec());
    // text is StreamTitle='Unknown Artist - a'; -- 33 bytes, padded to 48
    let text = b"StreamTitle='Unknown Artist - a';";
    assert_eq!(block[0], 3);
    assert_eq!(block.len(), 1 + 48);
    assert_eq!(&block[1..1 + text.len()], &text[..]);
    for b in &block[1 + text.len()..] {
        assert_eq!(*b, 0);
    }
    // the length byte times sixteen is the text plus its padding
    assert_eq!(16 * block[0] as usize, block.len() - 1);
}

#[test]
fn metadata_block_for_the_silent_child() {
    let block = metadata_block(&b"Silent".to_vec(), &b"Silent".to_vec());
    let text = b"StreamTitle='Silent - Silent';";
    assert_eq!(block[0], 2);
    assert_eq!(block.len(), 1 + 32);
    assert_eq!(&block[1..1 + text.len()], &text[..]);
}

#[test]
fn metadata_block_truncates_but_closes_the_quote() {
    let artist = vec![b'x'; 5000];
    let block = metadata_block(&artist, &b"t".to_vec());
    // the text is capped at 4080 bytes and the padding vanishes
    assert_eq!(block[0], 255);
    assert_eq!(block.len(), 1 + 4080);
    assert_eq!(&block[1..14], b"StreamTitle='");
    assert_eq!(&block[block.len() - 2..], b"';");
}

#[test]
fn write_frame_of_exactly_one_interval_defers_the_block() {
    let frame = vec![7u8; META_DATA_INTERVAL];
    let block = metadata_block(&b"Silent".to_vec(), &b"Silent".to_vec());
    let mut out = Vec::new();
    let counter = write_frame(&frame, META_DATA_INTERVAL, &block, &mut out);
    // exactly one payload segment, no block yet, and the counter is spent
    assert_eq!(out, frame);
    assert_eq!(counter, 0);

    // the next bytes start with exactly one metadata block
    let mut out2 = Vec::new();
    let next = vec![1u8, 2, 3];
    let counter2 = write_frame(&next, counter, &block, &mut out2);
    let mut expected = block.clone();
    expected.extend_from_slice(&next);
    assert_eq!(out2, expected);
    assert_eq!(counter2, META_DATA_INTERVAL - 3);
}

#[test]
fn write_frame_interleaves_blocks_every_interval() {
    let frame = vec![9u8; 2 * META_DATA_INTERVAL + 5];
    let block = vec![2u8, 0, 0];
    let mut out = Vec::new();
    let counter = write_frame(&frame, 10, &block, &mut out);
    // audio: 10, block, 65536, block, rest
    assert_eq!(out.len(), frame.len() + 2 * block.len());
    assert_eq!(&out[0..10], &frame[0..10]);
    assert_eq!(&out[10..13], &block[..]);
    assert_eq!(counter, META_DATA_INTERVAL - (2 * META_DATA_INTERVAL + 5 - 10 - META_DATA_INTERVAL));
}

#[test]
fn handshake_announces_metadata_only_when_asked() {
    let with = start_response("audio/mpeg", "main", true);
    let expected = b"HTTP/1.0 200 OK\r\nContent-Type: audio/mpeg\r\nicy-name: main\r\nicy-metadata: 1\r\nicy-metaint: 65536\r\n\r\n";
    assert_eq!(with, expected.to_vec());

    let without = start_response("audio/mpeg", "main", false);
    let expected2 = b"HTTP/1.0 200 OK\r\nContent-Type: audio/mpeg\r\nicy-name: main\r\n\r\n";
    assert_eq!(without, expected2.to_vec());
}

#[test]
fn decode_parses_a_full_request() {
    let bytes = b"GET /s HTTP/1.1\r\nIcy-MetaData:1\r\nx-playback-session-id: abc\r\n\r\n".to_vec();
    let (req, amt) = decode(&bytes).unwrap().unwrap();
    assert_eq!(amt, bytes.len());
    assert_eq!(req.method, "GET");
    assert_eq!(req.path, "/s");
    assert_eq!(req.headers.len(), 2);
    assert_eq!(req.headers[0].0, "Icy-MetaData");
    assert_eq!(req.headers[0].1, b"1".to_vec());
    assert!(meta_data_support(&req));
    assert_eq!(session_id_header(&req).unwrap(), Some("abc".to_string()));
}

#[test]
fn decode_reports_incomplete_input_as_partial() {
    let bytes = b"GET /s HTTP/1.1\r\nIcy-MetaData:".to_vec();
    assert!(decode(&bytes).unwrap().is_none());
}

#[test]
fn decode_rejects_other_versions() {
    let bytes = b"GET /s HTTP/1.0\r\n\r\n".to_vec();
    let e = decode(&bytes).unwrap_err();
    assert_eq!(e.detail().as_str(), "only HTTP/1.1 accepted");

    let bad = b"GET /s FTP/9\r\n\r\n".to_vec();
    assert!(decode(&bad).is_err());
}

#[test]
fn metadata_support_is_case_insensitive_and_checks_the_value() {
    let on = b"GET / HTTP/1.1\r\nicy-metadata: 1\r\n\r\n".to_vec();
    let (req, _) = decode(&on).unwrap().unwrap();
    assert!(meta_data_support(&req));

    let off = b"GET / HTTP/1.1\r\nIcy-MetaData: 0\r\n\r\n".to_vec();
    let (req2, _) = decode(&off).unwrap().unwrap();
    assert!(!meta_data_support(&req2));

    let absent = b"GET / HTTP/1.1\r\n\r\n".to_vec();
    let (req3, _) = decode(&absent).unwrap().unwrap();
    assert!(!meta_data_support(&req3));
}

#[test]
fn a_block_owed_at_the_boundary_is_flushed_at_end_of_stream() {
    let block = metadata_block(&b"Silent".to_vec(), &b"Silent".to_vec());
    // counter zero: exactly one interval of audio went out, the block is due
    assert_eq!(end_of_stream_block(0, &block), block);
    // mid-interval: nothing more is owed
    assert_eq!(end_of_stream_block(100, &block), Vec::<u8>::new());
    assert_eq!(end_of_stream_block(META_DATA_INTERVAL, &block), Vec::<u8>::new());
}

#[test]
fn header_values_are_trimmed_of_surrounding_blanks() {
    let bytes = b"GET /s HTTP/1.1\r\nIcy-MetaData: 1 \r\n\r\n".to_vec();
    let (req, _) = decode(&bytes).unwrap().unwrap();
    assert_eq!(req.headers[0].1, b"1".to_vec());
    assert!(meta_data_support(&req));
}
