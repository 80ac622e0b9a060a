use std::io::Write;
use indexer_rs::{
    next_segment, parse_top_level_segments, plausible_kind, try_header, try_take_segment, LenCodec,
    SegmentHeader,
};

fn tx_bytes() -> Vec<u8> {
    (0xa0u8..0xb0).collect()
}

fn segment_u32_be(kind: u8, payload: &[u8]) -> Vec<u8> {
    let mut v = vec![kind];
    v.extend((payload.len() as u32).to_be_bytes());
    v.extend(payload);
    v
}

#[test]
fn segment_stream_with_u32_be_codec() {
    let mut payload = vec![0x04];
    payload.extend(tx_bytes());
    let stream = segment_u32_be(0x00, &payload);
    assert_eq!(
        next_segment(&stream),
        Some(SegmentHeader { skip: 0, kind: 0x00, header_len: 5, payload_len: 17 })
    );
    assert_eq!(parse_top_level_segments(&stream), vec![tx_bytes()]);
}

#[test]
fn resync_after_garbage() {
    let mut payload = vec![0x04];
    payload.extend(tx_bytes());
    let seg = segment_u32_be(0x00, &payload);
    for skip in 1..=31usize {
        let mut stream = vec![0xee; skip];
        stream.extend(&seg);
        let h = next_segment(&stream).unwrap();
        assert_eq!(h, SegmentHeader { skip, kind: 0x00, header_len: 5, payload_len: 17 });
        assert_eq!(h.skip + h.header_len + h.payload_len, stream.len());
        assert_eq!(parse_top_level_segments(&stream), vec![tx_bytes()]);
    }
}

#[test]
fn resync_gives_up_after_window() {
    let mut payload = vec![0x04];
    payload.extend(tx_bytes());
    let mut stream = segment_u32_be(0x00, &[0x04, 0x01]);
    stream.extend(vec![0xee; 40]);
    stream.extend(segment_u32_be(0x00, &payload));
    assert_eq!(parse_top_level_segments(&stream), vec![vec![0x01]]);
}

#[test]
fn segment_length_past_end_stops_parsing() {
    let mut stream = segment_u32_be(0x00, &[0x04, 0x01]);
    stream.extend(segment_u32_be(0x00, &[0x04, 0x02]));
    stream.extend([0x00, 0xff, 0xff, 0xff, 0x7f, 0x04, 0x03]);
    assert_eq!(parse_top_level_segments(&stream), vec![vec![0x01], vec![0x02]]);
}

#[test]
fn header_codecs() {
    let buf = [0x01, 0, 0, 0, 0, 0, 0, 0, 2, 0xaa, 0xbb];
    let (k, n, rest) = try_header(&buf, LenCodec::U64Be).unwrap();
    assert_eq!((k, n, rest), (0x01, 2, &buf[9..]));
    assert_eq!(try_header(&buf, LenCodec::U64Le), None);
    let le = [0x02, 2, 0, 0, 0, 0xaa, 0xbb];
    assert_eq!(try_header(&le, LenCodec::U32Le), Some((0x02, 2, &le[5..])));
    assert_eq!(try_take_segment(&le), Some(((0x02, 2), &le[5..])));
    assert_eq!(try_header(&[0x05, 0, 0, 0, 1, 0], LenCodec::U32Be), None);
    assert_eq!(try_header(&[0x00, 0, 0, 0, 0, 0], LenCodec::U32Be), None);
    assert!(plausible_kind(0x09));
    assert!(!plausible_kind(0x05));
}

#[test]
fn compressed_segment_in_stream() {
    let mut w = brotli::CompressorWriter::new(Vec::new(), 4096, 5, 22);
    w.write_all(&[0x04, 0x55, 0x66]).unwrap();
    let compressed = w.into_inner();
    let stream = segment_u32_be(0x01, &compressed);
    assert_eq!(parse_top_level_segments(&stream), vec![vec![0x55, 0x66]]);
}
