use std::io::Write;
use indexer_rs::{
    decode_l2_message, decode_l2_messages, decode_segment, handle_segments, read_u64_be_8,
    segments_to_l2_messages, DecodeError,
};

fn tx_bytes() -> Vec<u8> {
    (0xa0u8..0xb0).collect()
}

#[test]
fn signed_tx_message_emitted_verbatim() {
    let mut msg = vec![0x04];
    msg.extend(tx_bytes());
    let mut out = Vec::new();
    assert_eq!(decode_l2_message(&msg, &mut out), Ok(()));
    assert_eq!(out, vec![tx_bytes()]);
}

#[test]
fn nested_batch_single_subframe() {
    let mut msg = vec![0x03, 0, 0, 0, 0, 0, 0, 0, 17, 0x04];
    msg.extend(tx_bytes());
    let mut out = Vec::new();
    assert_eq!(decode_l2_message(&msg, &mut out), Ok(()));
    assert_eq!(out, vec![tx_bytes()]);
}

#[test]
fn nested_batch_subframe_length_eight_as_written() {
    // A sub-frame length of 8 frames the kind byte and seven transaction
    // bytes; the nine bytes left cannot hold a valid next frame.
    let mut msg = vec![0x03, 0, 0, 0, 0, 0, 0, 0, 0x08, 0x04];
    msg.extend(tx_bytes());
    let mut out = Vec::new();
    assert_eq!(decode_l2_message(&msg, &mut out), Err(DecodeError::TruncatedBuffer));
    assert_eq!(out, vec![tx_bytes()[..7].to_vec()]);
}

#[test]
fn nested_batch_truncated_frame_keeps_prior() {
    let mut msg = vec![0x03, 0, 0, 0, 0, 0, 0, 0, 3, 0x04, 0x01, 0x02];
    msg.extend([0, 0, 0, 0, 0, 0, 0, 100, 0x04, 0x05]);
    let mut out = vec![vec![0xee]];
    assert_eq!(decode_l2_message(&msg, &mut out), Err(DecodeError::TruncatedBuffer));
    assert_eq!(out, vec![vec![0xee], vec![0x01, 0x02]]);
}

#[test]
fn nested_batch_two_levels_and_trailing_bytes() {
    let inner = vec![0x03, 0, 0, 0, 0, 0, 0, 0, 2, 0x04, 0x77];
    let mut msg = vec![0x03, 0, 0, 0, 0, 0, 0, 0, inner.len() as u8];
    msg.extend(&inner);
    msg.extend([0, 0, 0]);
    let mut out = Vec::new();
    assert_eq!(decode_l2_message(&msg, &mut out), Err(DecodeError::TruncatedBuffer));
    assert_eq!(out, vec![vec![0x77]]);
}

#[test]
fn nesting_depth_is_bounded() {
    let mut msg = vec![0x04, 0x42];
    for _ in 0..17 {
        let mut outer = vec![0x03];
        outer.extend((msg.len() as u64).to_be_bytes());
        outer.extend(&msg);
        msg = outer;
    }
    let mut out = Vec::new();
    assert_eq!(decode_l2_message(&msg, &mut out), Err(DecodeError::NestingTooDeep));
    assert!(out.is_empty());

    let mut msg = vec![0x04, 0x42];
    for _ in 0..16 {
        let mut outer = vec![0x03];
        outer.extend((msg.len() as u64).to_be_bytes());
        outer.extend(&msg);
        msg = outer;
    }
    let mut out = Vec::new();
    assert_eq!(decode_l2_message(&msg, &mut out), Ok(()));
    assert_eq!(out, vec![vec![0x42]]);
}

#[test]
fn other_message_kinds_skipped() {
    let mut out = Vec::new();
    assert_eq!(decode_l2_message(&[0x09, 1, 2], &mut out), Ok(()));
    assert_eq!(decode_l2_message(&[0x07, 1, 2], &mut out), Ok(()));
    assert_eq!(decode_l2_message(&[], &mut out), Ok(()));
    assert!(out.is_empty());
}

#[test]
fn read_u64_be_8_cases() {
    assert_eq!(read_u64_be_8(&[0, 0, 0, 0, 0, 0, 1, 2, 9]), Ok(258));
    assert_eq!(read_u64_be_8(&[0xff; 8]), Ok(u64::MAX));
    assert_eq!(read_u64_be_8(&[1, 2, 3]), Err(DecodeError::TruncatedBuffer));
}

fn compress(data: &[u8]) -> Vec<u8> {
    let mut w = brotli::CompressorWriter::new(Vec::new(), 4096, 5, 22);
    w.write_all(data).unwrap();
    w.into_inner()
}

fn truncated_stream() -> Vec<u8> {
    let data: Vec<u8> = (0..2000u32).map(|i| (i * 7 % 253) as u8).collect();
    let c = compress(&data);
    c[..c.len() / 2].to_vec()
}

#[test]
fn segments_classified_by_kind() {
    let segs = vec![
        vec![0x00, 0x04, 0x01],
        vec![],
        vec![0x02, 0x09],
        vec![0x01],
        vec![0x07, 0x04, 0x05],
        {
            let mut s = vec![0x01];
            s.extend(compress(&[0x04, 0x0a, 0x0b]));
            s
        },
    ];
    assert_eq!(handle_segments(&segs), vec![vec![0x01], vec![0x0a, 0x0b]]);
    let mut out = Vec::new();
    decode_segment(0x01, &truncated_stream(), &mut out);
    assert!(out.is_empty());
}

#[test]
fn segments_to_messages_skips_failed_decompression() {
    let good = vec![
        vec![0x00, 0x04, 0x01],
        vec![0x02, 0x09],
        {
            let mut s = vec![0x01];
            s.extend(compress(&[0x04, 0x0a]));
            s
        },
    ];
    assert_eq!(segments_to_l2_messages(&good), Ok(vec![vec![0x04, 0x01], vec![0x04, 0x0a]]));
    let mut broken = vec![0x01];
    broken.extend(truncated_stream());
    let bad = vec![vec![0x00, 0x04, 0x01], broken];
    assert_eq!(segments_to_l2_messages(&bad), Ok(vec![vec![0x04, 0x01]]));
}

#[test]
fn messages_decoded_in_turn() {
    let msgs = vec![vec![0x04, 1], vec![0x03, 0, 0, 0, 0, 0, 0, 0, 9], vec![0x04, 2]];
    let mut out = Vec::new();
    assert_eq!(decode_l2_messages(&msgs, &mut out), Err(DecodeError::TruncatedBuffer));
    assert_eq!(out, vec![vec![1], vec![2]]);
}
