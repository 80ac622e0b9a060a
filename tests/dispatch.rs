use indexer_rs::{
    decode_batch_data, decode_nitro_batch, decode_nitro_payload_to_txs, handle_raw_blob,
    process_arbitrum_blob_to_txs, try_brotli_decompress, DecodeError, DecodeOutcome,
};
use std::io::Write;

fn compress(data: &[u8]) -> Vec<u8> {
    let mut w = brotli::CompressorWriter::new(Vec::new(), 4096, 5, 22);
    w.write_all(data).unwrap();
    w.into_inner()
}

fn tx_bytes() -> Vec<u8> {
    (0xa0u8..0xb0).collect()
}

/// Packs up to 126,976 payload bytes into a blob, 31 per field element.
fn pack(payload: &[u8]) -> Vec<u8> {
    let mut blob = vec![0u8; 131072];
    for (j, b) in payload.iter().enumerate() {
        blob[(j / 31) * 32 + j % 31 + 1] = *b;
    }
    blob
}

fn header_be(fields: [u64; 5]) -> Vec<u8> {
    fields.iter().flat_map(|f| f.to_be_bytes()).collect()
}

#[test]
fn zero_blob_is_unrecognized() {
    let blob = vec![0u8; 131072];
    assert_eq!(
        handle_raw_blob(&blob, 1, 2, 3, 4),
        DecodeOutcome::Unrecognized(DecodeError::DecompressionFailure)
    );
    assert_eq!(
        process_arbitrum_blob_to_txs(&blob),
        DecodeOutcome::Unrecognized(DecodeError::DecompressionFailure)
    );
    assert_eq!(try_brotli_decompress(&vec![0u8; 126935]), None);
}

#[test]
fn decoding_twice_gives_same_outcome() {
    let mut payload = header_be([10, 20, 30, 40, 0]);
    payload.extend([0x0a, 2, 0, 0, 0, 0xaa, 0xbb]);
    let blob = pack(&payload);
    let a = handle_raw_blob(&blob, 10, 20, 30, 40);
    let b = handle_raw_blob(&blob, 10, 20, 30, 40);
    assert_eq!(a, b);
    assert_eq!(a, DecodeOutcome::Transactions(vec![vec![0xaa, 0xbb]]));
}

#[test]
fn wrong_blob_size_is_size_mismatch() {
    assert_eq!(
        handle_raw_blob(&[0u8; 100], 0, 0, 0, 0),
        DecodeOutcome::Unrecognized(DecodeError::SizeMismatch)
    );
    assert_eq!(
        process_arbitrum_blob_to_txs(&[0u8; 100]),
        DecodeOutcome::Unrecognized(DecodeError::SizeMismatch)
    );
}

#[test]
fn certificate_is_deferred() {
    let data: Vec<u8> = std::iter::once(0x80u8).chain(1..=70u8).collect();
    let expected = DecodeOutcome::DeferredExternal {
        keyset_hash: (1..=32u8).collect(),
        data_hash: (33..=64u8).collect(),
    };
    assert_eq!(decode_batch_data(&data), expected);
    assert_eq!(decode_batch_data(&data[..65]), expected);
    assert_eq!(decode_nitro_payload_to_txs(&data), expected);
    assert_eq!(
        decode_batch_data(&data[..64]),
        DecodeOutcome::Unrecognized(DecodeError::TruncatedBuffer)
    );
    let mut other = data.clone();
    other[0] = 0xc3;
    assert!(matches!(decode_batch_data(&other), DecodeOutcome::DeferredExternal { .. }));
}

#[test]
fn empty_batch_is_truncated() {
    assert_eq!(decode_batch_data(&[]), DecodeOutcome::Unrecognized(DecodeError::TruncatedBuffer));
    assert_eq!(
        decode_nitro_payload_to_txs(&[]),
        DecodeOutcome::Unrecognized(DecodeError::TruncatedBuffer)
    );
}

fn rlp_segment_stream() -> Vec<u8> {
    let mut item = vec![0x00, 0x04];
    item.extend(tx_bytes());
    let mut stream = vec![0x80 + item.len() as u8];
    stream.extend(item);
    stream
}

#[test]
fn compressed_batch_with_rlp_segments() {
    let mut data = vec![0x00];
    data.extend(compress(&rlp_segment_stream()));
    assert_eq!(decode_batch_data(&data), DecodeOutcome::Transactions(vec![tx_bytes()]));
    assert_eq!(decode_nitro_payload_to_txs(&data), DecodeOutcome::Transactions(vec![tx_bytes()]));
}

#[test]
fn compressed_batch_with_segment_stream() {
    let mut stream = vec![0x00, 0, 0, 0, 17, 0x04];
    stream.extend(tx_bytes());
    let mut data = vec![0x00];
    data.extend(compress(&stream));
    assert_eq!(decode_batch_data(&data), DecodeOutcome::Transactions(vec![tx_bytes()]));
    assert_eq!(decode_nitro_payload_to_txs(&data), DecodeOutcome::Transactions(vec![tx_bytes()]));
}

#[test]
fn payload_errors_inside_messages_keep_transactions() {
    // Two RLP items: a segment whose nested batch is cut short after one
    // good frame, then a plain signed transaction.
    let mut item1 = vec![0x00, 0x03, 0, 0, 0, 0, 0, 0, 0, 2, 0x04, 0x11];
    item1.extend([0, 0, 0, 0, 0, 0, 0, 50]);
    let mut data = vec![0x02, 0x80 + item1.len() as u8];
    data.extend(&item1);
    data.extend([0x83, 0x00, 0x04, 0x22]);
    let expected = DecodeOutcome::Transactions(vec![vec![0x11], vec![0x22]]);
    assert_eq!(decode_nitro_payload_to_txs(&data), expected);
    assert_eq!(decode_batch_data(&data), expected);
}

#[test]
fn legacy_flagged_batches() {
    let list = vec![2, 0, 0, 0, 0xaa, 0xbb, 0, 0, 0, 0, 1, 0, 0, 0, 0xcc];
    let mut plain = vec![0x0a];
    plain.extend(&list);
    let expected = DecodeOutcome::Transactions(vec![vec![0xaa, 0xbb], vec![0xcc]]);
    assert_eq!(decode_batch_data(&plain), expected);
    let mut compressed = vec![0x0b];
    compressed.extend(compress(&list));
    assert_eq!(decode_batch_data(&compressed), expected);
}

#[test]
fn rlp_stream_without_flag() {
    let data = vec![0x02, 0x83, 0x00, 0x04, 0x99];
    assert_eq!(decode_batch_data(&data), DecodeOutcome::Transactions(vec![vec![0x99]]));
    assert_eq!(decode_nitro_payload_to_txs(&data), DecodeOutcome::Transactions(vec![vec![0x99]]));
    assert_eq!(decode_nitro_batch(&data), Ok(vec![vec![0x99]]));
    assert_eq!(decode_nitro_batch(&[0xc0]), Err(DecodeError::MalformedRlp));
}

#[test]
fn resync_stream_after_flag_byte() {
    let mut data = vec![0x0c, 0x00, 0, 0, 0, 17, 0x04];
    data.extend(tx_bytes());
    assert_eq!(decode_batch_data(&data), DecodeOutcome::Transactions(vec![tx_bytes()]));
    assert_eq!(
        decode_nitro_payload_to_txs(&data),
        DecodeOutcome::Unrecognized(DecodeError::UnsupportedFraming)
    );
}

#[test]
fn unexplained_bytes_are_unsupported() {
    assert_eq!(
        decode_batch_data(&[0x05, 0xc0]),
        DecodeOutcome::Unrecognized(DecodeError::UnsupportedFraming)
    );
}

#[test]
fn blob_end_to_end_with_little_endian_header() {
    let fields = [1_700_000_000u64, 1_700_000_500, 19_000_000, 19_000_050, 7];
    let mut payload: Vec<u8> = fields.iter().flat_map(|f| f.to_le_bytes()).collect();
    payload.push(0x00);
    payload.extend(compress(&rlp_segment_stream()));
    let blob = pack(&payload);
    assert_eq!(
        handle_raw_blob(&blob, 1_700_000_000, 1_700_000_500, 19_000_000, 19_000_050),
        DecodeOutcome::Transactions(vec![tx_bytes()])
    );
}
