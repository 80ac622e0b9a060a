use indexer_rs::{
    extract_payload_from_4844_blob, parse_batch_header, parse_batch_header_be, parse_batch_header_le,
    parse_header_autodetect, score, BatchHeader, DecodeError,
};

fn header_bytes(fields: [u64; 5], big_endian: bool) -> Vec<u8> {
    let mut v = Vec::new();
    for f in fields {
        if big_endian {
            v.extend_from_slice(&f.to_be_bytes());
        } else {
            v.extend_from_slice(&f.to_le_bytes());
        }
    }
    v
}

const FIELDS: [u64; 5] = [1_700_000_000, 1_700_086_400, 19_000_000, 19_000_100, 42];

fn expected() -> BatchHeader {
    BatchHeader {
        min_timestamp: FIELDS[0],
        max_timestamp: FIELDS[1],
        min_block_number: FIELDS[2],
        max_block_number: FIELDS[3],
        after_delayed_count: FIELDS[4],
    }
}

#[test]
fn header_big_endian_detected() {
    let mut data = header_bytes(FIELDS, true);
    data.extend_from_slice(&[0xaa, 0xbb]);
    let (h, rest) =
        parse_header_autodetect(&data, 1_700_000_100, 1_700_086_000, 19_000_010, 19_000_090).unwrap();
    assert_eq!(h, expected());
    assert_eq!(rest, &[0xaa, 0xbb]);
}

#[test]
fn header_little_endian_detected() {
    let data = header_bytes(FIELDS, false);
    let (h, rest) =
        parse_header_autodetect(&data, 1_700_000_100, 1_700_086_000, 19_000_010, 19_000_090).unwrap();
    assert_eq!(h, expected());
    assert!(rest.is_empty());
}

#[test]
fn header_detection_is_deterministic() {
    let mut data = header_bytes(FIELDS, false);
    data.extend_from_slice(&[1, 2, 3]);
    let a = parse_header_autodetect(&data, 5, 6, 7, 8).unwrap();
    let b = parse_header_autodetect(&data, 5, 6, 7, 8).unwrap();
    assert_eq!(a, b);
    let mut other = data[..40].to_vec();
    other.extend_from_slice(&[9, 9]);
    assert_eq!(parse_header_autodetect(&other, 5, 6, 7, 8).unwrap().0, a.0);
}

#[test]
fn header_tie_prefers_big_endian() {
    let data = vec![0u8; 40];
    let (h, _) = parse_header_autodetect(&data, 1, 1, 1, 1).unwrap();
    assert_eq!(h, parse_batch_header_be(&data).unwrap().0);
}

#[test]
fn header_too_short() {
    let data = vec![0u8; 39];
    assert_eq!(parse_header_autodetect(&data, 0, 0, 0, 0), Err(DecodeError::TruncatedBuffer));
    assert_eq!(parse_batch_header_be(&data), Err(DecodeError::TruncatedBuffer));
    assert_eq!(parse_batch_header_le(&data), Err(DecodeError::TruncatedBuffer));
    assert_eq!(parse_batch_header(&data), Err(DecodeError::TruncatedBuffer));
}

#[test]
fn header_score_sums_absolute_differences() {
    let h = BatchHeader {
        min_timestamp: 10,
        max_timestamp: 20,
        min_block_number: 30,
        max_block_number: 40,
        after_delayed_count: 99,
    };
    assert_eq!(score(&h, 12, 15, 30, 50), 2 + 5 + 0 + 10);
    assert_eq!(score(&h, u64::MAX, 0, 0, 0), (u64::MAX - 10) as u128 + 20 + 30 + 40);
}

#[test]
fn version_size_wrapper_stripped() {
    let mut blob = vec![0, 0, 0, 1, 3, 0, 0, 0, 0xa, 0xb, 0xc, 0xd];
    assert_eq!(extract_payload_from_4844_blob(&blob), vec![0xa, 0xb, 0xc]);
    blob[4] = 0;
    assert_eq!(extract_payload_from_4844_blob(&blob), blob);
    blob[4] = 5;
    assert_eq!(extract_payload_from_4844_blob(&blob), blob);
    assert_eq!(extract_payload_from_4844_blob(&[1, 2, 3]), vec![1, 2, 3]);
}
