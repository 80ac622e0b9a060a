use indexer_rs::{decode_4844_blob, extract_payload_31_per_fe, trim_trailing_zeros, DecodeError};

fn patterned_blob() -> Vec<u8> {
    (0..131072usize).map(|j| (j % 251) as u8).collect()
}

#[test]
fn unpacked_layout_drops_first_byte_of_each_element() {
    let blob = patterned_blob();
    let out = decode_4844_blob(&blob).unwrap();
    assert_eq!(out.len(), 126976);
    for k in 0..4096usize {
        for i in 0..31usize {
            assert_eq!(out[31 * k + i], blob[32 * k + i + 1]);
        }
    }
    assert_eq!(extract_payload_31_per_fe(&blob), Some(out));
}

#[test]
fn unpack_rejects_other_sizes() {
    for len in [0usize, 1, 32, 131071, 131073, 262144] {
        let blob = vec![7u8; len];
        assert_eq!(decode_4844_blob(&blob), Err(DecodeError::SizeMismatch));
        assert_eq!(extract_payload_31_per_fe(&blob), None);
    }
}

#[test]
fn unpack_zero_blob_gives_zero_payload() {
    let out = decode_4844_blob(&vec![0u8; 131072]).unwrap();
    assert_eq!(out, vec![0u8; 126976]);
}

#[test]
fn trim_trailing_zeros_cases() {
    assert_eq!(trim_trailing_zeros(vec![1, 0, 2, 0, 0]), vec![1, 0, 2]);
    assert_eq!(trim_trailing_zeros(vec![0, 0, 0]), Vec::<u8>::new());
    assert_eq!(trim_trailing_zeros(vec![]), Vec::<u8>::new());
    assert_eq!(trim_trailing_zeros(vec![5]), vec![5]);
}
