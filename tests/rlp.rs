use indexer_rs::{
    rlp_decode_one_string, rlp_decode_stream_of_strings, rlp_item_total_len, rlp_peek, rlp_peel_string,
    try_decode_rlp_segments, DecodeError, RlpKind,
};

#[test]
fn rlp_single_byte_and_short_string() {
    assert_eq!(rlp_peel_string(&[0x7f, 0x01]), Some((vec![0x7f], 1)));
    assert_eq!(rlp_peel_string(&[0x83, 1, 2, 3, 4]), Some((vec![1, 2, 3], 4)));
    assert_eq!(rlp_peel_string(&[0x80]), Some((vec![], 1)));
    assert_eq!(rlp_peel_string(&[0x83, 1, 2]), None);
    assert_eq!(rlp_peel_string(&[]), None);
}

#[test]
fn rlp_long_string() {
    let mut data = vec![0xb8, 60];
    data.extend(std::iter::repeat(0x11).take(60));
    assert_eq!(rlp_peel_string(&data), Some((vec![0x11; 60], 62)));
    assert_eq!(rlp_decode_one_string(&data), Ok((vec![0x11; 60], 62)));
    assert_eq!(rlp_peek(&data), Ok((RlpKind::LongString(1, 60), 62)));
    assert_eq!(rlp_peel_string(&data[..50]), None);
    assert_eq!(rlp_peel_string(&[0xb9, 0x01]), None);
}

#[test]
fn rlp_list_rejected() {
    assert_eq!(rlp_peel_string(&[0xc2, 0x01, 0x02]), None);
    assert_eq!(rlp_decode_one_string(&[0xc2, 0x01, 0x02]), Err(DecodeError::MalformedRlp));
    assert_eq!(rlp_peek(&[0xc2, 0x01, 0x02]), Ok((RlpKind::ShortList(2), 0)));
    assert_eq!(rlp_peek(&[0xf9, 0x01, 0x02]), Ok((RlpKind::LongList(2), 0)));
    assert_eq!(rlp_item_total_len(&[0xc2, 0x01, 0x02]), Some(3));
    assert_eq!(rlp_item_total_len(&[0xf8, 0x02, 0x01, 0x02]), Some(4));
    assert_eq!(rlp_item_total_len(&[0xc3, 0x01]), None);
    assert_eq!(rlp_peek(&[]), Err(DecodeError::MalformedRlp));
}

#[test]
fn rlp_stream_decoding() {
    let data = [0x05, 0x82, 0xaa, 0xbb, 0x80];
    let expected = vec![vec![0x05], vec![0xaa, 0xbb], vec![]];
    assert_eq!(rlp_decode_stream_of_strings(&data), Ok(expected.clone()));
    assert_eq!(try_decode_rlp_segments(&data), Some(expected));
    assert_eq!(rlp_decode_stream_of_strings(&[]), Ok(vec![]));
    assert_eq!(try_decode_rlp_segments(&[]), None);
    assert_eq!(rlp_decode_stream_of_strings(&[0x05, 0xc0]), Err(DecodeError::MalformedRlp));
    assert_eq!(try_decode_rlp_segments(&[0x05, 0x83, 0x01]), None);
}
