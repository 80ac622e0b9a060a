use alloy::consensus::{Signed, TxEip1559, TxEnvelope};
use alloy::eips::eip2718::Encodable2718;
use alloy::primitives::{Address, Bytes, Signature, TxKind, U256};
use indexer_rs::{decode_raw_batch, decode_tx, parse_nitro_batch, read_length_prefixed_list, DecodeError};

fn signed_tx(nonce: u64) -> Vec<u8> {
    let tx = TxEip1559 {
        chain_id: 42161,
        nonce,
        gas_limit: 21000,
        max_fee_per_gas: 100,
        max_priority_fee_per_gas: 1,
        to: TxKind::Call(Address::ZERO),
        value: U256::from(1000u64),
        access_list: Default::default(),
        input: Bytes::from(vec![0xde, 0xad]),
    };
    let sig = Signature::new(U256::from(7u64), U256::from(9u64), false);
    TxEnvelope::Eip1559(Signed::new_unhashed(tx, sig)).encoded_2718()
}

#[test]
fn raw_batch_splits_transactions() {
    let t1 = signed_tx(0);
    let t2 = signed_tx(1);
    let mut data = vec![0, 0, 0, 1, 2, 0, 0, 0];
    data.extend(&t1);
    data.extend(&t2);
    assert_eq!(decode_tx(&data[8..]), Ok(t1.len()));
    assert_eq!(decode_raw_batch(&data), Ok(vec![t1.clone(), t2.clone()]));
    data[4] = 5;
    assert_eq!(decode_raw_batch(&data), Ok(vec![t1, t2]));
}

#[test]
fn raw_batch_stops_at_undecodable_envelope() {
    let t1 = signed_tx(0);
    let mut data = vec![0, 0, 0, 1, 1, 0, 0, 0];
    data.extend(&t1);
    data.push(0x01);
    data.extend(signed_tx(1));
    assert_eq!(decode_raw_batch(&data), Ok(vec![t1]));
    assert_eq!(decode_raw_batch(&[0, 0, 0, 1, 1, 0, 0, 0, 0xff, 0xff]), Ok(vec![]));
}

#[test]
fn decode_tx_requires_type_two() {
    assert_eq!(decode_tx(&[0x01, 0x02]), Err(DecodeError::InvalidTransaction));
    assert_eq!(decode_tx(&[0x02, 0x02]), Err(DecodeError::InvalidTransaction));
    assert_eq!(decode_tx(&[]), Err(DecodeError::InvalidTransaction));
}

#[test]
fn raw_batch_too_short_is_empty() {
    assert_eq!(decode_raw_batch(&[0, 0, 0, 1, 2, 0, 0]), Ok(vec![]));
    assert_eq!(decode_raw_batch(&[0, 0, 0, 1, 2, 0, 0, 0]), Ok(vec![]));
}

#[test]
fn length_prefixed_list_stops_on_overrun() {
    let mut data = vec![2, 0, 0, 0, 0xaa, 0xbb, 0, 0, 0, 0, 1, 0, 0, 0, 0xcc];
    data.extend([9, 0, 0, 0, 0xdd]);
    assert_eq!(read_length_prefixed_list(&data), vec![vec![0xaa, 0xbb], vec![0xcc]]);
    let mut big = vec![1, 0, 0, 0, 0xaa];
    big.extend(10_000_001u32.to_le_bytes());
    big.extend(vec![0u8; 16]);
    assert_eq!(read_length_prefixed_list(&big), vec![vec![0xaa]]);
    assert_eq!(read_length_prefixed_list(&[1, 0, 0]), Vec::<Vec<u8>>::new());
}

#[test]
fn nitro_batch_without_flag() {
    let data = vec![1, 0, 0, 0, 0xaa, 1, 0, 0, 0, 0xbb, 0xff];
    assert_eq!(parse_nitro_batch(&data), vec![vec![0xaa], vec![0xbb]]);
    let mut flagged = vec![0x0a];
    flagged.extend(&data);
    assert_eq!(parse_nitro_batch(&flagged), vec![vec![0xaa], vec![0xbb]]);
}
