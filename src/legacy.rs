use vstd::prelude::*;
use alloy::consensus::{EthereumTxEnvelope, TxEip4844Variant};
use crate::bytes::{le_uint, read_le};
use crate::decompress::{decompressed, try_brotli_decompress};
use crate::outcome::{views, DecodeError};

verus! {

/// Flag byte of a plain legacy Nitro batch.
pub const NITRO_FLAG_PLAIN: u8 = 0x0a;

/// Flag byte of a Brotli-compressed legacy Nitro batch.
pub const NITRO_FLAG_COMPRESSED: u8 = 0x0b;

/// Entries longer than this end a length-prefixed transaction list.
pub const MAX_LISTED_TX_LEN: u64 = 10000000;

/// Type byte of the transactions that a raw batch holds.
pub const RAW_BATCH_TX_TYPE: u8 = 0x02;

/// The entries of a list of 4-byte little-endian lengths, each followed by
/// that many bytes. Zero lengths are skipped; a length over 10,000,000 or
/// past the end stops the list, keeping the entries before it.
pub open spec fn le_list(d: Seq<u8>) -> Seq<Seq<u8>>
    decreases d.len(),
{
    if d.len() < 4 {
        Seq::empty()
    } else {
        let n = le_uint(d.take(4)) as int;
        let rest = d.skip(4);
        if n == 0 {
            le_list(rest)
        } else if n > MAX_LISTED_TX_LEN || n > rest.len() {
            Seq::empty()
        } else {
            seq![rest.take(n)] + le_list(rest.skip(n))
        }
    }
}

/// The body of a legacy Nitro batch: the flag byte dropped, and the rest
/// decompressed where the flag says so and decompression succeeds.
pub open spec fn nitro_batch_body(payload: Seq<u8>) -> Seq<u8> {
    if payload.len() > 0 && payload[0] == NITRO_FLAG_PLAIN {
        payload.skip(1)
    } else if payload.len() > 0 && payload[0] == NITRO_FLAG_COMPRESSED {
        match decompressed(payload.skip(1)) {
            Some(d) => d,
            None => payload.skip(1),
        }
    } else {
        payload
    }
}

/// Reads a list of 4-byte little-endian lengths, each followed by that many
/// bytes, and returns the entries in order.
pub fn read_length_prefixed_list(data: &[u8]) -> (r: Vec<Vec<u8>>)
    ensures
        views(r@) == le_list(data@),
{
    let mut txs: Vec<Vec<u8>> = Vec::new();
    let mut offset: usize = 0;
    assert(data@.skip(0) =~= data@);
    assert(views(txs@) + le_list(data@) =~= le_list(data@));
    while offset < data.len() && 4 <= data.len() - offset
        invariant
            offset <= data@.len(),
            views(txs@) + le_list(data@.skip(offset as int)) == le_list(data@),
        decreases data@.len() - offset,
    {
        let ghost cur = data@.skip(offset as int);
        let len = read_le(data, offset, 4);
        assert(data@.subrange(offset as int, offset + 4) =~= cur.take(4));
        assert(cur.skip(4) =~= data@.skip(offset + 4));
        offset = offset + 4;
        if len == 0 {
            continue;
        }
        if len > MAX_LISTED_TX_LEN || len > (data.len() - offset) as u64 {
            assert(views(txs@) + Seq::<Seq<u8>>::empty() =~= views(txs@));
            return txs;
        }
        let n = len as usize;
        let tx = vstd::slice::slice_to_vec(&data[offset..offset + n]);
        proof {
            let rest = data@.skip(offset as int);
            assert(tx@ =~= rest.take(n as int));
            assert(rest.skip(n as int) =~= data@.skip(offset + n));
            assert(views(txs@.push(tx)) =~= views(txs@) + seq![tx@]);
            assert(views(txs@) + (seq![tx@] + le_list(rest.skip(n as int))) =~= views(txs@) + seq![tx@]
                + le_list(rest.skip(n as int)));
        }
        txs.push(tx);
        offset = offset + n;
    }
    assert(data@.skip(offset as int).len() < 4);
    assert(views(txs@) + Seq::<Seq<u8>>::empty() =~= views(txs@));
    txs
}

/// Decodes a legacy Nitro batch: an optional flag byte (`0x0a` plain, `0x0b`
/// compressed; a compressed body that does not decompress is read as it is),
/// then a list of 4-byte little-endian lengths each followed by a transaction.
pub fn parse_nitro_batch(payload: &[u8]) -> (r: Vec<Vec<u8>>)
    ensures
        views(r@) == le_list(nitro_batch_body(payload@)),
{
    if payload.len() > 0 && (payload[0] == NITRO_FLAG_PLAIN || payload[0] == NITRO_FLAG_COMPRESSED) {
        let body = &payload[1..payload.len()];
        assert(body@ =~= payload@.skip(1));
        if payload[0] == NITRO_FLAG_COMPRESSED {
            if let Some(d) = try_brotli_decompress(body) {
                return read_length_prefixed_list(&d);
            }
        }
        read_length_prefixed_list(body)
    } else {
        read_length_prefixed_list(payload)
    }
}

/// What is left of `b` after alloy decodes one transaction envelope off its
/// front, or `None` where decoding fails.
pub uninterp spec fn envelope_rest(b: Seq<u8>) -> Option<nat>;

/// Relies on alloy's RLP `Decodable` impl for
/// `EthereumTxEnvelope<TxEip4844Variant>`: on success it has advanced the
/// slice past the envelope, by at least the type byte.
#[verifier::external_body]
fn decode_envelope_rest(raw: &[u8]) -> (r: Option<usize>)
    ensures
        match r {
            Some(n) => envelope_rest(raw@) == Some(n as nat) && n < raw@.len(),
            None => envelope_rest(raw@) is None,
        },
{
    let mut slice = raw;
    match <EthereumTxEnvelope<TxEip4844Variant> as alloy::rlp::Decodable>::decode(&mut slice) {
        Ok(_) => Some(slice.len()),
        Err(_) => None,
    }
}

/// The length of the transaction at the front of `raw`: it must start with
/// type byte `0x02` and decode as an envelope.
pub open spec fn tx_len(raw: Seq<u8>) -> Option<nat> {
    if raw.len() == 0 || raw[0] != RAW_BATCH_TX_TYPE {
        None
    } else {
        envelope_len(raw)
    }
}

/// The length of the envelope that alloy decodes off the front of `rem`.
pub open spec fn envelope_len(rem: Seq<u8>) -> Option<nat> {
    match envelope_rest(rem) {
        Some(rest) => if rest < rem.len() {
            Some((rem.len() - rest) as nat)
        } else {
            None
        },
        None => None,
    }
}

/// The transactions at the front of `rem`, back to back, each as long as its
/// envelope decodes. The first envelope that does not decode ends the list;
/// the transactions before it are kept.
pub open spec fn raw_batch_txs(rem: Seq<u8>) -> Seq<Seq<u8>>
    decreases rem.len(),
{
    match envelope_len(rem) {
        Some(c) => if 0 < c <= rem.len() {
            seq![rem.take(c as int)] + raw_batch_txs(rem.skip(c as int))
        } else {
            Seq::empty()
        },
        None => Seq::empty(),
    }
}

/// The transactions of a raw batch: a 4-byte version and a 4-byte
/// transaction count (both informational), then the transactions. A buffer
/// too short for the two fields holds none.
pub open spec fn raw_batch(data: Seq<u8>) -> Seq<Seq<u8>> {
    if data.len() < 8 {
        Seq::empty()
    } else {
        raw_batch_txs(data.skip(8))
    }
}

/// Decodes the transaction at the front of `raw` and returns its length.
/// It must start with type byte `0x02`; otherwise, or where the envelope does
/// not decode, the result is `InvalidTransaction`.
pub fn decode_tx(raw: &[u8]) -> (r: Result<usize, DecodeError>)
    ensures
        match r {
            Ok(c) => tx_len(raw@) == Some(c as nat),
            Err(e) => tx_len(raw@) is None && e == DecodeError::InvalidTransaction,
        },
{
    if raw.len() == 0 || raw[0] != RAW_BATCH_TX_TYPE {
        return Err(DecodeError::InvalidTransaction);
    }
    match decode_envelope_rest(raw) {
        Some(rest) => Ok(raw.len() - rest),
        None => Err(DecodeError::InvalidTransaction),
    }
}

/// Parses a raw batch: a 4-byte big-endian version and a 4-byte
/// little-endian transaction count, both informational (a count that differs
/// from what is found is no error), then transactions back to back, each as
/// long as its envelope decodes. Where an envelope does not decode, decoding
/// stops and the transactions found so far are returned; the call always
/// succeeds. A buffer too short for the two fields holds no transactions.
pub fn decode_raw_batch(data: &[u8]) -> (r: Result<Vec<Vec<u8>>, DecodeError>)
    ensures
        r matches Ok(txs) && views(txs@) == raw_batch(data@),
{
    let mut txs: Vec<Vec<u8>> = Vec::new();
    if data.len() < 8 {
        assert(views(txs@) =~= Seq::<Seq<u8>>::empty());
        return Ok(txs);
    }
    let mut pos: usize = 8;
    assert(views(txs@) + raw_batch_txs(data@.skip(8)) =~= raw_batch_txs(data@.skip(8)));
    while pos < data.len()
        invariant
            8 <= pos <= data@.len(),
            views(txs@) + raw_batch_txs(data@.skip(pos as int)) == raw_batch(data@),
        decreases data@.len() - pos,
    {
        let ghost cur = data@.skip(pos as int);
        let remaining = &data[pos..data.len()];
        assert(remaining@ =~= cur);
        let rest = match decode_envelope_rest(remaining) {
            Some(n) => n,
            None => {
                assert(views(txs@) + Seq::<Seq<u8>>::empty() =~= views(txs@));
                return Ok(txs);
            },
        };
        let consumed = remaining.len() - rest;
        let tx = vstd::slice::slice_to_vec(&remaining[0..consumed]);
        proof {
            assert(tx@ =~= cur.take(consumed as int));
            assert(cur.skip(consumed as int) =~= data@.skip(pos + consumed));
            assert(views(txs@.push(tx)) =~= views(txs@) + seq![tx@]);
            let r = raw_batch_txs(cur.skip(consumed as int));
            assert(views(txs@) + (seq![tx@] + r) =~= views(txs@) + seq![tx@] + r);
        }
        txs.push(tx);
        pos = pos + consumed;
    }
    assert(data@.skip(pos as int) =~= Seq::<u8>::empty());
    assert(views(txs@) + Seq::<Seq<u8>>::empty() =~= views(txs@));
    Ok(txs)
}

} // verus!
