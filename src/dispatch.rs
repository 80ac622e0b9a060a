use vstd::prelude::*;
use crate::blob::{decode_4844_blob, unpacked, BYTES_PER_BLOB};
use crate::bytes::{be_uint, read_be};
use crate::decompress::{decompressed, try_brotli_decompress};
use crate::framing::{autodetect, parse_header_autodetect};
use crate::legacy::{le_list, nitro_batch_body, parse_nitro_batch, NITRO_FLAG_COMPRESSED, NITRO_FLAG_PLAIN};
use crate::message::{
    decode_l2_message,
    decode_l2_messages,
    handle_segments,
    l2_decode,
    messages_decode,
    segments_messages,
    segments_to_l2_messages,
    segments_txs,
};
use crate::outcome::{views, DecodeError, DecodeOutcome, Outcome};
use crate::rlp::{rlp_decode_stream_of_strings, rlp_strings, try_decode_rlp_segments};
use crate::segments::{find_segment, next_segment, parse_top_level_segments, stream_txs};

verus! {

/// A first byte with this bit set marks a data-availability certificate.
pub const DAS_MESSAGE_HEADER_FLAG: u8 = 0x80;

/// A first byte equal to this marks a wholly Brotli-compressed batch.
pub const BROTLI_MESSAGE_HEADER_BYTE: u8 = 0x00;

/// Length of a data-availability certificate: flag, keyset hash, data hash.
pub const DAS_CERTIFICATE_LEN: usize = 65;

/// The transactions of decompressed batch bytes: read as an RLP segment
/// stream where that yields items, else as a resynchronizing segment stream.
pub open spec fn decompressed_batch_txs(d: Seq<u8>) -> Seq<Seq<u8>> {
    match rlp_strings(d) {
        Some(items) => if items.len() > 0 {
            segments_txs(items)
        } else {
            stream_txs(d)
        },
        None => stream_txs(d),
    }
}

/// What a batch (the bytes after the header) decodes to. The first byte picks
/// one path, in priority order: certificate, compressed batch, legacy flagged
/// batch, RLP segment stream, resynchronizing segment stream.
pub open spec fn dispatch(d: Seq<u8>) -> Outcome {
    if d.len() == 0 {
        Outcome::Unrecognized(DecodeError::TruncatedBuffer)
    } else if d[0] >= 0x80 {
        if d.len() < 65 {
            Outcome::Unrecognized(DecodeError::TruncatedBuffer)
        } else {
            Outcome::DeferredExternal(d.subrange(1, 33), d.subrange(33, 65))
        }
    } else if d[0] == BROTLI_MESSAGE_HEADER_BYTE {
        match decompressed(d.skip(1)) {
            Some(x) => Outcome::Transactions(decompressed_batch_txs(x)),
            None => Outcome::Unrecognized(DecodeError::DecompressionFailure),
        }
    } else if d[0] == NITRO_FLAG_PLAIN || d[0] == NITRO_FLAG_COMPRESSED {
        Outcome::Transactions(le_list(nitro_batch_body(d)))
    } else {
        match rlp_strings(d) {
            Some(items) => Outcome::Transactions(segments_txs(items)),
            None => if find_segment(d) is None {
                Outcome::Unrecognized(DecodeError::UnsupportedFraming)
            } else {
                Outcome::Transactions(stream_txs(d))
            },
        }
    }
}

/// What a blob decodes to, given the reference bounds of the event that
/// announced it.
pub open spec fn decode_blob(raw: Seq<u8>, min_ts: u64, max_ts: u64, min_bn: u64, max_bn: u64) -> Outcome {
    if raw.len() != BYTES_PER_BLOB {
        Outcome::Unrecognized(DecodeError::SizeMismatch)
    } else if autodetect(unpacked(raw), min_ts, max_ts, min_bn, max_bn) is None {
        Outcome::Unrecognized(DecodeError::TruncatedBuffer)
    } else {
        dispatch(unpacked(raw).skip(40))
    }
}

proof fn lemma_high_bit(b: u8)
    ensures
        (b & 0x80 != 0) == (b >= 0x80),
{
    assert((b & 0x80 != 0) == (b >= 0x80)) by (bit_vector);
}

fn decode_decompressed_batch(d: &[u8]) -> (r: Vec<Vec<u8>>)
    ensures
        views(r@) == decompressed_batch_txs(d@),
{
    match try_decode_rlp_segments(d) {
        Some(segs) => handle_segments(&segs),
        None => parse_top_level_segments(d),
    }
}

/// Decodes a batch (the bytes after the header). A certificate yields its two
/// hashes and nothing more; a compressed batch that does not decompress, and
/// bytes that no framing explains, are `Unrecognized`.
pub fn decode_batch_data(data: &[u8]) -> (r: DecodeOutcome)
    ensures
        r@ == dispatch(data@),
{
    if data.len() == 0 {
        return DecodeOutcome::Unrecognized(DecodeError::TruncatedBuffer);
    }
    let flag = data[0];
    proof {
        lemma_high_bit(flag);
    }
    if flag & DAS_MESSAGE_HEADER_FLAG != 0 {
        if data.len() < DAS_CERTIFICATE_LEN {
            return DecodeOutcome::Unrecognized(DecodeError::TruncatedBuffer);
        }
        return DecodeOutcome::DeferredExternal {
            keyset_hash: vstd::slice::slice_to_vec(&data[1..33]),
            data_hash: vstd::slice::slice_to_vec(&data[33..65]),
        };
    }
    if flag == BROTLI_MESSAGE_HEADER_BYTE {
        let compressed = &data[1..data.len()];
        assert(compressed@ =~= data@.skip(1));
        return match try_brotli_decompress(compressed) {
            Some(d) => DecodeOutcome::Transactions(decode_decompressed_batch(&d)),
            None => DecodeOutcome::Unrecognized(DecodeError::DecompressionFailure),
        };
    }
    if flag == NITRO_FLAG_PLAIN || flag == NITRO_FLAG_COMPRESSED {
        return DecodeOutcome::Transactions(parse_nitro_batch(data));
    }
    if let Some(segs) = try_decode_rlp_segments(data) {
        return DecodeOutcome::Transactions(handle_segments(&segs));
    }
    if next_segment(data).is_none() {
        return DecodeOutcome::Unrecognized(DecodeError::UnsupportedFraming);
    }
    DecodeOutcome::Transactions(parse_top_level_segments(data))
}

/// Decodes one blob end to end: unpacks its field elements, reads the
/// 40-byte header in the byte order closer to the reference bounds, and
/// decodes the batch after it. A blob that is not 131,072 bytes long is
/// `Unrecognized(SizeMismatch)`.
pub fn handle_raw_blob(raw_blob: &[u8], ev_min_ts: u64, ev_max_ts: u64, ev_min_bn: u64, ev_max_bn: u64) -> (r:
    DecodeOutcome)
    ensures
        r@ == decode_blob(raw_blob@, ev_min_ts, ev_max_ts, ev_min_bn, ev_max_bn),
{
    let unpacked_payload = match decode_4844_blob(raw_blob) {
        Ok(v) => v,
        Err(e) => {
            return DecodeOutcome::Unrecognized(e);
        },
    };
    match parse_header_autodetect(&unpacked_payload, ev_min_ts, ev_max_ts, ev_min_bn, ev_max_bn) {
        Ok((_header, batch_data)) => decode_batch_data(batch_data),
        Err(e) => DecodeOutcome::Unrecognized(e),
    }
}

/// Decoding is a function of the blob and the reference bounds alone: the
/// same blob decoded twice gives the same outcome.
pub proof fn lemma_decode_deterministic(
    b1: Seq<u8>,
    b2: Seq<u8>,
    min_ts: u64,
    max_ts: u64,
    min_bn: u64,
    max_bn: u64,
)
    requires
        b1 == b2,
    ensures
        decode_blob(b1, min_ts, max_ts, min_bn, max_bn) == decode_blob(b2, min_ts, max_ts, min_bn, max_bn),
{
}

/// A batch that starts with a byte whose high bit is set and holds at least 65
/// bytes is a certificate: bytes `1..33` are the keyset hash and `33..65` the
/// data hash, and nothing else is decoded.
pub proof fn lemma_certificate_is_deferred(d: Seq<u8>)
    requires
        d.len() >= 65,
        d[0] & 0x80 != 0,
    ensures
        dispatch(d) == Outcome::DeferredExternal(d.subrange(1, 33), d.subrange(33, 65)),
{
    lemma_high_bit(d[0]);
}

/// Outcome of decoding a list of segments into L2 messages and those into
/// transactions. A failure stays local to its segment or message: every
/// transaction decoded is kept.
pub open spec fn segments_outcome(segs: Seq<Seq<u8>>) -> Outcome {
    Outcome::Transactions(messages_decode(segments_messages(segs)).0)
}

/// What the headerless Nitro payload decoder makes of `d`: a certificate; a
/// compressed batch, read as an RLP segment stream or else as a
/// resynchronizing segment stream; a plain RLP segment stream; a single L2
/// message behind an 8-byte big-endian length. Failures inside a segment or
/// message keep what was decoded.
pub open spec fn nitro_payload(d: Seq<u8>) -> Outcome {
    if d.len() == 0 {
        Outcome::Unrecognized(DecodeError::TruncatedBuffer)
    } else if d[0] >= 0x80 {
        if d.len() < 65 {
            Outcome::Unrecognized(DecodeError::TruncatedBuffer)
        } else {
            Outcome::DeferredExternal(d.subrange(1, 33), d.subrange(33, 65))
        }
    } else if d[0] == BROTLI_MESSAGE_HEADER_BYTE {
        if d.len() < 2 {
            Outcome::Unrecognized(DecodeError::TruncatedBuffer)
        } else {
            match decompressed(d.skip(1)) {
                None => Outcome::Unrecognized(DecodeError::DecompressionFailure),
                Some(x) => Outcome::Transactions(decompressed_batch_txs(x)),
            }
        }
    } else {
        match rlp_strings(d) {
            Some(segs) => segments_outcome(segs),
            None => {
                let n = be_uint(d.take(8)) as int;
                if d.len() >= 9 && 8 + n <= d.len() {
                    Outcome::Transactions(l2_decode(d.subrange(8, 8 + n), 0).0)
                } else {
                    Outcome::Unrecognized(DecodeError::UnsupportedFraming)
                }
            },
        }
    }
}

fn decode_segments_via_messages(segments: &Vec<Vec<u8>>) -> (r: DecodeOutcome)
    ensures
        r@ == segments_outcome(views(segments@)),
{
    let msgs = match segments_to_l2_messages(segments) {
        Ok(m) => m,
        Err(e) => {
            return DecodeOutcome::Unrecognized(e);
        },
    };
    let mut out: Vec<Vec<u8>> = Vec::new();
    let _ = decode_l2_messages(&msgs, &mut out);
    assert(views(out@) =~= messages_decode(views(msgs@)).0);
    DecodeOutcome::Transactions(out)
}

/// Decoder of a Nitro payload that carries no header (the unpacked blob): a
/// certificate yields its hashes; a compressed payload is decompressed and
/// read as an RLP segment stream, or else as a resynchronizing segment
/// stream; otherwise the payload must be an RLP segment stream, or a single
/// L2 message behind an 8-byte big-endian length. A payload that fits none of
/// these, or does not decompress, is `Unrecognized`; failures inside a
/// segment or message keep the transactions decoded.
pub fn decode_nitro_payload_to_txs(payload: &[u8]) -> (r: DecodeOutcome)
    ensures
        r@ == nitro_payload(payload@),
{
    if payload.len() == 0 {
        return DecodeOutcome::Unrecognized(DecodeError::TruncatedBuffer);
    }
    let flag = payload[0];
    proof {
        lemma_high_bit(flag);
    }
    if flag & DAS_MESSAGE_HEADER_FLAG != 0 {
        if payload.len() < DAS_CERTIFICATE_LEN {
            return DecodeOutcome::Unrecognized(DecodeError::TruncatedBuffer);
        }
        return DecodeOutcome::DeferredExternal {
            keyset_hash: vstd::slice::slice_to_vec(&payload[1..33]),
            data_hash: vstd::slice::slice_to_vec(&payload[33..65]),
        };
    }
    if flag == BROTLI_MESSAGE_HEADER_BYTE {
        if payload.len() < 2 {
            return DecodeOutcome::Unrecognized(DecodeError::TruncatedBuffer);
        }
        let compressed = &payload[1..payload.len()];
        assert(compressed@ =~= payload@.skip(1));
        let decompressed_bytes = match try_brotli_decompress(compressed) {
            Some(d) => d,
            None => {
                return DecodeOutcome::Unrecognized(DecodeError::DecompressionFailure);
            },
        };
        return DecodeOutcome::Transactions(decode_decompressed_batch(&decompressed_bytes));
    }
    if let Ok(segments) = rlp_decode_stream_of_strings(payload) {
        return decode_segments_via_messages(&segments);
    }
    if payload.len() >= 9 {
        let next_len = read_be(payload, 0, 8);
        assert(payload@.subrange(0, 8) =~= payload@.take(8));
        if next_len <= (payload.len() - 8) as u64 {
            let n = next_len as usize;
            let msg = &payload[8..8 + n];
            let mut out: Vec<Vec<u8>> = Vec::new();
            let _ = decode_l2_message(msg, &mut out);
            assert(views(out@) =~= l2_decode(msg@, 0).0);
            return DecodeOutcome::Transactions(out);
        }
    }
    DecodeOutcome::Unrecognized(DecodeError::UnsupportedFraming)
}

/// Unpacks a blob and decodes it as a Nitro payload that carries no header.
pub fn process_arbitrum_blob_to_txs(raw_blob: &[u8]) -> (r: DecodeOutcome)
    ensures
        raw_blob@.len() != BYTES_PER_BLOB ==> r@ == Outcome::Unrecognized(DecodeError::SizeMismatch),
        raw_blob@.len() == BYTES_PER_BLOB ==> r@ == nitro_payload(unpacked(raw_blob@)),
{
    match decode_4844_blob(raw_blob) {
        Ok(payload) => decode_nitro_payload_to_txs(&payload),
        Err(e) => DecodeOutcome::Unrecognized(e),
    }
}

/// Decodes `batch` as an RLP segment stream; anything else is `MalformedRlp`.
pub fn decode_nitro_batch(batch: &[u8]) -> (r: Result<Vec<Vec<u8>>, DecodeError>)
    ensures
        match r {
            Ok(txs) => rlp_strings(batch@) matches Some(segs) && segs.len() > 0 && views(txs@)
                == segments_txs(segs),
            Err(e) => e == DecodeError::MalformedRlp && (rlp_strings(batch@) is None || rlp_strings(batch@)
                == Some(Seq::<Seq<u8>>::empty())),
        },
{
    match try_decode_rlp_segments(batch) {
        Some(segments) => Ok(handle_segments(&segments)),
        None => Err(DecodeError::MalformedRlp),
    }
}

} // verus!
