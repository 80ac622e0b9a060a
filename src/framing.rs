use vstd::prelude::*;
use crate::bytes::{be_uint, le_uint, read_be, read_le};
use crate::outcome::DecodeError;

verus! {

/// Length of the batch-bounds header.
pub const BATCH_HEADER_LEN: usize = 40;

/// Returns `blob` without its optional wrapper of a 4-byte big-endian version
/// and a 4-byte little-endian size. Where the buffer is shorter than 8 bytes,
/// or the size is zero or runs past the end, the whole buffer is the payload.
pub open spec fn framed_payload(b: Seq<u8>) -> Seq<u8> {
    if b.len() < 8 {
        b
    } else {
        let size = le_uint(b.subrange(4, 8)) as int;
        if size == 0 || 8 + size > b.len() {
            b
        } else {
            b.subrange(8, 8 + size)
        }
    }
}

/// Strips the optional version and size wrapper from `blob`.
pub fn extract_payload_from_4844_blob(blob: &[u8]) -> (r: Vec<u8>)
    ensures
        r@ == framed_payload(blob@),
{
    if blob.len() < 8 {
        return vstd::slice::slice_to_vec(blob);
    }
    let size = read_le(blob, 4, 4);
    if size == 0 || size > (blob.len() - 8) as u64 {
        return vstd::slice::slice_to_vec(blob);
    }
    let end = 8 + size as usize;
    vstd::slice::slice_to_vec(&blob[8..end])
}

/// The bounds a batch declares for itself: five unsigned 64-bit fields.
#[derive(Clone, Copy, Debug, PartialEq, Eq, Structural)]
pub struct BatchHeader {
    pub min_timestamp: u64,
    pub max_timestamp: u64,
    pub min_block_number: u64,
    pub max_block_number: u64,
    pub after_delayed_count: u64,
}

/// The five fields of the first 40 bytes of `d`, read big-endian.
pub open spec fn header_be(d: Seq<u8>) -> BatchHeader {
    BatchHeader {
        min_timestamp: be_uint(d.subrange(0, 8)) as u64,
        max_timestamp: be_uint(d.subrange(8, 16)) as u64,
        min_block_number: be_uint(d.subrange(16, 24)) as u64,
        max_block_number: be_uint(d.subrange(24, 32)) as u64,
        after_delayed_count: be_uint(d.subrange(32, 40)) as u64,
    }
}

/// The five fields of the first 40 bytes of `d`, read little-endian.
pub open spec fn header_le(d: Seq<u8>) -> BatchHeader {
    BatchHeader {
        min_timestamp: le_uint(d.subrange(0, 8)) as u64,
        max_timestamp: le_uint(d.subrange(8, 16)) as u64,
        min_block_number: le_uint(d.subrange(16, 24)) as u64,
        max_block_number: le_uint(d.subrange(24, 32)) as u64,
        after_delayed_count: le_uint(d.subrange(32, 40)) as u64,
    }
}

/// `|a - b|`.
pub open spec fn abs_diff(a: u64, b: u64) -> nat {
    if a >= b {
        (a - b) as nat
    } else {
        (b - a) as nat
    }
}

/// How far the timestamp and block-number bounds of `h` lie from reference
/// bounds: the sum of the four absolute differences.
pub open spec fn header_score(h: BatchHeader, min_ts: u64, max_ts: u64, min_bn: u64, max_bn: u64) -> nat {
    abs_diff(h.min_timestamp, min_ts) + abs_diff(h.max_timestamp, max_ts) + abs_diff(h.min_block_number, min_bn)
        + abs_diff(h.max_block_number, max_bn)
}

/// The header that `d` starts with, in the byte order whose reading lies
/// closer to the reference bounds (big-endian on a tie); `None` under 40 bytes.
pub open spec fn autodetect(d: Seq<u8>, min_ts: u64, max_ts: u64, min_bn: u64, max_bn: u64) -> Option<BatchHeader> {
    if d.len() < 40 {
        None
    } else if header_score(header_le(d), min_ts, max_ts, min_bn, max_bn) < header_score(
        header_be(d),
        min_ts,
        max_ts,
        min_bn,
        max_bn,
    ) {
        Some(header_le(d))
    } else {
        Some(header_be(d))
    }
}

fn read_header(data: &[u8], big_endian: bool) -> (h: BatchHeader)
    requires
        data@.len() >= 40,
    ensures
        big_endian ==> h == header_be(data@),
        !big_endian ==> h == header_le(data@),
{
    if big_endian {
        BatchHeader {
            min_timestamp: read_be(data, 0, 8),
            max_timestamp: read_be(data, 8, 8),
            min_block_number: read_be(data, 16, 8),
            max_block_number: read_be(data, 24, 8),
            after_delayed_count: read_be(data, 32, 8),
        }
    } else {
        BatchHeader {
            min_timestamp: read_le(data, 0, 8),
            max_timestamp: read_le(data, 8, 8),
            min_block_number: read_le(data, 16, 8),
            max_block_number: read_le(data, 24, 8),
            after_delayed_count: read_le(data, 32, 8),
        }
    }
}

/// Parses the 40-byte header at the start of `data` big-endian; returns it
/// and the bytes after it. Under 40 bytes is a `TruncatedBuffer`.
pub fn parse_batch_header_be(data: &[u8]) -> (r: Result<(BatchHeader, &[u8]), DecodeError>)
    ensures
        match r {
            Ok((h, rest)) => data@.len() >= 40 && h == header_be(data@) && rest@ == data@.skip(40),
            Err(e) => data@.len() < 40 && e == DecodeError::TruncatedBuffer,
        },
{
    if data.len() < BATCH_HEADER_LEN {
        return Err(DecodeError::TruncatedBuffer);
    }
    let rest = &data[BATCH_HEADER_LEN..data.len()];
    assert(rest@ =~= data@.skip(40));
    Ok((read_header(data, true), rest))
}

/// Parses the 40-byte header at the start of `data` little-endian; returns it
/// and the bytes after it. Under 40 bytes is a `TruncatedBuffer`.
pub fn parse_batch_header_le(data: &[u8]) -> (r: Result<(BatchHeader, &[u8]), DecodeError>)
    ensures
        match r {
            Ok((h, rest)) => data@.len() >= 40 && h == header_le(data@) && rest@ == data@.skip(40),
            Err(e) => data@.len() < 40 && e == DecodeError::TruncatedBuffer,
        },
{
    if data.len() < BATCH_HEADER_LEN {
        return Err(DecodeError::TruncatedBuffer);
    }
    let rest = &data[BATCH_HEADER_LEN..data.len()];
    assert(rest@ =~= data@.skip(40));
    Ok((read_header(data, false), rest))
}

/// Parses the 40-byte header at the start of `data` in network (big-endian)
/// byte order; the same as [`parse_batch_header_be`].
pub fn parse_batch_header(data: &[u8]) -> (r: Result<(BatchHeader, &[u8]), DecodeError>)
    ensures
        match r {
            Ok((h, rest)) => data@.len() >= 40 && h == header_be(data@) && rest@ == data@.skip(40),
            Err(e) => data@.len() < 40 && e == DecodeError::TruncatedBuffer,
        },
{
    parse_batch_header_be(data)
}

fn abs_diff_u128(a: u64, b: u64) -> (r: u128)
    ensures
        r == abs_diff(a, b),
{
    if a >= b {
        (a - b) as u128
    } else {
        (b - a) as u128
    }
}

/// How far the bounds of `h` lie from the reference bounds.
pub fn score(h: &BatchHeader, min_ts: u64, max_ts: u64, min_bn: u64, max_bn: u64) -> (r: u128)
    ensures
        r == header_score(*h, min_ts, max_ts, min_bn, max_bn),
{
    abs_diff_u128(h.min_timestamp, min_ts) + abs_diff_u128(h.max_timestamp, max_ts) + abs_diff_u128(
        h.min_block_number,
        min_bn,
    ) + abs_diff_u128(h.max_block_number, max_bn)
}

/// Parses the 40-byte header at the start of `data` in whichever byte order
/// reads closer to the reference bounds (big-endian on a tie); returns it and
/// the bytes after it. Under 40 bytes is a `TruncatedBuffer`.
pub fn parse_header_autodetect<'a>(
    data: &'a [u8],
    ev_min_ts: u64,
    ev_max_ts: u64,
    ev_min_bn: u64,
    ev_max_bn: u64,
) -> (r: Result<(BatchHeader, &'a [u8]), DecodeError>)
    ensures
        match r {
            Ok((h, rest)) => autodetect(data@, ev_min_ts, ev_max_ts, ev_min_bn, ev_max_bn) == Some(h)
                && rest@ == data@.skip(40),
            Err(e) => autodetect(data@, ev_min_ts, ev_max_ts, ev_min_bn, ev_max_bn) is None && e
                == DecodeError::TruncatedBuffer,
        },
{
    let be = parse_batch_header_be(data);
    let le = parse_batch_header_le(data);
    match (be, le) {
        (Ok((hb, rb)), Ok((hl, rl))) => {
            let sb = score(&hb, ev_min_ts, ev_max_ts, ev_min_bn, ev_max_bn);
            let sl = score(&hl, ev_min_ts, ev_max_ts, ev_min_bn, ev_max_bn);
            if sl < sb {
                Ok((hl, rl))
            } else {
                Ok((hb, rb))
            }
        },
        (Ok(v), Err(_)) => Ok(v),
        (Err(_), Ok(v)) => Ok(v),
        (Err(e), Err(_)) => Err(e),
    }
}

/// Header detection is deterministic and looks at the first 40 bytes alone:
/// two buffers that agree on them get the same header for the same reference
/// bounds. The header chosen is one of the two readings, and no farther from
/// the bounds than the other.
pub proof fn lemma_header_choice_deterministic(
    d1: Seq<u8>,
    d2: Seq<u8>,
    min_ts: u64,
    max_ts: u64,
    min_bn: u64,
    max_bn: u64,
)
    requires
        d1.len() >= 40,
        d2.len() >= 40,
        d1.take(40) == d2.take(40),
    ensures
        autodetect(d1, min_ts, max_ts, min_bn, max_bn) == autodetect(d2, min_ts, max_ts, min_bn, max_bn),
        autodetect(d1, min_ts, max_ts, min_bn, max_bn) matches Some(h) && (h == header_be(d1) || h
            == header_le(d1)) && header_score(h, min_ts, max_ts, min_bn, max_bn) <= header_score(
            header_be(d1),
            min_ts,
            max_ts,
            min_bn,
            max_bn,
        ) && header_score(h, min_ts, max_ts, min_bn, max_bn) <= header_score(
            header_le(d1),
            min_ts,
            max_ts,
            min_bn,
            max_bn,
        ),
{
    assert forall|a: int, b: int| 0 <= a <= b <= 40 implies #[trigger] d1.subrange(a, b) == d2.subrange(a, b) by {
        assert(d1.subrange(a, b) =~= d1.take(40).subrange(a, b));
        assert(d2.subrange(a, b) =~= d2.take(40).subrange(a, b));
    }
    assert(header_be(d1) == header_be(d2));
    assert(header_le(d1) == header_le(d2));
}

} // verus!
