use vstd::prelude::*;
use crate::bytes::{
    be_uint, byte_pow, le_uint, lemma_be_uint_bound, lemma_be_uint_concat, lemma_byte_pow_4, lemma_le_uint_concat, read_be, read_le,
};
use crate::message::l2_decode;
use crate::message::{decode_segment, segment_txs};
use crate::outcome::views;

verus! {

/// How far past a position where no header parses the parser looks for one.
pub const RESYNC_WINDOW: usize = 32;

/// The kind bytes that a segment header may start with.
pub open spec fn is_plausible_kind(b: u8) -> bool {
    b == 0x00 || b == 0x01 || b == 0x02 || b == 0x03 || b == 0x04 || b == 0x09
}

/// Whether `byte` is one of the kinds a segment header may start with.
pub fn plausible_kind(byte: u8) -> (r: bool)
    ensures
        r == is_plausible_kind(byte),
{
    byte == 0x00 || byte == 0x01 || byte == 0x02 || byte == 0x03 || byte == 0x04 || byte == 0x09
}

/// The width and byte order of the length field of a segment header.
#[derive(Clone, Copy, Debug, PartialEq, Eq, Structural)]
pub enum LenCodec {
    U64Be,
    U64Le,
    U32Be,
    U32Le,
}

/// Width in bytes of the length field.
pub open spec fn codec_width(c: LenCodec) -> nat {
    match c {
        LenCodec::U64Be | LenCodec::U64Le => 8,
        LenCodec::U32Be | LenCodec::U32Le => 4,
    }
}

/// The length that the field `s` encodes.
pub open spec fn codec_value(c: LenCodec, s: Seq<u8>) -> nat {
    match c {
        LenCodec::U64Be | LenCodec::U32Be => be_uint(s),
        LenCodec::U64Le | LenCodec::U32Le => le_uint(s),
    }
}

/// The kind and payload length of a header of shape `c` at the start of
/// `buf`: the kind must be plausible, the length nonzero, and the payload
/// must fit in what follows the header.
pub open spec fn header_spec(buf: Seq<u8>, c: LenCodec) -> Option<(u8, nat)> {
    let w = codec_width(c);
    if buf.len() < 1 + w {
        None
    } else {
        let k = buf[0];
        let n = codec_value(c, buf.subrange(1, 1 + w as int));
        if !is_plausible_kind(k) || n == 0 || n > buf.len() - 1 - w {
            None
        } else {
            Some((k, n))
        }
    }
}

/// The first of the four header shapes (8-byte big-endian, 8-byte
/// little-endian, 4-byte big-endian, 4-byte little-endian) that parses at the
/// start of `buf`: kind, header length and payload length.
pub open spec fn take_spec(buf: Seq<u8>) -> Option<(u8, nat, nat)> {
    match header_spec(buf, LenCodec::U64Be) {
        Some((k, n)) => Some((k, 9nat, n)),
        None => match header_spec(buf, LenCodec::U64Le) {
            Some((k, n)) => Some((k, 9nat, n)),
            None => match header_spec(buf, LenCodec::U32Be) {
                Some((k, n)) => Some((k, 5nat, n)),
                None => match header_spec(buf, LenCodec::U32Le) {
                    Some((k, n)) => Some((k, 5nat, n)),
                    None => None,
                },
            },
        },
    }
}

/// Where the next segment starts and what its header says.
#[derive(Clone, Copy, Debug, PartialEq, Eq, Structural)]
pub struct SegmentHeader {
    /// Bytes skipped before the header.
    pub skip: usize,
    /// The kind byte.
    pub kind: u8,
    /// Length of the header: the kind byte and the length field.
    pub header_len: usize,
    /// Length of the payload that follows the header.
    pub payload_len: usize,
}

impl SegmentHeader {
    /// Bytes that the segment takes, counting the skipped ones.
    pub open spec fn consumed(self) -> int {
        self.skip + self.header_len + self.payload_len
    }
}

/// The first position `skip` or later, within the resync window and before the
/// end of `buf`, where a header parses.
pub open spec fn find_from(buf: Seq<u8>, skip: nat) -> Option<SegmentHeader>
    decreases 33 - skip,
{
    if skip > 32 || skip >= buf.len() {
        None
    } else {
        match take_spec(buf.skip(skip as int)) {
            Some((k, hl, n)) => Some(
                SegmentHeader { skip: skip as usize, kind: k, header_len: hl as usize, payload_len: n as usize },
            ),
            None => find_from(buf, skip + 1),
        }
    }
}

/// The next segment of `buf`: at its start, or after skipping up to 32 bytes.
pub open spec fn find_segment(buf: Seq<u8>) -> Option<SegmentHeader> {
    find_from(buf, 0)
}

/// The transactions of a resynchronizing segment stream, in order. Parsing
/// stops where no header is found within the resync window.
pub open spec fn stream_txs(buf: Seq<u8>) -> Seq<Seq<u8>>
    decreases buf.len(),
{
    match find_segment(buf) {
        None => Seq::empty(),
        Some(h) => if 0 < h.consumed() <= buf.len() {
            segment_txs(h.kind, buf.subrange(h.skip + h.header_len, h.consumed()))
                + stream_txs(buf.skip(h.consumed()))
        } else {
            Seq::empty()
        },
    }
}

proof fn lemma_take_spec_fits(buf: Seq<u8>)
    ensures
        take_spec(buf) matches Some((k, hl, n)) ==> (hl == 5 || hl == 9) && 0 < n && hl + n <= buf.len(),
{
}

proof fn lemma_find_from_fits(buf: Seq<u8>, skip: nat)
    requires
        buf.len() <= usize::MAX,
    ensures
        find_from(buf, skip) matches Some(h) ==> skip <= h.skip <= 32 && (h.header_len == 5
            || h.header_len == 9) && 0 < h.payload_len && h.consumed() <= buf.len()
            && take_spec(buf.skip(h.skip as int)) == Some((h.kind, h.header_len as nat, h.payload_len as nat)),
    decreases 33 - skip,
{
    if skip <= 32 && skip < buf.len() {
        lemma_take_spec_fits(buf.skip(skip as int));
        if take_spec(buf.skip(skip as int)) is None {
            lemma_find_from_fits(buf, skip + 1);
        }
    }
}

/// Parses a header of shape `codec` at the start of `buf`: kind, payload
/// length, and the bytes after the header.
pub fn try_header(buf: &[u8], codec: LenCodec) -> (r: Option<(u8, usize, &[u8])>)
    ensures
        match r {
            None => header_spec(buf@, codec) is None,
            Some((k, n, rest)) => header_spec(buf@, codec) == Some((k, n as nat)) && rest@ == buf@.skip(
                1 + codec_width(codec) as int,
            ),
        },
{
    let w: usize = match codec {
        LenCodec::U64Be | LenCodec::U64Le => 8,
        LenCodec::U32Be | LenCodec::U32Le => 4,
    };
    if buf.len() < 1 + w {
        return None;
    }
    let k = buf[0];
    let len = match codec {
        LenCodec::U64Be | LenCodec::U32Be => read_be(buf, 1, w),
        LenCodec::U64Le | LenCodec::U32Le => read_le(buf, 1, w),
    };
    if !plausible_kind(k) || len == 0 || len > (buf.len() - 1 - w) as u64 {
        return None;
    }
    let rest = &buf[1 + w..buf.len()];
    assert(rest@ =~= buf@.skip(1 + w));
    Some((k, len as usize, rest))
}

/// Parses a segment header at the very start of `buf`, trying the four shapes
/// in order: kind, payload length, and the bytes after the header.
pub fn try_take_segment(buf: &[u8]) -> (r: Option<((u8, usize), &[u8])>)
    ensures
        match r {
            None => take_spec(buf@) is None,
            Some(((k, n), rest)) => take_spec(buf@) matches Some((k2, hl, n2)) && k2 == k && n2 == n
                && rest@ == buf@.skip(hl as int),
        },
{
    if let Some((k, len, rest)) = try_header(buf, LenCodec::U64Be) {
        return Some(((k, len), rest));
    }
    if let Some((k, len, rest)) = try_header(buf, LenCodec::U64Le) {
        return Some(((k, len), rest));
    }
    if let Some((k, len, rest)) = try_header(buf, LenCodec::U32Be) {
        return Some(((k, len), rest));
    }
    if let Some((k, len, rest)) = try_header(buf, LenCodec::U32Le) {
        return Some(((k, len), rest));
    }
    None
}

/// Finds the next segment of `buf`: at its start, or else at the first of the
/// next 32 positions where a header parses.
pub fn next_segment(buf: &[u8]) -> (r: Option<SegmentHeader>)
    ensures
        r == find_segment(buf@),
{
    let mut skip: usize = 0;
    while skip <= RESYNC_WINDOW && skip < buf.len()
        invariant
            skip <= 33,
            find_segment(buf@) == find_from(buf@, skip as nat),
        decreases 33 - skip,
    {
        let shifted = &buf[skip..buf.len()];
        assert(shifted@ =~= buf@.skip(skip as int));
        match try_take_segment(shifted) {
            Some(((kind, len), rest)) => {
                proof {
                    lemma_take_spec_fits(shifted@);
                }
                let header_len = shifted.len() - rest.len();
                return Some(SegmentHeader { skip, kind, header_len, payload_len: len });
            },
            None => {},
        }
        skip = skip + 1;
    }
    None
}

/// Parses `batch_data` as a stream of kind-tagged, length-prefixed segments,
/// resynchronizing over up to 32 stray bytes where no header parses, and
/// returns the transactions the segments yield, in order. Parsing stops, and
/// keeps what it found, where no header is found within the window.
pub fn parse_top_level_segments(batch_data: &[u8]) -> (r: Vec<Vec<u8>>)
    ensures
        views(r@) == stream_txs(batch_data@),
{
    let mut out: Vec<Vec<u8>> = Vec::new();
    let mut pos: usize = 0;
    assert(batch_data@.skip(0) =~= batch_data@);
    assert(views(out@) + stream_txs(batch_data@) =~= stream_txs(batch_data@));
    while pos < batch_data.len()
        invariant
            pos <= batch_data@.len(),
            views(out@) + stream_txs(batch_data@.skip(pos as int)) == stream_txs(batch_data@),
        decreases batch_data@.len() - pos,
    {
        let cursor = &batch_data[pos..batch_data.len()];
        let cursor_len = cursor.len();
        assert(cursor@ =~= batch_data@.skip(pos as int));
        match next_segment(cursor) {
            None => {
                assert(views(out@) + Seq::<Seq<u8>>::empty() =~= views(out@));
                return out;
            },
            Some(h) => {
                proof {
                    lemma_find_from_fits(cursor@, 0);
                }
                let start = h.skip + h.header_len;
                let end = start + h.payload_len;
                let payload = &cursor[start..end];
                let ghost before = views(out@);
                decode_segment(h.kind, payload, &mut out);
                proof {
                    let seg = segment_txs(h.kind, payload@);
                    let rest = stream_txs(cursor@.skip(end as int));
                    assert(cursor@.skip(end as int) =~= batch_data@.skip(pos + end));
                    assert(before + (seg + rest) =~= (before + seg) + rest);
                }
                pos = pos + end;
            },
        }
    }
    assert(batch_data@.skip(pos as int) =~= Seq::<u8>::empty());
    assert(views(out@) + Seq::<Seq<u8>>::empty() =~= views(out@));
    out
}

/// Every position before `to` fails to parse, so the search from `from`
/// lands where the search from `to` does.
proof fn lemma_find_from_skips(buf: Seq<u8>, from: nat, to: nat)
    requires
        from <= to <= 32,
        to < buf.len(),
        forall|j: int| from <= j < to ==> #[trigger] take_spec(buf.skip(j)) is None,
    ensures
        find_from(buf, from) == find_from(buf, to),
    decreases to - from,
{
    if from < to {
        assert(take_spec(buf.skip(from as int)) is None);
        lemma_find_from_skips(buf, from + 1, to);
    }
}

/// Resynchronization: after 1 to 31 stray bytes at none of whose positions a
/// header parses, the parser still finds a well-formed segment header that
/// follows them, and consumes exactly the stray bytes, the header and the
/// payload before it goes on with the rest.
pub proof fn lemma_resync_recovers(garbage: Seq<u8>, seg: Seq<u8>)
    requires
        1 <= garbage.len() <= 31,
        garbage.len() + seg.len() <= usize::MAX,
        take_spec(seg) is Some,
        forall|j: int| 0 <= j < garbage.len() ==> #[trigger] take_spec((garbage + seg).skip(j)) is None,
    ensures
        find_segment(garbage + seg) matches Some(h) && h.skip == garbage.len() && take_spec(seg) == Some(
            (h.kind, h.header_len as nat, h.payload_len as nat),
        ) && h.consumed() == garbage.len() + h.header_len + h.payload_len,
        ({
            let (k, hl, n) = take_spec(seg)->0;
            stream_txs(garbage + seg) == segment_txs(k, seg.subrange(hl as int, (hl + n) as int))
                + stream_txs(seg.skip((hl + n) as int))
        }),
{
    let buf = garbage + seg;
    let g = garbage.len();
    let gi = g as int;
    lemma_take_spec_fits(seg);
    assert(buf.skip(g as int) =~= seg);
    lemma_find_from_skips(buf, 0, g);
    lemma_find_from_fits(buf, 0);
    let (k, hl, n) = take_spec(seg)->0;
    let hl = hl as int;
    let n = n as int;
    assert(buf.subrange(gi + hl, gi + hl + n) =~= seg.subrange(hl, hl + n));
    assert(buf.skip(gi + hl + n) =~= seg.skip(hl + n));
}

/// Byte sequences joined in order.
pub open spec fn concat_all(pieces: Seq<Seq<u8>>) -> Seq<u8>
    decreases pieces.len(),
{
    if pieces.len() == 0 {
        Seq::empty()
    } else {
        pieces[0] + concat_all(pieces.skip(1))
    }
}

/// The transactions of whole segments, in order: each piece is a segment with
/// a header of `hls[i]` bytes whose first byte is the kind.
pub open spec fn pieces_txs(pieces: Seq<Seq<u8>>, hls: Seq<nat>) -> Seq<Seq<u8>>
    decreases pieces.len(),
{
    if pieces.len() == 0 || hls.len() == 0 {
        Seq::empty()
    } else {
        segment_txs(pieces[0][0], pieces[0].skip(hls[0] as int)) + pieces_txs(pieces.skip(1), hls.skip(1))
    }
}

/// Segments that each parse as one whole segment where they stand, followed by
/// bytes in which no header is found within the resync window: parsing stops
/// there without error, and the transactions of all the segments before it
/// are kept, in order.
pub proof fn lemma_stream_keeps_segments_before_overrun(pieces: Seq<Seq<u8>>, hls: Seq<nat>, b: Seq<u8>)
    requires
        pieces.len() == hls.len(),
        forall|i: int|
            0 <= i < pieces.len() ==> hls[i] <= (#[trigger] pieces[i]).len() && take_spec(
                concat_all(pieces.skip(i)) + b,
            ) == Some((pieces[i][0], hls[i], (pieces[i].len() - hls[i]) as nat)),
        find_segment(b) is None,
        concat_all(pieces).len() + b.len() <= usize::MAX,
    ensures
        stream_txs(concat_all(pieces) + b) == pieces_txs(pieces, hls),
    decreases pieces.len(),
{
    if pieces.len() == 0 {
        assert(concat_all(pieces) + b =~= b);
    } else {
        let p0 = pieces[0];
        let rest = concat_all(pieces.skip(1)) + b;
        let buf = concat_all(pieces) + b;
        assert(buf =~= p0 + rest);
        assert(pieces.skip(0) =~= pieces);
        assert(buf.skip(0) =~= buf);
        lemma_take_spec_fits(buf);
        let hl = hls[0];
        let n = (p0.len() - hl) as nat;
        assert(take_spec(buf) == Some((p0[0], hl, n)));
        assert(find_segment(buf) == Some(
            SegmentHeader { skip: 0, kind: p0[0], header_len: hl as usize, payload_len: n as usize },
        ));
        assert(buf.subrange(hl as int, p0.len() as int) =~= p0.skip(hl as int));
        assert(buf.skip(p0.len() as int) =~= rest);
        assert forall|i: int| 0 <= i < pieces.skip(1).len() implies hls.skip(1)[i] <= (
        #[trigger] pieces.skip(1)[i]).len() && take_spec(concat_all(pieces.skip(1).skip(i)) + b) == Some(
            (pieces.skip(1)[i][0], hls.skip(1)[i], (pieces.skip(1)[i].len() - hls.skip(1)[i]) as nat),
        ) by {
            assert(pieces.skip(1)[i] == pieces[i + 1]);
            assert(pieces.skip(1).skip(i) =~= pieces.skip(i + 1));
        }
        lemma_stream_keeps_segments_before_overrun(pieces.skip(1), hls.skip(1), b);
    }
}

/// A segment of kind `0x00` framed with a 4-byte big-endian length `h`, whose
/// payload is a signed-transaction message (`0x04` then `t`), yields exactly
/// `t`: the 8-byte readings of its header run past the buffer, so the 4-byte
/// big-endian one is taken, for every transaction length that `h` can state.
pub proof fn lemma_u32_be_signed_tx_segment(h: Seq<u8>, t: Seq<u8>)
    requires
        h.len() == 4,
        be_uint(h) == 1 + t.len(),
    ensures
        stream_txs(seq![0x00u8] + h + seq![0x04u8] + t) == seq![t],
{
    let msg = seq![0x04u8] + t;
    let buf = seq![0x00u8] + h + msg;
    assert(seq![0x00u8] + h + seq![0x04u8] + t =~= buf);
    let len = buf.len();
    lemma_byte_pow_4();
    lemma_be_uint_bound(h);
    assert(be_uint(h) < 0x100000000);
    if len >= 9 {
        let r4 = msg.take(4);
        assert(buf.subrange(1, 9) =~= h + r4);
        lemma_be_uint_concat(h, r4);
        assert(be_uint(h) * byte_pow(4) >= byte_pow(4)) by (nonlinear_arith)
            requires
                be_uint(h) >= 1,
        ;
        lemma_le_uint_concat(h, r4);
        assert(r4.skip(1).len() == 3);
        assert(le_uint(r4) == 4 + 256 * le_uint(r4.skip(1)));
        assert(byte_pow(4) * le_uint(r4) >= byte_pow(4)) by (nonlinear_arith)
            requires
                le_uint(r4) >= 4,
        ;
    }
    assert(header_spec(buf, LenCodec::U64Be) is None);
    assert(header_spec(buf, LenCodec::U64Le) is None);
    assert(buf.subrange(1, 5) =~= h);
    assert(header_spec(buf, LenCodec::U32Be) == Some((0x00u8, (1 + t.len()) as nat)));
    assert(buf.skip(0) =~= buf);
    let n = 1 + t.len();
    assert(find_segment(buf) == Some(
        SegmentHeader { skip: 0, kind: 0x00, header_len: 5, payload_len: n as usize },
    ));
    assert(buf.subrange(5, len as int) =~= msg);
    assert(msg.skip(1) =~= t);
    assert(l2_decode(msg, 0).0 == seq![t]);
    assert(buf.skip(len as int) =~= Seq::<u8>::empty());
    assert(find_from(Seq::<u8>::empty(), 0) is None);
    assert(stream_txs(Seq::<u8>::empty()) == Seq::<Seq<u8>>::empty());
    let hd = find_segment(buf)->0;
    assert(hd.consumed() == len);
    assert(segment_txs(0x00u8, msg) == seq![t]);
    assert(stream_txs(buf) == segment_txs(0x00u8, msg) + stream_txs(Seq::<u8>::empty()));
    assert(seq![t] + Seq::<Seq<u8>>::empty() =~= seq![t]);
}

} // verus!
