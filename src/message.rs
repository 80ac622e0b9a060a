use vstd::prelude::*;
use crate::bytes::{be_uint, read_be};
use crate::decompress::{decompressed, try_brotli_decompress};
use crate::outcome::{views, DecodeError};

verus! {

/// Segment kind: the payload is an L2 message.
pub const SEGMENT_KIND_L2_MESSAGE: u8 = 0x00;

/// Segment kind: the payload is a Brotli-compressed L2 message.
pub const SEGMENT_KIND_L2_MESSAGE_BROTLI: u8 = 0x01;

/// Segment kind: a pointer to delayed messages, left to an outside resolver.
pub const SEGMENT_KIND_DELAYED_MESSAGES: u8 = 0x02;

/// L2 message kind: a batch of nested, length-prefixed L2 messages.
pub const L2_MESSAGE_KIND_BATCH: u8 = 0x03;

/// L2 message kind: one signed transaction.
pub const L2_MESSAGE_KIND_SIGNED_TX: u8 = 0x04;

/// L2 message kind: a synthetic marker for a delayed message.
pub const L2_MESSAGE_KIND_DELAYED: u8 = 0x09;

/// How many nested batches deep a message may go.
pub const MAX_L2_NESTING: usize = 16;

/// The transactions that the L2 message `msg`, found `depth` batches deep,
/// yields, and the error that stopped it if one did.
pub open spec fn l2_decode(msg: Seq<u8>, depth: nat) -> (Seq<Seq<u8>>, Option<DecodeError>)
    decreases 2 * msg.len() + 1,
{
    if msg.len() == 0 {
        (Seq::empty(), None)
    } else if msg[0] == L2_MESSAGE_KIND_SIGNED_TX {
        (seq![msg.skip(1)], None)
    } else if msg[0] == L2_MESSAGE_KIND_BATCH {
        if depth >= MAX_L2_NESTING {
            (Seq::empty(), Some(DecodeError::NestingTooDeep))
        } else {
            frames_decode(msg.skip(1), depth + 1)
        }
    } else {
        (Seq::empty(), None)
    }
}

/// The transactions of a run of sub-frames (an 8-byte big-endian length, then
/// that many bytes of L2 message), each decoded `depth` deep. Decoding stops at
/// the first error; what came before it is kept.
pub open spec fn frames_decode(cur: Seq<u8>, depth: nat) -> (Seq<Seq<u8>>, Option<DecodeError>)
    decreases 2 * cur.len(),
{
    if cur.len() == 0 {
        (Seq::empty(), None)
    } else if cur.len() < 8 {
        (Seq::empty(), Some(DecodeError::TruncatedBuffer))
    } else {
        let n = be_uint(cur.take(8)) as int;
        if n > cur.len() - 8 {
            (Seq::empty(), Some(DecodeError::TruncatedBuffer))
        } else {
            let first = l2_decode(cur.subrange(8, 8 + n), depth);
            if first.1 is Some {
                first
            } else {
                let rest = frames_decode(cur.skip(8 + n), depth);
                (first.0 + rest.0, rest.1)
            }
        }
    }
}

/// `Ok(())` for no error, else the error.
pub open spec fn as_result(e: Option<DecodeError>) -> Result<(), DecodeError> {
    match e {
        None => Ok(()),
        Some(e) => Err(e),
    }
}

/// The transactions that a segment of kind `kind` with payload `payload` yields.
/// Errors inside its message are contained: what was decoded before them stays.
pub open spec fn segment_txs(kind: u8, payload: Seq<u8>) -> Seq<Seq<u8>> {
    if kind == SEGMENT_KIND_L2_MESSAGE {
        l2_decode(payload, 0).0
    } else if kind == SEGMENT_KIND_L2_MESSAGE_BROTLI {
        match decompressed(payload) {
            Some(d) => l2_decode(d, 0).0,
            None => Seq::empty(),
        }
    } else {
        Seq::empty()
    }
}

/// The transactions of a segment whose first byte is its kind; none if it is empty.
pub open spec fn tagged_segment_txs(seg: Seq<u8>) -> Seq<Seq<u8>> {
    if seg.len() == 0 {
        Seq::empty()
    } else {
        segment_txs(seg[0], seg.skip(1))
    }
}

/// The transactions of a list of kind-tagged segments, in order.
pub open spec fn segments_txs(segs: Seq<Seq<u8>>) -> Seq<Seq<u8>>
    decreases segs.len(),
{
    if segs.len() == 0 {
        Seq::empty()
    } else {
        segments_txs(segs.drop_last()) + tagged_segment_txs(segs.last())
    }
}

/// The L2 messages that one kind-tagged segment carries: none for an empty
/// segment, a delayed-message pointer, an unknown kind, or a compressed
/// message that does not decompress.
pub open spec fn segment_messages(seg: Seq<u8>) -> Seq<Seq<u8>> {
    if seg.len() == 0 {
        Seq::empty()
    } else if seg[0] == SEGMENT_KIND_L2_MESSAGE {
        seq![seg.skip(1)]
    } else if seg[0] == SEGMENT_KIND_L2_MESSAGE_BROTLI {
        match decompressed(seg.skip(1)) {
            Some(d) => seq![d],
            None => Seq::empty(),
        }
    } else {
        Seq::empty()
    }
}

/// The L2 messages of a list of segments, in segment order.
pub open spec fn segments_messages(segs: Seq<Seq<u8>>) -> Seq<Seq<u8>>
    decreases segs.len(),
{
    if segs.len() == 0 {
        Seq::empty()
    } else {
        segments_messages(segs.drop_last()) + segment_messages(segs.last())
    }
}

/// The error a message reports, unless an earlier one already did.
pub open spec fn first_error(earlier: Option<DecodeError>, later: Option<DecodeError>) -> Option<DecodeError> {
    if earlier is Some {
        earlier
    } else {
        later
    }
}

/// The transactions of a list of L2 messages decoded in turn, and the first
/// error any of them reported. A failure stays local to its message: the
/// transactions it decoded before failing, and those of the later messages,
/// are all kept.
pub open spec fn messages_decode(msgs: Seq<Seq<u8>>) -> (Seq<Seq<u8>>, Option<DecodeError>)
    decreases msgs.len(),
{
    if msgs.len() == 0 {
        (Seq::empty(), None)
    } else {
        let before = messages_decode(msgs.drop_last());
        let last = l2_decode(msgs.last(), 0);
        (before.0 + last.0, first_error(before.1, last.1))
    }
}

/// Sub-frames back to back: each 8-byte length header followed by its body.
pub open spec fn framed(heads: Seq<Seq<u8>>, bodies: Seq<Seq<u8>>) -> Seq<u8>
    decreases bodies.len(),
{
    if bodies.len() == 0 || heads.len() == 0 {
        Seq::empty()
    } else {
        heads[0] + bodies[0] + framed(heads.skip(1), bodies.skip(1))
    }
}

/// The transactions of a list of messages, each decoded `depth` deep.
pub open spec fn bodies_txs(bodies: Seq<Seq<u8>>, depth: nat) -> Seq<Seq<u8>>
    decreases bodies.len(),
{
    if bodies.len() == 0 {
        Seq::empty()
    } else {
        l2_decode(bodies[0], depth).0 + bodies_txs(bodies.skip(1), depth)
    }
}

/// After any number of well-formed sub-frames that decode without error, a
/// sub-frame whose declared length runs past the end stops the run with
/// `TruncatedBuffer`, and the transactions of the earlier sub-frames are kept.
pub proof fn lemma_truncated_frame_keeps_prior(
    heads: Seq<Seq<u8>>,
    bodies: Seq<Seq<u8>>,
    tail: Seq<u8>,
    depth: nat,
)
    requires
        heads.len() == bodies.len(),
        forall|i: int|
            0 <= i < heads.len() ==> (#[trigger] heads[i]).len() == 8 && be_uint(heads[i]) == bodies[i].len()
                && l2_decode(bodies[i], depth).1 is None,
        tail.len() >= 8,
        be_uint(tail.take(8)) > tail.len() - 8,
    ensures
        frames_decode(framed(heads, bodies) + tail, depth) == (
            bodies_txs(bodies, depth),
            Some(DecodeError::TruncatedBuffer),
        ),
    decreases bodies.len(),
{
    if bodies.len() == 0 {
        assert(framed(heads, bodies) + tail =~= tail);
    } else {
        let rest = framed(heads.skip(1), bodies.skip(1)) + tail;
        let cur = framed(heads, bodies) + tail;
        let n = bodies[0].len() as int;
        assert(heads[0].len() == 8);
        assert(cur =~= heads[0] + (bodies[0] + rest));
        assert(cur.take(8) =~= heads[0]);
        assert(cur.subrange(8, 8 + n) =~= bodies[0]);
        assert(cur.skip(8 + n) =~= rest);
        assert forall|i: int| 0 <= i < heads.skip(1).len() implies (#[trigger] heads.skip(1)[i]).len() == 8
            && be_uint(heads.skip(1)[i]) == bodies.skip(1)[i].len() && l2_decode(bodies.skip(1)[i], depth).1 is None by {
            assert(heads.skip(1)[i] == heads[i + 1]);
        }
        lemma_truncated_frame_keeps_prior(heads.skip(1), bodies.skip(1), tail, depth);
    }
}

/// A nested batch whose sub-frames decode one level deep without error, up to
/// a sub-frame whose declared length runs past the end, yields their
/// transactions and reports `TruncatedBuffer`.
pub proof fn lemma_batch_truncated_frame_keeps_prior(heads: Seq<Seq<u8>>, bodies: Seq<Seq<u8>>, tail: Seq<u8>)
    requires
        heads.len() == bodies.len(),
        forall|i: int|
            0 <= i < heads.len() ==> (#[trigger] heads[i]).len() == 8 && be_uint(heads[i]) == bodies[i].len()
                && l2_decode(bodies[i], 1).1 is None,
        tail.len() >= 8,
        be_uint(tail.take(8)) > tail.len() - 8,
    ensures
        l2_decode(seq![L2_MESSAGE_KIND_BATCH] + framed(heads, bodies) + tail, 0) == (
            bodies_txs(bodies, 1),
            Some(DecodeError::TruncatedBuffer),
        ),
{
    let msg = seq![L2_MESSAGE_KIND_BATCH] + framed(heads, bodies) + tail;
    assert(msg.skip(1) =~= framed(heads, bodies) + tail);
    lemma_truncated_frame_keeps_prior(heads, bodies, tail, 1);
}

/// Reads the first eight bytes of `bytes` as a big-endian integer.
pub fn read_u64_be_8(bytes: &[u8]) -> (r: Result<u64, DecodeError>)
    ensures
        bytes@.len() < 8 ==> r == Err::<u64, DecodeError>(DecodeError::TruncatedBuffer),
        bytes@.len() >= 8 ==> r == Ok::<u64, DecodeError>(be_uint(bytes@.take(8)) as u64),
{
    if bytes.len() < 8 {
        return Err(DecodeError::TruncatedBuffer);
    }
    let v = read_be(bytes, 0, 8);
    assert(bytes@.subrange(0, 8) =~= bytes@.take(8));
    Ok(v)
}

/// Decodes one L2 message, found `depth` batches deep, appending the
/// transactions it yields to `out_txs`.
fn decode_l2_message_at(msg: &[u8], depth: usize, out_txs: &mut Vec<Vec<u8>>) -> (r: Result<(), DecodeError>)
    requires
        depth <= MAX_L2_NESTING,
    ensures
        views(final(out_txs)@) == views(old(out_txs)@) + l2_decode(msg@, depth as nat).0,
        r == as_result(l2_decode(msg@, depth as nat).1),
    decreases msg@.len(),
{
    if msg.len() == 0 {
        assert(views(out_txs@) + Seq::<Seq<u8>>::empty() =~= views(out_txs@));
        return Ok(());
    }
    let kind = msg[0];
    let body = &msg[1..msg.len()];
    assert(body@ =~= msg@.skip(1));
    if kind == L2_MESSAGE_KIND_SIGNED_TX {
        let tx = vstd::slice::slice_to_vec(body);
        assert(views(out_txs@.push(tx)) =~= views(out_txs@) + seq![tx@]);
        out_txs.push(tx);
        Ok(())
    } else if kind == L2_MESSAGE_KIND_BATCH {
        if depth >= MAX_L2_NESTING {
            assert(views(out_txs@) + Seq::<Seq<u8>>::empty() =~= views(out_txs@));
            return Err(DecodeError::NestingTooDeep);
        }
        let ghost start = views(out_txs@);
        let ghost total = frames_decode(body@, depth as nat + 1);
        let mut pos: usize = 0;
        assert(l2_decode(msg@, depth as nat) == total);
        assert(body@.skip(0) =~= body@);
        assert(views(out_txs@) + total.0 =~= start + total.0);
        while pos < body.len()
            invariant
                pos <= body@.len(),
                body@.len() < msg@.len(),
                depth < MAX_L2_NESTING,
                total == frames_decode(body@, depth as nat + 1),
                total == l2_decode(msg@, depth as nat),
                start == views(old(out_txs)@),
                views(out_txs@) + frames_decode(body@.skip(pos as int), depth as nat + 1).0 == start + total.0,
                frames_decode(body@.skip(pos as int), depth as nat + 1).1 == total.1,
            decreases body@.len() - pos,
        {
            let ghost cur = body@.skip(pos as int);
            let remaining = body.len() - pos;
            assert(cur.len() == remaining as int);
            if remaining < 8 {
                assert(views(out_txs@) + Seq::<Seq<u8>>::empty() =~= views(out_txs@));
                return Err(DecodeError::TruncatedBuffer);
            }
            let next_len = read_be(body, pos, 8);
            assert(body@.subrange(pos as int, pos + 8) =~= cur.take(8));
            if next_len > (remaining - 8) as u64 {
                assert(views(out_txs@) + Seq::<Seq<u8>>::empty() =~= views(out_txs@));
                return Err(DecodeError::TruncatedBuffer);
            }
            let n = next_len as usize;
            let frame = &body[pos + 8..pos + 8 + n];
            assert(frame@ =~= cur.subrange(8, 8 + n));
            let ghost before = views(out_txs@);
            let res = decode_l2_message_at(frame, depth + 1, out_txs);
            let ghost first = l2_decode(frame@, depth as nat + 1);
            match res {
                Err(e) => {
                    assert(before + first.0 + Seq::<Seq<u8>>::empty() =~= before + first.0);
                    return Err(e);
                },
                Ok(()) => {},
            }
            proof {
                let rest = frames_decode(cur.skip(8 + n), depth as nat + 1);
                assert(cur.skip(8 + n) =~= body@.skip(pos + 8 + n));
                assert(before + (first.0 + rest.0) =~= (before + first.0) + rest.0);
            }
            pos = pos + 8 + n;
        }
        assert(body@.skip(pos as int) =~= Seq::<u8>::empty());
        assert(views(out_txs@) + Seq::<Seq<u8>>::empty() =~= views(out_txs@));
        Ok(())
    } else {
        assert(views(out_txs@) + Seq::<Seq<u8>>::empty() =~= views(out_txs@));
        Ok(())
    }
}

/// Decodes one L2 message and appends the transactions it yields to
/// `out_txs`, in order. A signed transaction is emitted verbatim; a batch is
/// read as sub-frames and each is decoded in turn; other kinds are skipped.
/// On an error, the transactions decoded before it stay in `out_txs`.
pub fn decode_l2_message(msg: &[u8], out_txs: &mut Vec<Vec<u8>>) -> (r: Result<(), DecodeError>)
    ensures
        views(final(out_txs)@) == views(old(out_txs)@) + l2_decode(msg@, 0).0,
        r == as_result(l2_decode(msg@, 0).1),
{
    decode_l2_message_at(msg, 0, out_txs)
}

/// Decodes one segment of kind `kind` and appends the transactions it yields
/// to `out_txs`. A compressed message that fails to decompress, an error
/// inside a message, and unknown kinds are skipped.
pub fn decode_segment(kind: u8, payload: &[u8], out_txs: &mut Vec<Vec<u8>>)
    ensures
        views(final(out_txs)@) == views(old(out_txs)@) + segment_txs(kind, payload@),
{
    if kind == SEGMENT_KIND_L2_MESSAGE {
        let _ = decode_l2_message(payload, out_txs);
    } else if kind == SEGMENT_KIND_L2_MESSAGE_BROTLI {
        match try_brotli_decompress(payload) {
            Some(d) => {
                let _ = decode_l2_message(&d, out_txs);
            },
            None => {
                assert(views(out_txs@) + Seq::<Seq<u8>>::empty() =~= views(out_txs@));
            },
        }
    } else {
        assert(views(out_txs@) + Seq::<Seq<u8>>::empty() =~= views(out_txs@));
    }
}

/// The transactions of a list of segments, each tagged by its first byte.
/// Empty segments and segments of unknown kinds are skipped.
pub fn handle_segments(segments: &Vec<Vec<u8>>) -> (r: Vec<Vec<u8>>)
    ensures
        views(r@) == segments_txs(views(segments@)),
{
    let mut out: Vec<Vec<u8>> = Vec::new();
    let mut i: usize = 0;
    while i < segments.len()
        invariant
            i <= segments@.len(),
            views(out@) == segments_txs(views(segments@).take(i as int)),
        decreases segments@.len() - i,
    {
        let seg = &segments[i];
        proof {
            assert(views(segments@).take(i + 1).drop_last() =~= views(segments@).take(i as int));
        }
        if seg.len() > 0 {
            assert(seg@.subrange(1, seg@.len() as int) =~= seg@.skip(1));
            decode_segment(seg[0], &seg[1..seg.len()], &mut out);
        } else {
            assert(views(out@) + Seq::<Seq<u8>>::empty() =~= views(out@));
        }
        i = i + 1;
    }
    assert(views(segments@).take(segments@.len() as int) =~= views(segments@));
    out
}

/// The L2 messages of a list of segments, in segment order: plain ones as
/// they are, compressed ones decompressed. Empty segments, delayed-message
/// pointers, unknown kinds and compressed messages that do not decompress are
/// skipped; the call always succeeds.
pub fn segments_to_l2_messages(segments: &Vec<Vec<u8>>) -> (r: Result<Vec<Vec<u8>>, DecodeError>)
    ensures
        r matches Ok(m) && views(m@) == segments_messages(views(segments@)),
{
    let mut msgs: Vec<Vec<u8>> = Vec::new();
    let mut i: usize = 0;
    while i < segments.len()
        invariant
            i <= segments@.len(),
            segments_messages(views(segments@).take(i as int)) == views(msgs@),
        decreases segments@.len() - i,
    {
        let seg = &segments[i];
        proof {
            assert(views(segments@).take(i + 1).drop_last() =~= views(segments@).take(i as int));
        }
        if seg.len() > 0 {
            let kind = seg[0];
            let payload = &seg[1..seg.len()];
            assert(payload@ =~= seg@.skip(1));
            if kind == SEGMENT_KIND_L2_MESSAGE {
                let m = vstd::slice::slice_to_vec(payload);
                assert(views(msgs@.push(m)) =~= views(msgs@) + seq![m@]);
                msgs.push(m);
            } else if kind == SEGMENT_KIND_L2_MESSAGE_BROTLI {
                match try_brotli_decompress(payload) {
                    Some(d) => {
                        assert(views(msgs@.push(d)) =~= views(msgs@) + seq![d@]);
                        msgs.push(d);
                    },
                    None => {
                        assert(views(msgs@) + Seq::<Seq<u8>>::empty() =~= views(msgs@));
                    },
                }
            } else {
                assert(views(msgs@) + Seq::<Seq<u8>>::empty() =~= views(msgs@));
            }
        } else {
            assert(views(msgs@) + Seq::<Seq<u8>>::empty() =~= views(msgs@));
        }
        i = i + 1;
    }
    assert(views(segments@).take(segments@.len() as int) =~= views(segments@));
    Ok(msgs)
}

/// Decodes a list of L2 messages in turn into `out_txs`. A message that fails
/// keeps what it decoded before failing, and decoding goes on with the next
/// one; the first error met is returned once all are done.
pub fn decode_l2_messages(msgs: &Vec<Vec<u8>>, out_txs: &mut Vec<Vec<u8>>) -> (r: Result<(), DecodeError>)
    ensures
        views(final(out_txs)@) == views(old(out_txs)@) + messages_decode(views(msgs@)).0,
        r == as_result(messages_decode(views(msgs@)).1),
{
    let ghost start = views(out_txs@);
    let mut first: Option<DecodeError> = None;
    let mut i: usize = 0;
    assert(views(msgs@).take(0) =~= Seq::<Seq<u8>>::empty());
    assert(start + Seq::<Seq<u8>>::empty() =~= start);
    while i < msgs.len()
        invariant
            i <= msgs@.len(),
            start == views(old(out_txs)@),
            views(out_txs@) == start + messages_decode(views(msgs@).take(i as int)).0,
            first == messages_decode(views(msgs@).take(i as int)).1,
        decreases msgs@.len() - i,
    {
        proof {
            assert(views(msgs@).take(i + 1).drop_last() =~= views(msgs@).take(i as int));
            assert(views(msgs@).take(i + 1).last() == msgs@[i as int]@);
        }
        let res = decode_l2_message(&msgs[i], out_txs);
        proof {
            let prev = messages_decode(views(msgs@).take(i as int)).0;
            let last = l2_decode(msgs@[i as int]@, 0).0;
            assert(start + (prev + last) =~= (start + prev) + last);
        }
        if first.is_none() {
            if let Err(e) = res {
                first = Some(e);
            }
        }
        i = i + 1;
    }
    assert(views(msgs@).take(msgs@.len() as int) =~= views(msgs@));
    match first {
        Some(e) => Err(e),
        None => Ok(()),
    }
}

} // verus!
