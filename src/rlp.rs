use vstd::prelude::*;
use crate::bytes::{be_uint, read_be};
use crate::outcome::{views, DecodeError};

verus! {

/// The shape of the next RLP item, as told by its first byte.
#[derive(Clone, Copy, Debug, PartialEq, Eq, Structural)]
pub enum RlpKind {
    /// A byte below `0x80` that stands for itself.
    SingleByte,
    /// A string of up to 55 bytes; the field is its length.
    ShortString(u8),
    /// A longer string: the length of its length field, and its length.
    LongString(usize, usize),
    /// A list of up to 55 bytes of payload; the field is that length.
    ShortList(u8),
    /// A longer list; the field is the length of its length field.
    LongList(usize),
}

/// The kind of the next item of `s` and the total length it claims
/// (zero for lists, which this decoder does not measure), where that is known.
pub open spec fn rlp_peek_spec(s: Seq<u8>) -> Option<(RlpKind, nat)> {
    if s.len() == 0 {
        None
    } else {
        let b0 = s[0];
        if b0 < 0x80 {
            Some((RlpKind::SingleByte, 1))
        } else if b0 <= 0xb7 {
            Some((RlpKind::ShortString((b0 - 0x80) as u8), (1 + (b0 - 0x80)) as nat))
        } else if b0 <= 0xbf {
            let lol = b0 - 0xb7;
            if s.len() < 1 + lol {
                None
            } else {
                let l = be_uint(s.subrange(1, 1 + lol)) as int;
                if 1 + lol + l > usize::MAX {
                    None
                } else {
                    Some((RlpKind::LongString(lol as usize, l as usize), (1 + lol + l) as nat))
                }
            }
        } else if b0 <= 0xf7 {
            Some((RlpKind::ShortList((b0 - 0xc0) as u8), 0))
        } else {
            Some((RlpKind::LongList((b0 - 0xf7) as usize), 0))
        }
    }
}

/// The payload of the RLP string item at the start of `s`, and the number of
/// bytes the item takes; `None` for a list or an item that runs past the end.
pub open spec fn rlp_string(s: Seq<u8>) -> Option<(Seq<u8>, nat)> {
    if s.len() == 0 {
        None
    } else {
        let b0 = s[0];
        if b0 < 0x80 {
            Some((seq![b0], 1))
        } else if b0 <= 0xb7 {
            let n = b0 - 0x80;
            if s.len() < 1 + n {
                None
            } else {
                Some((s.subrange(1, 1 + n), (1 + n) as nat))
            }
        } else if b0 <= 0xbf {
            let lol = b0 - 0xb7;
            if s.len() < 1 + lol {
                None
            } else {
                let l = be_uint(s.subrange(1, 1 + lol)) as int;
                if s.len() < 1 + lol + l {
                    None
                } else {
                    Some((s.subrange(1 + lol, 1 + lol + l), (1 + lol + l) as nat))
                }
            }
        } else {
            None
        }
    }
}

/// The total length of the RLP item (string or list) at the start of `s`,
/// where it fits in `s`.
pub open spec fn rlp_item_len(s: Seq<u8>) -> Option<nat> {
    if s.len() == 0 {
        None
    } else {
        let b0 = s[0];
        if b0 < 0x80 {
            Some(1)
        } else if b0 <= 0xb7 || (0xc0 <= b0 && b0 <= 0xf7) {
            let n: int = if b0 <= 0xb7 { b0 - 0x80 } else { b0 - 0xc0 };
            if s.len() < 1 + n {
                None
            } else {
                Some((1 + n) as nat)
            }
        } else {
            let lol: int = if b0 <= 0xbf { b0 - 0xb7 } else { b0 - 0xf7 };
            if s.len() < 1 + lol {
                None
            } else {
                let l = be_uint(s.subrange(1, 1 + lol)) as int;
                if s.len() < 1 + lol + l {
                    None
                } else {
                    Some((1 + lol + l) as nat)
                }
            }
        }
    }
}

/// The payloads of a concatenation of RLP string items that covers `s`
/// exactly; `None` if some item is a list or is cut short.
pub open spec fn rlp_strings(s: Seq<u8>) -> Option<Seq<Seq<u8>>>
    decreases s.len(),
{
    if s.len() == 0 {
        Some(Seq::empty())
    } else {
        match rlp_string(s) {
            None => None,
            Some((p, c)) => if 0 < c <= s.len() {
                match rlp_strings(s.skip(c as int)) {
                    None => None,
                    Some(rest) => Some(seq![p] + rest),
                }
            } else {
                None
            },
        }
    }
}

/// `rest`, with `done` in front of the items if there are any.
pub open spec fn prepend(done: Seq<Seq<u8>>, rest: Option<Seq<Seq<u8>>>) -> Option<Seq<Seq<u8>>> {
    match rest {
        None => None,
        Some(r) => Some(done + r),
    }
}

proof fn lemma_rlp_string_len(s: Seq<u8>)
    ensures
        rlp_string(s) matches Some((p, c)) ==> 0 < c <= s.len() && p.len() <= c,
{
    if s.len() > 0 && s[0] >= 0xb8 && s[0] <= 0xbf {
        let lol = s[0] - 0xb7;
        if s.len() >= 1 + lol {
            let l = be_uint(s.subrange(1, 1 + lol)) as int;
            assert(l >= 0);
        }
    }
}

proof fn lemma_prepend_empty(out: Seq<Vec<u8>>, s: Seq<u8>)
    requires
        out.len() == 0,
    ensures
        prepend(views(out), rlp_strings(s)) == rlp_strings(s),
{
    match rlp_strings(s) {
        Some(r) => {
            assert(views(out) + r =~= r);
        },
        None => {},
    }
}

/// Reads the first byte of `input` and tells the kind of RLP item it opens.
pub fn rlp_peek(input: &[u8]) -> (r: Result<(RlpKind, usize), DecodeError>)
    ensures
        match r {
            Ok((k, n)) => rlp_peek_spec(input@) == Some((k, n as nat)),
            Err(e) => rlp_peek_spec(input@) is None && e == DecodeError::MalformedRlp,
        },
{
    let n = input.len();
    if n == 0 {
        return Err(DecodeError::MalformedRlp);
    }
    let b0 = input[0];
    if b0 < 0x80 {
        Ok((RlpKind::SingleByte, 1))
    } else if b0 <= 0xb7 {
        let len = b0 - 0x80;
        Ok((RlpKind::ShortString(len), 1 + len as usize))
    } else if b0 <= 0xbf {
        let len_of_len = (b0 - 0xb7) as usize;
        if input.len() < 1 + len_of_len {
            return Err(DecodeError::MalformedRlp);
        }
        let l = read_be(input, 1, len_of_len);
        if l > (usize::MAX - 1 - len_of_len) as u64 {
            return Err(DecodeError::MalformedRlp);
        }
        let l = l as usize;
        Ok((RlpKind::LongString(len_of_len, l), 1 + len_of_len + l))
    } else if b0 <= 0xf7 {
        Ok((RlpKind::ShortList(b0 - 0xc0), 0))
    } else {
        Ok((RlpKind::LongList((b0 - 0xf7) as usize), 0))
    }
}

/// Decodes the RLP string item at the start of `input`: its payload and the
/// number of bytes it takes. A list, or an item cut short, is `MalformedRlp`.
pub fn rlp_decode_one_string(input: &[u8]) -> (r: Result<(Vec<u8>, usize), DecodeError>)
    ensures
        match r {
            Ok((p, c)) => rlp_string(input@) == Some((p@, c as nat)),
            Err(e) => rlp_string(input@) is None && e == DecodeError::MalformedRlp,
        },
{
    let n = input.len();
    let (kind, _total) = match rlp_peek(input) {
        Ok(v) => v,
        Err(e) => {
            proof {
                if input@.len() > 0 && 0xb8 <= input@[0] <= 0xbf && input@.len() >= 1 + (input@[0] - 0xb7) {
                    let lol = input@[0] - 0xb7;
                    assert(1 + lol + be_uint(input@.subrange(1, 1 + lol)) > usize::MAX);
                }
            }
            return Err(e);
        }
    };
    match kind {
        RlpKind::SingleByte => {
            let mut v: Vec<u8> = Vec::new();
            v.push(input[0]);
            assert(v@ =~= seq![input@[0]]);
            Ok((v, 1))
        },
        RlpKind::ShortString(len_b) => {
            let len = len_b as usize;
            if input.len() < 1 + len {
                return Err(DecodeError::MalformedRlp);
            }
            Ok((vstd::slice::slice_to_vec(&input[1..1 + len]), 1 + len))
        },
        RlpKind::LongString(len_of_len, len) => {
            if input.len() - 1 - len_of_len < len {
                return Err(DecodeError::MalformedRlp);
            }
            Ok(
                (
                    vstd::slice::slice_to_vec(&input[1 + len_of_len..1 + len_of_len + len]),
                    1 + len_of_len + len,
                ),
            )
        },
        _ => Err(DecodeError::MalformedRlp),
    }
}

/// Decodes a concatenation of RLP string items; the whole decode fails with
/// `MalformedRlp` if any item is a list or is cut short. Empty input gives no items.
pub fn rlp_decode_stream_of_strings(input: &[u8]) -> (r: Result<Vec<Vec<u8>>, DecodeError>)
    ensures
        match r {
            Ok(v) => rlp_strings(input@) == Some(views(v@)),
            Err(e) => rlp_strings(input@) is None && e == DecodeError::MalformedRlp,
        },
{
    let mut out: Vec<Vec<u8>> = Vec::new();
    let mut pos: usize = 0;
    proof {
        assert(input@.skip(0) =~= input@);
        lemma_prepend_empty(out@, input@);
    }
    while pos < input.len()
        invariant
            pos <= input@.len(),
            rlp_strings(input@) == prepend(views(out@), rlp_strings(input@.skip(pos as int))),
        decreases input@.len() - pos,
    {
        let ghost s = input@.skip(pos as int);
        assert(input@.subrange(pos as int, input@.len() as int) =~= s);
        let (bytes, consumed) = match rlp_decode_one_string(&input[pos..input.len()]) {
            Ok(v) => v,
            Err(e) => {
                return Err(e);
            },
        };
        proof {
            lemma_rlp_string_len(s);
            assert(s.skip(consumed as int) =~= input@.skip(pos + consumed));
            assert(views(out@.push(bytes)) =~= views(out@).push(bytes@));
            assert(views(out@) + (seq![bytes@] + rlp_strings(s.skip(consumed as int))->0)
                =~= views(out@).push(bytes@) + rlp_strings(s.skip(consumed as int))->0);
        }
        out.push(bytes);
        pos = pos + consumed;
    }
    assert(input@.skip(pos as int) =~= Seq::<u8>::empty());
    assert(views(out@) + Seq::<Seq<u8>>::empty() =~= views(out@));
    Ok(out)
}

/// The total length of the RLP item (string or list) at the start of `input`,
/// or `None` where it is empty or the item runs past the end.
pub fn rlp_item_total_len(input: &[u8]) -> (r: Option<usize>)
    ensures
        match r {
            Some(n) => rlp_item_len(input@) == Some(n as nat),
            None => rlp_item_len(input@) is None,
        },
{
    if input.len() == 0 {
        return None;
    }
    let b0 = input[0];
    if b0 < 0x80 {
        Some(1)
    } else if b0 <= 0xb7 || (0xc0 <= b0 && b0 <= 0xf7) {
        let len = (if b0 <= 0xb7 { b0 - 0x80 } else { b0 - 0xc0 }) as usize;
        if input.len() < 1 + len {
            return None;
        }
        Some(1 + len)
    } else {
        let len_of_len = (if b0 <= 0xbf { b0 - 0xb7 } else { b0 - 0xf7 }) as usize;
        if input.len() < 1 + len_of_len {
            return None;
        }
        let l = read_be(input, 1, len_of_len);
        if l > (input.len() - 1 - len_of_len) as u64 {
            return None;
        }
        Some(1 + len_of_len + l as usize)
    }
}

/// Peels the RLP string item at the start of `input`: its payload and the
/// number of bytes it takes; `None` for a list or an item cut short.
pub fn rlp_peel_string(input: &[u8]) -> (r: Option<(Vec<u8>, usize)>)
    ensures
        match r {
            Some((p, c)) => rlp_string(input@) == Some((p@, c as nat)),
            None => rlp_string(input@) is None,
        },
{
    if input.len() == 0 {
        return None;
    }
    let b0 = input[0];
    if b0 < 0x80 {
        let mut v: Vec<u8> = Vec::new();
        v.push(b0);
        assert(v@ =~= seq![b0]);
        Some((v, 1))
    } else if b0 <= 0xb7 {
        let len = (b0 - 0x80) as usize;
        if input.len() < 1 + len {
            return None;
        }
        Some((vstd::slice::slice_to_vec(&input[1..1 + len]), 1 + len))
    } else if b0 <= 0xbf {
        let len_of_len = (b0 - 0xb7) as usize;
        if input.len() < 1 + len_of_len {
            return None;
        }
        let l = read_be(input, 1, len_of_len);
        if l > (input.len() - 1 - len_of_len) as u64 {
            return None;
        }
        let start = 1 + len_of_len;
        let l = l as usize;
        Some((vstd::slice::slice_to_vec(&input[start..start + l]), start + l))
    } else {
        None
    }
}

/// Decodes `input` as a non-empty concatenation of RLP string items; `None`
/// if it is empty, or if any item is a list or is cut short.
pub fn try_decode_rlp_segments(input: &[u8]) -> (r: Option<Vec<Vec<u8>>>)
    ensures
        match r {
            Some(v) => rlp_strings(input@) == Some(views(v@)) && v@.len() > 0,
            None => rlp_strings(input@) is None || rlp_strings(input@) == Some(Seq::<Seq<u8>>::empty()),
        },
{
    let mut out: Vec<Vec<u8>> = Vec::new();
    let mut pos: usize = 0;
    proof {
        assert(input@.skip(0) =~= input@);
        lemma_prepend_empty(out@, input@);
    }
    while pos < input.len()
        invariant
            pos <= input@.len(),
            rlp_strings(input@) == prepend(views(out@), rlp_strings(input@.skip(pos as int))),
            pos > 0 ==> out@.len() > 0,
        decreases input@.len() - pos,
    {
        let ghost s = input@.skip(pos as int);
        assert(input@.subrange(pos as int, input@.len() as int) =~= s);
        let (payload, consumed) = match rlp_peel_string(&input[pos..input.len()]) {
            Some(v) => v,
            None => {
                return None;
            },
        };
        proof {
            lemma_rlp_string_len(s);
            assert(s.skip(consumed as int) =~= input@.skip(pos + consumed));
            assert(views(out@.push(payload)) =~= views(out@).push(payload@));
            assert(views(out@) + (seq![payload@] + rlp_strings(s.skip(consumed as int))->0)
                =~= views(out@).push(payload@) + rlp_strings(s.skip(consumed as int))->0);
        }
        out.push(payload);
        pos = pos + consumed;
    }
    assert(input@.skip(pos as int) =~= Seq::<u8>::empty());
    assert(views(out@) + Seq::<Seq<u8>>::empty() =~= views(out@));
    if out.len() == 0 {
        assert(views(out@) =~= Seq::<Seq<u8>>::empty());
        None
    } else {
        Some(out)
    }
}

} // verus!
