use vstd::prelude::*;
use crate::blob::{unpacked, BYTES_PER_BLOB};

verus! {

/// Relies on `String::push`: it appends one character.
pub assume_specification[ String::push ](s: &mut String, ch: char)
    ensures
        final(s)@ == old(s)@.push(ch),
;

/// The lower-case hexadecimal digit for `n < 16`.
pub open spec fn hex_digit(n: u8) -> char {
    if n < 10 {
        (n + 48) as char
    } else {
        (n + 87) as char
    }
}

/// Two lower-case hexadecimal digits per byte, most significant first.
pub open spec fn hex_chars(b: Seq<u8>) -> Seq<char>
    decreases b.len(),
{
    if b.len() == 0 {
        Seq::empty()
    } else {
        hex_chars(b.drop_last()) + seq![hex_digit(b.last() / 16), hex_digit(b.last() % 16)]
    }
}

/// `0x` followed by the hexadecimal digits of `b`.
pub open spec fn prefixed_hex(b: Seq<u8>) -> Seq<char> {
    seq!['0', 'x'] + hex_chars(b)
}

fn hex_digit_char(n: u8) -> (c: char)
    requires
        n < 16,
    ensures
        c == hex_digit(n),
{
    if n < 10 {
        (n + 48) as char
    } else {
        (n + 87) as char
    }
}

/// Formats `bytes` as `0x` followed by two lower-case hexadecimal digits per byte.
pub fn to_0x_hex(bytes: &[u8]) -> (s: String)
    ensures
        s@ == prefixed_hex(bytes@),
{
    let mut s = String::new();
    s.push('0');
    s.push('x');
    let mut i: usize = 0;
    while i < bytes.len()
        invariant
            i <= bytes@.len(),
            s@ == seq!['0', 'x'] + hex_chars(bytes@.take(i as int)),
        decreases bytes@.len() - i,
    {
        let b = bytes[i];
        proof {
            assert(bytes@.take(i + 1).drop_last() =~= bytes@.take(i as int));
        }
        s.push(hex_digit_char(b / 16));
        s.push(hex_digit_char(b % 16));
        i = i + 1;
    }
    assert(bytes@.take(bytes@.len() as int) =~= bytes@);
    s
}

/// Number of 32-byte words that `n` bytes span, the last one possibly partial.
pub open spec fn word_count(n: nat) -> nat {
    (n + 31) / 32
}

/// Word `i` of `b`: bytes `32 i .. 32 i + 32`, cut at the end of `b`.
pub open spec fn word(b: Seq<u8>, i: int) -> Seq<u8> {
    b.subrange(32 * i, if 32 * i + 32 <= b.len() { 32 * i + 32 } else { b.len() as int })
}

/// Summarizes a blob: its length, the number of 32-byte words it spans,
/// whether it has the canonical size of 131,072 bytes, and the first
/// `preview_words` words in hexadecimal.
pub fn process_blob(blob: &[u8], preview_words: usize) -> (r: (usize, usize, bool, Vec<String>))
    ensures
        r.0 == blob@.len(),
        r.1 == word_count(blob@.len()),
        r.2 == (blob@.len() == BYTES_PER_BLOB),
        r.3@.len() == if r.1 < preview_words { r.1 } else { preview_words },
        forall|i: int| 0 <= i < r.3@.len() ==> #[trigger] r.3@[i]@ == prefixed_hex(word(blob@, i)),
{
    let len = blob.len();
    let total_words: usize = len / 32 + if len % 32 == 0 { 0 } else { 1 };
    let count: usize = if total_words < preview_words { total_words } else { preview_words };
    let mut first_words: Vec<String> = Vec::new();
    let mut i: usize = 0;
    while i < count
        invariant
            len == blob@.len(),
            total_words == word_count(len as nat),
            count <= total_words,
            i <= count,
            first_words@.len() == i,
            forall|j: int| 0 <= j < i ==> #[trigger] first_words@[j]@ == prefixed_hex(word(blob@, j)),
        decreases count - i,
    {
        assert(32 * i < len) by (nonlinear_arith)
            requires
                i < total_words,
                total_words == (len + 31) / 32,
        ;
        let start = i * 32;
        let end = if len - start >= 32 { start + 32 } else { len };
        first_words.push(to_0x_hex(&blob[start..end]));
        i = i + 1;
    }
    (len, total_words, len == BYTES_PER_BLOB, first_words)
}

/// What the first payload byte of a blob announces.
#[derive(Clone, Copy, Debug, PartialEq, Eq, Structural)]
pub enum PayloadFlag {
    /// Exactly `0x80`: a data-availability certificate.
    DasCertificate,
    /// `0x00`: a Brotli-compressed batch.
    Brotli,
    /// Any other byte.
    Other,
}

/// The flag that byte `b` stands for.
pub open spec fn flag_of(b: u8) -> PayloadFlag {
    if b == 0x80 {
        PayloadFlag::DasCertificate
    } else if b == 0x00 {
        PayloadFlag::Brotli
    } else {
        PayloadFlag::Other
    }
}

/// Unpacks a blob and tells what its first payload byte announces; `None`
/// for a blob that is not 131,072 bytes long.
pub fn classify_blob_payload(blob: &[u8]) -> (r: Option<PayloadFlag>)
    ensures
        blob@.len() != BYTES_PER_BLOB ==> r is None,
        blob@.len() == BYTES_PER_BLOB ==> r == Some(flag_of(unpacked(blob@)[0])),
{
    match crate::blob::extract_payload_31_per_fe(blob) {
        Some(payload) => {
            let first = payload[0];
            if first == 0x80 {
                Some(PayloadFlag::DasCertificate)
            } else if first == 0x00 {
                Some(PayloadFlag::Brotli)
            } else {
                Some(PayloadFlag::Other)
            }
        },
        None => None,
    }
}

} // verus!
