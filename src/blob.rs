use vstd::prelude::*;
use vstd::arithmetic::div_mod::lemma_fundamental_div_mod_converse;
use crate::outcome::DecodeError;

verus! {

/// Number of field elements in a blob.
pub const FIELD_ELEMENTS_PER_BLOB: usize = 4096;

/// Size in bytes of a field element.
pub const BYTES_PER_FIELD_ELEMENT: usize = 32;

/// Size in bytes of a blob.
pub const BYTES_PER_BLOB: usize = 131072;

/// Payload bytes that a blob carries once the reserved byte of each element is dropped.
pub const PAYLOAD_BYTES_PER_BLOB: usize = 126976;

/// The payload of `b`: bytes `1..32` of each 32-byte element, in order.
pub open spec fn unpacked(b: Seq<u8>) -> Seq<u8> {
    Seq::new((b.len() / 32 * 31) as nat, |j: int| b[(j / 31) * 32 + j % 31 + 1])
}

/// Unpacks a blob of exactly 131,072 bytes into its 126,976 payload bytes.
pub fn extract_payload_31_per_fe(blob: &[u8]) -> (r: Option<Vec<u8>>)
    ensures
        blob@.len() != BYTES_PER_BLOB ==> r is None,
        blob@.len() == BYTES_PER_BLOB ==> (r matches Some(v) && v@ == unpacked(blob@)),
{
    match decode_4844_blob(blob) {
        Ok(v) => Some(v),
        Err(_) => None,
    }
}

/// Unpacks a blob of exactly 131,072 bytes; any other length is a `SizeMismatch`.
pub fn decode_4844_blob(blob: &[u8]) -> (r: Result<Vec<u8>, DecodeError>)
    ensures
        blob@.len() != BYTES_PER_BLOB ==> r == Err::<Vec<u8>, DecodeError>(DecodeError::SizeMismatch),
        blob@.len() == BYTES_PER_BLOB ==> (r matches Ok(v) && v@ == unpacked(blob@)),
{
    if blob.len() != BYTES_PER_BLOB {
        return Err(DecodeError::SizeMismatch);
    }
    let mut out: Vec<u8> = Vec::with_capacity(PAYLOAD_BYTES_PER_BLOB);
    let mut i: usize = 0;
    while i < FIELD_ELEMENTS_PER_BLOB
        invariant
            blob@.len() == BYTES_PER_BLOB,
            i <= FIELD_ELEMENTS_PER_BLOB,
            out@ =~= unpacked(blob@).take(31 * i),
        decreases FIELD_ELEMENTS_PER_BLOB - i,
    {
        let start: usize = i * BYTES_PER_FIELD_ELEMENT;
        let mut t: usize = 1;
        while t < BYTES_PER_FIELD_ELEMENT
            invariant
                blob@.len() == BYTES_PER_BLOB,
                i < FIELD_ELEMENTS_PER_BLOB,
                start == 32 * i,
                1 <= t <= 32,
                out@ =~= unpacked(blob@).take(31 * i + t - 1),
            decreases BYTES_PER_FIELD_ELEMENT - t,
        {
            proof {
                let j = 31 * i + t - 1;
                lemma_fundamental_div_mod_converse(j, 31, i as int, t - 1);
            }
            out.push(blob[start + t]);
            t = t + 1;
        }
        i = i + 1;
    }
    assert(unpacked(blob@).take(31 * 4096int) =~= unpacked(blob@));
    Ok(out)
}

/// Byte `31 k + i` of an unpacked blob is byte `32 k + i + 1` of the blob, and
/// the payload is 126,976 bytes long.
pub proof fn lemma_unpacked_layout(b: Seq<u8>, k: int, i: int)
    requires
        b.len() == BYTES_PER_BLOB,
        0 <= k < FIELD_ELEMENTS_PER_BLOB,
        0 <= i < 31,
    ensures
        unpacked(b).len() == PAYLOAD_BYTES_PER_BLOB,
        unpacked(b)[31 * k + i] == b[32 * k + i + 1],
{
    lemma_fundamental_div_mod_converse(31 * k + i, 31, k, i);
}

/// `v` with its trailing zero bytes removed.
pub open spec fn without_trailing_zeros(v: Seq<u8>) -> Seq<u8>
    decreases v.len(),
{
    if v.len() > 0 && v.last() == 0 {
        without_trailing_zeros(v.drop_last())
    } else {
        v
    }
}

/// Removes the zero bytes at the end of `v`, often padding.
pub fn trim_trailing_zeros(v: Vec<u8>) -> (r: Vec<u8>)
    ensures
        r@ == without_trailing_zeros(v@),
        r@.len() == 0 || r@.last() != 0,
        r@ == v@.take(r@.len() as int),
{
    let ghost orig = v@;
    let mut v = v;
    while v.len() > 0 && v[v.len() - 1] == 0
        invariant
            without_trailing_zeros(v@) == without_trailing_zeros(orig),
            v@.len() <= orig.len(),
            v@ == orig.take(v@.len() as int),
        decreases v.len(),
    {
        let ghost before = v@;
        v.pop();
        assert(v@ =~= orig.take(v@.len() as int)) by {
            assert(v@ =~= before.drop_last());
        }
    }
    v
}

} // verus!
