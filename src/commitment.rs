use vstd::prelude::*;
use crate::blob::BYTES_PER_BLOB;
use crate::preview::{hex_chars, prefixed_hex, to_0x_hex};

verus! {

/// Relies on `String::push_str`: it appends the characters of `string`.
pub assume_specification[ String::push_str ](s: &mut String, string: &str)
    ensures
        final(s)@ == old(s)@ + string@,
;

#[verifier::external_type_specification]
#[verifier::external_body]
pub struct ExKzgSettings(c_kzg::KzgSettings);

#[verifier::external_type_specification]
#[verifier::external_body]
pub struct ExBlob(c_kzg::Blob);

/// Length in bytes of a KZG commitment.
pub const BYTES_PER_COMMITMENT: usize = 48;

/// `b` cut or zero-padded to the size of a blob.
pub open spec fn blob_sized(b: Seq<u8>) -> Seq<u8> {
    Seq::new(BYTES_PER_BLOB as nat, |i: int| if i < b.len() { b[i] } else { 0u8 })
}

/// Brings `blob` to the size of a blob: the first 131,072 bytes of a longer
/// one, a shorter one padded with zeros.
pub fn kzg_blob_bytes(blob: &[u8]) -> (r: Vec<u8>)
    ensures
        r@ == blob_sized(blob@),
{
    let mut out: Vec<u8> = Vec::with_capacity(BYTES_PER_BLOB);
    let mut i: usize = 0;
    while i < BYTES_PER_BLOB
        invariant
            i <= BYTES_PER_BLOB,
            out@ =~= blob_sized(blob@).take(i as int),
        decreases BYTES_PER_BLOB - i,
    {
        if i < blob.len() {
            out.push(blob[i]);
        } else {
            out.push(0);
        }
        i = i + 1;
    }
    assert(blob_sized(blob@).take(BYTES_PER_BLOB as int) =~= blob_sized(blob@));
    out
}

/// Relies on `hex::encode`: two lower-case hexadecimal digits per byte,
/// most significant first.
#[verifier::external_body]
fn hex_encode(bytes: &[u8]) -> (r: String)
    ensures
        r@ == hex_chars(bytes@),
{
    hex::encode(bytes)
}

/// Formats a commitment as `0x` followed by its lower-case hexadecimal digits.
pub fn commitment_to_hex(commitment: &[u8]) -> (r: String)
    ensures
        r@ == prefixed_hex(commitment@),
{
    let mut s = String::new();
    s.push('0');
    s.push('x');
    let digits = hex_encode(commitment);
    s.push_str(digits.as_str());
    s
}

/// Relies on `c_kzg::Blob::from_bytes`: it accepts exactly 131,072 bytes.
#[verifier::external_body]
fn kzg_blob_from_bytes(bytes: &[u8]) -> (r: Option<c_kzg::Blob>)
    ensures
        r is Some <==> bytes@.len() == BYTES_PER_BLOB,
{
    match c_kzg::Blob::from_bytes(bytes) {
        Ok(b) => Some(b),
        Err(_) => None,
    }
}

/// Relies on `c_kzg::KzgSettings::blob_to_kzg_commitment`: a commitment, where
/// one is computed, is 48 bytes long.
#[verifier::external_body]
fn blob_commitment(settings: &c_kzg::KzgSettings, blob: &c_kzg::Blob) -> (r: Option<Vec<u8>>)
    ensures
        r matches Some(c) ==> c@.len() == BYTES_PER_COMMITMENT,
{
    match settings.blob_to_kzg_commitment(blob) {
        Ok(c) => Some(c.to_bytes().into_inner().to_vec()),
        Err(_) => None,
    }
}

/// Computes the KZG commitment of `blob`, first cut or zero-padded to the size
/// of a blob, under the trusted setup `settings`, and formats it as `0x`
/// followed by 96 hexadecimal digits. `None` where the commitment cannot be
/// computed.
pub fn compute_kzg_commitment(settings: &c_kzg::KzgSettings, blob: &[u8]) -> (r: Option<String>)
    ensures
        r matches Some(s) ==> exists|c: Seq<u8>| c.len() == BYTES_PER_COMMITMENT && s@ == #[trigger] prefixed_hex(c),
{
    let blob_data = kzg_blob_bytes(blob);
    let kzg_blob = match kzg_blob_from_bytes(&blob_data) {
        Some(b) => b,
        None => {
            return None;
        },
    };
    match blob_commitment(settings, &kzg_blob) {
        Some(c) => Some(commitment_to_hex(&c)),
        None => None,
    }
}

/// The versioned hash that alloy derives from a KZG commitment.
pub uninterp spec fn versioned_hash_of(commitment: Seq<u8>) -> Seq<u8>;

/// Relies on alloy's `kzg_to_versioned_hash`: the SHA-256 digest of the
/// commitment with its first byte replaced by the KZG version `0x01`. It
/// asserts (in debug builds) that the commitment is 48 bytes long.
#[verifier::external_body]
fn kzg_versioned_hash(commitment: &[u8]) -> (r: Vec<u8>)
    requires
        commitment@.len() == BYTES_PER_COMMITMENT,
    ensures
        r@ == versioned_hash_of(commitment@),
        r@.len() == 32,
        r@[0] == 1,
{
    alloy::eips::eip4844::kzg_to_versioned_hash(commitment).to_vec()
}

/// The versioned hash of a 48-byte KZG commitment, as `0x` followed by 64
/// hexadecimal digits; the first byte is the KZG version `0x01`.
pub fn compute_versioned_hash_from_commitment(commitment: &[u8]) -> (r: String)
    requires
        commitment@.len() == BYTES_PER_COMMITMENT,
    ensures
        r@ == prefixed_hex(versioned_hash_of(commitment@)),
{
    let vh = kzg_versioned_hash(commitment);
    to_0x_hex(&vh)
}

} // verus!
