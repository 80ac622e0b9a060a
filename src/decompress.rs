use vstd::prelude::*;

verus! {

/// What the `brotli` crate's streaming `Decompressor` yields when read to the
/// end over `data`: the decoded bytes, or `None` where it reports an error.
pub uninterp spec fn brotli_reader_output(data: Seq<u8>) -> Option<Seq<u8>>;

/// What `brotli2`'s `BrotliDecoder` (the reference C decoder) yields when read
/// to the end over `data`: the decoded bytes, or `None` where it reports an error.
pub uninterp spec fn brotli_c_output(data: Seq<u8>) -> Option<Seq<u8>>;

/// The byte sequence held by an optional buffer.
pub open spec fn opt_view(r: Option<Vec<u8>>) -> Option<Seq<u8>> {
    match r {
        Some(v) => Some(v@),
        None => None,
    }
}

/// Brotli decoding with a fallback: the first decoder's output where it
/// succeeds, else the second one's.
pub open spec fn decompressed(data: Seq<u8>) -> Option<Seq<u8>> {
    match brotli_reader_output(data) {
        Some(d) => Some(d),
        None => brotli_c_output(data),
    }
}

/// Relies on `brotli::Decompressor` (read to the end with a 1 MiB input
/// buffer): its output, or `None` on a read error, depends on `data` alone.
#[verifier::external_body]
fn brotli_read_all(data: &[u8]) -> (r: Option<Vec<u8>>)
    ensures
        opt_view(r) == brotli_reader_output(data@),
{
    let mut out = Vec::new();
    let mut reader = brotli::Decompressor::new(data, 1048576);
    match std::io::Read::read_to_end(&mut reader, &mut out) {
        Ok(_) => Some(out),
        Err(_) => None,
    }
}

/// Relies on `brotli2::bufread::BrotliDecoder` (read to the end): its output,
/// or `None` on a read error, depends on `data` alone.
#[verifier::external_body]
fn brotli_c_read_all(data: &[u8]) -> (r: Option<Vec<u8>>)
    ensures
        opt_view(r) == brotli_c_output(data@),
{
    let mut out = Vec::new();
    let mut decoder = brotli2::bufread::BrotliDecoder::new(std::io::Cursor::new(data));
    match std::io::Read::read_to_end(&mut decoder, &mut out) {
        Ok(_) => Some(out),
        Err(_) => None,
    }
}

/// Brotli-decompresses `data`, retrying with a second, independent decoder
/// when the first one fails. `None` means "not Brotli" to callers.
pub fn try_brotli_decompress(data: &[u8]) -> (r: Option<Vec<u8>>)
    ensures
        opt_view(r) == decompressed(data@),
{
    match brotli_read_all(data) {
        Some(out) => Some(out),
        None => brotli_c_read_all(data),
    }
}

} // verus!
