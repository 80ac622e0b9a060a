//! Decoding of rollup batch data published in L1 blobs: field-element
//! unpacking, framing and header detection, format sniffing, RLP and
//! length-prefixed segment streams, and L2 message classification down to
//! raw transaction byte spans.

pub mod outcome;
pub mod bytes;
pub mod blob;
pub mod decompress;
pub mod rlp;
pub mod message;
pub mod segments;
pub mod framing;
pub mod legacy;
pub mod dispatch;
pub mod preview;
pub mod commitment;

pub use outcome::{DecodeError, DecodeOutcome};
pub use blob::{decode_4844_blob, extract_payload_31_per_fe, trim_trailing_zeros};
pub use decompress::try_brotli_decompress;
pub use rlp::{
    rlp_decode_one_string, rlp_decode_stream_of_strings, rlp_item_total_len, rlp_peek, rlp_peel_string,
    try_decode_rlp_segments, RlpKind,
};
pub use message::{
    decode_l2_message, decode_l2_messages, decode_segment, handle_segments, read_u64_be_8,
    segments_to_l2_messages,
};
pub use segments::{
    next_segment, parse_top_level_segments, plausible_kind, try_header, try_take_segment, LenCodec,
    SegmentHeader,
};
pub use framing::{
    extract_payload_from_4844_blob, parse_batch_header, parse_batch_header_be, parse_batch_header_le,
    parse_header_autodetect, score, BatchHeader,
};
pub use legacy::{decode_raw_batch, decode_tx, parse_nitro_batch, read_length_prefixed_list};
pub use dispatch::{
    decode_batch_data, decode_nitro_batch, decode_nitro_payload_to_txs, handle_raw_blob,
    process_arbitrum_blob_to_txs,
};
pub use preview::{classify_blob_payload, process_blob, to_0x_hex, PayloadFlag};
pub use commitment::{
    commitment_to_hex, compute_kzg_commitment, compute_versioned_hash_from_commitment, kzg_blob_bytes,
};
