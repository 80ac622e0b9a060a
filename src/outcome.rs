use vstd::prelude::*;

verus! {

/// Why a stage of the pipeline gave up on its input.
#[derive(Clone, Copy, Debug, PartialEq, Eq, Structural)]
pub enum DecodeError {
    /// A blob handed to the field-element unpacker is not 131,072 bytes long.
    SizeMismatch,
    /// A declared length runs past the end of the bytes that remain.
    TruncatedBuffer,
    /// No framing interpretation explains the buffer.
    UnsupportedFraming,
    /// Neither Brotli decoder accepted the bytes.
    DecompressionFailure,
    /// An RLP list where a string was required, or a corrupt length field.
    MalformedRlp,
    /// Nested L2 batches go deeper than the decoder allows.
    NestingTooDeep,
    /// A transaction envelope in a raw batch could not be decoded.
    InvalidTransaction,
}

/// The result of decoding one blob.
#[derive(Clone, Debug, PartialEq, Eq)]
pub enum DecodeOutcome {
    /// Raw transaction bytes, in the order in which they appear in the input.
    Transactions(Vec<Vec<u8>>),
    /// A data-availability certificate: the batch itself lives off-chain.
    DeferredExternal { keyset_hash: Vec<u8>, data_hash: Vec<u8> },
    /// The blob could not be decoded, and why.
    Unrecognized(DecodeError),
}

/// The byte sequences held by a list of buffers.
pub open spec fn views(v: Seq<Vec<u8>>) -> Seq<Seq<u8>> {
    v.map_values(|x: Vec<u8>| x@)
}

/// Mathematical model of a [`DecodeOutcome`].
pub enum Outcome {
    Transactions(Seq<Seq<u8>>),
    DeferredExternal(Seq<u8>, Seq<u8>),
    Unrecognized(DecodeError),
}

impl View for DecodeOutcome {
    type V = Outcome;

    open spec fn view(&self) -> Outcome {
        match self {
            DecodeOutcome::Transactions(txs) => Outcome::Transactions(views(txs@)),
            DecodeOutcome::DeferredExternal { keyset_hash, data_hash } => Outcome::DeferredExternal(
                keyset_hash@,
                data_hash@,
            ),
            DecodeOutcome::Unrecognized(e) => Outcome::Unrecognized(*e),
        }
    }
}

} // verus!
