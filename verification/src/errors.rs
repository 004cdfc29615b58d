//! Failure taxonomy for mint-record construction: every failure is a
//! recoverable, classified value naming the offending input.

use vstd::prelude::*;

verus! {

/// A failure while validating inputs or assembling an authorized record.
#[derive(Clone, Debug, PartialEq, Eq)]
pub enum Error {
    /// The signing threshold is zero or exceeds the number of public keys.
    InvalidThreshold { threshold: u32, num_keys: usize },
    /// A mint configuration text had fewer than three `:`-separated parts.
    MintConfigFormat,
    /// The mint limit part of a configuration text is not a decimal `u64`.
    BadMintLimit,
    /// The threshold part of a configuration text is not a decimal `u32`.
    BadThreshold,
    /// The recipient publishes a fog report URL but no fog-resolution
    /// context was supplied; carries the offending URL.
    MissingFogContext { fog_report_url: String },
    /// A PEM container could not be parsed.
    PemParse,
    /// The DER inside a PEM container does not hold the expected key.
    DerParse,
    /// A signature argument is neither a PEM file nor a hex string of the
    /// signature's doubled byte size.
    SignatureFormat,
    /// A hex signature string could not be decoded.
    HexDecode,
    /// A decoded signature or key has the wrong byte length.
    BadLength,
    /// A decoded value is not a public address.
    NotPublicAddress,
    /// A transaction file could not be parsed.
    TxFileFormat,
    /// Two records submitted for merging carry different prefixes.
    PrefixMismatch,
}

/// A failure of the memo-building protocol: a builder method was called
/// outside its allowed state, or with a disallowed token.
#[derive(Clone, Copy, Debug, PartialEq, Eq, Structural)]
pub enum NewMemoError {
    /// `set_fee` was called after the main memo was written.
    FeeAfterChange,
    /// A second main output memo was requested.
    MultipleDefragOutputs,
    /// A main output memo was requested after the change memo.
    OutputsAfterChange,
    /// A second change output memo was requested.
    MultipleChangeOutputs,
    /// A change output memo was requested before any main output memo.
    ChangeBeforeMainOutput,
    /// The change output's token id equals the fee's token id.
    MixedTokenIds,
}

} // verus!
