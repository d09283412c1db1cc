//! Errors of the encoder and of the decoder.
use vstd::prelude::*;

verus! {

/// Why a container could not be decoded.
#[derive(Debug, Clone, PartialEq, Eq)]
pub enum DecodeError {
    /// The first five bytes are not the magic number.
    MagicMismatch,
    /// The version byte names a format this library does not read.
    UnsupportedVersion,
    /// The trailing 32 bytes are not the SHA-256 digest of the bytes before them.
    FingerprintMismatch,
    /// A declared offset or size runs past the end of the input.
    Truncated,
    /// A section index entry has a type code other than 0, 1, 3 or 4.
    UnknownSectionType,
    /// The section index has no entry of type 0, 1 or 3.
    MissingMandatorySection,
    /// The string table is not a sequence of well-formed records, or an offset
    /// does not name one of its records.
    MalformedStringTable,
    /// A string table record is not valid UTF-8.
    MalformedUtf8,
    /// A dependency entry carries a source type code outside 0..=4.
    InvalidSourceTypeCode,
    /// A signature does not cover the bytes of this container.
    SignatureVerifyFailed,
    /// The crypto provider reported an error; the text is the provider's own.
    CryptoProvider(String),
}

/// Why a package could not be encoded.
#[derive(Debug, Clone, PartialEq, Eq)]
pub enum EncodeError {
    /// The provider's signature is not as long as the slot reserved for it.
    SizeProbeMismatch,
    /// A length or an offset does not fit in 32 bits.
    InputTooLarge,
    /// The crypto provider reported an error; the text is the provider's own.
    CryptoProvider(String),
    /// The package has no name or no version.
    ManifestIncomplete,
}

} // verus!
