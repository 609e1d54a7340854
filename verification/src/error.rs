use vstd::prelude::*;

verus! {

/// Failure of an encoding or decoding operation of a circuit description.
#[derive(Debug, Clone, Copy, PartialEq, Eq, Structural)]
pub enum Error {
    /// The provided buffer isn't big enough to hold the element.
    BufferTooSmall,
    /// The source name wasn't available in the file cache.
    MissingSourceName,
    /// The source contents wasn't available in the file cache.
    MissingSourceContents,
    /// Attempt to fetch a constraint out of the preamble range.
    InvalidConstraint,
    /// Attempt to fetch a witness out of the preamble range.
    InvalidWitness,
    /// The source cache couldn't be read as a message pack value.
    MalformedSourceCache,
    /// The source cache isn't a valid array.
    SourceCacheNotArray,
    /// The source names aren't composed of strings.
    SourceNamesNotStrings,
    /// The source contents aren't composed of strings.
    SourceContentsNotStrings,
    /// The source cache couldn't be serialized.
    SourceCacheTooLarge,
    /// The contents of a source file couldn't be provided.
    SourceUnavailable,
    /// The offsets of the file described by the preamble don't fit in memory addresses.
    OffsetOverflow,
    /// A fixed text doesn't hold a valid length prefix and UTF-8 text.
    InvalidText,
    /// The witness count of a circuit is zero.
    NoWitnesses,
    /// An indexed witness refers to a witness out of the preamble range.
    InvalidWitnessIndex,
    /// An indexed witness refers to a constraint out of the preamble range.
    InvalidConstraintIndex,
    /// The witnesses set doesn't begin with the index zero.
    WitnessesNotFromZero,
    /// The constraints set doesn't begin with the index zero.
    ConstraintsNotFromZero,
    /// The witnesses don't form an ordered dense set of unique indices.
    WitnessesNotDense,
    /// The constraints don't form an ordered dense set of unique indices.
    ConstraintsNotDense,
    /// The offset of an item couldn't be computed from the preamble.
    OffsetUnavailable,
}

/// Human readable description of the failure `e`.
pub open spec fn spec_message(e: Error) -> Seq<char> {
    match e {
        Error::BufferTooSmall => "the provided buffer isn't big enough"@,
        Error::MissingSourceName => "the source name wasn't available in the file cache"@,
        Error::MissingSourceContents => "the source contents wasn't available in the file cache"@,
        Error::InvalidConstraint => "attempt to fetch invalid constraint"@,
        Error::InvalidWitness => "attempt to fetch invalid witness"@,
        Error::MalformedSourceCache => "the source cache couldn't be decoded"@,
        Error::SourceCacheNotArray => "the source cache isn't a valid array"@,
        Error::SourceNamesNotStrings => "the source names isn't composed of strings"@,
        Error::SourceContentsNotStrings => "the source contents isn't composed of strings"@,
        Error::SourceCacheTooLarge => "the source cache is too large to be encoded"@,
        Error::SourceUnavailable => "the source contents couldn't be provided"@,
        Error::OffsetOverflow => "the preamble describes a file too large to be addressed"@,
        Error::InvalidText => "the fixed text isn't a valid length-prefixed UTF-8 text"@,
        Error::NoWitnesses => "witness count can't be zero in PLONK protocol"@,
        Error::InvalidWitnessIndex => "the provided witness index does not correspond to a valid allocated witness"@,
        Error::InvalidConstraintIndex => "the provided constraint index does not correspond to a valid gate"@,
        Error::WitnessesNotFromZero => "the witnesses set doesn't begin with an index 0"@,
        Error::ConstraintsNotFromZero => "the constraints set doesn't begin with an index 0"@,
        Error::WitnessesNotDense => "the provided witnesses does not compute to an ordered dense unique indexed set"@,
        Error::ConstraintsNotDense => "the provided constraints does not compute to an ordered dense unique indexed set"@,
        Error::OffsetUnavailable => "failed to calculate offset"@,
    }
}

impl Error {
    /// Human readable description of the failure.
    pub fn message(&self) -> (m: &'static str)
        ensures
            m@ == spec_message(*self),
    {
        match self {
            Error::BufferTooSmall => "the provided buffer isn't big enough",
            Error::MissingSourceName => "the source name wasn't available in the file cache",
            Error::MissingSourceContents => "the source contents wasn't available in the file cache",
            Error::InvalidConstraint => "attempt to fetch invalid constraint",
            Error::InvalidWitness => "attempt to fetch invalid witness",
            Error::MalformedSourceCache => "the source cache couldn't be decoded",
            Error::SourceCacheNotArray => "the source cache isn't a valid array",
            Error::SourceNamesNotStrings => "the source names isn't composed of strings",
            Error::SourceContentsNotStrings => "the source contents isn't composed of strings",
            Error::SourceCacheTooLarge => "the source cache is too large to be encoded",
            Error::SourceUnavailable => "the source contents couldn't be provided",
            Error::OffsetOverflow => "the preamble describes a file too large to be addressed",
            Error::InvalidText => "the fixed text isn't a valid length-prefixed UTF-8 text",
            Error::NoWitnesses => "witness count can't be zero in PLONK protocol",
            Error::InvalidWitnessIndex => "the provided witness index does not correspond to a valid allocated witness",
            Error::InvalidConstraintIndex => "the provided constraint index does not correspond to a valid gate",
            Error::WitnessesNotFromZero => "the witnesses set doesn't begin with an index 0",
            Error::ConstraintsNotFromZero => "the constraints set doesn't begin with an index 0",
            Error::WitnessesNotDense => "the provided witnesses does not compute to an ordered dense unique indexed set",
            Error::ConstraintsNotDense => "the provided constraints does not compute to an ordered dense unique indexed set",
            Error::OffsetUnavailable => "failed to calculate offset",
        }
    }
}

} // verus!
