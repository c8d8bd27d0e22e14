//! What can go wrong when a database file is loaded or built.

use vstd::prelude::*;
use vstd::string::StringExecFns;

verus! {

/// Why a database file could not be loaded.
#[derive(Debug, Clone, Copy, PartialEq, Eq, Structural)]
pub enum DatabaseError {
    /// There is no database file.
    NotFound,
    /// The file ends before the header or before a section that it announces.
    TooShort,
    /// The file does not start with the format's magic.
    InvalidMagic,
    /// The header, an offsets table or a name contradicts the format.
    InvalidLayout,
    /// The compressed stream could not be read.
    DecompressionFailed,
}

impl DatabaseError {
    /// The text of the message for this error.
    pub open spec fn message_text(self) -> Seq<char> {
        match self {
            DatabaseError::NotFound => "database file not found"@,
            DatabaseError::TooShort => "database file too short"@,
            DatabaseError::InvalidMagic => "database file has invalid magic"@,
            DatabaseError::InvalidLayout => "database file layout invalid"@,
            DatabaseError::DecompressionFailed => "database file decompression failed"@,
        }
    }

    /// A human-readable message for this error.
    pub fn message(&self) -> (text: String)
        ensures
            text@ == self.message_text(),
    {
        match self {
            DatabaseError::NotFound => String::from_str("database file not found"),
            DatabaseError::TooShort => String::from_str("database file too short"),
            DatabaseError::InvalidMagic => String::from_str("database file has invalid magic"),
            DatabaseError::InvalidLayout => String::from_str("database file layout invalid"),
            DatabaseError::DecompressionFailed => String::from_str(
                "database file decompression failed",
            ),
        }
    }
}

/// Why a database could not be built or written.
#[derive(Debug, Clone, Copy, PartialEq, Eq, Structural)]
pub enum BuildError {
    /// There are more distinct locality names than 16-bit indices.
    TooManyLocalities,
    /// A public space names a locality that no record defines.
    UnknownLocality,
    /// A list has more entries than a 32-bit count can say.
    CountOverflow,
    /// The sections before the range records are larger than a 32-bit
    /// offset can say.
    OffsetOverflow,
    /// The compressor reported an error.
    CompressionFailed,
}

impl BuildError {
    /// The text of the message for this error.
    pub open spec fn message_text(self) -> Seq<char> {
        match self {
            BuildError::TooManyLocalities => "too many localities for u16 index"@,
            BuildError::UnknownLocality => "locality of a public space not found"@,
            BuildError::CountOverflow => "count overflow"@,
            BuildError::OffsetOverflow => "offset overflow"@,
            BuildError::CompressionFailed => "compression failed"@,
        }
    }

    /// A human-readable message for this error.
    pub fn message(&self) -> (text: String)
        ensures
            text@ == self.message_text(),
    {
        match self {
            BuildError::TooManyLocalities => String::from_str("too many localities for u16 index"),
            BuildError::UnknownLocality => String::from_str("locality of a public space not found"),
            BuildError::CountOverflow => String::from_str("count overflow"),
            BuildError::OffsetOverflow => String::from_str("offset overflow"),
            BuildError::CompressionFailed => String::from_str("compression failed"),
        }
    }
}

} // verus!
