//! The gzip wrapping of a database file.
//!
//! The compressed variant of the file is the same byte stream inside one
//! gzip member. Compressing and decompressing is the work of `flate2`; what
//! this module proves is what is done with its results.

use crate::database::Database;
use crate::decode::{decode_error, file_content};
use crate::encode::{encode_error, encoded};
use crate::error::{BuildError, DatabaseError};
use vstd::prelude::*;

verus! {

/// What `flate2`'s gzip decoder reads from a compressed stream: the
/// decompressed bytes, or `None` where the decoder reports an error.
pub uninterp spec fn gzip_decoded(compressed: Seq<u8>) -> Option<Seq<u8>>;

/// What `flate2`'s gzip encoder writes for a byte stream at the default
/// compression level, or `None` where the encoder reports an error.
pub uninterp spec fn gzip_encoded(plain: Seq<u8>) -> Option<Seq<u8>>;

/// `flate2::bufread::GzDecoder` over the given bytes, read to its end.
/// The contract only gives the outcome its name: the decoder works on the
/// bytes alone, so equal input gives equal output.
#[verifier::external_body]
fn inflate(compressed: &[u8]) -> (plain: Option<Vec<u8>>)
    ensures
        match plain {
            Some(bytes) => gzip_decoded(compressed@) == Some(bytes@),
            None => gzip_decoded(compressed@) is None,
        },
{
    let mut plain = Vec::new();
    let mut decoder = flate2::bufread::GzDecoder::new(compressed);
    match std::io::Read::read_to_end(&mut decoder, &mut plain) {
        Ok(_) => Some(plain),
        Err(_) => None,
    }
}

/// `flate2::write::GzEncoder` at `Compression::default()`, fed the given
/// bytes and finished. The contract only gives the outcome its name: the
/// encoder writes a fixed header and works on the bytes alone, so equal
/// input gives equal output.
#[verifier::external_body]
fn deflate(plain: &[u8]) -> (compressed: Option<Vec<u8>>)
    ensures
        match compressed {
            Some(bytes) => gzip_encoded(plain@) == Some(bytes@),
            None => gzip_encoded(plain@) is None,
        },
{
    let mut encoder = flate2::write::GzEncoder::new(Vec::new(), flate2::Compression::default());
    match std::io::Write::write_all(&mut encoder, plain) {
        Ok(()) => match encoder.finish() {
            Ok(compressed) => Some(compressed),
            Err(_) => None,
        },
        Err(_) => None,
    }
}

/// What reading a compressed file gives, by what the decompression gave:
/// a failed decompression is `DecompressionFailed`, and decompressed bytes
/// are decoded as a file.
pub open spec fn decoded_from(plain: Option<Seq<u8>>) -> Result<
    crate::database::DatabaseContent,
    DatabaseError,
> {
    match plain {
        None => Err(DatabaseError::DecompressionFailed),
        Some(bytes) => match decode_error(bytes) {
            Some(e) => Err(e),
            None => Ok(file_content(bytes)),
        },
    }
}

/// What writing a compressed file gives, by what the compression of the
/// plain file gave.
pub open spec fn compressed_from(
    c: crate::database::DatabaseContent,
    compressed: Option<Seq<u8>>,
) -> Result<Seq<u8>, BuildError> {
    match encode_error(c) {
        Some(e) => Err(e),
        None => match compressed {
            Some(bytes) => Ok(bytes),
            None => Err(BuildError::CompressionFailed),
        },
    }
}

impl Database {
    /// Decode a database from what the decompression of its file gave.
    pub fn from_decompressed(plain: Option<Vec<u8>>) -> (r: Result<Database, DatabaseError>)
        ensures
            match r {
                Ok(db) => decoded_from(
                    match plain {
                        Some(bytes) => Some(bytes@),
                        None => None,
                    },
                ) == Ok::<_, DatabaseError>(db@),
                Err(e) => decoded_from(
                    match plain {
                        Some(bytes) => Some(bytes@),
                        None => None,
                    },
                ) == Err::<crate::database::DatabaseContent, _>(e),
            },
    {
        match plain {
            Some(bytes) => Database::from_reader(bytes.as_slice()),
            None => Err(DatabaseError::DecompressionFailed),
        }
    }

    /// Decode a database from the bytes of a gzip-compressed file.
    pub fn from_compressed(compressed: &[u8]) -> (r: Result<Database, DatabaseError>)
        ensures
            match r {
                Ok(db) => decoded_from(gzip_decoded(compressed@)) == Ok::<_, DatabaseError>(db@),
                Err(e) => decoded_from(gzip_decoded(compressed@)) == Err::<
                    crate::database::DatabaseContent,
                    _,
                >(e),
            },
    {
        let plain = inflate(compressed);
        Database::from_decompressed(plain)
    }

    /// Write the database as the bytes of a gzip-compressed file.
    pub fn encode_compressed(&self) -> (r: Result<Vec<u8>, BuildError>)
        ensures
            match r {
                Ok(bytes) => compressed_from(self@, gzip_encoded(encoded(self@))) == Ok::<
                    _,
                    BuildError,
                >(bytes@),
                Err(e) => compressed_from(self@, gzip_encoded(encoded(self@))) == Err::<Seq<u8>, _>(
                    e,
                ),
            },
    {
        let plain = match self.encode() {
            Ok(plain) => plain,
            Err(e) => { return Err(e); },
        };
        Database::from_compression(deflate(plain.as_slice()))
    }

    /// The compressed file, by what the compression gave: the bytes, or
    /// `CompressionFailed` where the compressor reported an error.
    pub fn from_compression(compressed: Option<Vec<u8>>) -> (r: Result<Vec<u8>, BuildError>)
        ensures
            r == (match compressed {
                Some(bytes) => Ok::<Vec<u8>, BuildError>(bytes),
                None => Err(BuildError::CompressionFailed),
            }),
    {
        match compressed {
            Some(bytes) => Ok(bytes),
            None => Err(BuildError::CompressionFailed),
        }
    }
}

} // verus!
