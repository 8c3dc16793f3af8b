//! The error type of the library.

use vstd::prelude::*;

verus! {

/// Everything that can go wrong while reading, writing or converting textures.
#[derive(Debug)]
pub enum TxdError {
    /// Raw payload bytes (a D3D9 four-character code, a palette or mipmap pixels) ran past the
    /// end of the input.
    Io(String),
    /// A fixed-layout record (chunk header, texture header, size field) ran past the end of the
    /// input.
    Binary(String),
    /// A chunk of another type stood where a specific one was expected.
    UnexpectedChunk { expected: String, actual: u32 },
    /// The platform identifier is not one the library handles.
    UnsupportedPlatform(u32),
    /// The operation needs a DXT-compressed texture.
    UnsupportedCompression,
    /// The image or mipmap has no pixels (or no data).
    InvalidDimensions { width: u32, height: u32 },
    /// A palette of a size other than 16 or 256 entries was asked for.
    InvalidPalette,
    /// The texture has no mipmap at this index.
    MissingMipmap(usize),
    /// The root chunk of the input is not a texture dictionary.
    NotTextureDictionary,
}

/// Why a read of the binary format stopped, as the specifications describe it.
pub enum ReadFault {
    /// A fixed-layout record did not fit in the input.
    Binary,
    /// A raw byte payload did not fit in the input.
    Io,
    /// The root chunk is not a texture dictionary.
    NotDictionary,
}

impl TxdError {
    /// This error is the one that reports `fault`.
    pub open spec fn reports(self, fault: ReadFault) -> bool {
        match fault {
            ReadFault::Binary => self is Binary,
            ReadFault::Io => self is Io,
            ReadFault::NotDictionary => self is NotTextureDictionary,
        }
    }
}

/// The error for a fixed-layout record that ran past the end of the input.
pub fn truncated_record() -> (e: TxdError)
    ensures
        e matches TxdError::Binary(m) && m@ == "unexpected end of input while reading a record"@,
{
    TxdError::Binary("unexpected end of input while reading a record".to_owned())
}

/// The error for a raw payload that ran past the end of the input.
pub fn truncated_payload() -> (e: TxdError)
    ensures
        e matches TxdError::Io(m) && m@ == "failed to fill whole buffer"@,
{
    TxdError::Io("failed to fill whole buffer".to_owned())
}

} // verus!
