use vstd::prelude::*;

verus! {

/// Errors reported while reading, decoding or converting WZ data.
#[derive(Debug)]
pub enum WzError {
    /// A read needed bytes past the end of the data.
    UnexpectedEof,
    /// The first byte of an image is not a known image header.
    InvalidImageHeader(u8),
    /// A property marker byte is not a known property type (text such as `0xFE`).
    UnknownPropertyType(String),
    /// The canvas pixel codec id is not supported.
    UnsupportedPngFormat(u32),
    /// The compressed canvas data could not be inflated.
    DecompressionFailed(String),
    /// Any other malformed-data condition, with a message.
    Custom(String),
}

/// The mathematical model of a [`WzError`]: messages are character sequences.
pub enum ErrV {
    UnexpectedEof,
    InvalidImageHeader(u8),
    UnknownPropertyType(Seq<char>),
    UnsupportedPngFormat(u32),
    DecompressionFailed(Seq<char>),
    Custom(Seq<char>),
}

impl View for WzError {
    type V = ErrV;

    open spec fn view(&self) -> ErrV {
        match self {
            WzError::UnexpectedEof => ErrV::UnexpectedEof,
            WzError::InvalidImageHeader(b) => ErrV::InvalidImageHeader(*b),
            WzError::UnknownPropertyType(s) => ErrV::UnknownPropertyType(s@),
            WzError::UnsupportedPngFormat(id) => ErrV::UnsupportedPngFormat(*id),
            WzError::DecompressionFailed(s) => ErrV::DecompressionFailed(s@),
            WzError::Custom(s) => ErrV::Custom(s@),
        }
    }
}

/// Result type used throughout the library.
pub type WzResult<T> = Result<T, WzError>;

} // verus!
