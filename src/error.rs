//! The library's error type.
use vstd::prelude::*;

verus! {

#[verifier::external_type_specification]
#[verifier::external_body]
pub struct ExDecodeError(base64::DecodeError);

#[verifier::external_type_specification]
#[verifier::external_body]
pub struct ExImageError(imagesize::ImageError);

/// Why reading or writing a tag failed. The tag codecs' own failures carry their message.
#[derive(Debug)]
pub enum Error {
    Id3Error(String),
    FlacError(String),
    M4aError(String),
    IoError(String),
    /// The file name's extension names no supported format; holds the extension.
    FmtError(String),
    DecoderError(base64::DecodeError),
    OtherError(String),
    ImageError(imagesize::ImageError),
    NotSupportedError,
    UnknownError,
}

pub type Result<T> = std::result::Result<T, Error>;

impl Default for Error {
    fn default() -> (r: Error)
        ensures
            r is UnknownError,
    {
        Error::UnknownError
    }
}

} // verus!
