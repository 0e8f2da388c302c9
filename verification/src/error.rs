//! The ways in which a request can fail.

use vstd::prelude::*;
use vstd::string::StringExecFns;

verus! {

/// Why no result was produced. Every failure ends the request: nothing is
/// retried and no partial result is returned.
#[derive(Debug, PartialEq, Eq)]
pub enum ResizeError {
    /// The source buffer holds no bytes.
    EmptyInput,
    /// The bytes do not begin with the signature of a known image format.
    UnsupportedFormat,
    /// The format was recognised, but its payload could not be decoded. Holds
    /// the codec's diagnostic.
    MalformedImage(String),
    /// The image was decoded, but its width or height is zero.
    ZeroDimension,
    /// The output could not be produced: the codec failed while encoding, or
    /// the target image cannot be held in memory. Holds the diagnostic.
    EncodeFailure(String),
}

impl ResizeError {
    /// The diagnostic text of this error.
    pub open spec fn message_text(self) -> Seq<char> {
        match self {
            ResizeError::EmptyInput => "Empty buffer"@,
            ResizeError::UnsupportedFormat => "Unsupported image data"@,
            ResizeError::MalformedImage(detail) => "Decode failed: "@ + detail@,
            ResizeError::ZeroDimension => "Image has zero dimension"@,
            ResizeError::EncodeFailure(detail) => "Encode failed: "@ + detail@,
        }
    }

    /// Returns the human-readable diagnostic of this error.
    pub fn message(&self) -> (text: String)
        ensures
            text@ == self.message_text(),
    {
        match self {
            ResizeError::EmptyInput => "Empty buffer".to_owned(),
            ResizeError::UnsupportedFormat => "Unsupported image data".to_owned(),
            ResizeError::MalformedImage(detail) => {
                "Decode failed: ".to_owned().concat(detail.as_str())
            },
            ResizeError::ZeroDimension => "Image has zero dimension".to_owned(),
            ResizeError::EncodeFailure(detail) => {
                "Encode failed: ".to_owned().concat(detail.as_str())
            },
        }
    }
}

} // verus!
