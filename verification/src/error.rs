//! The ways in which a transformation fails.

use vstd::prelude::*;

verus! {

/// Why a document could not be transformed.
#[derive(Debug, Clone, Copy, PartialEq, Eq, Structural)]
pub enum TransformError {
    /// A value under a tracked key is not a scalar that can be written as
    /// text.
    UnsupportedValue,
    /// A value to decode is not valid base64 text.
    Encoding,
    /// The bytes that came out of base64 are not valid UTF-8.
    TextEncoding,
    /// The base64 text of a value would be longer than the machine can
    /// address.
    TooLong,
}

impl TransformError {
    /// A short description for diagnostics.
    pub fn message(&self) -> (r: &'static str)
        ensures
            r@ == self.message_text(),
    {
        match self {
            TransformError::UnsupportedValue => "unsupported value: not a scalar",
            TransformError::Encoding => "invalid base64 text",
            TransformError::TextEncoding => "decoded bytes are not valid UTF-8",
            TransformError::TooLong => "value too long to encode",
        }
    }

    /// The text of [`TransformError::message`].
    pub open spec fn message_text(&self) -> Seq<char> {
        match self {
            TransformError::UnsupportedValue => "unsupported value: not a scalar"@,
            TransformError::Encoding => "invalid base64 text"@,
            TransformError::TextEncoding => "decoded bytes are not valid UTF-8"@,
            TransformError::TooLong => "value too long to encode"@,
        }
    }
}

} // verus!
