//! Conversion of the values under the `data` and `dataString` keys of a
//! YAML-like document between base64 transport text and plain scalars.

pub mod codec;
pub mod error;
pub mod laws;
pub mod model;
pub mod scalar;
pub mod text;
pub mod transform;
pub mod value;
