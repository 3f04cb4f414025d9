//! Text encodings of binary data.

pub mod base64;
