//! Enumerates the alternative encodings of a base64, URL-safe base64 or
//! base32 string: every encoded text that decodes to the same byte sequence,
//! differing only in the bits of the final body symbol that the payload
//! length leaves unconstrained.

pub mod arith;
pub mod context;
pub mod engine;
pub mod laws;

pub use context::{Base32, Base64, Base64Urlsafe, DecodeContext};
pub use engine::{permute, DecodeError};
