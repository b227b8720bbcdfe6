//! A self-describing binary format for labelled values.
//!
//! A `Field` is a key plus a typed `Value`; one field becomes one record of
//! bytes, and a `Message` value nests whole records inside its payload.

pub mod types;
pub mod format;
pub mod bytes;
pub mod encode;
pub mod decode;
pub mod laws;

pub use decode::decode_field;
pub use encode::encode_field;
pub use types::{Field, Value};
