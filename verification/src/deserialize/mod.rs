//! The decoder.

pub mod cache;
pub mod decoding;
pub mod deserializer;
pub mod error;

pub use cache::KeyMap;
pub use error::DeserializeError;
pub use decoding::Error;
pub use deserializer::{deserialize, unpack, unpackb, Deserializer, ExtHook};
