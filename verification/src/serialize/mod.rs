//! The encoder.

pub mod datetime;
pub mod datetimelike;
pub mod default;
pub mod encoding;
pub mod error;
pub mod leaf;
pub mod numpy;
pub mod object;
pub mod order;
pub mod plan;
pub mod serializer;
pub mod uuid;
pub mod writer;

pub use error::{EncodeError, Emitted};
pub use serializer::{Compound, ExtSerializer, MessagePackSerializer, RECURSION_LIMIT};
pub use writer::BytesWriter;
pub use object::{packb, serialize};
