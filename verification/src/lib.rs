//! A MessagePack codec over an explicit value model.
//!
//! `serialize` holds the encoder and `deserialize` the decoder; `msgpack`
//! holds the tokens of the wire format, and `value` the values that are
//! encoded and decoded. What the options and the ceilings of nesting decide
//! for every value, and that decoding gives back what was encoded, is
//! proved in `policy`, `ceiling`, `sorted` and `round_trip`.

pub mod args;
pub mod ceiling;
pub mod decimal;
pub mod deserialize;
pub mod ext;
pub mod io;
pub mod lazy;
pub mod msgpack;
pub mod opt;
pub mod policy;
pub mod round_trip;
pub mod serialize;
pub mod sorted;
pub mod unicode;
pub mod value;
