//! Writers for the tokens of the wire format.

pub mod array;
pub mod bin;
pub mod boolean;
pub mod endian;
pub mod ext;
pub mod float;
pub mod integer;
pub mod map;
pub mod marker;
pub mod nil;
pub mod string;

pub use array::write_array_len;
pub use bin::write_bin;
pub use boolean::write_bool;
pub use ext::write_ext;
pub use float::{write_f32, write_f64};
pub use integer::{write_i64, write_u64};
pub use map::write_map_len;
pub use marker::Marker;
pub use nil::write_nil;
pub use string::{write_str, write_str_bytes};
