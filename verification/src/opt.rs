//! The options of an encoding or decoding call: one bit each.

use vstd::prelude::*;

verus! {

/// A set of options.
pub type Opt = u16;

/// A date and time without a time zone is taken to be in UTC.
pub const NAIVE_UTC: Opt = 1;

/// Map keys may be of other kinds than string.
pub const NON_STR_KEYS: Opt = 1 << 1;

/// Times are written without their microseconds.
pub const OMIT_MICROSECONDS: Opt = 1 << 2;

/// An integer beyond 64 bits goes to the fallback hook.
pub const PASSTHROUGH_BIG_INT: Opt = 1 << 3;

/// A record goes to the fallback hook.
pub const PASSTHROUGH_DATACLASS: Opt = 1 << 4;

/// Dates and times go to the fallback hook.
pub const PASSTHROUGH_DATETIME: Opt = 1 << 5;

/// A value of a subclass of a built-in type goes to the fallback hook.
pub const PASSTHROUGH_SUBCLASS: Opt = 1 << 6;

/// A tuple goes to the fallback hook.
pub const PASSTHROUGH_TUPLE: Opt = 1 << 7;

/// Numeric arrays and their scalars are encoded.
pub const SERIALIZE_NUMPY: Opt = 1 << 8;

/// Validated models are encoded.
pub const SERIALIZE_PYDANTIC: Opt = 1 << 9;

/// A map is written with its keys in byte order.
pub const SORT_KEYS: Opt = 1 << 10;

/// An offset of zero is written as `Z`.
pub const UTC_Z: Opt = 1 << 11;

/// A date and time with a known offset is written as a timestamp
/// extension.
pub const DATETIME_AS_TIMESTAMP_EXT: Opt = 1 << 12;

/// A UUID goes to the fallback hook.
pub const PASSTHROUGH_UUID: Opt = 1 << 13;

/// A member of an enumeration goes to the fallback hook.
pub const PASSTHROUGH_ENUM: Opt = 1 << 14;

/// A string with lone surrogates is written with each of them replaced.
pub const REPLACE_SURROGATES: Opt = 1 << 15;

/// Every option but those that pass a kind on to the fallback hook from
/// inside a map key.
pub const NOT_PASSTHROUGH: Opt = !(PASSTHROUGH_BIG_INT | PASSTHROUGH_DATACLASS
    | PASSTHROUGH_DATETIME | PASSTHROUGH_SUBCLASS | PASSTHROUGH_TUPLE);

/// The options that encoding knows.
pub const MAX_PACKB_OPT: i32 = 0xffff;

/// The options that decoding knows.
pub const MAX_UNPACKB_OPT: i32 = 2;

/// Whether `opts` holds the option `flag`.
pub open spec fn holds(opts: Opt, flag: Opt) -> bool {
    opts & flag != 0
}

/// Whether `opts` holds the option `flag`.
pub fn is_set(opts: Opt, flag: Opt) -> (b: bool)
    ensures
        b == holds(opts, flag),
{
    opts & flag != 0
}

/// Whether the number `val` is a set of options with no bit outside `mask`.
pub open spec fn is_within(val: i64, mask: i32) -> bool {
    i32::MIN <= val <= i32::MAX && val & !(mask as i64) == 0
}

/// Reads an option argument: a number with no bit outside `mask`, or
/// nothing, which stands for no option.
pub fn parse_option_arg(arg: Option<i64>, mask: i32) -> (r: Result<i32, ()>)
    ensures
        r == match arg {
            None => Ok::<i32, ()>(0),
            Some(val) => if is_within(val, mask) {
                Ok::<i32, ()>(val as i32)
            } else {
                Err::<i32, ()>(())
            },
        },
{
    match arg {
        None => Ok(0),
        Some(val) => {
            if -0x8000_0000 <= val && val <= 0x7fff_ffff && val & !(mask as i64) == 0 {
                Ok(val as i32)
            } else {
                Err(())
            }
        },
    }
}

/// The empty set of options holds no option.
pub proof fn lemma_no_options(flag: Opt)
    ensures
        !holds(0, flag),
{
    assert(0u16 & flag == 0) by (bit_vector);
}

} // verus!
