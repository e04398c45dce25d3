//! Numeric arrays and their scalars.

use crate::msgpack::endian::{as_i16, as_i32, as_i64, as_i8, to_i16, to_i32, to_i64, to_i8};
use crate::io::WriteSlices;
use crate::msgpack::array::array_header;
use crate::msgpack::boolean::bool_bytes;
use crate::msgpack::float::{f32_bytes, f64_bytes};
use crate::msgpack::integer::{i64_bytes, u64_bytes};
use crate::msgpack::string::str_token;
use crate::opt::Opt;
use crate::serialize::datetimelike::{
    datetime_text, push_datetime, DateLike, DateTimeLike, Offset, TimeLike,
};
use crate::serialize::error::{
    encoded, lemma_encoded_stop, lemma_encoded_then, lemma_encoded_unchanged, Emitted, EncodeError,
};
use crate::serialize::serializer::MessagePackSerializer;
use crate::value::{ArrayInterface, ArrayInterfaceView, DatetimeUnit, Scalar};
use vstd::prelude::*;

verus! {

/// The kind of the elements of a numeric array.
#[derive(Clone, Copy, Debug, PartialEq, Eq, Structural)]
pub enum ItemType {
    BOOL,
    DATETIME64(DatetimeUnit),
    F16,
    F32,
    F64,
    I8,
    I16,
    I32,
    I64,
    U8,
    U16,
    U32,
    U64,
}

impl ItemType {
    /// The kind that a letter and a size in bytes stand for, if any.
    pub open spec fn find_spec(typekind: u8, itemsize: i32, unit: DatetimeUnit) -> Option<
        ItemType,
    > {
        if typekind == 98 && itemsize == 1 {
            Some(ItemType::BOOL)
        } else if typekind == 77 && itemsize == 8 {
            Some(ItemType::DATETIME64(unit))
        } else if typekind == 102 && itemsize == 2 {
            Some(ItemType::F16)
        } else if typekind == 102 && itemsize == 4 {
            Some(ItemType::F32)
        } else if typekind == 102 && itemsize == 8 {
            Some(ItemType::F64)
        } else if typekind == 105 && itemsize == 1 {
            Some(ItemType::I8)
        } else if typekind == 105 && itemsize == 2 {
            Some(ItemType::I16)
        } else if typekind == 105 && itemsize == 4 {
            Some(ItemType::I32)
        } else if typekind == 105 && itemsize == 8 {
            Some(ItemType::I64)
        } else if typekind == 117 && itemsize == 1 {
            Some(ItemType::U8)
        } else if typekind == 117 && itemsize == 2 {
            Some(ItemType::U16)
        } else if typekind == 117 && itemsize == 4 {
            Some(ItemType::U32)
        } else if typekind == 117 && itemsize == 8 {
            Some(ItemType::U64)
        } else {
            None
        }
    }

    /// The kind that a letter and a size in bytes stand for, if any.
    pub fn find(typekind: u8, itemsize: i32, unit: DatetimeUnit) -> (kind: Option<ItemType>)
        ensures
            kind == Self::find_spec(typekind, itemsize, unit),
    {
        if typekind == 98 && itemsize == 1 {
            Some(ItemType::BOOL)
        } else if typekind == 77 && itemsize == 8 {
            Some(ItemType::DATETIME64(unit))
        } else if typekind == 102 && itemsize == 2 {
            Some(ItemType::F16)
        } else if typekind == 102 && itemsize == 4 {
            Some(ItemType::F32)
        } else if typekind == 102 && itemsize == 8 {
            Some(ItemType::F64)
        } else if typekind == 105 && itemsize == 1 {
            Some(ItemType::I8)
        } else if typekind == 105 && itemsize == 2 {
            Some(ItemType::I16)
        } else if typekind == 105 && itemsize == 4 {
            Some(ItemType::I32)
        } else if typekind == 105 && itemsize == 8 {
            Some(ItemType::I64)
        } else if typekind == 117 && itemsize == 1 {
            Some(ItemType::U8)
        } else if typekind == 117 && itemsize == 2 {
            Some(ItemType::U16)
        } else if typekind == 117 && itemsize == 4 {
            Some(ItemType::U32)
        } else if typekind == 117 && itemsize == 8 {
            Some(ItemType::U64)
        } else {
            None
        }
    }

    /// The size of an element in bytes.
    pub open spec fn size_spec(self) -> nat {
        match self {
            ItemType::BOOL | ItemType::I8 | ItemType::U8 => 1,
            ItemType::F16 | ItemType::I16 | ItemType::U16 => 2,
            ItemType::F32 | ItemType::I32 | ItemType::U32 => 4,
            _ => 8,
        }
    }

    /// The size of an element in bytes.
    pub fn size(self) -> (n: usize)
        ensures
            n == self.size_spec(),
    {
        match self {
            ItemType::BOOL | ItemType::I8 | ItemType::U8 => 1,
            ItemType::F16 | ItemType::I16 | ItemType::U16 => 2,
            ItemType::F32 | ItemType::I32 | ItemType::U32 => 4,
            _ => 8,
        }
    }
}

/// Why a numeric array is not encoded as it is.
#[derive(Clone, Copy, Debug, PartialEq, Eq, Structural)]
pub enum PyArrayError {
    /// The description of the array contradicts itself.
    Malformed,
    /// The elements do not lie row by row without gaps.
    NotContiguous,
    /// The array has no dimension, or elements of a kind that is not encoded.
    UnsupportedDataType,
}

/// The number that bytes spell, low byte first.
pub open spec fn le_value(bytes: Seq<u8>) -> nat
    decreases bytes.len(),
{
    if bytes.len() == 0 {
        0
    } else {
        bytes[0] as nat + 0x100 * le_value(bytes.drop_first())
    }
}

/// The number that up to eight bytes of `data` from `at` on spell, low byte
/// first.
pub fn read_le(data: &[u8], at: usize, size: usize) -> (v: u64)
    requires
        size <= 8,
        at + size <= data@.len(),
    ensures
        v == le_value(data@.subrange(at as int, at + size)),
{
    let total = data.len();
    let mut v: u64 = 0;
    let mut i: usize = size;
    let ghost mut bound: nat = 1;
    assert(data@.subrange(at + size, at + size) =~= Seq::<u8>::empty());
    while i > 0
        invariant
            i <= size <= 8,
            at + size <= data@.len(),
            total == data@.len(),
            v == le_value(data@.subrange(at + i, at + size)),
            v < bound,
            bound == limit_of((size - i) as nat),
        decreases i,
    {
        proof {
            reveal_with_fuel(limit_of, 9);
            assert(limit_of((size - i) as nat) <= 0x100_0000_0000_0000);
        }
        i = i - 1;
        proof {
            let s = data@.subrange(at + i, at + size);
            assert(s.drop_first() =~= data@.subrange(at + i + 1, at + size));
            assert(s[0] == data@[at + i]);
            bound = bound * 0x100;
        }
        v = v * 0x100 + data[at + i] as u64;
    }
    v
}

/// What a number of `n` bytes stays below.
pub open spec fn limit_of(n: nat) -> nat
    decreases n,
{
    if n == 0 {
        1
    } else {
        0x100 * limit_of((n - 1) as nat)
    }
}

/// The number that `n` bytes spell stays below the limit of `n` bytes.
pub proof fn lemma_le_value_bound(bytes: Seq<u8>)
    ensures
        le_value(bytes) < limit_of(bytes.len()),
    decreases bytes.len(),
{
    if bytes.len() > 0 {
        lemma_le_value_bound(bytes.drop_first());
    }
}

/// A moment as the calendar and the clock name it.
#[derive(Clone, Copy, Debug, PartialEq, Eq, Structural)]
pub struct Civil {
    pub year: i32,
    pub month: u32,
    pub day: u32,
    pub hour: u32,
    pub minute: u32,
    pub second: u32,
    pub nanosecond: u32,
}

/// The date and time in UTC of a number of seconds since the epoch and of
/// nanoseconds on top of them; nothing where the calendar has none.
pub uninterp spec fn civil_of_timestamp(secs: i64, nsecs: u32) -> Option<Civil>;

/// Whether a year has a 29th of February: every fourth year, but of the
/// years that end a century only every fourth.
pub open spec fn is_leap(year: int) -> bool {
    (year % 4 == 0 && year % 100 != 0) || year % 400 == 0
}

/// The number of days of a month of a year.
pub open spec fn days_in_month(year: int, month: int) -> int {
    if month == 2 {
        if is_leap(year) {
            29
        } else {
            28
        }
    } else if month == 4 || month == 6 || month == 9 || month == 11 {
        30
    } else {
        31
    }
}

/// Whether the calendar has a date: a day of a month of a year between
/// 262144 BCE and 262142 CE.
pub open spec fn date_exists(year: i32, month: u32, day: u32) -> bool {
    &&& -262143 <= year <= 262142
    &&& 1 <= month <= 12
    &&& 1 <= day <= days_in_month(year as int, month as int)
}

/// A significand below 2^10 that is not zero, doubled until it is 2^10 or
/// more, and an exponent that is lowered by one with each doubling.
pub open spec fn normalize_half(frac: int, exp: int) -> (int, int)
    decreases
            if frac < 0x400 {
                0x400 - frac
            } else {
                0
            },
{
    if frac <= 0 || frac >= 0x400 {
        (frac, exp)
    } else {
        normalize_half(frac * 2, exp - 1)
    }
}

/// The bit pattern of the single-precision number that has the value of
/// the half-precision number with the bit pattern `bits`: the sign, the
/// exponent under the wider bias, and the significand in the high bits of
/// the wider one. A number too small for a leading one gets its leading
/// one; one that is no number becomes a quiet one with the same payload.
#[verifier::opaque]
pub open spec fn half_to_single(bits: u16) -> u32 {
    let sign: int = bits as int / 0x8000;
    let exp: int = bits as int / 0x400 % 0x20;
    let frac: int = bits as int % 0x400;
    let high: int = sign * 0x8000_0000;
    if exp == 0x1f {
        (high + 0x7f80_0000 + frac * 0x2000 + (if frac != 0 && frac < 0x200 {
            0x40_0000int
        } else {
            0
        })) as u32
    } else if exp == 0 {
        if frac == 0 {
            high as u32
        } else {
            let (m, e) = normalize_half(frac, 113);
            (high + e * 0x80_0000 + (m - 0x400) * 0x2000) as u32
        }
    } else {
        (high + (exp + 112) * 0x80_0000 + frac * 0x2000) as u32
    }
}

/// A bound that doubles with each step below 113.
pub open spec fn half_shift(e: u32) -> int
    decreases 113 - e,
{
    if e >= 113 {
        1
    } else {
        2 * half_shift((e + 1) as u32)
    }
}

/// The bit pattern of the single-precision number with the value of a
/// half-precision number.
pub fn half_bits_to_single(bits: u16) -> (wide: u32)
    ensures
        wide == half_to_single(bits),
{
    reveal(half_to_single);
    let sign: u32 = (bits / 0x8000) as u32;
    let exp: u32 = (bits / 0x400 % 0x20) as u32;
    let frac: u32 = (bits % 0x400) as u32;
    let high: u32 = sign * 0x8000_0000;
    if exp == 0x1f {
        let quiet: u32 = if frac != 0 && frac < 0x200 {
            0x40_0000
        } else {
            0
        };
        high + 0x7f80_0000 + frac * 0x2000 + quiet
    } else if exp == 0 {
        if frac == 0 {
            high
        } else {
            let mut m: u32 = frac;
            let mut e: u32 = 113;
            while m < 0x400
                invariant
                    0 < m < 0x800,
                    m >= half_shift(e),
                    103 <= e <= 113,
                    normalize_half(m as int, e as int) == normalize_half(frac as int, 113),
                decreases e,
            {
                proof {
                    reveal_with_fuel(half_shift, 12);
                    assert(half_shift(103) == 0x400);
                }
                m = m * 2;
                e = e - 1;
            }
            high + e * 0x80_0000 + (m - 0x400) * 0x2000
        }
    } else {
        high + (exp + 112) * 0x80_0000 + frac * 0x2000
    }
}

/// The date and time of a timestamp, from chrono: the moment from
/// `DateTime::from_timestamp`, in UTC by `DateTime::naive_utc`, read by the
/// methods of `Datelike` and `Timelike`. The result depends on the
/// arguments alone; its fields lie in the ranges that those methods
/// document.
#[verifier::external_body]
fn from_timestamp(secs: i64, nsecs: u32) -> (r: Option<Civil>)
    ensures
        r == civil_of_timestamp(secs, nsecs),
        r matches Some(c) ==> 1 <= c.month <= 12 && 1 <= c.day <= 31 && c.hour < 24 && c.minute
            < 60 && c.second < 60 && c.nanosecond < 2_000_000_000,
{
    let t = chrono::DateTime::from_timestamp(secs, nsecs)?.naive_utc();
    Some(
        Civil {
            year: chrono::Datelike::year(&t),
            month: chrono::Datelike::month(&t),
            day: chrono::Datelike::day(&t),
            hour: chrono::Timelike::hour(&t),
            minute: chrono::Timelike::minute(&t),
            second: chrono::Timelike::second(&t),
            nanosecond: chrono::Timelike::nanosecond(&t),
        },
    )
}

/// Whether the calendar has a date, from `chrono::NaiveDate::from_ymd_opt`,
/// which gives a date exactly where the day exists in the month and the
/// year lies in the range of its dates.
#[verifier::external_body]
fn has_date(year: i32, month: u32, day: u32) -> (b: bool)
    ensures
        b == date_exists(year, month, day),
{
    chrono::NaiveDate::from_ymd_opt(year, month, day).is_some()
}

/// The quotient of `a` by a positive `b`, rounded toward zero.
pub open spec fn tdiv(a: int, b: int) -> int {
    if a >= 0 {
        a / b
    } else {
        -((-a) / b)
    }
}

/// The remainder of `a` by a positive `b` that goes with `tdiv`: it has the
/// sign of `a`.
pub open spec fn trem(a: int, b: int) -> int {
    if a >= 0 {
        a % b
    } else {
        -((-a) % b)
    }
}

/// The date and time of a number of seconds since the epoch and of
/// nanoseconds on top of them, where the machine holds the seconds, the
/// nanoseconds are not negative, and the calendar has the moment.
pub open spec fn civil_at(secs: int, nanos: int) -> Option<Civil> {
    if i64::MIN <= secs <= i64::MAX && 0 <= nanos <= u32::MAX {
        civil_of_timestamp(secs as i64, nanos as u32)
    } else {
        None
    }
}

/// The first day of a month of a year, at midnight, where the machine
/// holds the year and the calendar has the month.
pub open spec fn civil_month(year: int, month: int) -> Option<Civil> {
    if i32::MIN <= year <= i32::MAX && 1 <= month <= 12 && date_exists(
        year as i32,
        month as u32,
        1,
    ) {
        Some(
            Civil {
                year: year as i32,
                month: month as u32,
                day: 1,
                hour: 0,
                minute: 0,
                second: 0,
                nanosecond: 0,
            },
        )
    } else {
        None
    }
}

/// The date and time that a timestamp in a unit names. Years and months
/// count from 1970; the smaller units count seconds or parts of seconds
/// from the epoch. A timestamp before the epoch in months or in parts of a
/// second that is no whole year or second names nothing, nor does one
/// beyond the calendar.
pub open spec fn datetime64_civil(unit: DatetimeUnit, val: i64) -> Result<Civil, EncodeError> {
    let moment = match unit {
        DatetimeUnit::Years => civil_month(val + 1970, 1),
        DatetimeUnit::Months => civil_month(tdiv(val as int, 12) + 1970, trem(val as int, 12) + 1),
        DatetimeUnit::Weeks => civil_at(val * 604800, 0),
        DatetimeUnit::Days => civil_at(val * 86400, 0),
        DatetimeUnit::Hours => civil_at(val * 3600, 0),
        DatetimeUnit::Minutes => civil_at(val * 60, 0),
        DatetimeUnit::Seconds => civil_at(val as int, 0),
        DatetimeUnit::Milliseconds => civil_at(
            tdiv(val as int, 1_000),
            trem(val as int, 1_000) * 1_000_000,
        ),
        DatetimeUnit::Microseconds => civil_at(
            tdiv(val as int, 1_000_000),
            trem(val as int, 1_000_000) * 1_000,
        ),
        DatetimeUnit::Nanoseconds => civil_at(
            tdiv(val as int, 1_000_000_000),
            trem(val as int, 1_000_000_000),
        ),
        _ => None,
    };
    if !has_calendar(unit) {
        Err(EncodeError::DatetimeUnitUnsupported(unit))
    } else {
        match moment {
            Some(c) => Ok(c),
            None => Err(EncodeError::DatetimeUnrepresentable { unit, val }),
        }
    }
}

/// Whether a date and time is made from timestamps in a unit: from years
/// down to nanoseconds.
pub open spec fn has_calendar(unit: DatetimeUnit) -> bool {
    match unit {
        DatetimeUnit::Years | DatetimeUnit::Months | DatetimeUnit::Weeks | DatetimeUnit::Days
        | DatetimeUnit::Hours | DatetimeUnit::Minutes | DatetimeUnit::Seconds
        | DatetimeUnit::Milliseconds | DatetimeUnit::Microseconds | DatetimeUnit::Nanoseconds => true,
        _ => false,
    }
}

/// A date and time without a time zone, to be written under options.
pub struct NaiveDateTime {
    pub dt: Civil,
    pub opts: Opt,
}

impl DateLike for NaiveDateTime {
    open spec fn spec_year(&self) -> i32 {
        self.dt.year
    }

    open spec fn spec_month(&self) -> i32 {
        (self.dt.month % 0x8000_0000) as i32
    }

    open spec fn spec_day(&self) -> i32 {
        (self.dt.day % 0x8000_0000) as i32
    }

    fn year(&self) -> i32 {
        self.dt.year
    }

    fn month(&self) -> i32 {
        (self.dt.month % 0x8000_0000) as i32
    }

    fn day(&self) -> i32 {
        (self.dt.day % 0x8000_0000) as i32
    }
}

impl TimeLike for NaiveDateTime {
    open spec fn spec_hour(&self) -> i32 {
        (self.dt.hour % 0x8000_0000) as i32
    }

    open spec fn spec_minute(&self) -> i32 {
        (self.dt.minute % 0x8000_0000) as i32
    }

    open spec fn spec_second(&self) -> i32 {
        (self.dt.second % 0x8000_0000) as i32
    }

    open spec fn spec_microsecond(&self) -> i32 {
        (self.dt.nanosecond / 1_000) as i32
    }

    fn hour(&self) -> i32 {
        (self.dt.hour % 0x8000_0000) as i32
    }

    fn minute(&self) -> i32 {
        (self.dt.minute % 0x8000_0000) as i32
    }

    fn second(&self) -> i32 {
        (self.dt.second % 0x8000_0000) as i32
    }

    fn microsecond(&self) -> i32 {
        (self.dt.nanosecond / 1_000) as i32
    }
}

impl DateTimeLike for NaiveDateTime {
    open spec fn spec_has_tz(&self) -> bool {
        false
    }

    open spec fn spec_offset(&self) -> Offset {
        Offset { day: 0, second: 0 }
    }

    fn has_tz(&self) -> bool {
        false
    }

    fn offset(&self) -> Offset {
        Offset::default()
    }
}

/// The text of a date and time without a time zone.
pub open spec fn naive_text(dt: Civil, opts: Opt) -> Seq<u8> {
    datetime_text(
        dt.year,
        (dt.month % 0x8000_0000) as i32,
        (dt.day % 0x8000_0000) as i32,
        (dt.hour % 0x8000_0000) as i32,
        (dt.minute % 0x8000_0000) as i32,
        (dt.second % 0x8000_0000) as i32,
        (dt.nanosecond / 1_000) as i32,
        false,
        Offset { day: 0, second: 0 },
        opts,
    )
}

impl NaiveDateTime {
    /// The text of the date and time.
    pub fn render(&self) -> (text: Vec<u8>)
        ensures
            text@ == naive_text(self.dt, self.opts),
    {
        let mut buf: Vec<u8> = Vec::new();
        push_datetime(self, &mut buf, self.opts);
        assert(buf@ =~= naive_text(self.dt, self.opts));
        buf
    }
}

/// The quotient and the remainder of `a` by `b`, rounded toward zero.
fn div_rem(a: i64, b: i64) -> (qr: (i64, i64))
    requires
        b > 0,
    ensures
        qr.0 == tdiv(a as int, b as int),
        qr.1 == trem(a as int, b as int),
        -b < qr.1 < b,
{
    if a >= 0 {
        (a / b, a % b)
    } else {
        let wide: i128 = -(a as i128);
        let bw: i128 = b as i128;
        let q: i128 = wide / bw;
        let r: i128 = wide % bw;
        assert(q <= wide) by (nonlinear_arith)
            requires
                q == wide / bw,
                wide >= 0,
                bw > 0,
        ;
        ((-q) as i64, (-r) as i64)
    }
}

/// The first day of a month of a year, at midnight.
fn month_start(year: i128, month: i64) -> (r: Option<Civil>)
    ensures
        r == civil_month(year as int, month as int),
{
    if year < i32::MIN as i128 || year > i32::MAX as i128 || month < 1 || month > 12 {
        return None;
    }
    if !has_date(year as i32, month as u32, 1) {
        return None;
    }
    Some(
        Civil {
            year: year as i32,
            month: month as u32,
            day: 1,
            hour: 0,
            minute: 0,
            second: 0,
            nanosecond: 0,
        },
    )
}

/// The date and time of seconds since the epoch and nanoseconds on top.
fn moment(secs: i128, nanos: i64) -> (r: Option<Civil>)
    ensures
        r == civil_at(secs as int, nanos as int),
{
    if secs < i64::MIN as i128 || secs > i64::MAX as i128 || nanos < 0 || nanos > u32::MAX as i64 {
        return None;
    }
    from_timestamp(secs as i64, nanos as u32)
}

/// The date and time that a timestamp in a unit names.
pub fn datetime(unit: DatetimeUnit, val: i64, opts: Opt) -> (r: Result<NaiveDateTime, EncodeError>)
    ensures
        match r {
            Ok(naive) => datetime64_civil(unit, val) == Ok::<Civil, EncodeError>(naive.dt)
                && naive.opts == opts,
            Err(e) => datetime64_civil(unit, val) == Err::<Civil, EncodeError>(e),
        },
{
    let wide: i128 = val as i128;
    let found = match unit {
        DatetimeUnit::Years => month_start(wide + 1970, 1),
        DatetimeUnit::Months => {
            let (q, r) = div_rem(val, 12);
            month_start(q as i128 + 1970, r + 1)
        },
        DatetimeUnit::Weeks => moment(wide * 604800, 0),
        DatetimeUnit::Days => moment(wide * 86400, 0),
        DatetimeUnit::Hours => moment(wide * 3600, 0),
        DatetimeUnit::Minutes => moment(wide * 60, 0),
        DatetimeUnit::Seconds => moment(wide, 0),
        DatetimeUnit::Milliseconds => {
            let (secs, rest) = div_rem(val, 1_000);
            moment(secs as i128, rest * 1_000_000)
        },
        DatetimeUnit::Microseconds => {
            let (secs, rest) = div_rem(val, 1_000_000);
            moment(secs as i128, rest * 1_000)
        },
        DatetimeUnit::Nanoseconds => {
            let (secs, rest) = div_rem(val, 1_000_000_000);
            moment(secs as i128, rest)
        },
        _ => {
            return Err(EncodeError::DatetimeUnitUnsupported(unit));
        },
    };
    match found {
        Some(dt) => Ok(NaiveDateTime { dt, opts }),
        None => Err(EncodeError::DatetimeUnrepresentable { unit, val }),
    }
}

/// What a timestamp in a unit is encoded as: the string of its date and
/// time.
pub open spec fn datetime64_emit(unit: DatetimeUnit, val: i64, opts: Opt) -> Emitted {
    match datetime64_civil(unit, val) {
        Ok(c) => Emitted::token(str_token(naive_text(c, opts))),
        Err(e) => Emitted::fail(e),
    }
}

/// Writes a timestamp in a unit.
pub fn serialize_datetime64<W: WriteSlices>(
    unit: DatetimeUnit,
    val: i64,
    se: &mut MessagePackSerializer<W>,
    opts: Opt,
) -> (r: Result<(), EncodeError>)
    ensures
        encoded(old(se).sink(), final(se).sink(), r, datetime64_emit(unit, val, opts)),
{
    match datetime(unit, val, opts) {
        Ok(naive) => {
            let text = naive.render();
            se.serialize_text(text.as_slice())
        },
        Err(e) => {
            proof {
                lemma_encoded_unchanged(se.sink(), Err(e));
            }
            Err(e)
        },
    }
}

/// What a scalar is encoded as: a boolean, an integer in its shortest
/// form, a floating-point number in single or double precision, a
/// timestamp as the string of its date and time.
#[verifier::opaque]
pub open spec fn scalar_emit(s: Scalar, opts: Opt) -> Emitted {
    match s {
        Scalar::Bool(b) => Emitted::ok(bool_bytes(b)),
        Scalar::Datetime64 { unit, value } => datetime64_emit(unit, value, opts),
        Scalar::F16(bits) => Emitted::ok(f32_bytes(half_to_single(bits))),
        Scalar::F32(bits) => Emitted::ok(f32_bytes(bits)),
        Scalar::F64(bits) => Emitted::ok(f64_bytes(bits)),
        Scalar::I8(v) => Emitted::ok(i64_bytes(v as i64)),
        Scalar::I16(v) => Emitted::ok(i64_bytes(v as i64)),
        Scalar::I32(v) => Emitted::ok(i64_bytes(v as i64)),
        Scalar::I64(v) => Emitted::ok(i64_bytes(v)),
        Scalar::U8(v) => Emitted::ok(u64_bytes(v as u64)),
        Scalar::U16(v) => Emitted::ok(u64_bytes(v as u64)),
        Scalar::U32(v) => Emitted::ok(u64_bytes(v as u64)),
        Scalar::U64(v) => Emitted::ok(u64_bytes(v)),
    }
}

/// Writes a scalar.
pub fn serialize_scalar<W: WriteSlices>(
    s: Scalar,
    se: &mut MessagePackSerializer<W>,
    opts: Opt,
) -> (r: Result<(), EncodeError>)
    ensures
        encoded(old(se).sink(), final(se).sink(), r, scalar_emit(s, opts)),
{
    proof {
        reveal(scalar_emit);
    }
    match s {
        Scalar::Bool(b) => se.serialize_bool(b),
        Scalar::Datetime64 { unit, value } => serialize_datetime64(unit, value, se, opts),
        Scalar::F16(bits) => se.serialize_f32(half_bits_to_single(bits)),
        Scalar::F32(bits) => se.serialize_f32(bits),
        Scalar::F64(bits) => se.serialize_f64(bits),
        Scalar::I8(v) => se.serialize_i64(v as i64),
        Scalar::I16(v) => se.serialize_i64(v as i64),
        Scalar::I32(v) => se.serialize_i64(v as i64),
        Scalar::I64(v) => se.serialize_i64(v),
        Scalar::U8(v) => se.serialize_u64(v as u64),
        Scalar::U16(v) => se.serialize_u64(v as u64),
        Scalar::U32(v) => se.serialize_u64(v as u64),
        Scalar::U64(v) => se.serialize_u64(v),
    }
}

/// The scalar that the bytes of an element are, low byte first.
pub open spec fn element_of(kind: ItemType, bytes: Seq<u8>) -> Scalar {
    let n = le_value(bytes);
    match kind {
        ItemType::BOOL => Scalar::Bool(n == 1),
        ItemType::DATETIME64(unit) => Scalar::Datetime64 { unit, value: as_i64(n as u64) },
        ItemType::F16 => Scalar::F16(n as u16),
        ItemType::F32 => Scalar::F32(n as u32),
        ItemType::F64 => Scalar::F64(n as u64),
        ItemType::I8 => Scalar::I8(as_i8(n as u8)),
        ItemType::I16 => Scalar::I16(as_i16(n as u16)),
        ItemType::I32 => Scalar::I32(as_i32(n as u32)),
        ItemType::I64 => Scalar::I64(as_i64(n as u64)),
        ItemType::U8 => Scalar::U8(n as u8),
        ItemType::U16 => Scalar::U16(n as u16),
        ItemType::U32 => Scalar::U32(n as u32),
        ItemType::U64 => Scalar::U64(n as u64),
    }
}

/// The element of a kind at `at` in the memory of an array.
pub fn element(kind: ItemType, data: &[u8], at: usize) -> (s: Scalar)
    requires
        at + kind.size_spec() <= data@.len(),
    ensures
        s == element_of(kind, data@.subrange(at as int, at + kind.size_spec())),
{
    let size = kind.size();
    let n = read_le(data, at, size);
    proof {
        lemma_le_value_bound(data@.subrange(at as int, at + size));
        reveal_with_fuel(limit_of, 9);
    }
    match kind {
        ItemType::BOOL => Scalar::Bool(n == 1),
        ItemType::DATETIME64(unit) => Scalar::Datetime64 { unit, value: to_i64(n) },
        ItemType::F16 => Scalar::F16(n as u16),
        ItemType::F32 => Scalar::F32(n as u32),
        ItemType::F64 => Scalar::F64(n),
        ItemType::I8 => Scalar::I8(to_i8(n as u8)),
        ItemType::I16 => Scalar::I16(to_i16(n as u16)),
        ItemType::I32 => Scalar::I32(to_i32(n as u32)),
        ItemType::I64 => Scalar::I64(to_i64(n)),
        ItemType::U8 => Scalar::U8(n as u8),
        ItemType::U16 => Scalar::U16(n as u16),
        ItemType::U32 => Scalar::U32(n as u32),
        ItemType::U64 => Scalar::U64(n),
    }
}

/// The farthest from the start of the memory that a part of an array may
/// be said to start: a bound that keeps the sums of offsets inside the
/// machine's widest integers.
pub open spec fn offset_bound() -> int {
    0x2000_0000_0000_0000_0000_0000_0000_0000
}

/// Whether the part of an array below the dimension `depth` that starts
/// at the byte `offset` can be read: at the last dimension a run of
/// elements that is empty or lies inside the memory of the array, above
/// it one part for each index.
pub open spec fn valid_node(a: ArrayInterfaceView, size: nat, depth: nat, offset: int) -> bool
    decreases a.shape.len() - depth, 1nat, 0nat,
{
    &&& depth < a.shape.len()
    &&& a.shape[depth as int] >= 0
    &&& -offset_bound() <= offset <= offset_bound()
    &&& if depth + 1 == a.shape.len() {
        a.shape[depth as int] == 0 || (0 <= offset && offset + a.shape[depth as int] * size
            <= a.data.len())
    } else {
        valid_children(a, size, depth, offset, a.shape[depth as int] as nat)
    }
}

/// Whether the first `upto` parts below a node lie inside the memory.
pub open spec fn valid_children(
    a: ArrayInterfaceView,
    size: nat,
    depth: nat,
    offset: int,
    upto: nat,
) -> bool
    decreases a.shape.len() - depth, 0nat, upto,
{
    if upto == 0 || depth + 1 >= a.shape.len() {
        true
    } else {
        valid_children(a, size, depth, offset, (upto - 1) as nat) && valid_node(
            a,
            size,
            depth + 1,
            offset + (upto - 1) * a.strides[depth as int],
        )
    }
}

/// The kind of the elements of an array that can be encoded, or why the
/// array cannot: a wrong version tag, gaps between the elements, no
/// dimension, elements of a kind that is not encoded, or a shape that does
/// not fit the memory.
pub open spec fn array_check(a: ArrayInterfaceView) -> Result<ItemType, PyArrayError> {
    if a.two != 2 {
        Err(PyArrayError::Malformed)
    } else if a.flags & 0x1 != 0x1 {
        Err(PyArrayError::NotContiguous)
    } else if a.shape.len() == 0 {
        Err(PyArrayError::UnsupportedDataType)
    } else {
        match ItemType::find_spec(a.typekind, a.itemsize, a.unit) {
            None => Err(PyArrayError::UnsupportedDataType),
            Some(kind) => if a.strides.len() == a.shape.len() && valid_node(
                a,
                kind.size_spec(),
                0,
                0,
            ) {
                Ok(kind)
            } else {
                Err(PyArrayError::Malformed)
            },
        }
    }
}

/// What the first `upto` elements of a run are encoded as.
pub open spec fn run_emit(
    a: ArrayInterfaceView,
    kind: ItemType,
    offset: int,
    upto: nat,
    opts: Opt,
) -> Emitted
    decreases upto,
{
    if upto == 0 {
        Emitted::nothing()
    } else {
        run_emit(a, kind, offset, (upto - 1) as nat, opts).followed_by(
            scalar_emit(
                element_of(
                    kind,
                    a.data.subrange(
                        offset + (upto - 1) * kind.size_spec(),
                        offset + upto * kind.size_spec(),
                    ),
                ),
                opts,
            ),
        )
    }
}

/// What the part of an array below the dimension `depth` that starts at
/// the byte `offset` is encoded as: an array of its elements at the last
/// dimension, an array of arrays above it.
pub open spec fn node_emit(
    a: ArrayInterfaceView,
    kind: ItemType,
    depth: nat,
    offset: int,
    opts: Opt,
) -> Emitted
    decreases a.shape.len() - depth, 1nat, 0nat,
{
    if depth >= a.shape.len() {
        Emitted::nothing()
    } else if depth + 1 == a.shape.len() {
        Emitted::token(array_header(a.shape[depth as int] as nat)).followed_by(
            run_emit(a, kind, offset, a.shape[depth as int] as nat, opts),
        )
    } else {
        Emitted::token(array_header(a.shape[depth as int] as nat)).followed_by(
            children_emit(a, kind, depth, offset, a.shape[depth as int] as nat, opts),
        )
    }
}

/// What the first `upto` parts below a node are encoded as.
pub open spec fn children_emit(
    a: ArrayInterfaceView,
    kind: ItemType,
    depth: nat,
    offset: int,
    upto: nat,
    opts: Opt,
) -> Emitted
    decreases a.shape.len() - depth, 0nat, upto,
{
    if upto == 0 || depth + 1 >= a.shape.len() {
        Emitted::nothing()
    } else {
        children_emit(a, kind, depth, offset, (upto - 1) as nat, opts).followed_by(
            node_emit(a, kind, depth + 1, offset + (upto - 1) * a.strides[depth as int], opts),
        )
    }
}

/// What a numeric array that can be encoded is encoded as.
pub open spec fn array_emit(a: ArrayInterfaceView, opts: Opt) -> Emitted {
    match array_check(a) {
        Ok(kind) => node_emit(a, kind, 0, 0, opts),
        Err(_) => Emitted::nothing(),
    }
}

/// Whether the part of an array below `depth` at `offset` lies inside the
/// memory.
fn check_node(a: &ArrayInterface, size: usize, depth: usize, offset: i128) -> (ok: bool)
    requires
        1 <= size <= 8,
        a.strides@.len() == a.shape@.len(),
        depth < a.shape@.len(),
        -offset_bound() <= offset <= offset_bound(),
    ensures
        ok == valid_node(a@, size as nat, depth as nat, offset as int),
    decreases a.shape@.len() - depth, 1nat, 0nat,
{
    let n = a.shape[depth];
    let total = a.data.len();
    let nd = a.shape.len();
    if n < 0 {
        return false;
    }
    if depth + 1 == nd {
        assert(0 <= n * size <= 0x4_0000_0000_0000_0000) by (nonlinear_arith)
            requires
                0 <= n <= 0x7fff_ffff_ffff_ffff,
                0 <= size <= 8,
        ;
        let need: i128 = (n as i128) * (size as i128);
        n == 0 || (0 <= offset && offset + need <= total as i128)
    } else {
        check_children(a, size, depth, offset, n as usize)
    }
}

/// Whether the first `count` parts below a node lie inside the memory.
fn check_children(a: &ArrayInterface, size: usize, depth: usize, offset: i128, count: usize) -> (ok:
    bool)
    requires
        1 <= size <= 8,
        a.strides@.len() == a.shape@.len(),
        depth + 1 < a.shape@.len(),
        -offset_bound() <= offset <= offset_bound(),
        count <= isize::MAX,
    ensures
        ok == valid_children(a@, size as nat, depth as nat, offset as int, count as nat),
    decreases a.shape@.len() - depth, 0nat, count,
{
    let stride = a.strides[depth];
    let nd = a.shape.len();
    let mut i: usize = 0;
    while i < count
        invariant
            i <= count <= isize::MAX,
            1 <= size <= 8,
            a.strides@.len() == a.shape@.len(),
            depth + 1 < a.shape@.len(),
            nd == a.shape@.len(),
            -offset_bound() <= offset <= offset_bound(),
            stride == a.strides@[depth as int],
            valid_children(a@, size as nat, depth as nat, offset as int, i as nat),
        decreases count - i,
    {
        match child_offset(offset, i, stride) {
            Some(at) => {
                if !check_node(a, size, depth + 1, at) {
                    proof {
                        lemma_valid_children_stop(
                            a@,
                            size as nat,
                            depth as nat,
                            offset as int,
                            (i + 1) as nat,
                            count as nat,
                        );
                    }
                    return false;
                }
            },
            None => {
                proof {
                    assert(!valid_node(
                        a@,
                        size as nat,
                        (depth + 1) as nat,
                        offset + i * a@.strides[depth as int],
                    ));
                    lemma_valid_children_stop(
                        a@,
                        size as nat,
                        depth as nat,
                        offset as int,
                        (i + 1) as nat,
                        count as nat,
                    );
                }
                return false;
            },
        }
        i = i + 1;
    }
    true
}

/// Parts that do not lie inside the memory stay so when more parts are
/// looked at.
proof fn lemma_valid_children_stop(
    a: ArrayInterfaceView,
    size: nat,
    depth: nat,
    offset: int,
    m: nat,
    n: nat,
)
    requires
        m <= n,
        !valid_children(a, size, depth, offset, m),
    ensures
        !valid_children(a, size, depth, offset, n),
    decreases n - m,
{
    if m < n {
        lemma_valid_children_stop(a, size, depth, offset, m, (n - 1) as nat);
    }
}

/// The byte at which the part with the index `i` starts, where that lies
/// inside the bound on offsets.
fn child_offset(offset: i128, i: usize, stride: isize) -> (at: Option<i128>)
    requires
        -offset_bound() <= offset <= offset_bound(),
        i <= isize::MAX,
    ensures
        match at {
            Some(at) => at == offset + i * stride && -offset_bound() <= at <= offset_bound(),
            None => !(-offset_bound() <= offset + i * stride <= offset_bound()),
        },
{
    assert(-0x4000_0000_0000_0000_0000_0000_0000_0000 <= i * stride
        <= 0x4000_0000_0000_0000_0000_0000_0000_0000) by (nonlinear_arith)
        requires
            0 <= i <= 0x7fff_ffff_ffff_ffff,
            -0x8000_0000_0000_0000 <= stride <= 0x7fff_ffff_ffff_ffff,
    ;
    let step: i128 = (i as i128) * (stride as i128);
    let at: i128 = offset + step;
    if -0x2000_0000_0000_0000_0000_0000_0000_0000 <= at && at
        <= 0x2000_0000_0000_0000_0000_0000_0000_0000 {
        Some(at)
    } else {
        None
    }
}

/// A numeric array that can be encoded.
pub struct NumpyArray<'a> {
    array: &'a ArrayInterface,
    kind: ItemType,
    opts: Opt,
}

impl<'a> NumpyArray<'a> {
    /// Whether the array was checked.
    pub closed spec fn wf(&self) -> bool {
        array_check(self.array@) == Ok::<ItemType, PyArrayError>(self.kind)
    }

    /// The array as the host describes it.
    pub closed spec fn view(&self) -> ArrayInterfaceView {
        self.array@
    }

    /// The options that the array is written under.
    pub closed spec fn opts(&self) -> Opt {
        self.opts
    }

    /// The array that the host describes as `array`, unless it cannot be
    /// encoded.
    #[inline(never)]
    pub fn new(array: &'a ArrayInterface, opts: Opt) -> (r: Result<Self, PyArrayError>)
        ensures
            match r {
                Ok(checked) => checked.wf() && checked@ == array@ && checked.opts() == opts
                    && array_check(array@) is Ok,
                Err(e) => array_check(array@) == Err::<ItemType, PyArrayError>(e),
            },
    {
        if array.two != 2 {
            Err(PyArrayError::Malformed)
        } else if array.flags & 0x1 != 0x1 {
            Err(PyArrayError::NotContiguous)
        } else {
            let num_dimensions = array.shape.len();
            if num_dimensions == 0 {
                return Err(PyArrayError::UnsupportedDataType);
            }
            match ItemType::find(array.typekind, array.itemsize, array.unit) {
                None => Err(PyArrayError::UnsupportedDataType),
                Some(kind) => {
                    if array.strides.len() != num_dimensions || !check_node(
                        array,
                        kind.size(),
                        0,
                        0,
                    ) {
                        return Err(PyArrayError::Malformed);
                    }
                    Ok(NumpyArray { array: array, kind: kind, opts: opts })
                },
            }
        }
    }

    /// Writes the array.
    pub fn serialize<W: WriteSlices>(&self, se: &mut MessagePackSerializer<W>) -> (r: Result<
        (),
        EncodeError,
    >)
        requires
            self.wf(),
        ensures
            encoded(old(se).sink(), final(se).sink(), r, array_emit(self@, self.opts())),
    {
        serialize_node(self.array, self.kind, 0, 0, se, self.opts)
    }
}

/// A failure among the first elements of a run is the failure of the run.
proof fn lemma_run_stop(
    a: ArrayInterfaceView,
    kind: ItemType,
    offset: int,
    m: nat,
    n: nat,
    opts: Opt,
    s0: crate::io::Sink,
    s1: crate::io::Sink,
    e: EncodeError,
)
    requires
        m <= n,
        encoded(s0, s1, Err(e), run_emit(a, kind, offset, m, opts)),
    ensures
        encoded(s0, s1, Err(e), run_emit(a, kind, offset, n, opts)),
    decreases n - m,
{
    if m < n {
        lemma_run_stop(a, kind, offset, m, (n - 1) as nat, opts, s0, s1, e);
        lemma_encoded_stop(
            s0,
            s1,
            e,
            run_emit(a, kind, offset, (n - 1) as nat, opts),
            scalar_emit(
                element_of(
                    kind,
                    a.data.subrange(offset + (n - 1) * kind.size_spec(), offset + n * kind.size_spec()),
                ),
                opts,
            ),
        );
    }
}

/// A failure among the first parts below a node is the failure of all.
proof fn lemma_children_emit_stop(
    a: ArrayInterfaceView,
    kind: ItemType,
    depth: nat,
    offset: int,
    m: nat,
    n: nat,
    opts: Opt,
    s0: crate::io::Sink,
    s1: crate::io::Sink,
    e: EncodeError,
)
    requires
        m <= n,
        depth + 1 < a.shape.len(),
        encoded(s0, s1, Err(e), children_emit(a, kind, depth, offset, m, opts)),
    ensures
        encoded(s0, s1, Err(e), children_emit(a, kind, depth, offset, n, opts)),
    decreases n - m,
{
    if m < n {
        lemma_children_emit_stop(a, kind, depth, offset, m, (n - 1) as nat, opts, s0, s1, e);
        lemma_encoded_stop(
            s0,
            s1,
            e,
            children_emit(a, kind, depth, offset, (n - 1) as nat, opts),
            node_emit(a, kind, depth + 1, offset + (n - 1) * a.strides[depth as int], opts),
        );
    }
}

/// Writes the elements of a run.
fn serialize_run<W: WriteSlices>(
    a: &ArrayInterface,
    kind: ItemType,
    offset: usize,
    count: usize,
    se: &mut MessagePackSerializer<W>,
    opts: Opt,
) -> (r: Result<(), EncodeError>)
    requires
        count == 0 || offset + count * kind.size_spec() <= a.data@.len(),
    ensures
        encoded(
            old(se).sink(),
            final(se).sink(),
            r,
            run_emit(a@, kind, offset as int, count as nat, opts),
        ),
{
    let ghost s0 = se.sink();
    let size = kind.size();
    let total = a.data.len();
    proof {
        lemma_encoded_unchanged(s0, Ok(()));
    }
    let mut i: usize = 0;
    let mut at: usize = offset;
    while i < count
        invariant
            i <= count,
            size == kind.size_spec(),
            1 <= size <= 8,
            total == a.data@.len(),
            at == offset + i * size,
            count == 0 || offset + count * size <= a.data@.len(),
            s0 == old(se).sink(),
            encoded(s0, se.sink(), Ok(()), run_emit(a@, kind, offset as int, i as nat, opts)),
        decreases count - i,
    {
        assert(at + size <= offset + count * size) by (nonlinear_arith)
            requires
                at == offset + i * size,
                i < count,
                0 <= size,
        ;
        let ghost s1 = se.sink();
        let ghost before = run_emit(a@, kind, offset as int, i as nat, opts);
        let item = element(kind, a.data.as_slice(), at);
        proof {
            assert(offset + (i + 1) * size == at + size) by (nonlinear_arith)
                requires
                    at == offset + i * size,
            ;
        }
        let r = serialize_scalar(item, se, opts);
        proof {
            lemma_encoded_then(s0, s1, se.sink(), r, before, scalar_emit(item, opts));
        }
        match r {
            Ok(()) => {},
            Err(e) => {
                proof {
                    lemma_run_stop(
                        a@,
                        kind,
                        offset as int,
                        (i + 1) as nat,
                        count as nat,
                        opts,
                        s0,
                        se.sink(),
                        e,
                    );
                }
                return Err(e);
            },
        }
        i = i + 1;
        at = at + size;
    }
    Ok(())
}

/// Writes the part of an array below the dimension `depth` that starts at
/// the byte `offset`.
fn serialize_node<W: WriteSlices>(
    a: &ArrayInterface,
    kind: ItemType,
    depth: usize,
    offset: i128,
    se: &mut MessagePackSerializer<W>,
    opts: Opt,
) -> (r: Result<(), EncodeError>)
    requires
        a.strides@.len() == a.shape@.len(),
        valid_node(a@, kind.size_spec(), depth as nat, offset as int),
    ensures
        encoded(
            old(se).sink(),
            final(se).sink(),
            r,
            node_emit(a@, kind, depth as nat, offset as int, opts),
        ),
    decreases a.shape@.len() - depth, 1nat,
{
    let ghost s0 = se.sink();
    let n = a.shape[depth] as usize;
    let nd = a.shape.len();
    let last = depth + 1 == nd;
    let ghost head = Emitted::token(array_header(n as nat));
    let ghost rest = if last {
        run_emit(a@, kind, offset as int, n as nat, opts)
    } else {
        children_emit(a@, kind, depth as nat, offset as int, n as nat, opts)
    };
    match se.serialize_seq(n) {
        Ok(()) => {},
        Err(e) => {
            proof {
                lemma_encoded_stop(s0, se.sink(), e, head, rest);
            }
            return Err(e);
        },
    }
    let ghost s1 = se.sink();
    let r = if last {
        if n == 0 {
            assert(run_emit(a@, kind, offset as int, 0, opts) == Emitted::nothing());
            assert(run_emit(a@, kind, 0, 0, opts) == Emitted::nothing());
            serialize_run(a, kind, 0, 0, se, opts)
        } else {
            let total = a.data.len();
            serialize_run(a, kind, offset as usize, n, se, opts)
        }
    } else {
        serialize_children(a, kind, depth, offset, n, se, opts)
    };
    proof {
        lemma_encoded_then(s0, s1, se.sink(), r, head, rest);
    }
    r
}

/// The parts below a node that lie inside the memory do so one by one.
proof fn lemma_valid_child(
    a: ArrayInterfaceView,
    size: nat,
    depth: nat,
    offset: int,
    i: nat,
    n: nat,
)
    requires
        i < n,
        depth + 1 < a.shape.len(),
        valid_children(a, size, depth, offset, n),
    ensures
        valid_node(a, size, depth + 1, offset + i * a.strides[depth as int]),
    decreases n - i,
{
    if i + 1 < n {
        lemma_valid_child(a, size, depth, offset, i, (n - 1) as nat);
    }
}

/// Writes the first `count` parts below a node.
fn serialize_children<W: WriteSlices>(
    a: &ArrayInterface,
    kind: ItemType,
    depth: usize,
    offset: i128,
    count: usize,
    se: &mut MessagePackSerializer<W>,
    opts: Opt,
) -> (r: Result<(), EncodeError>)
    requires
        a.strides@.len() == a.shape@.len(),
        depth + 1 < a.shape@.len(),
        -offset_bound() <= offset <= offset_bound(),
        count <= isize::MAX,
        valid_children(a@, kind.size_spec(), depth as nat, offset as int, count as nat),
    ensures
        encoded(
            old(se).sink(),
            final(se).sink(),
            r,
            children_emit(a@, kind, depth as nat, offset as int, count as nat, opts),
        ),
    decreases a.shape@.len() - depth, 0nat,
{
    let ghost s0 = se.sink();
    let stride = a.strides[depth];
    let total = a.data.len();
    proof {
        lemma_encoded_unchanged(s0, Ok(()));
    }
    let nd = a.shape.len();
    let mut i: usize = 0;
    while i < count
        invariant
            i <= count <= isize::MAX,
            a.strides@.len() == a.shape@.len(),
            depth + 1 < a.shape@.len(),
            nd == a.shape@.len(),
            -offset_bound() <= offset <= offset_bound(),
            total == a.data@.len(),
            stride == a.strides@[depth as int],
            valid_children(a@, kind.size_spec(), depth as nat, offset as int, count as nat),
            s0 == old(se).sink(),
            encoded(
                s0,
                se.sink(),
                Ok(()),
                children_emit(a@, kind, depth as nat, offset as int, i as nat, opts),
            ),
        decreases count - i,
    {
        proof {
            lemma_valid_child(
                a@,
                kind.size_spec(),
                depth as nat,
                offset as int,
                i as nat,
                count as nat,
            );
        }
        let at = match child_offset(offset, i, stride) {
            Some(at) => at,
            None => {
                proof {
                    assert(false);
                }
                return Ok(());
            },
        };
        let ghost s1 = se.sink();
        let ghost before = children_emit(a@, kind, depth as nat, offset as int, i as nat, opts);
        let r = serialize_node(a, kind, depth + 1, at, se, opts);
        proof {
            lemma_encoded_then(
                s0,
                s1,
                se.sink(),
                r,
                before,
                node_emit(a@, kind, (depth + 1) as nat, at as int, opts),
            );
        }
        match r {
            Ok(()) => {},
            Err(e) => {
                proof {
                    lemma_children_emit_stop(
                        a@,
                        kind,
                        depth as nat,
                        offset as int,
                        (i + 1) as nat,
                        count as nat,
                        opts,
                        s0,
                        se.sink(),
                        e,
                    );
                }
                return Err(e);
            },
        }
        i = i + 1;
    }
    Ok(())
}

/// The unit that the name of a unit stands for, if it is the name of one.
pub open spec fn unit_named(name: Seq<u8>) -> Option<DatetimeUnit> {
    if name == seq![0x59u8] {
        Some(DatetimeUnit::Years)
    } else if name == seq![0x4du8] {
        Some(DatetimeUnit::Months)
    } else if name == seq![0x57u8] {
        Some(DatetimeUnit::Weeks)
    } else if name == seq![0x44u8] {
        Some(DatetimeUnit::Days)
    } else if name == seq![0x68u8] {
        Some(DatetimeUnit::Hours)
    } else if name == seq![0x6du8] {
        Some(DatetimeUnit::Minutes)
    } else if name == seq![0x73u8] {
        Some(DatetimeUnit::Seconds)
    } else if name == seq![0x6du8, 0x73u8] {
        Some(DatetimeUnit::Milliseconds)
    } else if name == seq![0x75u8, 0x73u8] {
        Some(DatetimeUnit::Microseconds)
    } else if name == seq![0x6eu8, 0x73u8] {
        Some(DatetimeUnit::Nanoseconds)
    } else if name == seq![0x70u8, 0x73u8] {
        Some(DatetimeUnit::Picoseconds)
    } else if name == seq![0x66u8, 0x73u8] {
        Some(DatetimeUnit::Femtoseconds)
    } else if name == seq![0x61u8, 0x73u8] {
        Some(DatetimeUnit::Attoseconds)
    } else if name == seq![0x67u8, 0x65u8, 0x6eu8, 0x65u8, 0x72u8, 0x69u8, 0x63u8] {
        Some(DatetimeUnit::Generic)
    } else {
        None
    }
}

/// The unit that the description of the elements of an array of
/// timestamps names: the text between the bracket at the fourth place and
/// the last character, as in `<M8[ns]`. A description without one stands
/// for no time at all.
pub open spec fn unit_of_descr(descr: Seq<u8>) -> Option<DatetimeUnit> {
    if descr.len() < 5 {
        Some(DatetimeUnit::NaT)
    } else {
        unit_named(descr.subrange(4, descr.len() - 1))
    }
}

/// Whether the slice holds the one byte `a`.
fn is_one(name: &[u8], a: u8) -> (b: bool)
    ensures
        b == (name@ == seq![a]),
{
    if name.len() == 1 && name[0] == a {
        assert(name@ =~= seq![a]);
        true
    } else {
        false
    }
}

/// Whether the slice holds the two bytes `a` and `b`.
fn is_two(name: &[u8], a: u8, b: u8) -> (r: bool)
    ensures
        r == (name@ == seq![a, b]),
{
    if name.len() == 2 && name[0] == a && name[1] == b {
        assert(name@ =~= seq![a, b]);
        true
    } else {
        false
    }
}

/// Reads the unit of timestamps from the description of the elements of
/// an array.
pub fn from_descr(descr: &[u8]) -> (unit: Option<DatetimeUnit>)
    ensures
        unit == unit_of_descr(descr@),
{
    if descr.len() < 5 {
        return Some(DatetimeUnit::NaT);
    }
    let name = vstd::slice::slice_subrange(descr, 4, descr.len() - 1);
    if is_one(name, 0x59) {
        Some(DatetimeUnit::Years)
    } else if is_one(name, 0x4d) {
        Some(DatetimeUnit::Months)
    } else if is_one(name, 0x57) {
        Some(DatetimeUnit::Weeks)
    } else if is_one(name, 0x44) {
        Some(DatetimeUnit::Days)
    } else if is_one(name, 0x68) {
        Some(DatetimeUnit::Hours)
    } else if is_one(name, 0x6d) {
        Some(DatetimeUnit::Minutes)
    } else if is_one(name, 0x73) {
        Some(DatetimeUnit::Seconds)
    } else if is_two(name, 0x6d, 0x73) {
        Some(DatetimeUnit::Milliseconds)
    } else if is_two(name, 0x75, 0x73) {
        Some(DatetimeUnit::Microseconds)
    } else if is_two(name, 0x6e, 0x73) {
        Some(DatetimeUnit::Nanoseconds)
    } else if is_two(name, 0x70, 0x73) {
        Some(DatetimeUnit::Picoseconds)
    } else if is_two(name, 0x66, 0x73) {
        Some(DatetimeUnit::Femtoseconds)
    } else if is_two(name, 0x61, 0x73) {
        Some(DatetimeUnit::Attoseconds)
    } else if name.len() == 7 && name[0] == 0x67 && name[1] == 0x65 && name[2] == 0x6e && name[3]
        == 0x65 && name[4] == 0x72 && name[5] == 0x69 && name[6] == 0x63 {
        assert(name@ =~= seq![0x67u8, 0x65u8, 0x6eu8, 0x65u8, 0x72u8, 0x69u8, 0x63u8]);
        Some(DatetimeUnit::Generic)
    } else {
        None
    }
}

} // verus!
