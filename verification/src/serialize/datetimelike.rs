//! The text of dates and times.

use crate::io::{appended, write_all, WriteError, WriteSlices};
use crate::opt::{holds, is_set, Opt, NAIVE_UTC, OMIT_MICROSECONDS, UTC_Z};
use vstd::prelude::*;

verus! {

/// The digits of `n` in base ten, without leading zeros.
pub open spec fn decimal(n: nat) -> Seq<u8>
    decreases n,
{
    if n < 10 {
        seq![(0x30 + n) as u8]
    } else {
        decimal(n / 10).push((0x30 + n % 10) as u8)
    }
}

/// The text of an integer: a minus sign where it is negative, then its
/// digits.
pub open spec fn signed_decimal(v: int) -> Seq<u8> {
    if v < 0 {
        seq![0x2du8] + decimal((-v) as nat)
    } else {
        decimal(v as nat)
    }
}

/// `n` zeros; none where `n` is not positive.
pub open spec fn zeros(n: int) -> Seq<u8> {
    Seq::new(
        if n > 0 {
            n as nat
        } else {
            0
        },
        |i: int| 0x30u8,
    )
}

/// The text of `value`, with zeros before it where it is shorter than
/// `width`.
pub open spec fn padded(value: i32, width: nat) -> Seq<u8> {
    zeros(width - signed_decimal(value as int).len()) + signed_decimal(value as int)
}

/// The text of an integer, from `itoa::Buffer::format`: the decimal digits
/// of the number without leading zeros, after a minus sign where it is
/// negative.
#[verifier::external_body]
fn format_i32(value: i32) -> (digits: Vec<u8>)
    ensures
        digits@ == signed_decimal(value as int),
{
    let mut buffer = itoa::Buffer::new();
    buffer.format(value).as_bytes().to_vec()
}

/// Appends the text of `value`, padded with zeros to `width`.
pub fn write_integer(buf: &mut Vec<u8>, value: i32, width: usize)
    ensures
        final(buf)@ == old(buf)@ + padded(value, width as nat),
{
    let digits = format_i32(value);
    let mut i: usize = digits.len();
    while i < width
        invariant
            digits@ == signed_decimal(value as int),
            digits@.len() <= i,
            i <= width || i == digits@.len(),
            buf@ == old(buf)@ + zeros(i - digits@.len()),
        decreases width - i,
    {
        buf.push(0x30u8);
        assert(buf@ =~= old(buf)@ + zeros(i + 1 - digits@.len()));
        i = i + 1;
    }
    let ghost before = buf@;
    let mut j: usize = 0;
    while j < digits.len()
        invariant
            j <= digits@.len(),
            buf@ == before + digits@.subrange(0, j as int),
        decreases digits@.len() - j,
    {
        buf.push(digits[j]);
        assert(buf@ =~= before + digits@.subrange(0, j + 1));
        j = j + 1;
    }
    proof {
        assert(digits@.subrange(0, digits@.len() as int) =~= digits@);
        assert(zeros(i - digits@.len()) =~= zeros(width - digits@.len()));
        assert(buf@ =~= old(buf)@ + padded(value, width as nat));
    }
}

/// The text of a date: year, month and day with hyphens between them.
pub open spec fn date_text(year: i32, month: i32, day: i32) -> Seq<u8> {
    padded(year, 4) + seq![0x2du8] + padded(month, 2) + seq![0x2du8] + padded(day, 2)
}

/// The text of a time of day: hour, minute and second with colons between
/// them; then a point and six digits of microseconds, unless they are zero
/// or the options leave them out.
pub open spec fn time_text(hour: i32, minute: i32, second: i32, microsecond: i32, opts: Opt) -> Seq<
    u8,
> {
    padded(hour, 2) + seq![0x3au8] + padded(minute, 2) + seq![0x3au8] + padded(second, 2) + (if !holds(
        opts,
        OMIT_MICROSECONDS,
    ) && microsecond != 0 {
        seq![0x2eu8] + padded(microsecond, 6)
    } else {
        Seq::empty()
    })
}

/// An offset from UTC, as the host's time difference: the days, which are
/// -1 for an offset to the west and 0 otherwise, and the seconds on top.
#[derive(Clone, Copy, Debug, PartialEq, Eq, Structural)]
pub struct Offset {
    pub day: i32,
    pub second: i32,
}

impl Offset {
    /// Whether the offset is one that a time zone has: less than a day
    /// either way.
    pub open spec fn wf(self) -> bool {
        (self.day == 0 || self.day == -1) && 0 <= self.second < 86400
    }

    /// No offset.
    pub fn default() -> (o: Offset)
        ensures
            o == (Offset { day: 0, second: 0 }),
            o.wf(),
    {
        Offset { day: 0, second: 0 }
    }
}

/// The text of an offset: `Z` or `+00:00` where it has no seconds, else a
/// sign, hours and minutes, rounded to the nearest minute.
pub open spec fn offset_text(offset: Offset, opts: Opt) -> Seq<u8> {
    if offset.second == 0 {
        if holds(opts, UTC_Z) {
            seq![0x5au8]
        } else {
            seq![0x2bu8, 0x30u8, 0x30u8, 0x3au8, 0x30u8, 0x30u8]
        }
    } else {
        let seconds: int = if offset.day == -1 {
            86400 - offset.second
        } else {
            offset.second as int
        };
        let sign: u8 = if offset.day == -1 {
            0x2du8
        } else {
            0x2bu8
        };
        let minutes = seconds / 60;
        let round_up: int = if seconds % 60 >= 30 {
            1
        } else {
            0
        };
        seq![sign] + padded((minutes / 60) as i32, 2) + seq![0x3au8] + padded(
            (minutes % 60 + round_up) as i32,
            2,
        )
    }
}

/// The text of a date and time: the date, a `T`, the time, and the offset
/// where there is a time zone or the options assume UTC.
pub open spec fn datetime_text(
    year: i32,
    month: i32,
    day: i32,
    hour: i32,
    minute: i32,
    second: i32,
    microsecond: i32,
    has_tz: bool,
    offset: Offset,
    opts: Opt,
) -> Seq<u8> {
    date_text(year, month, day) + seq![0x54u8] + time_text(hour, minute, second, microsecond, opts)
        + (if has_tz || holds(opts, NAIVE_UTC) {
        offset_text(offset, opts)
    } else {
        Seq::empty()
    })
}

/// What has a year, a month and a day.
pub trait DateLike {
    spec fn spec_year(&self) -> i32;

    spec fn spec_month(&self) -> i32;

    spec fn spec_day(&self) -> i32;

    fn year(&self) -> (y: i32)
        ensures
            y == self.spec_year(),
    ;

    fn month(&self) -> (m: i32)
        ensures
            m == self.spec_month(),
    ;

    fn day(&self) -> (d: i32)
        ensures
            d == self.spec_day(),
    ;
}

/// What has an hour, a minute, a second and a microsecond.
pub trait TimeLike {
    spec fn spec_hour(&self) -> i32;

    spec fn spec_minute(&self) -> i32;

    spec fn spec_second(&self) -> i32;

    spec fn spec_microsecond(&self) -> i32;

    fn hour(&self) -> (h: i32)
        ensures
            h == self.spec_hour(),
    ;

    fn minute(&self) -> (m: i32)
        ensures
            m == self.spec_minute(),
    ;

    fn second(&self) -> (s: i32)
        ensures
            s == self.spec_second(),
    ;

    fn microsecond(&self) -> (us: i32)
        ensures
            us == self.spec_microsecond(),
    ;
}

/// A date and a time of day, with or without an offset from UTC.
pub trait DateTimeLike: DateLike + TimeLike {
    spec fn spec_has_tz(&self) -> bool;

    spec fn spec_offset(&self) -> Offset;

    /// Whether there is a time zone.
    fn has_tz(&self) -> (b: bool)
        ensures
            b == self.spec_has_tz(),
    ;

    /// The offset from UTC; one that a time zone has.
    fn offset(&self) -> (o: Offset)
        ensures
            o == self.spec_offset(),
            o.wf(),
    ;
}

/// Appends the text of a date.
pub fn push_date<D: DateLike>(date: &D, buf: &mut Vec<u8>)
    ensures
        final(buf)@ == old(buf)@ + date_text(
            date.spec_year(),
            date.spec_month(),
            date.spec_day(),
        ),
{
    write_integer(buf, date.year(), 4);
    buf.push(0x2du8);
    write_integer(buf, date.month(), 2);
    buf.push(0x2du8);
    write_integer(buf, date.day(), 2);
    assert(buf@ =~= old(buf)@ + date_text(date.spec_year(), date.spec_month(), date.spec_day()));
}

/// Appends the text of a time of day.
pub fn push_time<T: TimeLike>(time: &T, buf: &mut Vec<u8>, opts: Opt)
    ensures
        final(buf)@ == old(buf)@ + time_text(
            time.spec_hour(),
            time.spec_minute(),
            time.spec_second(),
            time.spec_microsecond(),
            opts,
        ),
{
    write_integer(buf, time.hour(), 2);
    buf.push(0x3au8);
    write_integer(buf, time.minute(), 2);
    buf.push(0x3au8);
    write_integer(buf, time.second(), 2);
    if !is_set(opts, OMIT_MICROSECONDS) {
        let microsecond = time.microsecond();
        if microsecond != 0 {
            buf.push(0x2eu8);
            write_integer(buf, microsecond, 6);
        }
    }
    assert(buf@ =~= old(buf)@ + time_text(
        time.spec_hour(),
        time.spec_minute(),
        time.spec_second(),
        time.spec_microsecond(),
        opts,
    ));
}

/// Appends the text of an offset.
pub fn push_offset(offset: Offset, buf: &mut Vec<u8>, opts: Opt)
    requires
        offset.wf(),
    ensures
        final(buf)@ == old(buf)@ + offset_text(offset, opts),
{
    if offset.second == 0 {
        if is_set(opts, UTC_Z) {
            buf.push(0x5au8);
            assert(buf@ =~= old(buf)@ + offset_text(offset, opts));
        } else {
            buf.push(0x2bu8);
            buf.push(0x30u8);
            buf.push(0x30u8);
            buf.push(0x3au8);
            buf.push(0x30u8);
            buf.push(0x30u8);
            assert(buf@ =~= old(buf)@ + offset_text(offset, opts));
        }
    } else {
        let offset_hour: i32;
        let mut offset_minute: i32;
        let mut offset_second: i32;
        if offset.day == -1 {
            buf.push(0x2du8);
            offset_second = 86400 - offset.second;
        } else {
            buf.push(0x2bu8);
            offset_second = offset.second;
        }
        offset_minute = offset_second / 60;
        offset_second = offset_second % 60;
        offset_hour = offset_minute / 60;
        offset_minute = offset_minute % 60;
        if offset_second >= 30 {
            offset_minute = offset_minute + 1;
        }
        write_integer(buf, offset_hour, 2);
        buf.push(0x3au8);
        write_integer(buf, offset_minute, 2);
        assert(buf@ =~= old(buf)@ + offset_text(offset, opts));
    }
}

/// Appends the text of a date and time.
pub fn push_datetime<D: DateTimeLike>(datetime: &D, buf: &mut Vec<u8>, opts: Opt)
    ensures
        final(buf)@ == old(buf)@ + datetime_text(
            datetime.spec_year(),
            datetime.spec_month(),
            datetime.spec_day(),
            datetime.spec_hour(),
            datetime.spec_minute(),
            datetime.spec_second(),
            datetime.spec_microsecond(),
            datetime.spec_has_tz(),
            datetime.spec_offset(),
            opts,
        ),
{
    push_date(datetime, buf);
    buf.push(0x54u8);
    push_time(datetime, buf, opts);
    if datetime.has_tz() || is_set(opts, NAIVE_UTC) {
        let offset = datetime.offset();
        push_offset(offset, buf, opts);
    }
    assert(buf@ =~= old(buf)@ + datetime_text(
        datetime.spec_year(),
        datetime.spec_month(),
        datetime.spec_day(),
        datetime.spec_hour(),
        datetime.spec_minute(),
        datetime.spec_second(),
        datetime.spec_microsecond(),
        datetime.spec_has_tz(),
        datetime.spec_offset(),
        opts,
    ));
}

/// Writes the text of a date to a sink, as one write.
pub fn write_date<D: DateLike, W: WriteSlices>(date: &D, writer: &mut W) -> (r: Result<
    (),
    WriteError,
>)
    ensures
        appended(
            old(writer).sink(),
            final(writer).sink(),
            r,
            date_text(date.spec_year(), date.spec_month(), date.spec_day()),
        ),
{
    let mut buf: Vec<u8> = Vec::new();
    push_date(date, &mut buf);
    assert(buf@ =~= date_text(date.spec_year(), date.spec_month(), date.spec_day()));
    write_all(writer, buf.as_slice())
}

} // verus!
