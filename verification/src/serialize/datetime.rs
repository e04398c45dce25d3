//! Dates, times of day, and dates with times, as they are encoded.

use crate::msgpack::endian::{be32, be64, u32_be, u64_be};
use crate::msgpack::ext::ext_token;
use crate::msgpack::string::str_token;
use crate::opt::{holds, is_set, Opt, DATETIME_AS_TIMESTAMP_EXT, NAIVE_UTC};
use crate::serialize::datetimelike::{
    date_text, datetime_text, push_date, push_datetime, push_time, time_text, DateLike,
    DateTimeLike, Offset, TimeLike,
};
use crate::serialize::error::{Emitted, EncodeError};
use crate::value::{DateTimeValue, DateValue, TimeValue, TzInfo};
use vstd::prelude::*;

verus! {

/// A calendar date to be encoded.
pub struct Date {
    value: DateValue,
}

impl Date {
    /// The date that the host holds as `value`.
    pub fn new(value: DateValue) -> (date: Self)
        ensures
            date@ == value,
    {
        Date { value }
    }

    /// The date as the host holds it.
    pub closed spec fn view(&self) -> DateValue {
        self.value
    }

    /// The text of the date.
    pub fn render(&self) -> (text: Vec<u8>)
        ensures
            text@ == date_text(self@.year, self@.month, self@.day),
    {
        let mut buf: Vec<u8> = Vec::new();
        push_date(self, &mut buf);
        assert(buf@ =~= date_text(self@.year, self@.month, self@.day));
        buf
    }
}

impl DateLike for Date {
    open spec fn spec_year(&self) -> i32 {
        self@.year
    }

    open spec fn spec_month(&self) -> i32 {
        self@.month
    }

    open spec fn spec_day(&self) -> i32 {
        self@.day
    }

    fn year(&self) -> i32 {
        self.value.year
    }

    fn month(&self) -> i32 {
        self.value.month
    }

    fn day(&self) -> i32 {
        self.value.day
    }
}

/// Why a time of day is not encoded.
#[derive(Clone, Copy, Debug, PartialEq, Eq, Structural)]
pub enum TimeError {
    /// The time carries a time zone; only a date with a time may.
    HasTimezone,
}

impl TimeError {
    /// The text that a caller is shown.
    pub fn message(&self) -> (s: &'static str)
        ensures
            s@ == "datetime.time must not have tzinfo set"@,
    {
        "datetime.time must not have tzinfo set"
    }
}

/// A time of day to be encoded: one without a time zone.
pub struct Time {
    value: TimeValue,
    opts: Opt,
}

impl Time {
    /// The time that the host holds as `value`, unless it carries a time
    /// zone.
    pub fn new(value: TimeValue, opts: Opt) -> (r: Result<Self, TimeError>)
        ensures
            match r {
                Ok(time) => !value.tzinfo && time@ == value && time.opts() == opts,
                Err(e) => value.tzinfo && e == TimeError::HasTimezone,
            },
    {
        if value.tzinfo {
            return Err(TimeError::HasTimezone);
        }
        Ok(Time { value, opts })
    }

    /// The time as the host holds it.
    pub closed spec fn view(&self) -> TimeValue {
        self.value
    }

    /// The options that the time is written under.
    pub closed spec fn opts(&self) -> Opt {
        self.opts
    }

    /// The text of the time.
    pub fn render(&self) -> (text: Vec<u8>)
        ensures
            text@ == time_text(
                self@.hour,
                self@.minute,
                self@.second,
                self@.microsecond,
                self.opts(),
            ),
    {
        let mut buf: Vec<u8> = Vec::new();
        push_time(self, &mut buf, self.opts);
        assert(buf@ =~= time_text(
            self@.hour,
            self@.minute,
            self@.second,
            self@.microsecond,
            self.opts(),
        ));
        buf
    }
}

impl TimeLike for Time {
    open spec fn spec_hour(&self) -> i32 {
        self@.hour
    }

    open spec fn spec_minute(&self) -> i32 {
        self@.minute
    }

    open spec fn spec_second(&self) -> i32 {
        self@.second
    }

    open spec fn spec_microsecond(&self) -> i32 {
        self@.microsecond
    }

    fn hour(&self) -> i32 {
        self.value.hour
    }

    fn minute(&self) -> i32 {
        self.value.minute
    }

    fn second(&self) -> i32 {
        self.value.second
    }

    fn microsecond(&self) -> i32 {
        self.value.microsecond
    }
}

/// Why a date and time is not encoded.
#[derive(Clone, Copy, Debug, PartialEq, Eq, Structural)]
pub enum DateTimeError {
    /// The time zone gave no offset, or one of a day or more.
    LibraryUnsupported,
}

impl DateTimeError {
    /// The text that a caller is shown.
    pub fn message(&self) -> (s: &'static str)
        ensures
            s@
                == "datetime's timezone library is not supported: use datetime.timezone.utc, pendulum, pytz, or dateutil"@,
    {
        "datetime's timezone library is not supported: use datetime.timezone.utc, pendulum, pytz, or dateutil"
    }
}

/// The offset that a time zone gives: none where there is no time zone,
/// and an error where the time zone gives none that a time zone has.
pub open spec fn utcoffset(tzinfo: TzInfo) -> Result<Option<Offset>, DateTimeError> {
    match tzinfo {
        TzInfo::Naive => Ok(None),
        TzInfo::Delta { days, seconds } => if (Offset { day: days, second: seconds }).wf() {
            Ok(Some(Offset { day: days, second: seconds }))
        } else {
            Err(DateTimeError::LibraryUnsupported)
        },
        TzInfo::Unsupported => Err(DateTimeError::LibraryUnsupported),
    }
}

/// The seconds east of UTC that an offset amounts to.
pub open spec fn offset_seconds(offset: Option<Offset>) -> int {
    match offset {
        None => 0,
        Some(o) => if o.day == -1 {
            -86400 + o.second
        } else {
            o.second as int
        },
    }
}

/// The seconds since the epoch, and the nanoseconds on top of them, of the
/// moment that a date and a time of day name at a number of seconds east of
/// UTC; nothing where the calendar or the clock has no such date or time.
pub uninterp spec fn timestamp_of(
    year: i32,
    month: u32,
    day: u32,
    hour: u32,
    minute: u32,
    second: u32,
    microsecond: u32,
    offset: i32,
) -> Option<(i64, u32)>;

/// The timestamp of a local date and time, from chrono: the date from
/// `NaiveDate::from_ymd_opt`, the time from `NaiveTime::from_hms_micro_opt`,
/// the zone from `FixedOffset::east_opt`, put together by
/// `NaiveDateTime::new` and `NaiveDateTime::and_local_timezone`, taken
/// where it is one moment (`LocalResult::single`), and read by
/// `DateTime::timestamp` and `DateTime::timestamp_subsec_nanos`. The
/// result depends on the arguments alone.
#[verifier::external_body]
fn local_timestamp(
    year: i32,
    month: u32,
    day: u32,
    hour: u32,
    minute: u32,
    second: u32,
    microsecond: u32,
    offset: i32,
) -> (r: Option<(i64, u32)>)
    ensures
        r == timestamp_of(year, month, day, hour, minute, second, microsecond, offset),
{
    let date = chrono::NaiveDate::from_ymd_opt(year, month, day)?;
    let time = chrono::NaiveTime::from_hms_micro_opt(hour, minute, second, microsecond)?;
    let zone = chrono::FixedOffset::east_opt(offset)?;
    let moment = chrono::NaiveDateTime::new(date, time).and_local_timezone(zone).single()?;
    Some((moment.timestamp(), moment.timestamp_subsec_nanos()))
}

/// The timestamp of a date and time of the host at an offset, where its
/// fields are such as a date and a time have.
pub open spec fn timestamp_spec(value: DateTimeValue, offset: Option<Offset>) -> Option<(i64, u32)> {
    if value.month < 0 || value.day < 0 || value.hour < 0 || value.minute < 0 || value.second < 0
        || value.microsecond < 0 {
        None
    } else {
        timestamp_of(
            value.year,
            value.month as u32,
            value.day as u32,
            value.hour as u32,
            value.minute as u32,
            value.second as u32,
            value.microsecond as u32,
            offset_seconds(offset) as i32,
        )
    }
}

/// A signed 64-bit number in two's complement.
pub open spec fn twos_complement(v: i64) -> u64 {
    if v < 0 {
        (v + 0x1_0000_0000_0000_0000) as u64
    } else {
        v as u64
    }
}

/// The payload of a timestamp extension. Seconds that fit in 34 bits share
/// eight bytes with the nanoseconds, or stand alone in four where there are
/// no nanoseconds and the seconds fit in 32 bits. Other seconds take eight
/// bytes of their own, after four of nanoseconds.
pub open spec fn timestamp_payload(seconds: i64, nanoseconds: u32) -> Seq<u8> {
    if 0 <= seconds < 0x4_0000_0000 && nanoseconds < 0x4000_0000 {
        let packed = nanoseconds * 0x4_0000_0000 + seconds;
        if packed < 0x1_0000_0000 {
            be32(packed as u32)
        } else {
            be64(packed as u64)
        }
    } else {
        be32(nanoseconds) + be64(twos_complement(seconds))
    }
}

/// The payload of a timestamp extension.
pub fn write_timestamp(seconds: i64, nanoseconds: u32) -> (payload: Vec<u8>)
    ensures
        payload@ == timestamp_payload(seconds, nanoseconds),
{
    let mut buf: Vec<u8> = Vec::new();
    if 0 <= seconds && seconds < 0x4_0000_0000 && nanoseconds < 0x4000_0000 {
        let packed: u64 = (nanoseconds as u64) * 0x4_0000_0000 + (seconds as u64);
        if packed < 0x1_0000_0000 {
            let b = u32_be(packed as u32);
            buf.extend_from_slice(b.as_slice());
            assert(buf@ =~= b@);
        } else {
            let b = u64_be(packed);
            buf.extend_from_slice(b.as_slice());
            assert(buf@ =~= b@);
        }
    } else {
        let b = u32_be(nanoseconds);
        let wide: u64 = if seconds < 0 {
            (seconds - i64::MIN) as u64 + 0x8000_0000_0000_0000u64
        } else {
            seconds as u64
        };
        let c = u64_be(wide);
        buf.extend_from_slice(b.as_slice());
        buf.extend_from_slice(c.as_slice());
        assert(buf@ =~= b@ + c@);
    }
    buf
}

/// What a date and time is encoded as.
pub enum Rendered {
    /// A string with this text.
    Text(Vec<u8>),
    /// A timestamp extension with this payload.
    Timestamp(Vec<u8>),
}

/// A date and time to be encoded: one whose offset is known or absent.
pub struct DateTime {
    value: DateTimeValue,
    opts: Opt,
    offset: Option<Offset>,
}

impl DateTime {
    #[verifier::type_invariant]
    spec fn inv(self) -> bool {
        utcoffset(self.value.tzinfo) == Ok::<Option<Offset>, DateTimeError>(self.offset)
    }

    /// The date and time that the host holds as `value`, unless its time
    /// zone gives no offset.
    pub fn new(value: DateTimeValue, opts: Opt) -> (r: Result<Self, DateTimeError>)
        ensures
            match r {
                Ok(datetime) => datetime@ == value && datetime.opts() == opts && utcoffset(
                    value.tzinfo,
                ) is Ok,
                Err(e) => utcoffset(value.tzinfo) == Err::<Option<Offset>, DateTimeError>(e),
            },
    {
        let offset = match value.tzinfo {
            TzInfo::Naive => None,
            TzInfo::Delta { days, seconds } => {
                if (days == 0 || days == -1) && 0 <= seconds && seconds < 86400 {
                    Some(Offset { day: days, second: seconds })
                } else {
                    return Err(DateTimeError::LibraryUnsupported);
                }
            },
            TzInfo::Unsupported => {
                return Err(DateTimeError::LibraryUnsupported);
            },
        };
        Ok(DateTime { value, opts, offset })
    }

    /// The date and time as the host holds it.
    pub closed spec fn view(&self) -> DateTimeValue {
        self.value
    }

    /// The options that the date and time is written under.
    pub closed spec fn opts(&self) -> Opt {
        self.opts
    }

    /// The seconds since the epoch and the nanoseconds on top of them,
    /// where the calendar has the date.
    pub fn timestamp(&self) -> (r: Option<(i64, u32)>)
        ensures
            utcoffset(self@.tzinfo) is Ok,
            r == timestamp_spec(self@, utcoffset(self@.tzinfo).unwrap()),
    {
        proof {
            use_type_invariant(self);
        }
        let v = &self.value;
        if v.month < 0 || v.day < 0 || v.hour < 0 || v.minute < 0 || v.second < 0 || v.microsecond
            < 0 {
            return None;
        }
        let offset: i32 = match self.offset {
            None => 0,
            Some(o) => if o.day == -1 {
                -86400 + o.second
            } else {
                o.second
            },
        };
        local_timestamp(
            v.year,
            v.month as u32,
            v.day as u32,
            v.hour as u32,
            v.minute as u32,
            v.second as u32,
            v.microsecond as u32,
            offset,
        )
    }

    /// The text of the date and time.
    pub fn render_text(&self) -> (text: Vec<u8>)
        ensures
            text@ == value_text(self@, self.opts()),
    {
        proof {
            use_type_invariant(self);
        }
        let mut buf: Vec<u8> = Vec::new();
        push_datetime(self, &mut buf, self.opts);
        assert(buf@ =~= value_text(self@, self.opts()));
        buf
    }

    /// What the date and time is encoded as: a timestamp where the options
    /// ask for one and the offset is known or assumed, else its text.
    pub fn render(&self) -> (r: Result<Rendered, EncodeError>)
        ensures
            utcoffset(self@.tzinfo) is Ok,
            match r {
                Ok(Rendered::Text(text)) => !as_timestamp(self@, self.opts()) && text@
                    == value_text(self@, self.opts()),
                Ok(Rendered::Timestamp(payload)) => {
                    let t = timestamp_spec(self@, utcoffset(self@.tzinfo).unwrap());
                    as_timestamp(self@, self.opts()) && t is Some && payload@ == timestamp_payload(
                        t.unwrap().0,
                        t.unwrap().1,
                    )
                },
                Err(e) => as_timestamp(self@, self.opts()) && timestamp_spec(
                    self@,
                    utcoffset(self@.tzinfo).unwrap(),
                ) is None && e == EncodeError::DatetimeOutOfRange,
            },
    {
        proof {
            use_type_invariant(self);
        }
        if is_set(self.opts, DATETIME_AS_TIMESTAMP_EXT) && (self.offset.is_some() || is_set(
            self.opts,
            NAIVE_UTC,
        )) {
            match self.timestamp() {
                Some((seconds, nanoseconds)) => Ok(
                    Rendered::Timestamp(write_timestamp(seconds, nanoseconds)),
                ),
                None => Err(EncodeError::DatetimeOutOfRange),
            }
        } else {
            Ok(Rendered::Text(self.render_text()))
        }
    }
}

/// Whether a date and time is written as a timestamp: where the options
/// ask for it and the offset is known or assumed.
pub open spec fn as_timestamp(value: DateTimeValue, opts: Opt) -> bool {
    holds(opts, DATETIME_AS_TIMESTAMP_EXT) && (utcoffset(value.tzinfo) matches Ok(Some(_)) || holds(
        opts,
        NAIVE_UTC,
    ))
}

/// The text of a date and time of the host whose offset is known or absent.
pub open spec fn value_text(value: DateTimeValue, opts: Opt) -> Seq<u8> {
    let offset = utcoffset(value.tzinfo).unwrap();
    datetime_text(
        value.year,
        value.month,
        value.day,
        value.hour,
        value.minute,
        value.second,
        value.microsecond,
        offset is Some,
        match offset {
            Some(o) => o,
            None => Offset { day: 0, second: 0 },
        },
        opts,
    )
}

impl DateLike for DateTime {
    open spec fn spec_year(&self) -> i32 {
        self@.year
    }

    open spec fn spec_month(&self) -> i32 {
        self@.month
    }

    open spec fn spec_day(&self) -> i32 {
        self@.day
    }

    fn year(&self) -> i32 {
        self.value.year
    }

    fn month(&self) -> i32 {
        self.value.month
    }

    fn day(&self) -> i32 {
        self.value.day
    }
}

impl TimeLike for DateTime {
    open spec fn spec_hour(&self) -> i32 {
        self@.hour
    }

    open spec fn spec_minute(&self) -> i32 {
        self@.minute
    }

    open spec fn spec_second(&self) -> i32 {
        self@.second
    }

    open spec fn spec_microsecond(&self) -> i32 {
        self@.microsecond
    }

    fn hour(&self) -> i32 {
        self.value.hour
    }

    fn minute(&self) -> i32 {
        self.value.minute
    }

    fn second(&self) -> i32 {
        self.value.second
    }

    fn microsecond(&self) -> i32 {
        self.value.microsecond
    }
}

impl DateTimeLike for DateTime {
    open spec fn spec_has_tz(&self) -> bool {
        utcoffset(self@.tzinfo) matches Ok(Some(_))
    }

    open spec fn spec_offset(&self) -> Offset {
        match utcoffset(self@.tzinfo) {
            Ok(Some(o)) => o,
            _ => Offset { day: 0, second: 0 },
        }
    }

    fn has_tz(&self) -> bool {
        proof {
            use_type_invariant(self);
        }
        self.offset.is_some()
    }

    fn offset(&self) -> Offset {
        proof {
            use_type_invariant(self);
        }
        match self.offset {
            Some(o) => o,
            None => Offset::default(),
        }
    }
}

/// What a date is encoded as: the string of its text.
pub open spec fn date_emit(value: DateValue) -> Emitted {
    Emitted::token(str_token(date_text(value.year, value.month, value.day)))
}

/// What a time of day is encoded as: the string of its text, unless it
/// carries a time zone.
pub open spec fn time_emit(value: TimeValue, opts: Opt) -> Emitted {
    if value.tzinfo {
        Emitted::fail(EncodeError::TimeHasTimezone)
    } else {
        Emitted::token(
            str_token(time_text(value.hour, value.minute, value.second, value.microsecond, opts)),
        )
    }
}

/// What a date and time is encoded as: the string of its text, or a
/// timestamp extension under the tag -1.
pub open spec fn datetime_emit(value: DateTimeValue, opts: Opt) -> Emitted {
    match utcoffset(value.tzinfo) {
        Err(_) => Emitted::fail(EncodeError::TzLibraryUnsupported),
        Ok(offset) => if as_timestamp(value, opts) {
            match timestamp_spec(value, offset) {
                Some(t) => Emitted::token(ext_token(timestamp_payload(t.0, t.1), -1i8)),
                None => Emitted::fail(EncodeError::DatetimeOutOfRange),
            }
        } else {
            Emitted::token(str_token(value_text(value, opts)))
        },
    }
}

} // verus!
