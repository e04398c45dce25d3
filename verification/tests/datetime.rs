use chrono::{Datelike, TimeZone, Timelike};
use ormsgpack::opt::{DATETIME_AS_TIMESTAMP_EXT, NAIVE_UTC, OMIT_MICROSECONDS, SERIALIZE_NUMPY, UTC_Z};
use ormsgpack::serialize::datetime::{write_timestamp, DateTime, DateTimeError, Time, TimeError};
use ormsgpack::serialize::datetimelike::{write_integer, DateLike, DateTimeLike, Offset, TimeLike};
use ormsgpack::serialize::uuid::UUID;
use ormsgpack::serialize::{packb, EncodeError};
use ormsgpack::value::{DateTimeValue, DatetimeUnit, Scalar, TimeValue, TzInfo, Value};

fn padded(value: i32, width: usize) -> String {
    let mut buf = Vec::new();
    write_integer(&mut buf, value, width);
    String::from_utf8(buf).unwrap()
}

#[test]
fn integers_are_padded_with_zeros() {
    assert_eq!(padded(0, 2), "00");
    assert_eq!(padded(7, 2), "07");
    assert_eq!(padded(42, 2), "42");
    assert_eq!(padded(2021, 4), "2021");
    assert_eq!(padded(1, 4), "0001");
    assert_eq!(padded(45, 6), "000045");
    assert_eq!(padded(123456, 6), "123456");
    assert_eq!(padded(12345, 4), "12345");
    assert_eq!(padded(-5, 4), "00-5");
    assert_eq!(padded(i32::MIN, 2), "-2147483648");
    assert_eq!(padded(5, 0), "5");
}

#[test]
fn timestamp_payloads() {
    assert_eq!(write_timestamp(0, 0), vec![0, 0, 0, 0]);
    assert_eq!(write_timestamp(u32::MAX as i64, 0), vec![0xff, 0xff, 0xff, 0xff]);
    assert_eq!(write_timestamp(1 << 32, 0), vec![0, 0, 0, 1, 0, 0, 0, 0]);
    assert_eq!(write_timestamp(1, 1), vec![0, 0, 0, 4, 0, 0, 0, 1]);
    assert_eq!(
        write_timestamp((1 << 34) - 1, 999_999_999),
        ((999_999_999u64 << 34) | ((1u64 << 34) - 1)).to_be_bytes().to_vec()
    );
    assert_eq!(
        write_timestamp(1 << 34, 5),
        vec![0, 0, 0, 5, 0, 0, 0, 4, 0, 0, 0, 0]
    );
    assert_eq!(
        write_timestamp(-1, 0),
        vec![0, 0, 0, 0, 0xff, 0xff, 0xff, 0xff, 0xff, 0xff, 0xff, 0xff]
    );
    assert_eq!(
        write_timestamp(i64::MIN, 1),
        vec![0, 0, 0, 1, 0x80, 0, 0, 0, 0, 0, 0, 0]
    );
}

fn at(year: i32, month: i32, day: i32, hour: i32, minute: i32, second: i32, microsecond: i32, tzinfo: TzInfo) -> DateTimeValue {
    DateTimeValue { year, month, day, hour, minute, second, microsecond, tzinfo }
}

#[test]
fn timestamps_agree_with_chrono() {
    let cases = [
        (1970, 1, 1, 0, 0, 0, 0, 0),
        (2021, 3, 4, 5, 6, 7, 8, 3600),
        (2021, 3, 4, 5, 6, 7, 999_999, -18000),
        (1, 1, 1, 0, 0, 0, 0, 0),
        (9999, 12, 31, 23, 59, 59, 999_999, 86399),
        (2000, 2, 29, 12, 0, 0, 1, -86399),
        (2514, 5, 30, 1, 53, 4, 0, 0),
    ];
    for (y, mo, d, h, mi, s, us, off) in cases {
        let tz = if off < 0 {
            TzInfo::Delta { days: -1, seconds: 86400 + off }
        } else {
            TzInfo::Delta { days: 0, seconds: off }
        };
        let ours = DateTime::new(at(y, mo, d, h, mi, s, us, tz), 0).ok().unwrap().timestamp().unwrap();
        let theirs = chrono::FixedOffset::east_opt(off)
            .unwrap()
            .with_ymd_and_hms(y, mo as u32, d as u32, h as u32, mi as u32, s as u32)
            .unwrap();
        assert_eq!(ours.0, theirs.timestamp());
        assert_eq!(ours.1, us as u32 * 1000);
    }
    let none = DateTime::new(at(2021, 2, 30, 0, 0, 0, 0, TzInfo::Naive), 0).ok().unwrap();
    assert_eq!(none.timestamp(), None);
    let negative = DateTime::new(at(2021, -2, 3, 0, 0, 0, 0, TzInfo::Naive), 0).ok().unwrap();
    assert_eq!(negative.timestamp(), None);
}

#[test]
fn a_time_zone_must_give_an_offset_of_less_than_a_day() {
    for (tz, ok) in [
        (TzInfo::Naive, true),
        (TzInfo::Delta { days: 0, seconds: 0 }, true),
        (TzInfo::Delta { days: 0, seconds: 86399 }, true),
        (TzInfo::Delta { days: -1, seconds: 1 }, true),
        (TzInfo::Delta { days: 0, seconds: 86400 }, false),
        (TzInfo::Delta { days: 0, seconds: -1 }, false),
        (TzInfo::Delta { days: 1, seconds: 0 }, false),
        (TzInfo::Delta { days: -2, seconds: 0 }, false),
        (TzInfo::Unsupported, false),
    ] {
        match DateTime::new(at(2021, 1, 1, 0, 0, 0, 0, tz), 0) {
            Ok(_) => assert!(ok),
            Err(e) => {
                assert!(!ok);
                assert_eq!(e, DateTimeError::LibraryUnsupported);
            }
        }
    }
}

#[test]
fn what_a_date_and_time_gives_out() {
    let west = DateTime::new(at(2021, 3, 4, 5, 6, 7, 8, TzInfo::Delta { days: -1, seconds: 68400 }), 0)
        .ok()
        .unwrap();
    assert_eq!((west.year(), west.month(), west.day()), (2021, 3, 4));
    assert_eq!((west.hour(), west.minute(), west.second(), west.microsecond()), (5, 6, 7, 8));
    assert!(west.has_tz());
    assert_eq!(west.offset(), Offset { day: -1, second: 68400 });
    assert_eq!(String::from_utf8(west.render_text()).unwrap(), "2021-03-04T05:06:07.000008-05:00");
    let naive = DateTime::new(at(2021, 3, 4, 5, 6, 7, 0, TzInfo::Naive), UTC_Z | NAIVE_UTC).ok().unwrap();
    assert!(!naive.has_tz());
    assert_eq!(naive.offset(), Offset::default());
    assert_eq!(String::from_utf8(naive.render_text()).unwrap(), "2021-03-04T05:06:07Z");
}

#[test]
fn a_time_of_day_must_not_carry_a_time_zone() {
    let plain = TimeValue { hour: 23, minute: 59, second: 58, microsecond: 1, tzinfo: false };
    let time = Time::new(plain, 0).ok().unwrap();
    assert_eq!(String::from_utf8(time.render()).unwrap(), "23:59:58.000001");
    let short = Time::new(plain, OMIT_MICROSECONDS).ok().unwrap();
    assert_eq!(String::from_utf8(short.render()).unwrap(), "23:59:58");
    let zoned = TimeValue { tzinfo: true, ..plain };
    assert_eq!(Time::new(zoned, 0).err(), Some(TimeError::HasTimezone));
    assert_eq!(TimeError::HasTimezone.message(), "datetime.time must not have tzinfo set");
}

#[test]
fn offsets_are_rounded_to_the_minute() {
    let render = |seconds: i32, days: i32| {
        let v = at(2000, 1, 1, 0, 0, 0, 0, TzInfo::Delta { days, seconds });
        let text = DateTime::new(v, 0).ok().unwrap().render_text();
        String::from_utf8(text).unwrap()[19..].to_string()
    };
    assert_eq!(render(0, 0), "+00:00");
    assert_eq!(render(29, 0), "+00:00");
    assert_eq!(render(30, 0), "+00:01");
    assert_eq!(render(3599, 0), "+00:60");
    assert_eq!(render(3600, 0), "+01:00");
    assert_eq!(render(86399, 0), "+23:60");
    assert_eq!(render(86399, -1), "-00:00");
    assert_eq!(render(86370, -1), "-00:01");
    assert_eq!(render(1, -1), "-23:60");
    assert_eq!(render(0, -1), "+00:00");
}

#[test]
fn the_text_of_a_uuid() {
    let mut buf = b"id=".to_vec();
    UUID::new(0x0102_0304_0506_0708_090a_0b0c_0d0e_0fff).write_buf(&mut buf);
    assert_eq!(String::from_utf8(buf).unwrap(), "id=01020304-0506-0708-090a-0b0c0d0e0fff");
}

#[test]
fn timestamps_in_units_agree_with_chrono() {
    let mut x: u64 = 0x9e37_79b9_7f4a_7c15;
    for _ in 0..2000 {
        x ^= x << 13;
        x ^= x >> 7;
        x ^= x << 17;
        let secs = (x % 400_000_000_000) as i64 - 200_000_000_000;
        let out = packb(
            &Value::Scalar(Scalar::Datetime64 { unit: DatetimeUnit::Seconds, value: secs }),
            SERIALIZE_NUMPY,
        );
        match chrono::DateTime::from_timestamp(secs, 0) {
            Some(t) if (0..=9999).contains(&t.year()) => {
                let want = format!(
                    "{:04}-{:02}-{:02}T{:02}:{:02}:{:02}",
                    t.year(),
                    t.month(),
                    t.day(),
                    t.hour(),
                    t.minute(),
                    t.second()
                );
                let out = out.unwrap();
                assert_eq!(&out[1..], want.as_bytes());
            }
            Some(_) => assert!(out.is_ok()),
            None => assert_eq!(
                out,
                Err(EncodeError::DatetimeUnrepresentable { unit: DatetimeUnit::Seconds, val: secs })
            ),
        }
    }
}

#[test]
fn a_date_and_time_as_a_timestamp_needs_an_offset() {
    let naive = Value::DateTime(at(2021, 3, 4, 5, 6, 7, 0, TzInfo::Naive));
    assert_eq!(packb(&naive, DATETIME_AS_TIMESTAMP_EXT).unwrap()[0], 0xb3);
    assert_eq!(packb(&naive, DATETIME_AS_TIMESTAMP_EXT | NAIVE_UTC).unwrap()[0], 0xd6);
}
