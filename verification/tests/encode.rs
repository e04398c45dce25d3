use ormsgpack::opt::{
    DATETIME_AS_TIMESTAMP_EXT, NAIVE_UTC, NON_STR_KEYS, OMIT_MICROSECONDS, PASSTHROUGH_BIG_INT,
    PASSTHROUGH_DATACLASS, PASSTHROUGH_DATETIME, PASSTHROUGH_ENUM, PASSTHROUGH_SUBCLASS,
    PASSTHROUGH_TUPLE, PASSTHROUGH_UUID, REPLACE_SURROGATES, SERIALIZE_NUMPY,
    SERIALIZE_PYDANTIC, SORT_KEYS, UTC_Z,
};
use ormsgpack::serialize::{packb, serialize, EncodeError};
use ormsgpack::value::{
    ArrayInterface, DateTimeValue, DateValue, DatetimeUnit, Field, Scalar, Text, TimeValue, TzInfo,
    Value,
};

fn text(s: &str) -> Value {
    Value::Str(Text::Utf8(s.to_string()))
}

fn str_token(s: &str) -> Vec<u8> {
    let mut out = vec![0xa0 + s.len() as u8];
    out.extend_from_slice(s.as_bytes());
    out
}

fn datetime(tzinfo: TzInfo, microsecond: i32) -> DateTimeValue {
    DateTimeValue {
        year: 2021,
        month: 3,
        day: 4,
        hour: 5,
        minute: 6,
        second: 7,
        microsecond,
        tzinfo,
    }
}

#[test]
fn empty_containers() {
    assert_eq!(packb(&Value::List(vec![]), 0), Ok(vec![0x90]));
    assert_eq!(packb(&Value::Dict(vec![]), 0), Ok(vec![0x80]));
}

#[test]
fn scalars() {
    assert_eq!(packb(&Value::Null, 0), Ok(vec![0xc0]));
    assert_eq!(packb(&Value::Bool(true), 0), Ok(vec![0xc3]));
    assert_eq!(packb(&Value::Int(0), 0), Ok(vec![0x00]));
    assert_eq!(packb(&Value::Int(-1), 0), Ok(vec![0xff]));
    assert_eq!(packb(&Value::Int(128), 0), Ok(vec![0xcc, 0x80]));
    assert_eq!(
        packb(&Value::Int(u64::MAX as i128), 0),
        Ok(vec![0xcf, 0xff, 0xff, 0xff, 0xff, 0xff, 0xff, 0xff, 0xff])
    );
    assert_eq!(
        packb(&Value::Int(i64::MIN as i128), 0),
        Ok(vec![0xd3, 0x80, 0, 0, 0, 0, 0, 0, 0])
    );
    assert_eq!(
        packb(&Value::Float(2.5f64.to_bits()), 0),
        Ok(vec![0xcb, 0x40, 0x04, 0, 0, 0, 0, 0, 0])
    );
    assert_eq!(packb(&text("hi"), 0), Ok(vec![0xa2, b'h', b'i']));
    assert_eq!(packb(&Value::Bytes(vec![1, 2]), 0), Ok(vec![0xc4, 2, 1, 2]));
    assert_eq!(packb(&Value::ByteArray(vec![1, 2]), 0), Ok(vec![0xc4, 2, 1, 2]));
    assert_eq!(packb(&Value::MemoryView(Some(vec![9])), 0), Ok(vec![0xc4, 1, 9]));
}

#[test]
fn integers_beyond_the_range_are_an_error() {
    let big = Value::Int(u64::MAX as i128 + 1);
    assert_eq!(packb(&big, 0), Err(EncodeError::IntegerOutOfRange));
    let small = Value::Int(i64::MIN as i128 - 1);
    assert_eq!(packb(&small, 0), Err(EncodeError::IntegerOutOfRange));
    assert_eq!(packb(&Value::IntSubclass(i128::MAX), 0), Err(EncodeError::IntegerOutOfRange));
}

#[test]
fn integers_beyond_the_range_go_to_the_hook_when_passed_on() {
    let big = Value::Int(u64::MAX as i128 + 1);
    assert_eq!(packb(&big, PASSTHROUGH_BIG_INT), Err(EncodeError::TypeNotSerializable));
    let hook = |v: &Value| match v {
        Value::Int(_) => Some(text("big")),
        _ => None,
    };
    assert_eq!(serialize(&big, Some(hook), PASSTHROUGH_BIG_INT), Ok(str_token("big")));
    assert_eq!(serialize(&big, Some(hook), 0), Err(EncodeError::IntegerOutOfRange));
}

#[test]
fn lists_and_tuples_are_arrays() {
    let items = vec![Value::Int(1), text("a"), Value::Null];
    let want = vec![0x93, 0x01, 0xa1, b'a', 0xc0];
    assert_eq!(packb(&Value::List(vec![Value::Int(1), text("a"), Value::Null]), 0), Ok(want.clone()));
    assert_eq!(packb(&Value::Tuple(items), 0), Ok(want.clone()));
    assert_eq!(
        packb(&Value::ListSubclass(vec![Value::Int(1), text("a"), Value::Null]), 0),
        Ok(want)
    );
}

#[test]
fn sixteen_members_take_the_wider_head() {
    let fifteen = Value::List((0..15).map(|_| Value::Null).collect());
    let sixteen = Value::List((0..16).map(|_| Value::Null).collect());
    assert_eq!(packb(&fifteen, 0).unwrap()[0], 0x9f);
    assert_eq!(packb(&sixteen, 0).unwrap()[..3], [0xdc, 0x00, 0x10]);
    let fifteen = Value::Dict((0..15).map(|i| (text(&format!("k{i}")), Value::Null)).collect());
    let sixteen = Value::Dict((0..16).map(|i| (text(&format!("k{i}")), Value::Null)).collect());
    assert_eq!(packb(&fifteen, 0).unwrap()[0], 0x8f);
    assert_eq!(packb(&sixteen, 0).unwrap()[..3], [0xde, 0x00, 0x10]);
}

#[test]
fn non_string_key_is_refused_by_default() {
    let map = Value::Dict(vec![(Value::Int(1), text("a"))]);
    assert_eq!(packb(&map, 0), Err(EncodeError::KeyMustBeStr));
    assert_eq!(packb(&map, SORT_KEYS), Err(EncodeError::KeyMustBeStr));
    let sub = Value::Dict(vec![(Value::StrSubclass(Text::Utf8("k".into())), text("a"))]);
    assert_eq!(packb(&sub, 0), Err(EncodeError::KeyMustBeStr));
}

#[test]
fn non_string_key_is_written_when_asked_for() {
    let map = Value::Dict(vec![(Value::Int(1), text("a"))]);
    assert_eq!(packb(&map, NON_STR_KEYS), Ok(vec![0x81, 0x01, 0xa1, b'a']));
}

#[test]
fn sorted_keys_with_keys_of_any_kind_are_always_an_error() {
    let both = NON_STR_KEYS | SORT_KEYS;
    assert_eq!(packb(&Value::Dict(vec![]), both), Err(EncodeError::OptionsIncompatible));
    let map = Value::Dict(vec![(text("a"), Value::Int(1))]);
    assert_eq!(packb(&map, both), Err(EncodeError::OptionsIncompatible));
    let nested = Value::List(vec![Value::Dict(vec![])]);
    assert_eq!(packb(&nested, both), Err(EncodeError::OptionsIncompatible));
}

#[test]
fn sorted_keys_do_not_depend_on_the_order_of_entries() {
    let ba = Value::Dict(vec![(text("b"), Value::Int(1)), (text("a"), Value::Int(2))]);
    let ab = Value::Dict(vec![(text("a"), Value::Int(2)), (text("b"), Value::Int(1))]);
    let want = vec![0x82, 0xa1, b'a', 0x02, 0xa1, b'b', 0x01];
    assert_eq!(packb(&ba, SORT_KEYS), Ok(want.clone()));
    assert_eq!(packb(&ab, SORT_KEYS), Ok(want));
    assert_eq!(packb(&ba, 0), Ok(vec![0x82, 0xa1, b'b', 0x01, 0xa1, b'a', 0x02]));
}

#[test]
fn sorted_keys_go_by_bytes() {
    let keys = ["b", "", "ab", "a", "B", "é", "aa", "~"];
    let map = Value::Dict(keys.iter().map(|k| (text(k), Value::Null)).collect());
    let mut sorted: Vec<&str> = keys.to_vec();
    sorted.sort_unstable();
    let mut want = vec![0x80 + keys.len() as u8];
    for k in sorted {
        want.extend(str_token(k));
        want.push(0xc0);
    }
    assert_eq!(packb(&map, SORT_KEYS), Ok(want));
}

#[test]
fn keys_of_many_kinds() {
    let key = Value::Tuple(vec![
        Value::Int(1),
        text("a"),
        Value::Bool(false),
        Value::Null,
        Value::Bytes(vec![7]),
        Value::Float(0),
        Value::Enum(Box::new(Value::Int(-1))),
        Value::Tuple(vec![]),
    ]);
    let map = Value::Dict(vec![(key, Value::Null)]);
    assert_eq!(
        packb(&map, NON_STR_KEYS),
        Ok(vec![
            0x81, 0x98, 0x01, 0xa1, b'a', 0xc2, 0xc0, 0xc4, 1, 7, 0xcb, 0, 0, 0, 0, 0, 0, 0, 0,
            0xff, 0x90, 0xc0
        ])
    );
}

#[test]
fn containers_are_no_keys() {
    for key in [
        Value::List(vec![]),
        Value::Dict(vec![]),
        Value::Other(1),
        Value::Ext { tag: 1, data: vec![] },
        Value::ByteArray(vec![]),
    ] {
        let map = Value::Dict(vec![(key, Value::Null)]);
        assert_eq!(packb(&map, NON_STR_KEYS), Err(EncodeError::KeyTypeUnsupported));
    }
}

#[test]
fn dates_and_uuids_as_keys_are_their_text() {
    let date = Value::Date(DateValue { year: 1999, month: 12, day: 31 });
    let map = Value::Dict(vec![(date, Value::Null)]);
    let mut want = vec![0x81];
    want.extend(str_token("1999-12-31"));
    want.push(0xc0);
    assert_eq!(packb(&map, NON_STR_KEYS), Ok(want));
    let when = Value::DateTime(datetime(TzInfo::Delta { days: 0, seconds: 0 }, 0));
    let map = Value::Dict(vec![(when, Value::Null)]);
    let mut want = vec![0x81];
    want.extend(str_token("2021-03-04T05:06:07+00:00"));
    want.push(0xc0);
    assert_eq!(packb(&map, NON_STR_KEYS | DATETIME_AS_TIMESTAMP_EXT), Ok(want));
}

#[test]
fn strings_with_surrogates() {
    let none = Value::Str(Text::Surrogates { lossy: None });
    let some = Value::Str(Text::Surrogates { lossy: Some("a?".into()) });
    assert_eq!(packb(&none, 0), Err(EncodeError::InvalidStr));
    assert_eq!(packb(&some, 0), Err(EncodeError::InvalidStr));
    assert_eq!(packb(&none, REPLACE_SURROGATES), Err(EncodeError::InvalidStr));
    assert_eq!(packb(&some, REPLACE_SURROGATES), Ok(str_token("a?")));
    let key = Value::Dict(vec![(Value::Str(Text::Surrogates { lossy: Some("k".into()) }), Value::Null)]);
    assert_eq!(packb(&key, REPLACE_SURROGATES), Err(EncodeError::InvalidStr));
}

#[test]
fn dates_and_times() {
    let date = Value::Date(DateValue { year: 2021, month: 1, day: 2 });
    assert_eq!(packb(&date, 0), Ok(str_token("2021-01-02")));
    let first = Value::Date(DateValue { year: 1, month: 1, day: 1 });
    assert_eq!(packb(&first, 0), Ok(str_token("0001-01-01")));
    let time = |microsecond, tzinfo| {
        Value::Time(TimeValue { hour: 1, minute: 2, second: 3, microsecond, tzinfo })
    };
    assert_eq!(packb(&time(0, false), 0), Ok(str_token("01:02:03")));
    assert_eq!(packb(&time(45, false), 0), Ok(str_token("01:02:03.000045")));
    assert_eq!(packb(&time(45, false), OMIT_MICROSECONDS), Ok(str_token("01:02:03")));
    assert_eq!(packb(&time(0, true), 0), Err(EncodeError::TimeHasTimezone));
    assert_eq!(packb(&time(0, true), OMIT_MICROSECONDS | UTC_Z), Err(EncodeError::TimeHasTimezone));
}

#[test]
fn dates_with_times() {
    let naive = Value::DateTime(datetime(TzInfo::Naive, 0));
    assert_eq!(packb(&naive, 0), Ok(str_token("2021-03-04T05:06:07")));
    assert_eq!(packb(&naive, NAIVE_UTC), Ok(str_token("2021-03-04T05:06:07+00:00")));
    assert_eq!(packb(&naive, NAIVE_UTC | UTC_Z), Ok(str_token("2021-03-04T05:06:07Z")));
    let micros = Value::DateTime(datetime(TzInfo::Naive, 123456));
    assert_eq!(packb(&micros, 0), Ok(str_token("2021-03-04T05:06:07.123456")));
    assert_eq!(packb(&micros, OMIT_MICROSECONDS), Ok(str_token("2021-03-04T05:06:07")));
    let utc = Value::DateTime(datetime(TzInfo::Delta { days: 0, seconds: 0 }, 0));
    assert_eq!(packb(&utc, 0), Ok(str_token("2021-03-04T05:06:07+00:00")));
    assert_eq!(packb(&utc, UTC_Z), Ok(str_token("2021-03-04T05:06:07Z")));
    let east = Value::DateTime(datetime(TzInfo::Delta { days: 0, seconds: 37800 }, 0));
    assert_eq!(packb(&east, UTC_Z), Ok(str_token("2021-03-04T05:06:07+10:30")));
    let west = Value::DateTime(datetime(TzInfo::Delta { days: -1, seconds: 68400 }, 0));
    assert_eq!(packb(&west, 0), Ok(str_token("2021-03-04T05:06:07-05:00")));
    let odd = Value::DateTime(datetime(TzInfo::Delta { days: 0, seconds: 1172 }, 0));
    assert_eq!(packb(&odd, 0), Ok(str_token("2021-03-04T05:06:07+00:20")));
    let unknown = Value::DateTime(datetime(TzInfo::Unsupported, 0));
    assert_eq!(packb(&unknown, 0), Err(EncodeError::TzLibraryUnsupported));
    let two_days = Value::DateTime(datetime(TzInfo::Delta { days: 2, seconds: 0 }, 0));
    assert_eq!(packb(&two_days, 0), Err(EncodeError::TzLibraryUnsupported));
}

#[test]
fn timestamps() {
    let utc = |microsecond| Value::DateTime(datetime(TzInfo::Delta { days: 0, seconds: 0 }, microsecond));
    let seconds: u32 = 1614834367;
    let mut want = vec![0xd6, 0xff];
    want.extend_from_slice(&seconds.to_be_bytes());
    assert_eq!(packb(&utc(0), DATETIME_AS_TIMESTAMP_EXT), Ok(want.clone()));
    let naive = Value::DateTime(datetime(TzInfo::Naive, 0));
    assert_eq!(packb(&naive, DATETIME_AS_TIMESTAMP_EXT), Ok(str_token("2021-03-04T05:06:07")));
    assert_eq!(packb(&naive, DATETIME_AS_TIMESTAMP_EXT | NAIVE_UTC), Ok(want));
    let packed: u64 = (5000u64 << 34) | seconds as u64;
    let mut want = vec![0xd7, 0xff];
    want.extend_from_slice(&packed.to_be_bytes());
    assert_eq!(packb(&utc(5), DATETIME_AS_TIMESTAMP_EXT), Ok(want));
    let east = Value::DateTime(datetime(TzInfo::Delta { days: 0, seconds: 3600 }, 0));
    let mut want = vec![0xd6, 0xff];
    want.extend_from_slice(&(seconds - 3600).to_be_bytes());
    assert_eq!(packb(&east, DATETIME_AS_TIMESTAMP_EXT), Ok(want));
    let early = Value::DateTime(DateTimeValue {
        year: 1969,
        month: 12,
        day: 31,
        hour: 23,
        minute: 59,
        second: 59,
        microsecond: 0,
        tzinfo: TzInfo::Delta { days: 0, seconds: 0 },
    });
    let mut want = vec![0xc7, 12, 0xff, 0, 0, 0, 0];
    want.extend_from_slice(&(-1i64).to_be_bytes());
    assert_eq!(packb(&early, DATETIME_AS_TIMESTAMP_EXT), Ok(want));
    let no_such_day = Value::DateTime(DateTimeValue {
        year: 2021,
        month: 2,
        day: 30,
        hour: 0,
        minute: 0,
        second: 0,
        microsecond: 0,
        tzinfo: TzInfo::Delta { days: 0, seconds: 0 },
    });
    assert_eq!(packb(&no_such_day, DATETIME_AS_TIMESTAMP_EXT), Err(EncodeError::DatetimeOutOfRange));
}

#[test]
fn uuid_is_its_hyphenated_text() {
    let n: u128 = 0x0123_4567_89ab_cdef_fedc_ba98_7654_3210;
    let mut want = vec![0xd9, 36];
    want.extend_from_slice(b"01234567-89ab-cdef-fedc-ba9876543210");
    assert_eq!(packb(&Value::Uuid(n), 0), Ok(want));
    let mut want = vec![0xd9, 36];
    want.extend_from_slice(b"00000000-0000-0000-0000-000000000000");
    assert_eq!(packb(&Value::Uuid(0), 0), Ok(want));
}

#[test]
fn extension_values() {
    let ext = Value::Ext { tag: 5, data: vec![1, 2] };
    assert_eq!(packb(&ext, 0), Ok(vec![0xd5, 5, 1, 2]));
    assert_eq!(packb(&Value::Ext { tag: 0, data: vec![] }, 0), Ok(vec![0xc7, 0, 0]));
    assert_eq!(packb(&Value::Ext { tag: 127, data: vec![1] }, 0), Ok(vec![0xd4, 127, 1]));
    for tag in [128, -1, 255, i64::MAX, i64::MIN] {
        let ext = Value::Ext { tag, data: vec![1, 2] };
        assert_eq!(packb(&ext, 0), Err(EncodeError::ExtTagOutOfRange));
    }
}

#[test]
fn kinds_that_are_passed_on_go_to_the_hook() {
    let cases = [
        (Value::Date(DateValue { year: 1, month: 1, day: 1 }), PASSTHROUGH_DATETIME),
        (Value::Time(TimeValue { hour: 0, minute: 0, second: 0, microsecond: 0, tzinfo: false }), PASSTHROUGH_DATETIME),
        (Value::DateTime(datetime(TzInfo::Naive, 0)), PASSTHROUGH_DATETIME),
        (Value::Tuple(vec![]), PASSTHROUGH_TUPLE),
        (Value::Uuid(1), PASSTHROUGH_UUID),
        (Value::Enum(Box::new(Value::Int(1))), PASSTHROUGH_ENUM),
        (Value::StrSubclass(Text::Utf8("s".into())), PASSTHROUGH_SUBCLASS),
        (Value::IntSubclass(1), PASSTHROUGH_SUBCLASS),
        (Value::ListSubclass(vec![]), PASSTHROUGH_SUBCLASS),
        (Value::DictSubclass(vec![]), PASSTHROUGH_SUBCLASS),
        (Value::Record { slots: false, fields: vec![] }, PASSTHROUGH_DATACLASS),
    ];
    for (value, flag) in cases {
        assert!(packb(&value, 0).is_ok());
        assert_eq!(packb(&value, flag), Err(EncodeError::TypeNotSerializable));
        let hook = |_: &Value| Some(Value::Int(42));
        assert_eq!(serialize(&value, Some(hook), flag), Ok(vec![42]));
    }
}

#[test]
fn enumerations_stand_for_their_values() {
    let member = Value::Enum(Box::new(Value::Enum(Box::new(text("x")))));
    assert_eq!(packb(&member, 0), Ok(str_token("x")));
}

#[test]
fn kinds_that_need_an_option() {
    let model = Value::Model { dict: Some(vec![]), extra: None };
    assert_eq!(packb(&model, 0), Err(EncodeError::TypeNotSerializable));
    assert_eq!(packb(&model, SERIALIZE_PYDANTIC), Ok(vec![0x80]));
    let scalar = Value::Scalar(Scalar::I8(-3));
    assert_eq!(packb(&scalar, 0), Err(EncodeError::TypeNotSerializable));
    assert_eq!(packb(&scalar, SERIALIZE_NUMPY), Ok(vec![0xfd]));
    assert_eq!(packb(&Value::Other(7), 0), Err(EncodeError::TypeNotSerializable));
    assert_eq!(packb(&Value::MemoryView(None), 0), Err(EncodeError::MemoryViewNotContiguous));
}

fn field(name: &str, pseudo: bool, stored: bool, value: Value) -> Field {
    Field { name: name.to_string(), pseudo, stored, value }
}

#[test]
fn records() {
    let fields = || {
        vec![
            field("a", false, true, Value::Int(1)),
            field("_hidden", false, true, Value::Int(2)),
            field("kind", true, false, Value::Int(3)),
            field("cached", true, true, Value::Int(4)),
            field("b", false, false, Value::Int(5)),
        ]
    };
    let plain = Value::Record { slots: false, fields: fields() };
    let mut want = vec![0x83];
    for (k, v) in [("a", 1u8), ("cached", 4), ("b", 5)] {
        want.extend(str_token(k));
        want.push(v);
    }
    assert_eq!(packb(&plain, 0), Ok(want));
    let slotted = Value::Record { slots: true, fields: fields() };
    let mut want = vec![0x82];
    for (k, v) in [("a", 1u8), ("b", 5)] {
        want.extend(str_token(k));
        want.push(v);
    }
    assert_eq!(packb(&slotted, 0), Ok(want));
    assert_eq!(packb(&Value::Record { slots: true, fields: vec![] }, 0), Ok(vec![0x80]));
}

#[test]
fn models() {
    let dict = || vec![(text("b"), Value::Int(1)), (text("_p"), Value::Int(2)), (text("a"), Value::Int(3))];
    let extra = || vec![(text("z"), Value::Int(4)), (text("c"), Value::Int(5))];
    let both = Value::Model { dict: Some(dict()), extra: Some(extra()) };
    let encode = |keys: &[(&str, u8)]| {
        let mut want = vec![0x80 + keys.len() as u8];
        for (k, v) in keys {
            want.extend(str_token(k));
            want.push(*v);
        }
        want
    };
    assert_eq!(
        packb(&both, SERIALIZE_PYDANTIC),
        Ok(encode(&[("b", 1), ("a", 3), ("z", 4), ("c", 5)]))
    );
    assert_eq!(
        packb(&both, SERIALIZE_PYDANTIC | SORT_KEYS),
        Ok(encode(&[("a", 3), ("b", 1), ("c", 5), ("z", 4)]))
    );
    let one = Value::Model { dict: Some(dict()), extra: None };
    assert_eq!(packb(&one, SERIALIZE_PYDANTIC), Ok(encode(&[("b", 1), ("a", 3)])));
    let none = Value::Model { dict: None, extra: Some(extra()) };
    assert_eq!(packb(&none, SERIALIZE_PYDANTIC), Err(EncodeError::ModelMustHaveDict));
    let bad = Value::Model { dict: Some(vec![(text("a"), Value::Null), (Value::Int(1), Value::Null)]), extra: None };
    assert_eq!(packb(&bad, SERIALIZE_PYDANTIC), Err(EncodeError::KeyMustBeStr));
}

fn nested(depth: usize, inner: Value) -> Value {
    let mut v = inner;
    for _ in 0..depth {
        v = Value::List(vec![v]);
    }
    v
}

#[test]
fn nesting_at_the_ceiling_is_encoded_and_beyond_it_is_not() {
    for payload in [Value::Null, Value::Int(300), text("payload")] {
        let inner = packb(&payload, 0).unwrap();
        let mut want = vec![0x91u8; 254];
        want.push(0x91);
        want.extend(inner);
        let keep = match &payload {
            Value::Null => Value::Null,
            Value::Int(n) => Value::Int(*n),
            _ => text("payload"),
        };
        assert_eq!(packb(&nested(255, payload), 0), Ok(want));
        assert_eq!(packb(&nested(256, keep), 0), Err(EncodeError::RecursionLimitReached));
    }
    let mut empty = Value::List(vec![]);
    for _ in 0..254 {
        empty = Value::List(vec![empty]);
    }
    assert!(packb(&empty, 0).is_ok());
    assert_eq!(packb(&Value::List(vec![empty]), 0), Err(EncodeError::RecursionLimitReached));
    let mut maps = Value::Dict(vec![]);
    for _ in 0..255 {
        maps = Value::Dict(vec![(text("k"), maps)]);
    }
    assert_eq!(packb(&maps, 0), Err(EncodeError::RecursionLimitReached));
}

#[test]
fn the_hook_is_entered_up_to_its_ceiling() {
    let again = |v: &Value| match v {
        Value::Other(n) => Some(Value::Other(n + 1)),
        _ => None,
    };
    assert_eq!(
        serialize(&Value::Other(0), Some(again), 0),
        Err(EncodeError::DefaultRecursionLimitReached)
    );
    let countdown = |v: &Value| match v {
        Value::Other(0) => Some(Value::Int(9)),
        Value::Other(n) => Some(Value::Other(n - 1)),
        _ => None,
    };
    assert_eq!(serialize(&Value::Other(254), Some(countdown), 0), Ok(vec![9]));
    assert_eq!(
        serialize(&Value::Other(255), Some(countdown), 0),
        Err(EncodeError::DefaultRecursionLimitReached)
    );
    let fails = |_: &Value| None;
    assert_eq!(serialize(&Value::Other(0), Some(fails), 0), Err(EncodeError::TypeNotSerializable));
}

#[test]
fn the_hook_ceiling_counts_calls_in_a_row_only() {
    let wrap = |v: &Value| match v {
        Value::Other(n) => Some(Value::List(vec![Value::Int(*n as i128)])),
        _ => None,
    };
    let many = Value::List((0..300).map(|n| Value::Other(n % 100)).collect());
    let out = serialize(&many, Some(wrap), 0).unwrap();
    assert_eq!(out[..3], [0xdc, 0x01, 0x2c]);
    assert_eq!(out.len(), 3 + 300 * 2);
}

#[test]
fn numeric_scalars() {
    let on = SERIALIZE_NUMPY;
    assert_eq!(packb(&Value::Scalar(Scalar::Bool(true)), on), Ok(vec![0xc3]));
    assert_eq!(packb(&Value::Scalar(Scalar::U8(200)), on), Ok(vec![0xcc, 200]));
    assert_eq!(packb(&Value::Scalar(Scalar::I16(-200)), on), Ok(vec![0xd1, 0xff, 0x38]));
    assert_eq!(packb(&Value::Scalar(Scalar::I64(5)), on), Ok(vec![5]));
    assert_eq!(
        packb(&Value::Scalar(Scalar::F32(1.5f32.to_bits())), on),
        Ok(vec![0xca, 0x3f, 0xc0, 0, 0])
    );
    assert_eq!(
        packb(&Value::Scalar(Scalar::F16(0x3e00)), on),
        Ok(vec![0xca, 0x3f, 0xc0, 0, 0])
    );
    assert_eq!(
        packb(&Value::Scalar(Scalar::F64(1.5f64.to_bits())), on),
        Ok(vec![0xcb, 0x3f, 0xf8, 0, 0, 0, 0, 0, 0])
    );
}

#[test]
fn half_precision_agrees_with_the_half_crate() {
    for bits in 0..=u16::MAX {
        let want = half::f16::from_bits(bits).to_f32();
        let out = packb(&Value::Scalar(Scalar::F16(bits)), SERIALIZE_NUMPY).unwrap();
        let got = f32::from_bits(u32::from_be_bytes([out[1], out[2], out[3], out[4]]));
        if want.is_nan() {
            assert!(got.is_nan());
        } else {
            assert_eq!(got.to_bits(), want.to_bits());
        }
    }
}

#[test]
fn timestamps_of_numeric_arrays() {
    let on = SERIALIZE_NUMPY;
    let at = |unit, value| Value::Scalar(Scalar::Datetime64 { unit, value });
    assert_eq!(packb(&at(DatetimeUnit::Years, 51), on), Ok(str_token("2021-01-01T00:00:00")));
    assert_eq!(packb(&at(DatetimeUnit::Months, 14), on), Ok(str_token("1971-03-01T00:00:00")));
    assert_eq!(packb(&at(DatetimeUnit::Months, -12), on), Ok(str_token("1969-01-01T00:00:00")));
    assert_eq!(
        packb(&at(DatetimeUnit::Months, -1), on),
        Err(EncodeError::DatetimeUnrepresentable { unit: DatetimeUnit::Months, val: -1 })
    );
    assert_eq!(packb(&at(DatetimeUnit::Weeks, 1), on), Ok(str_token("1970-01-08T00:00:00")));
    assert_eq!(packb(&at(DatetimeUnit::Days, -1), on), Ok(str_token("1969-12-31T00:00:00")));
    assert_eq!(packb(&at(DatetimeUnit::Hours, 25), on), Ok(str_token("1970-01-02T01:00:00")));
    assert_eq!(packb(&at(DatetimeUnit::Minutes, 61), on), Ok(str_token("1970-01-01T01:01:00")));
    assert_eq!(packb(&at(DatetimeUnit::Seconds, 1614834367), on), Ok(str_token("2021-03-04T05:06:07")));
    assert_eq!(
        packb(&at(DatetimeUnit::Milliseconds, 1614834367008), on),
        Ok(str_token("2021-03-04T05:06:07.008000"))
    );
    assert_eq!(
        packb(&at(DatetimeUnit::Microseconds, 1614834367000009), on),
        Ok(str_token("2021-03-04T05:06:07.000009"))
    );
    assert_eq!(
        packb(&at(DatetimeUnit::Nanoseconds, 1614834367000009999), on),
        Ok(str_token("2021-03-04T05:06:07.000009"))
    );
    assert_eq!(
        packb(&at(DatetimeUnit::Nanoseconds, 1614834367000009999), on | OMIT_MICROSECONDS),
        Ok(str_token("2021-03-04T05:06:07"))
    );
    assert_eq!(
        packb(&at(DatetimeUnit::Seconds, 0), on | NAIVE_UTC | UTC_Z),
        Ok(str_token("1970-01-01T00:00:00Z"))
    );
    assert_eq!(
        packb(&at(DatetimeUnit::Milliseconds, -1), on),
        Err(EncodeError::DatetimeUnrepresentable { unit: DatetimeUnit::Milliseconds, val: -1 })
    );
    assert_eq!(packb(&at(DatetimeUnit::Milliseconds, -1000), on), Ok(str_token("1969-12-31T23:59:59")));
    for unit in [DatetimeUnit::Weeks, DatetimeUnit::Seconds, DatetimeUnit::Years] {
        assert_eq!(
            packb(&at(unit, i64::MAX), on),
            Err(EncodeError::DatetimeUnrepresentable { unit, val: i64::MAX })
        );
    }
    for unit in [
        DatetimeUnit::NaT,
        DatetimeUnit::Picoseconds,
        DatetimeUnit::Femtoseconds,
        DatetimeUnit::Attoseconds,
        DatetimeUnit::Generic,
    ] {
        assert_eq!(packb(&at(unit, 1), on), Err(EncodeError::DatetimeUnitUnsupported(unit)));
    }
}

fn array(typekind: u8, itemsize: i32, shape: Vec<isize>, data: Vec<u8>) -> ArrayInterface {
    let mut strides = vec![0isize; shape.len()];
    let mut step = itemsize as isize;
    for i in (0..shape.len()).rev() {
        strides[i] = step;
        step *= shape[i].max(1);
    }
    ArrayInterface {
        two: 2,
        typekind,
        itemsize,
        flags: 1,
        shape,
        strides,
        data,
        unit: DatetimeUnit::Seconds,
    }
}

#[test]
fn years_and_months_up_to_the_ends_of_the_calendar() {
    let on = SERIALIZE_NUMPY;
    let at = |unit, value| Value::Scalar(Scalar::Datetime64 { unit, value });
    let last = packb(&at(DatetimeUnit::Years, 262142 - 1970), on).unwrap();
    assert_eq!(&last[1..], b"262142-01-01T00:00:00");
    assert_eq!(
        packb(&at(DatetimeUnit::Years, 262143 - 1970), on),
        Err(EncodeError::DatetimeUnrepresentable { unit: DatetimeUnit::Years, val: 262143 - 1970 })
    );
    assert!(packb(&at(DatetimeUnit::Years, -262143 - 1970), on).is_ok());
    assert_eq!(
        packb(&at(DatetimeUnit::Years, -262144 - 1970), on),
        Err(EncodeError::DatetimeUnrepresentable { unit: DatetimeUnit::Years, val: -262144 - 1970 })
    );
    let december = packb(&at(DatetimeUnit::Months, (262142 - 1970) * 12 + 11), on).unwrap();
    assert_eq!(&december[1..], b"262142-12-01T00:00:00");
    assert_eq!(
        packb(&at(DatetimeUnit::Months, (262142 - 1970) * 12 + 12), on),
        Err(EncodeError::DatetimeUnrepresentable {
            unit: DatetimeUnit::Months,
            val: (262142 - 1970) * 12 + 12
        })
    );
    assert_eq!(packb(&at(DatetimeUnit::Months, 11), on), Ok(str_token("1970-12-01T00:00:00")));
    assert_eq!(packb(&at(DatetimeUnit::Months, 12), on), Ok(str_token("1971-01-01T00:00:00")));
}

#[test]
fn numeric_arrays() {
    let on = SERIALIZE_NUMPY;
    let data: Vec<u8> = (1..=8i32).flat_map(|n| n.to_le_bytes()).collect();
    let cube = Value::Array(array(b'i', 4, vec![2, 2, 2], data.clone()));
    assert_eq!(
        packb(&cube, on),
        Ok(vec![0x92, 0x92, 0x92, 1, 2, 0x92, 3, 4, 0x92, 0x92, 5, 6, 0x92, 7, 8])
    );
    let flat = Value::Array(array(b'i', 4, vec![8], data.clone()));
    assert_eq!(packb(&flat, on), Ok(vec![0x98, 1, 2, 3, 4, 5, 6, 7, 8]));
    let table = Value::Array(array(b'u', 2, vec![2, 3], vec![1, 0, 2, 0, 3, 0, 0xff, 0xff, 5, 0, 6, 0]));
    assert_eq!(
        packb(&table, on),
        Ok(vec![0x92, 0x93, 1, 2, 3, 0x93, 0xcd, 0xff, 0xff, 5, 6])
    );
    let signed = Value::Array(array(b'i', 1, vec![3], vec![0xff, 0x80, 0x7f]));
    assert_eq!(packb(&signed, on), Ok(vec![0x93, 0xff, 0xd0, 0x80, 0x7f]));
    let flags = Value::Array(array(b'b', 1, vec![3], vec![1, 0, 2]));
    assert_eq!(packb(&flags, on), Ok(vec![0x93, 0xc3, 0xc2, 0xc2]));
    let empty = Value::Array(array(b'f', 8, vec![0], vec![]));
    assert_eq!(packb(&empty, on), Ok(vec![0x90]));
    let rows = Value::Array(array(b'f', 8, vec![2, 0], vec![]));
    assert_eq!(packb(&rows, on), Ok(vec![0x92, 0x90, 0x90]));
    let doubles = Value::Array(array(b'f', 8, vec![1], 1.5f64.to_le_bytes().to_vec()));
    assert_eq!(packb(&doubles, on), Ok(vec![0x91, 0xcb, 0x3f, 0xf8, 0, 0, 0, 0, 0, 0]));
    let times = Value::Array(array(b'M', 8, vec![2], [0i64, 86400].iter().flat_map(|n| n.to_le_bytes()).collect()));
    let mut want = vec![0x92];
    want.extend(str_token("1970-01-01T00:00:00"));
    want.extend(str_token("1970-01-02T00:00:00"));
    assert_eq!(packb(&times, on), Ok(want));
}

#[test]
fn numeric_arrays_that_are_not_encoded() {
    let on = SERIALIZE_NUMPY;
    let good = || array(b'i', 4, vec![2], vec![0; 8]);
    let mut wrong_tag = good();
    wrong_tag.two = 3;
    assert_eq!(packb(&Value::Array(wrong_tag), on), Err(EncodeError::ArrayMalformed));
    let mut short = good();
    short.data.pop();
    assert_eq!(packb(&Value::Array(short), on), Err(EncodeError::ArrayMalformed));
    let mut negative = good();
    negative.shape[0] = -1;
    assert_eq!(packb(&Value::Array(negative), on), Err(EncodeError::ArrayMalformed));
    let mut strides = good();
    strides.strides.push(4);
    assert_eq!(packb(&Value::Array(strides), on), Err(EncodeError::ArrayMalformed));
    let mut gaps = good();
    gaps.flags = 0;
    let mut scalar = good();
    scalar.shape.clear();
    scalar.strides.clear();
    let mut complex = good();
    complex.typekind = b'c';
    let hook = |v: &Value| match v {
        Value::Array(_) => Some(Value::List(vec![])),
        _ => None,
    };
    for bad in [gaps, scalar, complex] {
        let again = ArrayInterface {
            two: bad.two,
            typekind: bad.typekind,
            itemsize: bad.itemsize,
            flags: bad.flags,
            shape: bad.shape.clone(),
            strides: bad.strides.clone(),
            data: bad.data.clone(),
            unit: bad.unit,
        };
        assert_eq!(packb(&Value::Array(bad), on), Err(EncodeError::ArrayNotContiguous));
        assert_eq!(serialize(&Value::Array(again), Some(hook), on), Ok(vec![0x90]));
    }
    let mut wrong_tag = good();
    wrong_tag.two = 3;
    assert_eq!(serialize(&Value::Array(wrong_tag), Some(hook), on), Err(EncodeError::ArrayMalformed));
    assert_eq!(serialize(&Value::Array(good()), Some(hook), 0), Ok(vec![0x90]));
}

#[test]
fn an_error_inside_a_container_ends_the_encoding() {
    let list = Value::List(vec![Value::Int(1), Value::Other(0), Value::Int(2)]);
    assert_eq!(packb(&list, 0), Err(EncodeError::TypeNotSerializable));
    let map = Value::Dict(vec![(text("a"), Value::Int(1)), (text("b"), Value::Ext { tag: 200, data: vec![] })]);
    assert_eq!(packb(&map, 0), Err(EncodeError::ExtTagOutOfRange));
}

#[test]
fn every_error_has_its_message() {
    assert_eq!(EncodeError::KeyMustBeStr.message(), "Dict key must be str");
    assert_eq!(EncodeError::RecursionLimitReached.message(), "Recursion limit reached");
    assert_eq!(EncodeError::IntegerOutOfRange.message(), "Integer exceeds 64-bit range");
    assert_eq!(EncodeError::ExtTagOutOfRange.message(), "Extension type out of range");
    assert_eq!(EncodeError::Write.message(), "write error");
    assert_eq!(
        EncodeError::DatetimeUnitUnsupported(DatetimeUnit::Picoseconds).message(),
        "unsupported numpy.datetime64 unit: picoseconds"
    );
    assert_eq!(
        EncodeError::DatetimeUnrepresentable { unit: DatetimeUnit::Weeks, val: i64::MIN }.message(),
        "unrepresentable numpy.datetime64: -9223372036854775808 weeks"
    );
    assert_eq!(
        EncodeError::DatetimeUnrepresentable { unit: DatetimeUnit::Years, val: 0 }.message(),
        "unrepresentable numpy.datetime64: 0 years"
    );
    assert_eq!(
        EncodeError::DatetimeUnrepresentable { unit: DatetimeUnit::Days, val: 1234567890 }.message(),
        "unrepresentable numpy.datetime64: 1234567890 days"
    );
    assert_eq!(
        EncodeError::OptionsIncompatible.message(),
        "OPT_NON_STR_KEYS is not compatible with OPT_SORT_KEYS"
    );
}
