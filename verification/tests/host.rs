use ormsgpack::args::{packb_args, unpackb_args, ArgError, Keyword, Place, Places};
use ormsgpack::deserialize::cache::bytes_eq;
use ormsgpack::deserialize::Error;
use ormsgpack::ext::{ext_new, ExtError};
use ormsgpack::io::WriteSlices;
use ormsgpack::lazy::ThreadSafeLazy;
use ormsgpack::msgpack::endian::{
    to_i16, to_i32, to_i64, to_i8, u16_be, u32_be, u64_be,
};
use ormsgpack::msgpack::Marker;
use ormsgpack::opt::{
    is_set, parse_option_arg, MAX_PACKB_OPT, MAX_UNPACKB_OPT, NAIVE_UTC, NON_STR_KEYS,
    NOT_PASSTHROUGH, PASSTHROUGH_BIG_INT, PASSTHROUGH_DATACLASS, PASSTHROUGH_DATETIME,
    PASSTHROUGH_SUBCLASS, PASSTHROUGH_TUPLE, SORT_KEYS, UTC_Z,
};
use ormsgpack::serialize::datetime::Date;
use ormsgpack::serialize::datetimelike::write_date;
use ormsgpack::serialize::default::{DefaultHook, Error as HookError};
use ormsgpack::serialize::encoding::Kind;
use ormsgpack::serialize::leaf::{Int, IntError};
use ormsgpack::serialize::numpy::{
    element, from_descr, half_bits_to_single, read_le, ItemType, NumpyArray, PyArrayError,
};
use ormsgpack::serialize::order::{key_le, Order};
use ormsgpack::serialize::plan::{classify, count_children, fits, starts_private};
use ormsgpack::msgpack::endian::u128_be;
use ormsgpack::serialize::{
    BytesWriter, Compound, EncodeError, ExtSerializer, MessagePackSerializer,
};
use ormsgpack::unicode::{unicode_from_str, UnicodeKind};
use ormsgpack::value::{ArrayInterface, DateValue, DatetimeUnit, Field, Scalar, Text, Value};

fn text(s: &str) -> Value {
    Value::Str(Text::Utf8(s.to_string()))
}

#[test]
fn big_endian_bytes() {
    assert_eq!(u16_be(0x0102), [1, 2]);
    assert_eq!(u32_be(0x01020304), [1, 2, 3, 4]);
    assert_eq!(u64_be(0x0102030405060708), [1, 2, 3, 4, 5, 6, 7, 8]);
    assert_eq!(u16_be(u16::MAX), u16::MAX.to_be_bytes());
    assert_eq!(u32_be(0xdead_beef), 0xdead_beefu32.to_be_bytes());
    assert_eq!(u64_be(u64::MAX - 1), (u64::MAX - 1).to_be_bytes());
}

#[test]
fn twos_complement() {
    for b in 0..=255u8 {
        assert_eq!(to_i8(b), b as i8);
    }
    for v in [0u16, 1, 0x7fff, 0x8000, 0xffff] {
        assert_eq!(to_i16(v), v as i16);
    }
    for v in [0u32, 1, 0x7fff_ffff, 0x8000_0000, 0xffff_ffff] {
        assert_eq!(to_i32(v), v as i32);
    }
    for v in [0u64, 1, i64::MAX as u64, 1 << 63, u64::MAX] {
        assert_eq!(to_i64(v), v as i64);
    }
}

#[test]
fn markers_in_words() {
    assert_eq!(Marker::Reserved.describe(), "Reserved");
    assert_eq!(Marker::FixPos(5).describe(), "FixPos(5)");
    assert_eq!(Marker::FixPos(127).describe(), "FixPos(127)");
    assert_eq!(Marker::FixNeg(-1).describe(), "FixNeg(-1)");
    assert_eq!(Marker::FixNeg(-32).describe(), "FixNeg(-32)");
    assert_eq!(Marker::FixStr(10).describe(), "FixStr(10)");
    assert_eq!(Marker::FixArray(0).describe(), "FixArray(0)");
    assert_eq!(Marker::FixMap(15).describe(), "FixMap(15)");
    assert_eq!(Marker::FixMap(255).describe(), "FixMap(255)");
    assert_eq!(Marker::Map32.name(), "Map32");
    for n in 0..=255u8 {
        let m = Marker::from_u8(n);
        assert_eq!(m.describe(), format!("{:?}", rmp::Marker::from_u8(n)));
    }
    assert_eq!(Error::InvalidType(Marker::FixPos(1)).message(), "invalid type FixPos(1)");
    assert_eq!(Error::InvalidType(Marker::FixNeg(-7)).message(), "invalid type FixNeg(-7)");
    assert_eq!(Error::ExtHookFailed.message(), "ext_hook failed");
    assert_eq!(Error::Internal.message(), "internal error");
    assert_eq!(Error::UnexpectedEof.message(), "unexpected end of file");
}

#[test]
fn options() {
    assert!(is_set(SORT_KEYS | UTC_Z, SORT_KEYS));
    assert!(!is_set(SORT_KEYS | UTC_Z, NAIVE_UTC));
    assert!(!is_set(0, SORT_KEYS));
    for flag in [
        PASSTHROUGH_BIG_INT,
        PASSTHROUGH_DATACLASS,
        PASSTHROUGH_DATETIME,
        PASSTHROUGH_SUBCLASS,
        PASSTHROUGH_TUPLE,
    ] {
        assert!(!is_set(NOT_PASSTHROUGH, flag));
    }
    assert!(is_set(NOT_PASSTHROUGH, SORT_KEYS));
    assert_eq!(parse_option_arg(None, MAX_PACKB_OPT), Ok(0));
    assert_eq!(parse_option_arg(Some(0), MAX_PACKB_OPT), Ok(0));
    assert_eq!(parse_option_arg(Some(0xffff), MAX_PACKB_OPT), Ok(0xffff));
    assert_eq!(parse_option_arg(Some(0x10000), MAX_PACKB_OPT), Err(()));
    assert_eq!(parse_option_arg(Some(-1), MAX_PACKB_OPT), Err(()));
    assert_eq!(parse_option_arg(Some(NON_STR_KEYS as i64), MAX_UNPACKB_OPT), Ok(2));
    assert_eq!(parse_option_arg(Some(SORT_KEYS as i64), MAX_UNPACKB_OPT), Err(()));
    assert_eq!(parse_option_arg(Some(3), MAX_UNPACKB_OPT), Err(()));
    assert_eq!(parse_option_arg(Some(i64::MIN), MAX_UNPACKB_OPT), Err(()));
    assert_eq!(parse_option_arg(Some(1 << 32), MAX_PACKB_OPT), Err(()));
    assert_eq!(parse_option_arg(Some(-5), -1), Ok(-5));
    assert_eq!(parse_option_arg(Some(5), 0), Err(()));
    assert_eq!(parse_option_arg(Some(0), 0), Ok(0));
}

#[test]
fn arguments_of_encoding() {
    let none = Places { hook: None, option: None };
    assert_eq!(packb_args(0, &vec![]), Err(ArgError::MissingObj));
    assert_eq!(packb_args(0, &vec![Keyword::Default]), Err(ArgError::MissingObj));
    assert_eq!(packb_args(1, &vec![]), Ok(none));
    assert_eq!(packb_args(2, &vec![]), Ok(Places { hook: Some(Place::Positional(1)), option: None }));
    assert_eq!(packb_args(3, &vec![]), Ok(Places { hook: Some(Place::Positional(1)), option: Some(Place::Positional(2)) }));
    assert_eq!(packb_args(5, &vec![]), Ok(Places { hook: Some(Place::Positional(1)), option: Some(Place::Positional(2)) }));
    assert_eq!(
        packb_args(1, &vec![Keyword::Option, Keyword::Default]),
        Ok(Places { hook: Some(Place::Named(1)), option: Some(Place::Named(0)) })
    );
    assert_eq!(
        packb_args(2, &vec![Keyword::Option]),
        Ok(Places { hook: Some(Place::Positional(1)), option: Some(Place::Named(0)) })
    );
    assert_eq!(packb_args(2, &vec![Keyword::Default]), Err(ArgError::MultipleDefault));
    assert_eq!(packb_args(3, &vec![Keyword::Option]), Err(ArgError::MultipleOption));
    assert_eq!(
        packb_args(1, &vec![Keyword::Option, Keyword::Option]),
        Err(ArgError::MultipleOption)
    );
    assert_eq!(packb_args(1, &vec![Keyword::ExtHook]), Err(ArgError::UnexpectedKeyword));
    assert_eq!(
        packb_args(1, &vec![Keyword::Other, Keyword::Default, Keyword::Default]),
        Err(ArgError::UnexpectedKeyword)
    );
    assert_eq!(
        packb_args(2, &vec![Keyword::Default, Keyword::Other]),
        Err(ArgError::MultipleDefault)
    );
}

#[test]
fn arguments_of_decoding() {
    assert_eq!(unpackb_args(0, &vec![]), Err(ArgError::MissingObj));
    assert_eq!(unpackb_args(2, &vec![]), Err(ArgError::TooManyPositional));
    assert_eq!(unpackb_args(1, &vec![]), Ok(Places { hook: None, option: None }));
    assert_eq!(
        unpackb_args(1, &vec![Keyword::Option, Keyword::ExtHook]),
        Ok(Places { hook: Some(Place::Named(1)), option: Some(Place::Named(0)) })
    );
    assert_eq!(
        unpackb_args(1, &vec![Keyword::ExtHook, Keyword::ExtHook]),
        Ok(Places { hook: Some(Place::Named(1)), option: None })
    );
    assert_eq!(unpackb_args(1, &vec![Keyword::Default]), Err(ArgError::UnexpectedKeyword));
    assert_eq!(
        unpackb_args(1, &vec![Keyword::Option, Keyword::Other, Keyword::Option]),
        Err(ArgError::UnexpectedKeyword)
    );
}

#[test]
fn extension_values_are_made_from_two_arguments() {
    assert_eq!(
        ext_new(vec![Value::Int(5), Value::Bytes(vec![1, 2])], 0),
        Ok(Value::Ext { tag: 5, data: vec![1, 2] })
    );
    assert_eq!(
        ext_new(vec![Value::IntSubclass(128), Value::Bytes(vec![])], 0),
        Ok(Value::Ext { tag: 128, data: vec![] })
    );
    assert_eq!(
        ext_new(vec![Value::Int(i128::MAX), Value::Bytes(vec![])], 0),
        Ok(Value::Ext { tag: -1, data: vec![] })
    );
    assert_eq!(ext_new(vec![], 0), Err(ExtError::Arity));
    assert_eq!(ext_new(vec![Value::Int(5)], 0), Err(ExtError::Arity));
    assert_eq!(
        ext_new(vec![Value::Int(5), Value::Bytes(vec![]), Value::Null], 0),
        Err(ExtError::Arity)
    );
    assert_eq!(ext_new(vec![Value::Int(5), Value::Bytes(vec![])], 1), Err(ExtError::Arity));
    assert_eq!(ext_new(vec![text("5"), Value::Bytes(vec![])], 0), Err(ExtError::TagMustBeInt));
    assert_eq!(ext_new(vec![Value::Bool(true), Value::Bytes(vec![])], 0), Err(ExtError::TagMustBeInt));
    assert_eq!(ext_new(vec![Value::Int(5), text("x")], 0), Err(ExtError::DataMustBeBytes));
    assert_eq!(
        ext_new(vec![Value::Int(5), Value::ByteArray(vec![])], 0),
        Err(ExtError::DataMustBeBytes)
    );
    assert_eq!(ext_new(vec![text("5"), text("x")], 0), Err(ExtError::TagMustBeInt));
    assert_eq!(ExtError::Arity.message(), "Ext.__new__() takes 2 positional arguments");
    assert_eq!(ExtError::TagMustBeInt.message(), "Ext.__new__() first argument must be int");
    assert_eq!(ExtError::DataMustBeBytes.message(), "Ext.__new__() second argument must be bytes");
}

#[test]
fn a_lazy_value_is_made_once() {
    let calls = std::cell::Cell::new(0);
    let mut lazy = ThreadSafeLazy::new(|| {
        calls.set(calls.get() + 1);
        calls.get() * 10
    });
    assert_eq!(lazy.get(), None);
    assert_eq!(calls.get(), 0);
    lazy.force();
    assert_eq!(lazy.get(), Some(&10));
    lazy.force();
    lazy.force();
    assert_eq!(lazy.get(), Some(&10));
    assert_eq!(calls.get(), 1);
}

#[test]
fn the_kind_of_a_string_for_the_host() {
    assert_eq!(unicode_from_str("").kind, UnicodeKind::Empty);
    assert_eq!(unicode_from_str("abc").kind, UnicodeKind::Ascii);
    assert_eq!(unicode_from_str("\u{7f}").kind, UnicodeKind::Ascii);
    assert_eq!(unicode_from_str("\u{80}").kind, UnicodeKind::OneByte);
    assert_eq!(unicode_from_str("caf\u{e9}").kind, UnicodeKind::OneByte);
    assert_eq!(unicode_from_str("\u{ff}").kind, UnicodeKind::OneByte);
    assert_eq!(unicode_from_str("\u{100}").kind, UnicodeKind::TwoByte);
    assert_eq!(unicode_from_str("メカジキ").kind, UnicodeKind::TwoByte);
    assert_eq!(unicode_from_str("\u{ffff}").kind, UnicodeKind::TwoByte);
    assert_eq!(unicode_from_str("\u{10000}").kind, UnicodeKind::FourByte);
    assert_eq!(unicode_from_str("a\u{1f600}b").kind, UnicodeKind::FourByte);
    let long = "é".repeat(100);
    let out = unicode_from_str(&long);
    assert_eq!(out.kind, UnicodeKind::OneByte);
    assert_eq!(out.text, long);
    let ascii = "x".repeat(100);
    assert_eq!(unicode_from_str(&ascii).kind, UnicodeKind::Ascii);
}

#[test]
fn byte_order_of_keys() {
    assert!(key_le(b"", b""));
    assert!(key_le(b"", b"a"));
    assert!(!key_le(b"a", b""));
    assert!(key_le(b"a", b"a"));
    assert!(key_le(b"a", b"ab"));
    assert!(!key_le(b"ab", b"a"));
    assert!(key_le(b"ab", b"b"));
    assert!(key_le(b"B", b"a"));
    assert!(!key_le(&[0xff], &[0x7f]));
    let words: [&[u8]; 6] = [b"", b"a", b"ab", b"b", &[0x80], &[0xff, 0]];
    for a in words {
        for b in words {
            assert_eq!(key_le(a, b), a <= b);
            assert_eq!(bytes_eq(a, b), a == b);
        }
    }
}

#[test]
fn orders_of_children() {
    let natural = Order::natural(3);
    assert_eq!(natural.len(), 3);
    assert_eq!((natural.get(0), natural.get(2)), (0, 2));
    let keys: Vec<&[u8]> = vec![b"b", b"_p", b"a", b"b", b"", b"c", b"aa", b"a", b"z", b"y"];
    let keep: Vec<bool> = keys.iter().map(|k| !starts_private(k)).collect();
    let all = vec![true; keys.len()];
    let listed = |order: &Order| (0..order.len()).map(|i| order.get(i)).collect::<Vec<_>>();
    assert_eq!(listed(&Order::arrange(keys.len(), &keep, &keys, false)), vec![0, 2, 3, 4, 5, 6, 7, 8, 9]);
    assert_eq!(listed(&Order::arrange(keys.len(), &keep, &keys, true)), vec![4, 2, 7, 6, 0, 3, 5, 9, 8]);
    assert_eq!(listed(&Order::arrange(keys.len(), &all, &keys, true)), vec![4, 1, 2, 7, 6, 0, 3, 5, 9, 8]);
    assert_eq!(listed(&Order::arrange(0, &vec![], &vec![], true)), Vec::<usize>::new());
}

#[test]
fn integers_of_the_host() {
    assert_eq!(Int::new(0), Ok(Int::Signed(0)));
    assert_eq!(Int::new(1), Ok(Int::Unsigned(1)));
    assert_eq!(Int::new(-1), Ok(Int::Signed(-1)));
    assert_eq!(Int::new(u64::MAX as i128), Ok(Int::Unsigned(u64::MAX)));
    assert_eq!(Int::new(i64::MIN as i128), Ok(Int::Signed(i64::MIN)));
    assert_eq!(Int::new(u64::MAX as i128 + 1), Err(IntError::Overflow));
    assert_eq!(Int::new(i64::MIN as i128 - 1), Err(IntError::Overflow));
    assert!(fits(0) && fits(u64::MAX as i128) && fits(i64::MIN as i128));
    assert!(!fits(u64::MAX as i128 + 1) && !fits(i64::MIN as i128 - 1));
}

#[test]
fn kinds_of_values() {
    assert_eq!(classify(&text("a"), 0), Kind::Str);
    assert_eq!(classify(&Value::Int(1), 0), Kind::Int);
    assert_eq!(classify(&Value::Int(i128::MAX), 0), Kind::Int);
    assert_eq!(classify(&Value::Int(i128::MAX), PASSTHROUGH_BIG_INT), Kind::Unrepresentable);
    assert_eq!(classify(&Value::Int(1), PASSTHROUGH_BIG_INT), Kind::Int);
    assert_eq!(classify(&Value::Tuple(vec![]), 0), Kind::Tuple);
    assert_eq!(classify(&Value::Tuple(vec![]), PASSTHROUGH_TUPLE), Kind::Unrepresentable);
    assert_eq!(classify(&Value::List(vec![]), PASSTHROUGH_TUPLE | PASSTHROUGH_SUBCLASS), Kind::List);
    assert_eq!(classify(&Value::IntSubclass(i128::MIN), PASSTHROUGH_BIG_INT), Kind::Unrepresentable);
    assert_eq!(classify(&Value::Ext { tag: 500, data: vec![] }, 0xffff), Kind::Ext);
    assert_eq!(classify(&Value::Other(0), 0xffff), Kind::Unrepresentable);
    assert_eq!(classify(&Value::Scalar(Scalar::Bool(true)), 0), Kind::Unrepresentable);
    assert_eq!(classify(&Value::ByteArray(vec![]), 0), Kind::ByteArray);
    assert_eq!(classify(&Value::MemoryView(None), 0), Kind::MemoryView);
}

#[test]
fn children_of_containers() {
    let map = Value::Dict(vec![(text("b"), Value::Null), (text("a"), Value::Null)]);
    assert_eq!(count_children(&map), Some(2));
    assert_eq!(count_children(&Value::List(vec![Value::Null])), Some(1));
    assert_eq!(count_children(&Value::Null), Some(0));
    let record = Value::Record {
        slots: false,
        fields: vec![Field { name: "_x".into(), pseudo: false, stored: true, value: Value::Null }],
    };
    assert_eq!(count_children(&record), Some(1));
    let model = Value::Model {
        dict: Some(vec![(text("a"), Value::Null)]),
        extra: Some(vec![(text("b"), Value::Null)]),
    };
    assert_eq!(count_children(&model), Some(2));
    let bare = Value::Model { dict: None, extra: Some(vec![(text("b"), Value::Null)]) };
    assert_eq!(count_children(&bare), Some(0));
}

#[test]
fn the_hook_wrapper() {
    let none: DefaultHook<fn(&Value) -> Option<Value>> = DefaultHook::new(None);
    assert_eq!(none.enter_call(&Value::Null, 0), Err(HookError::InvalidType));
    let hook = DefaultHook::new(Some(|v: &Value| match v {
        Value::Null => Some(Value::Int(1)),
        _ => None,
    }));
    assert_eq!(hook.enter_call(&Value::Null, 0), Ok(Value::Int(1)));
    assert_eq!(hook.enter_call(&Value::Null, 254), Ok(Value::Int(1)));
    assert_eq!(hook.enter_call(&Value::Null, 255), Err(HookError::RecursionLimitReached));
    assert_eq!(hook.enter_call(&Value::Bool(true), 0), Err(HookError::InvalidType));
}

#[test]
fn the_serializer_and_its_containers() {
    let mut se = MessagePackSerializer::new(BytesWriter::default());
    se.serialize_none().unwrap();
    se.serialize_unit().unwrap();
    se.serialize_newtype_variant(128, &[0, 0, 0, 1]).unwrap();
    se.serialize_newtype_variant(7, &[9]).unwrap();
    se.serialize_text(b"ab").unwrap();
    se.serialize_seq(2).unwrap();
    let hook: DefaultHook<fn(&Value) -> Option<Value>> = DefaultHook::new(None);
    {
        let mut seq = Compound::new(&mut se);
        seq.serialize_element(&Value::Int(1), 0, &hook, 0, 1).unwrap();
        seq.serialize_element(&text("x"), 0, &hook, 0, 1).unwrap();
        seq.end().unwrap();
    }
    se.serialize_map(1).unwrap();
    {
        let mut map = Compound::new(&mut se);
        map.serialize_key(&Value::Tuple(vec![Value::Int(2)]), 0, 1).unwrap();
        assert_eq!(
            map.serialize_element(&Value::Other(0), 0, &hook, 0, 1),
            Err(EncodeError::TypeNotSerializable)
        );
    }
    assert_eq!(
        se.into_inner().finish(),
        vec![
            0xc0, 0xc0, 0xd6, 0xff, 0, 0, 0, 1, 0xd4, 7, 9, 0xa2, b'a', b'b', 0x92, 1, 0xa1, b'x',
            0x81, 0x91, 2
        ]
    );
}

#[test]
fn integers_of_every_width() {
    let mut se = MessagePackSerializer::new(BytesWriter::default());
    se.serialize_i8(-1).unwrap();
    se.serialize_i16(-200).unwrap();
    se.serialize_i32(-70000).unwrap();
    se.serialize_u8(200).unwrap();
    se.serialize_u16(60000).unwrap();
    se.serialize_u32(70000).unwrap();
    se.serialize_bool(true).unwrap();
    se.serialize_f32(0x3fc0_0000).unwrap();
    assert_eq!(
        se.into_inner().finish(),
        vec![
            0xff, 0xd1, 0xff, 0x38, 0xd2, 0xff, 0xfe, 0xee, 0x90, 0xcc, 200, 0xcd, 0xea, 0x60,
            0xce, 0, 1, 0x11, 0x70, 0xc3, 0xca, 0x3f, 0xc0, 0, 0
        ]
    );
    assert_eq!(u128_be(1), 1u128.to_be_bytes());
    assert_eq!(u128_be(u128::MAX - 5), (u128::MAX - 5).to_be_bytes());
    let n: u128 = 0x0102_0304_0506_0708_090a_0b0c_0d0e_0f10;
    assert_eq!(u128_be(n), n.to_be_bytes());
    let mut se = MessagePackSerializer::new(BytesWriter::default());
    se.serialize_u128(n).unwrap();
    se.serialize_i128(-2).unwrap();
    let mut want = vec![0xc4, 16];
    want.extend_from_slice(&n.to_be_bytes());
    want.extend_from_slice(&[0xc4, 16]);
    want.extend_from_slice(&(-2i128).to_be_bytes());
    assert_eq!(se.into_inner().finish(), want);
}

#[test]
fn an_extension_value_under_a_fixed_tag() {
    let mut w = BytesWriter::default();
    ExtSerializer::new(-1, &mut w).serialize_bytes(&[1, 2, 3, 4]).unwrap();
    ExtSerializer::new(9, &mut w).serialize_bytes(&[]).unwrap();
    assert_eq!(w.finish(), vec![0xd6, 0xff, 1, 2, 3, 4, 0xc7, 0, 9]);
}

#[test]
fn a_date_goes_to_a_sink_in_one_write() {
    let mut w = BytesWriter::default();
    w.write_slices([&b"on "[..]]).unwrap();
    write_date(&Date::new(DateValue { year: 2024, month: 2, day: 29 }), &mut w).unwrap();
    assert_eq!(w.finish(), b"on 2024-02-29".to_vec());
}

#[test]
fn units_of_timestamps() {
    assert_eq!(from_descr(b"<M8[ns]"), Some(DatetimeUnit::Nanoseconds));
    assert_eq!(from_descr(b"<M8[Y]"), Some(DatetimeUnit::Years));
    assert_eq!(from_descr(b"<M8[M]"), Some(DatetimeUnit::Months));
    assert_eq!(from_descr(b"<M8[W]"), Some(DatetimeUnit::Weeks));
    assert_eq!(from_descr(b"<M8[D]"), Some(DatetimeUnit::Days));
    assert_eq!(from_descr(b"<M8[h]"), Some(DatetimeUnit::Hours));
    assert_eq!(from_descr(b"<M8[m]"), Some(DatetimeUnit::Minutes));
    assert_eq!(from_descr(b"<M8[s]"), Some(DatetimeUnit::Seconds));
    assert_eq!(from_descr(b"<M8[ms]"), Some(DatetimeUnit::Milliseconds));
    assert_eq!(from_descr(b"<M8[us]"), Some(DatetimeUnit::Microseconds));
    assert_eq!(from_descr(b"<M8[ps]"), Some(DatetimeUnit::Picoseconds));
    assert_eq!(from_descr(b"<M8[fs]"), Some(DatetimeUnit::Femtoseconds));
    assert_eq!(from_descr(b"<M8[as]"), Some(DatetimeUnit::Attoseconds));
    assert_eq!(from_descr(b"<M8[generic]"), Some(DatetimeUnit::Generic));
    assert_eq!(from_descr(b"<M8"), Some(DatetimeUnit::NaT));
    assert_eq!(from_descr(b""), Some(DatetimeUnit::NaT));
    assert_eq!(from_descr(b"<M8[]"), None);
    assert_eq!(from_descr(b"<M8[xs]"), None);
    assert_eq!(from_descr(b"<M8[10ns]"), None);
}

#[test]
fn elements_of_arrays() {
    assert_eq!(ItemType::find(b'b', 1, DatetimeUnit::NaT), Some(ItemType::BOOL));
    assert_eq!(ItemType::find(b'M', 8, DatetimeUnit::Days), Some(ItemType::DATETIME64(DatetimeUnit::Days)));
    assert_eq!(ItemType::find(b'f', 2, DatetimeUnit::NaT), Some(ItemType::F16));
    assert_eq!(ItemType::find(b'f', 4, DatetimeUnit::NaT), Some(ItemType::F32));
    assert_eq!(ItemType::find(b'i', 8, DatetimeUnit::NaT), Some(ItemType::I64));
    assert_eq!(ItemType::find(b'u', 2, DatetimeUnit::NaT), Some(ItemType::U16));
    assert_eq!(ItemType::find(b'f', 16, DatetimeUnit::NaT), None);
    assert_eq!(ItemType::find(b'c', 8, DatetimeUnit::NaT), None);
    assert_eq!(ItemType::find(b'M', 4, DatetimeUnit::NaT), None);
    assert_eq!((ItemType::BOOL.size(), ItemType::F16.size(), ItemType::U32.size(), ItemType::F64.size()), (1, 2, 4, 8));
    assert_eq!(ItemType::DATETIME64(DatetimeUnit::Days).size(), 8);
    let data = [1u8, 2, 3, 4, 5, 6, 7, 8, 0xff];
    assert_eq!(read_le(&data, 0, 8), 0x0807060504030201);
    assert_eq!(read_le(&data, 1, 2), 0x0302);
    assert_eq!(read_le(&data, 8, 1), 0xff);
    assert_eq!(read_le(&data, 9, 0), 0);
    assert_eq!(element(ItemType::I8, &data, 8), Scalar::I8(-1));
    assert_eq!(element(ItemType::U8, &data, 8), Scalar::U8(255));
    assert_eq!(element(ItemType::I16, &data, 7), Scalar::I16(-248));
    assert_eq!(element(ItemType::U32, &data, 0), Scalar::U32(0x04030201));
    assert_eq!(element(ItemType::F32, &data, 4), Scalar::F32(0x08070605));
    assert_eq!(element(ItemType::BOOL, &data, 0), Scalar::Bool(true));
    assert_eq!(element(ItemType::BOOL, &data, 1), Scalar::Bool(false));
    assert_eq!(
        element(ItemType::DATETIME64(DatetimeUnit::Hours), &[0xff; 8], 0),
        Scalar::Datetime64 { unit: DatetimeUnit::Hours, value: -1 }
    );
    assert_eq!(half_bits_to_single(0x3c00), 1.0f32.to_bits());
    assert_eq!(half_bits_to_single(0x0001), (2.0f32).powi(-24).to_bits());
    assert_eq!(half_bits_to_single(0xfc00), f32::NEG_INFINITY.to_bits());
}

#[test]
fn arrays_are_checked_before_they_are_written() {
    let good = || ArrayInterface {
        two: 2,
        typekind: b'u',
        itemsize: 1,
        flags: 0x501,
        shape: vec![2, 2],
        strides: vec![2, 1],
        data: vec![1, 2, 3, 4],
        unit: DatetimeUnit::NaT,
    };
    let a = good();
    let array = NumpyArray::new(&a, 0).ok().unwrap();
    let mut se = MessagePackSerializer::new(BytesWriter::default());
    array.serialize(&mut se).unwrap();
    assert_eq!(se.into_inner().finish(), vec![0x92, 0x92, 1, 2, 0x92, 3, 4]);
    let mut overlapping = good();
    overlapping.strides = vec![1, 2];
    let array = NumpyArray::new(&overlapping, 0).ok().unwrap();
    let mut se = MessagePackSerializer::new(BytesWriter::default());
    array.serialize(&mut se).unwrap();
    assert_eq!(se.into_inner().finish(), vec![0x92, 0x92, 1, 2, 0x92, 2, 3]);
    let mut outside = good();
    outside.strides = vec![3, 1];
    assert_eq!(NumpyArray::new(&outside, 0).err(), Some(PyArrayError::Malformed));
    let mut backwards = good();
    backwards.strides = vec![-2, 1];
    assert_eq!(NumpyArray::new(&backwards, 0).err(), Some(PyArrayError::Malformed));
    let mut gaps = good();
    gaps.flags = 0x500;
    assert_eq!(NumpyArray::new(&gaps, 0).err(), Some(PyArrayError::NotContiguous));
    let mut kind = good();
    kind.itemsize = 3;
    assert_eq!(NumpyArray::new(&kind, 0).err(), Some(PyArrayError::UnsupportedDataType));
    let mut tag = good();
    tag.two = 1;
    tag.flags = 0;
    assert_eq!(NumpyArray::new(&tag, 0).err(), Some(PyArrayError::Malformed));
}
