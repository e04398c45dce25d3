use ormsgpack::deserialize::{deserialize, unpack, unpackb, Error, KeyMap};
use ormsgpack::msgpack::Marker;
use ormsgpack::opt::{DATETIME_AS_TIMESTAMP_EXT, NON_STR_KEYS, SORT_KEYS};
use ormsgpack::serialize::{packb, serialize};
use ormsgpack::value::{DateTimeValue, Text, TzInfo, Value};

fn text(s: &str) -> Value {
    Value::Str(Text::Utf8(s.to_string()))
}

fn no_hook() -> Option<fn(i8, &[u8]) -> Option<Value>> {
    None
}

#[test]
fn empty_containers_decode() {
    assert_eq!(unpackb(&[0x90], 0), Ok(Value::List(vec![])));
    assert_eq!(unpackb(&[0x80], 0), Ok(Value::Dict(vec![])));
    assert_eq!(unpackb(&packb(&Value::List(vec![]), 0).unwrap(), 0), Ok(Value::List(vec![])));
    assert_eq!(unpackb(&packb(&Value::Dict(vec![]), 0).unwrap(), 0), Ok(Value::Dict(vec![])));
}

#[test]
fn scalars_decode() {
    assert_eq!(unpackb(&[0xc0], 0), Ok(Value::Null));
    assert_eq!(unpackb(&[0xc2], 0), Ok(Value::Bool(false)));
    assert_eq!(unpackb(&[0xc3], 0), Ok(Value::Bool(true)));
    assert_eq!(unpackb(&[0x7f], 0), Ok(Value::Int(127)));
    assert_eq!(unpackb(&[0xe0], 0), Ok(Value::Int(-32)));
    assert_eq!(unpackb(&[0xff], 0), Ok(Value::Int(-1)));
    assert_eq!(unpackb(&[0xcc, 0xff], 0), Ok(Value::Int(255)));
    assert_eq!(unpackb(&[0xcd, 0x01, 0x02], 0), Ok(Value::Int(0x0102)));
    assert_eq!(unpackb(&[0xce, 1, 2, 3, 4], 0), Ok(Value::Int(0x01020304)));
    assert_eq!(
        unpackb(&[0xcf, 1, 2, 3, 4, 5, 6, 7, 8], 0),
        Ok(Value::Int(0x0102030405060708))
    );
    assert_eq!(unpackb(&[0xcf, 0xff, 0xff, 0xff, 0xff, 0xff, 0xff, 0xff, 0xff], 0), Ok(Value::Int(u64::MAX as i128)));
    assert_eq!(unpackb(&[0xd0, 0x80], 0), Ok(Value::Int(-128)));
    assert_eq!(unpackb(&[0xd0, 0x7f], 0), Ok(Value::Int(127)));
    assert_eq!(unpackb(&[0xd1, 0xff, 0x7f], 0), Ok(Value::Int(-129)));
    assert_eq!(unpackb(&[0xd2, 0x80, 0, 0, 0], 0), Ok(Value::Int(i32::MIN as i128)));
    assert_eq!(unpackb(&[0xd3, 0x80, 0, 0, 0, 0, 0, 0, 0], 0), Ok(Value::Int(i64::MIN as i128)));
    assert_eq!(unpackb(&[0xd3, 0, 0, 0, 0, 0, 0, 0, 5], 0), Ok(Value::Int(5)));
    assert_eq!(
        unpackb(&[0xcb, 0x3f, 0xf8, 0, 0, 0, 0, 0, 0], 0),
        Ok(Value::Float(1.5f64.to_bits()))
    );
    assert_eq!(unpackb(&[0xca, 0x3f, 0xc0, 0, 0], 0), Ok(Value::Float(1.5f64.to_bits())));
}

#[test]
fn single_precision_is_widened_as_the_machine_does() {
    let mut samples: Vec<u32> = vec![
        0,
        0x8000_0000,
        1,
        2,
        3,
        0x007f_ffff,
        0x0080_0000,
        0x0040_0000,
        0x0000_8000,
        0x3f80_0000,
        0x7f7f_ffff,
        0x7f80_0000,
        0xff80_0000,
        0x8000_0001,
        0x807f_ffff,
        0x3eaa_aaab,
        0x4049_0fdb,
    ];
    let mut x: u32 = 0x1234_5678;
    for _ in 0..20000 {
        x = x.wrapping_mul(1664525).wrapping_add(1013904223);
        samples.push(x);
        samples.push(x & 0x807f_ffff);
    }
    for bits in samples {
        let single = f32::from_bits(bits);
        let mut token = vec![0xca];
        token.extend_from_slice(&bits.to_be_bytes());
        let got = match unpackb(&token, 0) {
            Ok(Value::Float(wide)) => wide,
            other => panic!("not a float: {:?}", other),
        };
        if single.is_nan() {
            assert!(f64::from_bits(got).is_nan());
            assert_eq!(got >> 63, (bits >> 31) as u64);
        } else {
            assert_eq!(got, (single as f64).to_bits(), "bits {:#x}", bits);
        }
    }
}

#[test]
fn strings_and_payloads_decode() {
    assert_eq!(unpackb(&[0xa0], 0), Ok(text("")));
    assert_eq!(unpackb(&[0xa2, b'h', b'i'], 0), Ok(text("hi")));
    assert_eq!(unpackb(&[0xd9, 2, 0xc3, 0xa9], 0), Ok(text("é")));
    assert_eq!(unpackb(&[0xda, 0, 1, b'x'], 0), Ok(text("x")));
    assert_eq!(unpackb(&[0xdb, 0, 0, 0, 1, b'x'], 0), Ok(text("x")));
    assert_eq!(unpackb(&[0xc4, 2, 0xff, 0x00], 0), Ok(Value::Bytes(vec![0xff, 0])));
    assert_eq!(unpackb(&[0xc5, 0, 1, 9], 0), Ok(Value::Bytes(vec![9])));
    assert_eq!(unpackb(&[0xc6, 0, 0, 0, 0], 0), Ok(Value::Bytes(vec![])));
}

#[test]
fn strings_that_are_not_utf8_are_refused() {
    assert_eq!(unpackb(&[0xa1, 0xff], 0), Err(Error::InvalidStr));
    assert_eq!(unpackb(&[0xa2, 0xc3, 0x28], 0), Err(Error::InvalidStr));
    assert_eq!(unpackb(&[0xa3, 0xed, 0xa0, 0x80], 0), Err(Error::InvalidStr));
    assert_eq!(unpackb(&[0xa2, 0xc0, 0x80], 0), Err(Error::InvalidStr));
    assert_eq!(unpackb(&[0x81, 0xa1, 0xff, 0xc0], 0), Err(Error::InvalidStr));
    let mut long = vec![0x81, 0xd9, 70];
    long.extend(vec![0xff; 70]);
    long.push(0xc0);
    assert_eq!(unpackb(&long, 0), Err(Error::InvalidStr));
}

#[test]
fn bytes_that_end_early_are_refused() {
    for data in [
        &[][..],
        &[0xcc],
        &[0xcd, 0],
        &[0xce, 0, 0, 0],
        &[0xcf, 0, 0, 0, 0, 0, 0, 0],
        &[0xd0],
        &[0xd3, 0],
        &[0xca, 0],
        &[0xcb, 0],
        &[0xa1],
        &[0xd9],
        &[0xd9, 1],
        &[0xda, 0],
        &[0xdb, 0, 0, 0],
        &[0xc4, 2, 0],
        &[0x91],
        &[0x92, 0xc0],
        &[0xdc, 0],
        &[0xdd, 0xff, 0xff, 0xff, 0xff],
        &[0x81],
        &[0x81, 0xa1, b'k'],
        &[0xde, 0],
        &[0xd4],
        &[0xd4, 1],
        &[0xc7, 1, 1],
        &[0xc8, 0],
    ] {
        assert_eq!(unpackb(data, 0), Err(Error::UnexpectedEof), "{:?}", data);
    }
}

#[test]
fn reserved_marker_is_invalid() {
    assert_eq!(unpackb(&[0xc1], 0), Err(Error::InvalidType(Marker::Reserved)));
    assert_eq!(unpackb(&[0x91, 0xc1], 0), Err(Error::InvalidType(Marker::Reserved)));
    assert_eq!(Error::InvalidType(Marker::Reserved).message(), "invalid type Reserved");
}

#[test]
fn arrays_and_maps_decode_in_wire_order() {
    assert_eq!(
        unpackb(&[0x93, 0x01, 0xa1, b'a', 0x90], 0),
        Ok(Value::List(vec![Value::Int(1), text("a"), Value::List(vec![])]))
    );
    assert_eq!(
        unpackb(&[0xdc, 0, 2, 0xc0, 0xc3], 0),
        Ok(Value::List(vec![Value::Null, Value::Bool(true)]))
    );
    assert_eq!(unpackb(&[0xdd, 0, 0, 0, 1, 0xc0], 0), Ok(Value::List(vec![Value::Null])));
    assert_eq!(
        unpackb(&[0x82, 0xa1, b'b', 0x01, 0xa1, b'a', 0x02], 0),
        Ok(Value::Dict(vec![(text("b"), Value::Int(1)), (text("a"), Value::Int(2))]))
    );
    assert_eq!(
        unpackb(&[0xde, 0, 1, 0xa1, b'k', 0x80], 0),
        Ok(Value::Dict(vec![(text("k"), Value::Dict(vec![]))]))
    );
    assert_eq!(
        unpackb(&[0xdf, 0, 0, 0, 1, 0xd9, 1, b'k', 0xc0], 0),
        Ok(Value::Dict(vec![(text("k"), Value::Null)]))
    );
}

#[test]
fn bytes_after_the_first_value_are_not_looked_at() {
    assert_eq!(unpackb(&[0x01, 0xc1, 0xff], 0), Ok(Value::Int(1)));
}

#[test]
fn keys_must_be_strings_unless_asked_otherwise() {
    assert_eq!(unpackb(&[0x81, 0x01, 0xc0], 0), Err(Error::InvalidType(Marker::FixPos(1))));
    assert_eq!(unpackb(&[0x81, 0xc0, 0xc0], 0), Err(Error::InvalidType(Marker::Null)));
    assert_eq!(unpackb(&[0x81, 0xc4, 0, 0xc0], 0), Err(Error::InvalidType(Marker::Bin8)));
    assert_eq!(
        unpackb(&[0x81, 0x01, 0xc0], NON_STR_KEYS),
        Ok(Value::Dict(vec![(Value::Int(1), Value::Null)]))
    );
    assert_eq!(
        unpackb(&[0x81, 0x92, 0x01, 0xa1, b'a', 0xc0], NON_STR_KEYS),
        Ok(Value::Dict(vec![(Value::Tuple(vec![Value::Int(1), text("a")]), Value::Null)]))
    );
    assert_eq!(
        unpackb(&[0x81, 0xc4, 1, 7, 0xc0], NON_STR_KEYS),
        Ok(Value::Dict(vec![(Value::Bytes(vec![7]), Value::Null)]))
    );
    assert_eq!(
        unpackb(&[0x81, 0x80, 0xc0], NON_STR_KEYS),
        Err(Error::InvalidType(Marker::FixMap(0)))
    );
    assert_eq!(
        unpackb(&[0x81, 0xd4, 1, 1, 0xc0], NON_STR_KEYS),
        Err(Error::InvalidType(Marker::FixExt1))
    );
    assert_eq!(
        unpackb(&[0x81, 0x91, 0x80, 0xc0], NON_STR_KEYS),
        Err(Error::InvalidType(Marker::FixMap(0)))
    );
}

#[test]
fn keys_of_any_kind_go_both_ways() {
    let map = Value::Dict(vec![
        (Value::Int(-5), text("a")),
        (Value::Tuple(vec![Value::Bool(true), Value::Null]), text("b")),
        (text("k"), Value::Int(1)),
        (Value::Bytes(vec![1]), Value::Null),
        (Value::Float(1.25f64.to_bits()), Value::Null),
    ]);
    let bytes = packb(&map, NON_STR_KEYS).unwrap();
    assert_eq!(unpackb(&bytes, NON_STR_KEYS), Ok(map));
}

fn nested_arrays(depth: usize, inner: &[u8]) -> Vec<u8> {
    let mut data = vec![0x91u8; depth];
    data.extend_from_slice(inner);
    data
}

#[test]
fn nesting_at_the_ceiling_is_decoded_and_beyond_it_is_not() {
    for payload in [&[0xc0u8][..], &[0xcd, 1, 0], &[0xa1, b'x']] {
        assert!(unpackb(&nested_arrays(1024, payload), 0).is_ok());
        assert_eq!(
            unpackb(&nested_arrays(1025, payload), 0),
            Err(Error::RecursionLimitReached)
        );
    }
    let mut empty = vec![0x91u8; 1023];
    empty.push(0x90);
    assert!(unpackb(&empty, 0).is_ok());
    let mut deeper = vec![0x91u8; 1024];
    deeper.push(0x90);
    assert_eq!(unpackb(&deeper, 0), Err(Error::RecursionLimitReached));
    let mut maps = Vec::new();
    for _ in 0..1025 {
        maps.extend_from_slice(&[0x81, 0xa1, b'k']);
    }
    maps.push(0xc0);
    assert_eq!(unpackb(&maps, 0), Err(Error::RecursionLimitReached));
    let mut keys = vec![0x81];
    keys.extend(vec![0x91u8; 1024]);
    keys.push(0xc0);
    keys.push(0xc0);
    assert_eq!(unpackb(&keys, NON_STR_KEYS), Err(Error::RecursionLimitReached));
}

#[test]
fn what_is_encoded_at_the_ceiling_is_decoded() {
    let mut v = Value::Int(7);
    for _ in 0..255 {
        v = Value::List(vec![v]);
    }
    let bytes = packb(&v, 0).unwrap();
    assert_eq!(unpackb(&bytes, 0), Ok(v));
}

#[test]
fn extension_values_go_to_the_hook() {
    let bytes = packb(&Value::Ext { tag: 5, data: vec![1, 2] }, 0).unwrap();
    assert_eq!(bytes, vec![0xd5, 5, 1, 2]);
    let mut cache = KeyMap::new();
    let back = |tag: i8, data: &[u8]| Some(Value::Ext { tag: tag as i64, data: data.to_vec() });
    assert_eq!(
        unpack(&bytes, Some(back), 0, &mut cache),
        Ok(Value::Ext { tag: 5, data: vec![1, 2] })
    );
    assert_eq!(unpack(&bytes, no_hook(), 0, &mut cache), Err(Error::ExtHookMissing));
    assert_eq!(unpackb(&bytes, 0), Err(Error::ExtHookMissing));
    let fails = |_: i8, _: &[u8]| None;
    assert_eq!(unpack(&bytes, Some(fails), 0, &mut cache), Err(Error::ExtHookFailed));
    let seen = |tag: i8, data: &[u8]| Some(Value::List(vec![Value::Int(tag as i128), Value::Bytes(data.to_vec())]));
    for (data, tag, payload) in [
        (vec![0xd4, 0xff, 9], -1i8, vec![9u8]),
        (vec![0xd6, 0x80, 1, 2, 3, 4], -128, vec![1, 2, 3, 4]),
        (vec![0xd7, 1, 1, 2, 3, 4, 5, 6, 7, 8], 1, vec![1, 2, 3, 4, 5, 6, 7, 8]),
        (vec![0xc7, 0, 7], 7, vec![]),
        (vec![0xc7, 3, 7, 1, 2, 3], 7, vec![1, 2, 3]),
        (vec![0xc8, 0, 1, 7, 1], 7, vec![1]),
        (vec![0xc9, 0, 0, 0, 1, 7, 1], 7, vec![1]),
    ] {
        assert_eq!(
            unpack(&data, Some(seen), 0, &mut cache),
            Ok(Value::List(vec![Value::Int(tag as i128), Value::Bytes(payload)]))
        );
    }
    let sixteen: Vec<u8> = (0..16).collect();
    let mut data = vec![0xd8, 3];
    data.extend(&sixteen);
    assert_eq!(
        unpack(&data, Some(seen), 0, &mut cache),
        Ok(Value::List(vec![Value::Int(3), Value::Bytes(sixteen)]))
    );
}

#[test]
fn timestamps_reach_the_hook_under_their_tag() {
    let when = Value::DateTime(DateTimeValue {
        year: 1970,
        month: 1,
        day: 1,
        hour: 0,
        minute: 0,
        second: 1,
        microsecond: 0,
        tzinfo: TzInfo::Delta { days: 0, seconds: 0 },
    });
    let bytes = packb(&when, DATETIME_AS_TIMESTAMP_EXT).unwrap();
    let mut cache = KeyMap::new();
    let seen = |tag: i8, data: &[u8]| Some(Value::List(vec![Value::Int(tag as i128), Value::Bytes(data.to_vec())]));
    assert_eq!(
        unpack(&bytes, Some(seen), 0, &mut cache),
        Ok(Value::List(vec![Value::Int(-1), Value::Bytes(vec![0, 0, 0, 1])]))
    );
}

#[test]
fn keys_are_the_same_from_the_cache_and_without_it() {
    let mut cache = KeyMap::new();
    let mut data = vec![0xdc, 0x03, 0xe8];
    for _ in 0..1000 {
        data.extend_from_slice(&[0x81, 0xa2, b'i', b'd', 0x01]);
    }
    let out = unpack(&data, no_hook(), 0, &mut cache).unwrap();
    let maps = match out {
        Value::List(maps) => maps,
        other => panic!("not a list: {:?}", other),
    };
    assert_eq!(maps.len(), 1000);
    let fresh = unpackb(&[0xa2, b'i', b'd'], 0).unwrap();
    for map in &maps {
        match map {
            Value::Dict(entries) => {
                assert_eq!(entries.len(), 1);
                assert_eq!(entries[0].0, fresh);
                assert_eq!(entries[0].0, text("id"));
            }
            other => panic!("not a map: {:?}", other),
        }
    }
    let again = unpack(&[0x81, 0xa2, b'i', b'd', 0x02], no_hook(), 0, &mut cache).unwrap();
    assert_eq!(again, Value::Dict(vec![(text("id"), Value::Int(2))]));
}

#[test]
fn the_cache_gives_each_key_its_own_string() {
    let mut cache: KeyMap<4> = KeyMap::new();
    for round in 0..3 {
        for n in 0..200u32 {
            let key = format!("key{n}");
            assert_eq!(cache.get(key.as_bytes()).unwrap(), key, "round {round}");
        }
    }
    assert_eq!(cache.get(b"").unwrap(), "");
    assert!(cache.get(&[0xff]).is_err());
    assert!(cache.get(&[0xed, 0xa0, 0x80]).is_err());
    assert_eq!(cache.get("é".as_bytes()).unwrap(), "é");
}

#[test]
fn long_keys_do_not_go_through_the_cache() {
    let long = "k".repeat(65);
    let edge = "e".repeat(64);
    let map = Value::Dict(vec![(text(&long), Value::Null), (text(&edge), Value::Null)]);
    let bytes = packb(&map, 0).unwrap();
    assert_eq!(unpackb(&bytes, 0), Ok(map));
}

#[test]
fn round_trip_of_a_small_document() {
    let doc = Value::Dict(vec![
        (text("id"), Value::Int(7)),
        (text("tags"), Value::List(vec![text("a"), Value::Null, Value::Bool(true)])),
        (text("blob"), Value::Bytes(vec![1, 2, 3])),
        (text("neg"), Value::Int(-129)),
        (text("x"), Value::Float(0x400921fb54442d18)),
        (text("big"), Value::Int(u64::MAX as i128)),
        (text("long"), text(&"x".repeat(70000))),
        (text("many"), Value::List((0..70000).map(|n| Value::Int(n - 35000)).collect())),
    ]);
    let bytes = packb(&doc, 0).unwrap();
    assert_eq!(unpackb(&bytes, 0), Ok(doc));
}

#[test]
fn round_trip_of_integers_at_every_boundary() {
    let mut ints: Vec<i128> = Vec::new();
    for p in 0..64 {
        let b = 1i128 << p;
        ints.extend([b - 1, b, b + 1, -b - 1, -b, -b + 1]);
    }
    ints.extend([u64::MAX as i128, i64::MIN as i128]);
    for n in ints {
        if n >= i64::MIN as i128 && n <= u64::MAX as i128 {
            let bytes = packb(&Value::Int(n), 0).unwrap();
            assert_eq!(unpackb(&bytes, 0), Ok(Value::Int(n)), "{n}");
        }
    }
}

#[test]
fn sorted_encoding_decodes_to_sorted_entries() {
    let map = Value::Dict(vec![(text("b"), Value::Int(1)), (text("a"), Value::Int(2))]);
    let bytes = packb(&map, SORT_KEYS).unwrap();
    assert_eq!(
        unpackb(&bytes, 0),
        Ok(Value::Dict(vec![(text("a"), Value::Int(2)), (text("b"), Value::Int(1))]))
    );
}

#[test]
fn uuid_text_comes_back_as_it_was_written() {
    for n in [0u128, 1, u128::MAX, 0x0123_4567_89ab_cdef_fedc_ba98_7654_3210, 0xa0b1_c2d3_e4f5_0617_2839_4a5b_6c7d_8e9f] {
        let bytes = packb(&Value::Uuid(n), 0).unwrap();
        let hex = format!("{:032x}", n);
        let want = format!(
            "{}-{}-{}-{}-{}",
            &hex[0..8],
            &hex[8..12],
            &hex[12..16],
            &hex[16..20],
            &hex[20..32]
        );
        assert_eq!(unpackb(&bytes, 0), Ok(text(&want)));
        let digits: String = want.chars().filter(|c| *c != '-').collect();
        assert_eq!(u128::from_str_radix(&digits, 16).unwrap(), n);
    }
}

#[test]
fn sources_of_the_host() {
    let mut cache = KeyMap::new();
    let token = vec![0x92, 0x01, 0x02];
    let want = Value::List(vec![Value::Int(1), Value::Int(2)]);
    for source in [
        Value::Bytes(token.clone()),
        Value::ByteArray(token.clone()),
        Value::MemoryView(Some(token.clone())),
    ] {
        assert_eq!(deserialize(&source, no_hook(), 0, &mut cache).unwrap(), want);
    }
    let gaps = deserialize(&Value::MemoryView(None), no_hook(), 0, &mut cache).unwrap_err();
    assert_eq!(gaps.message, "Input type memoryview must be a C contiguous buffer");
    let other = deserialize(&text("bytes"), no_hook(), 0, &mut cache).unwrap_err();
    assert_eq!(other.message, "Input must be bytes, bytearray, memoryview");
    let short = deserialize(&Value::Bytes(vec![0x91]), no_hook(), 0, &mut cache).unwrap_err();
    assert_eq!(short.message, "unexpected end of file");
    let ext = deserialize(&Value::Bytes(vec![0xd4, 1, 1]), no_hook(), 0, &mut cache).unwrap_err();
    assert_eq!(ext.message, "ext_hook missing");
    let bad = deserialize(&Value::Bytes(vec![0xa1, 0xff]), no_hook(), 0, &mut cache).unwrap_err();
    assert_eq!(bad.message, "str is not valid UTF-8: surrogates not allowed");
    let deep = deserialize(&Value::Bytes(vec![0x91; 2000]), no_hook(), 0, &mut cache).unwrap_err();
    assert_eq!(deep.message, "Recursion limit reached");
}

#[test]
fn the_hook_of_the_encoder_and_the_hook_of_the_decoder_meet() {
    let point = |v: &Value| match v {
        Value::Other(n) => Some(Value::Ext { tag: 1, data: n.to_be_bytes().to_vec() }),
        _ => None,
    };
    let bytes = serialize(&Value::List(vec![Value::Other(258)]), Some(point), 0).unwrap();
    let back = |tag: i8, data: &[u8]| match (tag, data.len()) {
        (1, 8) => Some(Value::Other(u64::from_be_bytes(data.try_into().unwrap()))),
        _ => None,
    };
    let mut cache = KeyMap::new();
    assert_eq!(unpack(&bytes, Some(back), 0, &mut cache), Ok(Value::List(vec![Value::Other(258)])));
}
