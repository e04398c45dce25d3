use ormsgpack::io::{WriteError, WriteSlices};
use ormsgpack::msgpack::{
    write_array_len, write_bin, write_bool, write_ext, write_f32, write_f64, write_i64,
    write_map_len, write_nil, write_str, write_u64, Marker,
};
use ormsgpack::serialize::BytesWriter;

fn written(f: impl FnOnce(&mut BytesWriter) -> Result<(), WriteError>) -> Vec<u8> {
    let mut w = BytesWriter::default();
    f(&mut w).unwrap();
    w.finish()
}

#[test]
fn nil_and_booleans() {
    assert_eq!(written(|w| write_nil(w)), vec![0xc0]);
    assert_eq!(written(|w| write_bool(w, true)), vec![0xc3]);
    assert_eq!(written(|w| write_bool(w, false)), vec![0xc2]);
}

#[test]
fn unsigned_integer_boundaries() {
    assert_eq!(written(|w| write_u64(w, 0)), vec![0x00]);
    assert_eq!(written(|w| write_u64(w, 127)), vec![0x7f]);
    assert_eq!(written(|w| write_u64(w, 128)), vec![0xcc, 0x80]);
    assert_eq!(written(|w| write_u64(w, 255)), vec![0xcc, 0xff]);
    assert_eq!(written(|w| write_u64(w, 256)), vec![0xcd, 0x01, 0x00]);
    assert_eq!(written(|w| write_u64(w, 65535)), vec![0xcd, 0xff, 0xff]);
    assert_eq!(written(|w| write_u64(w, 65536)), vec![0xce, 0x00, 0x01, 0x00, 0x00]);
    assert_eq!(written(|w| write_u64(w, 4294967295)), vec![0xce, 0xff, 0xff, 0xff, 0xff]);
    assert_eq!(
        written(|w| write_u64(w, 4294967296)),
        vec![0xcf, 0, 0, 0, 1, 0, 0, 0, 0]
    );
    assert_eq!(
        written(|w| write_u64(w, u64::MAX)),
        vec![0xcf, 0xff, 0xff, 0xff, 0xff, 0xff, 0xff, 0xff, 0xff]
    );
    assert_eq!(
        written(|w| write_u64(w, 0x0102030405060708)),
        vec![0xcf, 1, 2, 3, 4, 5, 6, 7, 8]
    );
}

#[test]
fn signed_integer_boundaries() {
    assert_eq!(written(|w| write_i64(w, -1)), vec![0xff]);
    assert_eq!(written(|w| write_i64(w, -32)), vec![0xe0]);
    assert_eq!(written(|w| write_i64(w, -33)), vec![0xd0, 0xdf]);
    assert_eq!(written(|w| write_i64(w, -128)), vec![0xd0, 0x80]);
    assert_eq!(written(|w| write_i64(w, -129)), vec![0xd1, 0xff, 0x7f]);
    assert_eq!(written(|w| write_i64(w, -32768)), vec![0xd1, 0x80, 0x00]);
    assert_eq!(written(|w| write_i64(w, -32769)), vec![0xd2, 0xff, 0xff, 0x7f, 0xff]);
    assert_eq!(
        written(|w| write_i64(w, -2147483648)),
        vec![0xd2, 0x80, 0x00, 0x00, 0x00]
    );
    assert_eq!(
        written(|w| write_i64(w, -2147483649)),
        vec![0xd3, 0xff, 0xff, 0xff, 0xff, 0x7f, 0xff, 0xff, 0xff]
    );
    assert_eq!(
        written(|w| write_i64(w, i64::MIN)),
        vec![0xd3, 0x80, 0, 0, 0, 0, 0, 0, 0]
    );
}

#[test]
fn signed_integers_that_are_not_negative_are_written_unsigned() {
    for v in [0i64, 1, 127, 128, 255, 256, 65535, 65536, 4294967295, 4294967296, i64::MAX] {
        assert_eq!(written(|w| write_i64(w, v)), written(|w| write_u64(w, v as u64)));
    }
}

#[test]
fn floats_are_written_by_their_bits() {
    assert_eq!(
        written(|w| write_f64(w, 1.5f64.to_bits())),
        vec![0xcb, 0x3f, 0xf8, 0, 0, 0, 0, 0, 0]
    );
    assert_eq!(written(|w| write_f32(w, 1.5f32.to_bits())), vec![0xca, 0x3f, 0xc0, 0, 0]);
}

fn head_of(bytes: &[u8], n: usize) -> Vec<u8> {
    bytes[..n].to_vec()
}

#[test]
fn string_length_thresholds() {
    for (len, head) in [
        (0usize, vec![0xa0u8]),
        (15, vec![0xaf]),
        (16, vec![0xb0]),
        (31, vec![0xbf]),
        (32, vec![0xd9, 32]),
        (255, vec![0xd9, 255]),
        (256, vec![0xda, 0x01, 0x00]),
        (65535, vec![0xda, 0xff, 0xff]),
        (65536, vec![0xdb, 0x00, 0x01, 0x00, 0x00]),
    ] {
        let s = "a".repeat(len);
        let out = written(|w| write_str(w, &s));
        assert_eq!(out.len(), head.len() + len);
        assert_eq!(head_of(&out, head.len()), head);
        assert_eq!(&out[head.len()..], s.as_bytes());
    }
}

#[test]
fn binary_length_thresholds() {
    for (len, head) in [
        (0usize, vec![0xc4u8, 0]),
        (15, vec![0xc4, 15]),
        (16, vec![0xc4, 16]),
        (31, vec![0xc4, 31]),
        (32, vec![0xc4, 32]),
        (255, vec![0xc4, 255]),
        (256, vec![0xc5, 0x01, 0x00]),
        (65535, vec![0xc5, 0xff, 0xff]),
        (65536, vec![0xc6, 0x00, 0x01, 0x00, 0x00]),
    ] {
        let b = vec![7u8; len];
        let out = written(|w| write_bin(w, &b));
        assert_eq!(out.len(), head.len() + len);
        assert_eq!(head_of(&out, head.len()), head);
        assert_eq!(&out[head.len()..], &b[..]);
    }
}

#[test]
fn array_length_thresholds() {
    assert_eq!(written(|w| write_array_len(w, 0)), vec![0x90]);
    assert_eq!(written(|w| write_array_len(w, 15)), vec![0x9f]);
    assert_eq!(written(|w| write_array_len(w, 16)), vec![0xdc, 0x00, 0x10]);
    assert_eq!(written(|w| write_array_len(w, 31)), vec![0xdc, 0x00, 0x1f]);
    assert_eq!(written(|w| write_array_len(w, 32)), vec![0xdc, 0x00, 0x20]);
    assert_eq!(written(|w| write_array_len(w, 255)), vec![0xdc, 0x00, 0xff]);
    assert_eq!(written(|w| write_array_len(w, 256)), vec![0xdc, 0x01, 0x00]);
    assert_eq!(written(|w| write_array_len(w, 65535)), vec![0xdc, 0xff, 0xff]);
    assert_eq!(written(|w| write_array_len(w, 65536)), vec![0xdd, 0x00, 0x01, 0x00, 0x00]);
    assert_eq!(
        written(|w| write_array_len(w, 4294967295)),
        vec![0xdd, 0xff, 0xff, 0xff, 0xff]
    );
}

#[test]
fn map_length_thresholds() {
    assert_eq!(written(|w| write_map_len(w, 0)), vec![0x80]);
    assert_eq!(written(|w| write_map_len(w, 15)), vec![0x8f]);
    assert_eq!(written(|w| write_map_len(w, 16)), vec![0xde, 0x00, 0x10]);
    assert_eq!(written(|w| write_map_len(w, 31)), vec![0xde, 0x00, 0x1f]);
    assert_eq!(written(|w| write_map_len(w, 32)), vec![0xde, 0x00, 0x20]);
    assert_eq!(written(|w| write_map_len(w, 255)), vec![0xde, 0x00, 0xff]);
    assert_eq!(written(|w| write_map_len(w, 256)), vec![0xde, 0x01, 0x00]);
    assert_eq!(written(|w| write_map_len(w, 65535)), vec![0xde, 0xff, 0xff]);
    assert_eq!(written(|w| write_map_len(w, 65536)), vec![0xdf, 0x00, 0x01, 0x00, 0x00]);
}

#[test]
fn lengths_beyond_the_format_are_refused() {
    if usize::BITS > 32 {
        let too_long = 4294967296usize;
        let mut w = BytesWriter::default();
        assert_eq!(write_array_len(&mut w, too_long), Err(WriteError::InvalidInput));
        assert_eq!(write_map_len(&mut w, too_long), Err(WriteError::InvalidInput));
        assert_eq!(w.finish(), Vec::<u8>::new());
    }
}

#[test]
fn extension_forms() {
    assert_eq!(written(|w| write_ext(w, &[1], 5)), vec![0xd4, 5, 1]);
    assert_eq!(written(|w| write_ext(w, &[1, 2], 5)), vec![0xd5, 5, 1, 2]);
    assert_eq!(written(|w| write_ext(w, &[1, 2, 3, 4], 5)), vec![0xd6, 5, 1, 2, 3, 4]);
    assert_eq!(written(|w| write_ext(w, &[9; 8], 5))[..2], [0xd7, 5]);
    assert_eq!(written(|w| write_ext(w, &[9; 16], 5))[..2], [0xd8, 5]);
    assert_eq!(written(|w| write_ext(w, &[], 5)), vec![0xc7, 0, 5]);
    assert_eq!(written(|w| write_ext(w, &[1, 2, 3], 5)), vec![0xc7, 3, 5, 1, 2, 3]);
    assert_eq!(written(|w| write_ext(w, &[9; 255], 5))[..3], [0xc7, 255, 5]);
    assert_eq!(written(|w| write_ext(w, &[9; 256], 5))[..4], [0xc8, 1, 0, 5]);
    assert_eq!(written(|w| write_ext(w, &[9; 65536], 5))[..6], [0xc9, 0, 1, 0, 0, 5]);
    assert_eq!(written(|w| write_ext(w, &[1], -1)), vec![0xd4, 0xff, 1]);
    assert_eq!(written(|w| write_ext(w, &[1], -128)), vec![0xd4, 0x80, 1]);
}

#[test]
fn markers_agree_with_rmp_on_every_byte() {
    for n in 0..=255u8 {
        let ours = Marker::from_u8(n);
        let theirs = rmp::Marker::from_u8(n);
        assert_eq!(format!("{:?}", ours), format!("{:?}", theirs));
        assert_eq!(ours.describe(), format!("{:?}", theirs));
        assert_eq!(ours.to_u8(), n);
        assert_eq!(theirs.to_u8(), n);
    }
}

#[test]
fn markers_with_small_counts_keep_their_low_bits() {
    assert_eq!(Marker::FixStr(33).to_u8(), rmp::Marker::FixStr(33).to_u8());
    assert_eq!(Marker::FixArray(17).to_u8(), rmp::Marker::FixArray(17).to_u8());
    assert_eq!(Marker::FixMap(255).to_u8(), rmp::Marker::FixMap(255).to_u8());
    assert_eq!(Marker::FixNeg(-1).to_u8(), rmp::Marker::FixNeg(-1).to_u8());
    assert_eq!(Marker::FixNeg(5).to_u8(), rmp::Marker::FixNeg(5).to_u8());
}

#[test]
fn the_buffer_grows_by_its_policy() {
    let mut w = BytesWriter::default();
    w.write_slices([&[0u8; 1024][..]]).unwrap();
    assert_eq!(w.len(), 1024);
    w.write_slices([&[1u8; 1][..], &[2u8; 2][..]]).unwrap();
    let out = w.finish();
    assert_eq!(out.len(), 1027);
    assert_eq!(&out[1024..], &[1, 2, 2]);
}

#[test]
fn one_write_lands_its_slices_in_order() {
    let mut w = BytesWriter::default();
    w.write_slices([&[1u8, 2][..], &[][..], &[3u8][..]]).unwrap();
    w.write_slices::<0>([]).unwrap();
    assert_eq!(w.finish(), vec![1, 2, 3]);
}
