use orc_format::compression::NoCompression;
use orc_format::count_write::CountWrite;
use orc_format::encoder::boolean_rle::BooleanRLE;
use orc_format::encoder::byte_rle::ByteRLE;
use orc_format::encoder::int_rle_v1::{SignedIntRLEv1, UnsignedIntRLEv1};
use orc_format::encoder::varint::VarInt;
use orc_format::compression::CompressionStream;
use std::iter;

fn drain(rle_finish: impl FnOnce(&mut CountWrite)) -> Vec<u8> {
    let mut out = CountWrite::new();
    rle_finish(&mut out);
    out.into_inner()
}

#[test]
fn test_write_varint_u64() {
    let cases: Vec<(u64, Vec<u8>)> = vec![
        (0, vec![0x00]),
        (1, vec![0x01]),
        (127, vec![0x7f]),
        (128, vec![0x80, 0x01]),
        (129, vec![0x81, 0x01]),
        (16383, vec![0xff, 0x7f]),
        (16384, vec![0x80, 0x80, 0x01]),
        (16385, vec![0x81, 0x80, 0x01]),
    ];
    let mut stream = CompressionStream::new(&NoCompression::new().build());
    for (input, expected_output) in cases {
        input.write_varint(&mut stream);
        let mut out = CountWrite::new();
        stream.finish(&mut out);
        assert_eq!(out.into_inner(), expected_output);
    }
}

#[test]
fn test_write_varint_i64() {
    let cases: Vec<(i64, Vec<u8>)> = vec![
        (0, vec![0]),
        (-1, vec![1]),
        (1, vec![2]),
        (-2, vec![3]),
        (2, vec![4]),
    ];
    let mut stream = CompressionStream::new(&NoCompression::new().build());
    for (input, expected_output) in cases {
        input.write_varint(&mut stream);
        let mut out = CountWrite::new();
        stream.finish(&mut out);
        assert_eq!(out.into_inner(), expected_output);
    }
}

#[test]
fn test_byte_rle() {
    let cases: Vec<(Vec<u8>, Vec<u8>)> = vec![
        (vec![], vec![]),
        (vec![10], vec![255, 10]),
        (vec![10, 20, 30], vec![253, 10, 20, 30]),
        (vec![10, 10, 10], vec![0, 10]),
        (vec![10, 20, 20, 20, 20], vec![255, 10, 1, 20]),
        (vec![10, 10, 10, 10, 10, 20, 30], vec![2, 10, 254, 20, 30]),
        (vec![10, 20, 20, 30], vec![252, 10, 20, 20, 30]),
        (iter::repeat(10).take(131).collect(), vec![127, 10, 255, 10]),
        (
            (0..140).collect(),
            [vec![128], (0..128).collect(), vec![244], (128..140).collect()].concat(),
        ),
    ];
    let mut rle = ByteRLE::new(&NoCompression::new().build());
    for (input, expected_output) in cases {
        for x in input {
            rle.write(x);
        }
        let out = drain(|o| rle.finish(o));
        assert_eq!(out, expected_output);
    }
}

#[test]
fn test_boolean_rle() {
    let cases: Vec<(Vec<bool>, Vec<u8>)> = vec![
        (vec![], vec![]),
        (
            vec![true, false, true, false, true, false, false, false, true],
            vec![254, 0b10101000, 0b10000000],
        ),
        (vec![false; 80], vec![7, 0]),
    ];
    let mut rle = BooleanRLE::new(&NoCompression::new().build());
    for (input, expected_output) in cases {
        for x in input {
            rle.write(x);
        }
        let out = drain(|o| rle.finish(o));
        assert_eq!(out, expected_output);
    }
}

#[test]
fn test_signed_int_rle_v1() {
    let cases: Vec<(Vec<i64>, Vec<u8>)> = vec![
        (vec![], vec![]),
        (vec![10], vec![255, 20]),
        (vec![0, -1, 1, -2, 2], vec![251, 0, 1, 2, 3, 4]),
        (vec![10, 10, 10, 10], vec![1, 0, 20]),
        (vec![10, 15, 20, 25], vec![1, 5, 20]),
        (vec![10, 15, 20, 25, 0], vec![1, 5, 20, 255, 0]),
    ];
    let mut rle = SignedIntRLEv1::new(&NoCompression::new().build());
    for (input, expected_output) in cases {
        for x in input {
            rle.write(x);
        }
        let out = drain(|o| rle.finish(o));
        assert_eq!(out, expected_output);
    }
}

#[test]
fn test_unsigned_int_rle_v1() {
    let cases: Vec<(Vec<u64>, Vec<u8>)> = vec![(vec![7; 100], vec![97, 0, 7])];
    let mut rle = UnsignedIntRLEv1::new(&NoCompression::new().build());
    for (input, expected_output) in cases {
        for x in input {
            rle.write(x);
        }
        let out = drain(|o| rle.finish(o));
        assert_eq!(out, expected_output);
    }
}

// An independent varint encoder; the library must agree with it on the
// extremes of the 64-bit range.
fn plain_varint(mut v: u64) -> Vec<u8> {
    let mut out = Vec::new();
    while v >= 128 {
        out.push(128 | (v % 128) as u8);
        v /= 128;
    }
    out.push(v as u8);
    out
}

#[test]
fn signed_rle_at_extremes() {
    let mut rle = SignedIntRLEv1::new(&NoCompression::new().build());
    rle.write(i64::MAX);
    rle.write(i64::MIN);
    let out = drain(|o| rle.finish(o));
    // literal group of two zig-zag varints
    let mut expected = vec![254u8];
    expected.extend(plain_varint(u64::MAX - 1)); // zigzag(i64::MAX)
    expected.extend(plain_varint(u64::MAX)); // zigzag(i64::MIN)
    assert_eq!(out, expected);
}

#[test]
fn signed_rle_wide_delta_stays_literal() {
    // deltas of 1000 never fit a signed byte, so no run forms
    let mut rle = SignedIntRLEv1::new(&NoCompression::new().build());
    for i in 0..5i64 {
        rle.write(i * 1000);
    }
    let out = drain(|o| rle.finish(o));
    let mut expected = vec![251u8];
    for i in 0..5i64 {
        expected.extend(plain_varint((2 * i * 1000) as u64));
    }
    assert_eq!(out, expected);
}

#[test]
fn unsigned_rle_negative_delta_run() {
    // a descending progression with delta -3 forms a run
    let mut rle = UnsignedIntRLEv1::new(&NoCompression::new().build());
    for i in 0..4u64 {
        rle.write(100 - 3 * i);
    }
    let out = drain(|o| rle.finish(o));
    assert_eq!(out, vec![1, 253, 100]);
}
