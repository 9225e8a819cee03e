use kaitai::bytes_strip_right;
use kaitai::bytes_terminate;
use kaitai::modulo;
use kaitai::process_rotate_left;
use kaitai::process_xor_many;
use kaitai::process_xor_one;
use kaitai::process_zlib;
use kaitai::BytesReader;

use std::io::Write;

#[test]
fn basic_strip_right() {
    let b = vec![1, 2, 3, 4, 5, 5, 5, 5];
    let c = bytes_strip_right(&b, 5);

    assert_eq!([1, 2, 3, 4], c[..]);
}

#[test]
fn process_xor_one_test() {
    let b = vec![0x66];
    let mut reader = BytesReader::from(b);
    let res = process_xor_one(&reader.read_bytes(1).unwrap(), 3);
    assert_eq!(0x65, res[0]);
}

#[test]
fn process_xor_many_test() {
    let b = vec![0x66, 0x6F];
    let mut reader = BytesReader::from(b);
    let key: Vec<u8> = vec![3, 3];
    let res = process_xor_many(&reader.read_bytes(2).unwrap(), &key);
    assert_eq!(vec![0x65, 0x6C], res);
}

#[test]
fn process_rotate_left_test() {
    let b = vec![0x09, 0xAC];
    let mut reader = BytesReader::from(b);
    let res = process_rotate_left(&reader.read_bytes(2).unwrap(), 3);
    let expected: Vec<u8> = vec![0x48, 0x65];
    assert_eq!(expected, res);
}

#[test]
fn xor_involution() {
    let data = vec![0x00, 0x01, 0x7f, 0x80, 0xff, 0x55];
    for key in [0u8, 1, 0x55, 0xaa, 0xff] {
        let twice = process_xor_one(&process_xor_one(&data, key), key);
        assert_eq!(twice, data);
    }
}

#[test]
fn rotate_round_trip() {
    let data = vec![0x00, 0x01, 0x7f, 0x80, 0xff, 0x3c];
    for a in 0u8..8 {
        let back = (8 - a) % 8;
        let twice = process_rotate_left(&process_rotate_left(&data, a), back);
        assert_eq!(twice, data);
    }
}

#[test]
fn strip_right_edges() {
    assert_eq!(bytes_strip_right(&vec![], 0), Vec::<u8>::new());
    assert_eq!(bytes_strip_right(&vec![7, 7, 7], 7), Vec::<u8>::new());
    assert_eq!(bytes_strip_right(&vec![7, 1, 7], 7), vec![7, 1]);
}

#[test]
fn terminate_cases() {
    let b = vec![1, 2, 0, 3];
    assert_eq!(bytes_terminate(&b, 0, false), vec![1, 2]);
    assert_eq!(bytes_terminate(&b, 0, true), vec![1, 2, 0]);
    assert_eq!(bytes_terminate(&b, 9, false), vec![1, 2, 0, 3]);
    assert_eq!(bytes_terminate(&vec![0], 0, false), Vec::<u8>::new());
}

#[test]
fn slice_xor_one_values() {
    assert_eq!(
        kaitai::processors::process_xor_one(b"Hello world", 0x10),
        &[88, 117, 124, 124, 127, 48, 103, 127, 98, 124, 116]
    );
}

#[test]
fn slice_xor_many_values() {
    assert_eq!(
        kaitai::processors::process_xor_many(b"Hello world", b"secret"),
        &[59, 0, 15, 30, 10, 84, 4, 10, 17, 30, 1]
    );
}

#[test]
fn slice_rotate_negative_amount() {
    let data = [0x48u8, 0x65];
    // a rotation right by three is a rotation left by five
    assert_eq!(
        kaitai::processors::process_rotate_left(&data, -3, 1),
        kaitai::processors::process_rotate_left(&data, 5, 1)
    );
    assert_eq!(
        kaitai::processors::process_rotate_left(&data, -3, 1),
        vec![0x09, 0xAC]
    );
}

#[test]
fn modulo_values() {
    assert_eq!(modulo(7, 3), 1);
    assert_eq!(modulo(-7, 3), 2);
    assert_eq!(modulo(7, -3), 1);
    assert_eq!(modulo(-7, -3), 2);
    assert_eq!(modulo(0, 5), 0);
}

#[test]
fn zlib_round_trip() {
    let plain = b"kaitai stream runtime round trip data, repeated data, repeated data".to_vec();
    let mut encoder =
        flate2::write::ZlibEncoder::new(Vec::new(), flate2::Compression::default());
    encoder.write_all(&plain).unwrap();
    let compressed = encoder.finish().unwrap();

    let inflated = process_zlib(&compressed).unwrap();
    assert_eq!(inflated, plain);
}

#[test]
fn zlib_malformed_fails() {
    let garbage = vec![0x01, 0x02, 0x03];
    assert!(process_zlib(&garbage).is_err());
}
