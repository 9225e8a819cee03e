use kaitai::BytesReader;
use kaitai::KError;

#[test]
fn read_bits_single() {
    let b = vec![0x80];
    let mut reader = BytesReader::from(b);

    assert_eq!(reader.read_bits_int_be(1).unwrap(), 1);
}

#[test]
fn read_bits_multiple() {
    // 0xA0
    let b = vec![0b10100000];
    let mut reader = BytesReader::from(b);

    assert_eq!(reader.read_bits_int_be(1).unwrap(), 1);
    assert_eq!(reader.read_bits_int_be(1).unwrap(), 0);
    assert_eq!(reader.read_bits_int_be(1).unwrap(), 1);
}

#[test]
fn read_bits_large() {
    let b = vec![0b10100000];
    let mut reader = BytesReader::from(b);

    assert_eq!(reader.read_bits_int_be(3).unwrap(), 5);
}

#[test]
fn read_bits_span() {
    let b = vec![0x01, 0x80];
    let mut reader = BytesReader::from(b);

    assert_eq!(reader.read_bits_int_be(9).unwrap(), 3);
}

#[test]
fn read_bits_too_large() {
    let b: Vec<u8> = vec![1, 2, 3, 4, 5, 6, 7, 8, 9];
    let mut reader = BytesReader::from(b);

    assert_eq!(
        reader.read_bits_int_be(65).unwrap_err(),
        KError::ReadBitsTooLarge { requested: 65 }
    )
}

#[test]
fn first_two_bits_of_a_two_byte_buffer() {
    let b = vec![0x80, 0x00];
    let mut reader = BytesReader::from(b);

    // bit 7, then bit 6, of the byte 0x80
    assert_eq!(reader.read_bits_int_be(1).unwrap(), 1);
    assert_eq!(reader.read_bits_int_be(1).unwrap(), 0);
}

#[test]
fn be_split_reads_equal_one_read() {
    // reading n1 bits and then n2 bits equals one read of n1 + n2 bits
    let bytes = vec![0b11001010, 0b01110001];
    for n1 in 0..=16usize {
        let mut one = BytesReader::from(bytes.clone());
        let whole = one.read_bits_int_be(16).unwrap();
        let mut two = BytesReader::from(bytes.clone());
        let hi = two.read_bits_int_be(n1).unwrap();
        let lo = two.read_bits_int_be(16 - n1).unwrap();
        assert_eq!((hi << (16 - n1)) | lo, whole);
    }
}

#[test]
fn le_split_reads_equal_one_read() {
    let bytes = vec![0b11001010, 0b01110001];
    for n1 in 0..=16usize {
        let mut one = BytesReader::from(bytes.clone());
        let whole = one.read_bits_int_le(16).unwrap();
        let mut two = BytesReader::from(bytes.clone());
        let lo = two.read_bits_int_le(n1).unwrap();
        let hi = two.read_bits_int_le(16 - n1).unwrap();
        assert_eq!(lo | (hi << n1), whole);
    }
}

#[test]
fn read_bits_le_values() {
    let b = vec![0b10100000, 0xff];
    let mut reader = BytesReader::from(b);

    // little-endian bit order starts at the least significant bit
    assert_eq!(reader.read_bits_int_le(1).unwrap(), 0);
    assert_eq!(reader.read_bits_int_le(4).unwrap(), 0b0000);
    assert_eq!(reader.read_bits_int_le(3).unwrap(), 0b101);
    assert_eq!(reader.read_bits_int_le(8).unwrap(), 0xff);
}

#[test]
fn read_bits_eof() {
    let b = vec![0x12];
    let mut reader = BytesReader::from(b);
    assert_eq!(reader.read_bits_int_be(4).unwrap(), 0x1);
    assert_eq!(
        reader.read_bits_int_be(13).unwrap_err(),
        KError::Eof {
            requested: 2,
            available: 0
        }
    );
    // the failed read left the carry untouched
    assert_eq!(reader.read_bits_int_be(4).unwrap(), 0x2);
}

#[test]
fn read_bits_full_64() {
    let b = vec![0x01, 0x02, 0x03, 0x04, 0x05, 0x06, 0x07, 0x08];
    let mut reader = BytesReader::from(b.clone());
    assert_eq!(reader.read_bits_int_be(64).unwrap(), 0x0102030405060708);
    let mut reader_le = BytesReader::from(b);
    assert_eq!(reader_le.read_bits_int_le(64).unwrap(), 0x0807060504030201);
}

#[test]
fn byte_read_discards_bit_carry() {
    let b = vec![0xf0, 0xaa];
    let mut reader = BytesReader::from(b);
    assert_eq!(reader.read_bits_int_be(2).unwrap(), 0b11);
    // an aligned byte read discards the six carried bits
    assert_eq!(reader.read_bytes(1).unwrap()[..], [0xaa]);
    assert!(reader.is_eof());
}
