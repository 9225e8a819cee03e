use kaitai::BytesReader;
use kaitai::KError;

#[test]
fn basic_read_bytes() {
    let b = vec![1, 2, 3, 4, 5, 6, 7, 8];
    let mut reader = BytesReader::from(b);

    assert_eq!(reader.read_bytes(4).unwrap()[..], [1, 2, 3, 4]);
    assert_eq!(reader.read_bytes(3).unwrap()[..], [5, 6, 7]);
    assert_eq!(
        reader.read_bytes(4).unwrap_err(),
        KError::Eof {
            requested: 4,
            available: 1
        }
    );
    assert_eq!(reader.read_bytes(1).unwrap()[..], [8]);
}

#[test]
fn read_bytes_term() {
    let b = vec![1, 2, 3, 4, 5, 6, 7, 8, 9, 10];
    let mut reader = BytesReader::from(b);

    assert_eq!(
        reader.read_bytes_term(3, false, false, false).unwrap()[..],
        [1, 2]
    );
    assert_eq!(
        reader.read_bytes_term(3, true, false, true).unwrap()[..],
        [3]
    );
    assert_eq!(
        reader.read_bytes_term(3, false, true, true).unwrap()[..],
        []
    );
    assert_eq!(
        reader.read_bytes_term(5, true, true, true).unwrap()[..],
        [4, 5]
    );
    assert_eq!(
        reader.read_bytes_term(8, false, false, true).unwrap()[..],
        [6, 7]
    );
    assert_eq!(
        reader.read_bytes_term(11, false, true, true).unwrap_err(),
        KError::NoTerminatorFound
    );
    // restore position
    reader.seek(7).unwrap();
    assert_eq!(
        reader.read_bytes_term(9, true, true, false).unwrap()[..],
        [8, 9]
    );
    assert_eq!(
        reader.read_bytes_term(10, true, false, false).unwrap()[..],
        [10]
    );
}

#[test]
fn basic_seek() {
    let b = vec![1, 2, 3, 4, 5, 6, 7, 8];
    let mut reader = BytesReader::from(b);

    assert_eq!(reader.read_bytes(4).unwrap()[..], [1, 2, 3, 4]);
    let pos = reader.pos();
    reader.seek(1).unwrap();
    assert_eq!(reader.read_bytes(4).unwrap()[..], [2, 3, 4, 5]);
    reader.seek(pos).unwrap();
    assert_eq!(reader.read_bytes(4).unwrap()[..], [5, 6, 7, 8]);
    assert_eq!(
        reader.seek(9).unwrap_err(),
        KError::Eof {
            requested: 9,
            available: 8
        }
    );
}

#[test]
fn terminator_matrix() {
    let b = vec![1, 2, 3, 4, 0, 5, 6, 0];
    let mut reader = BytesReader::from(b);

    assert_eq!(
        reader.read_bytes_term(0, false, false, false).unwrap()[..],
        [1, 2, 3, 4]
    );
    assert_eq!(reader.pos(), 4);
    assert_eq!(
        reader.read_bytes_term(0, false, true, false).unwrap()[..],
        []
    );
    assert_eq!(reader.pos(), 5);
    reader.seek(4).unwrap();
    assert_eq!(
        reader.read_bytes_term(0, true, true, false).unwrap()[..],
        [0]
    );
    assert_eq!(reader.pos(), 5);
    assert_eq!(
        reader.read_bytes_term(0, true, true, false).unwrap()[..],
        [5, 6, 0]
    );
    assert_eq!(reader.pos(), 8);
}

#[test]
fn fixed_contents_match_advances() {
    let b = vec![1, 2, 3, 4, 9, 9];
    let mut reader = BytesReader::from(b);
    let expected = vec![1, 2, 3, 4];
    let actual = reader.ensure_fixed_contents(&expected).unwrap();
    assert_eq!(actual, vec![1, 2, 3, 4]);
    assert_eq!(reader.pos(), 4);
}

#[test]
fn fixed_contents_mismatch_still_consumes() {
    let b = vec![5, 6, 7, 8, 9, 9];
    let mut reader = BytesReader::from(b);
    let expected = vec![1, 2, 3, 4];
    let err = reader.ensure_fixed_contents(&expected).unwrap_err();
    assert_eq!(
        err,
        KError::ValidationNotEqual {
            actual: vec![5, 6, 7, 8]
        }
    );
    // the bytes were consumed even though the check failed
    assert_eq!(reader.pos(), 4);
}

#[test]
fn fixed_contents_eof() {
    let b = vec![1, 2];
    let mut reader = BytesReader::from(b);
    let expected = vec![1, 2, 3, 4];
    assert_eq!(
        reader.ensure_fixed_contents(&expected).unwrap_err(),
        KError::Eof {
            requested: 4,
            available: 2
        }
    );
    assert_eq!(reader.pos(), 0);
}

#[test]
fn read_bytes_full_and_eof() {
    let b = vec![1, 2, 3];
    let mut reader = BytesReader::from(b);
    assert!(!reader.is_eof());
    assert_eq!(reader.read_bytes(1).unwrap()[..], [1]);
    assert_eq!(reader.read_bytes_full().unwrap()[..], [2, 3]);
    assert!(reader.is_eof());
    assert_eq!(reader.read_bytes_full().unwrap()[..], []);
    assert_eq!(reader.size(), 3);
}

#[test]
fn clone_shares_bytes_with_independent_cursor() {
    let b = vec![10, 20, 30];
    let mut reader = BytesReader::from(b);
    assert_eq!(reader.read_bytes(2).unwrap()[..], [10, 20]);
    let mut second = reader.clone();
    assert_eq!(second.pos(), 2);
    second.seek(0).unwrap();
    assert_eq!(second.read_bytes(3).unwrap()[..], [10, 20, 30]);
    // the first reader's cursor is untouched by the second one's reads
    assert_eq!(reader.pos(), 2);
    assert_eq!(reader.read_bytes(1).unwrap()[..], [30]);
}

#[test]
fn read_integers_big_endian() {
    let b = vec![0x41, 0x50, 0x00, 0x2a, 0xff, 0xfe, 0x01, 0x02];
    let mut reader = BytesReader::from(b);
    assert_eq!(reader.read_u2be().unwrap(), 0x4150);
    reader.seek(0).unwrap();
    assert_eq!(reader.read_u4be().unwrap(), 0x4150002a);
    reader.seek(0).unwrap();
    assert_eq!(reader.read_u8be().unwrap(), 0x4150002a_fffe0102);
    reader.seek(4).unwrap();
    assert_eq!(reader.read_s2be().unwrap(), -2);
    reader.seek(4).unwrap();
    assert_eq!(reader.read_s4be().unwrap(), -0x0001fefe);
    reader.seek(0).unwrap();
    assert_eq!(reader.read_s8be().unwrap(), 0x4150002a_fffe0102u64 as i64);
}

#[test]
fn read_integers_little_endian() {
    let b = vec![0x50, 0x41, 0x2a, 0x00, 0xfe, 0xff, 0x02, 0x01];
    let mut reader = BytesReader::from(b);
    assert_eq!(reader.read_u2le().unwrap(), 0x4150);
    reader.seek(0).unwrap();
    assert_eq!(reader.read_u4le().unwrap(), 0x002a4150);
    reader.seek(0).unwrap();
    assert_eq!(reader.read_u8le().unwrap(), 0x0102fffe_002a4150);
    reader.seek(4).unwrap();
    assert_eq!(reader.read_s2le().unwrap(), -2);
    reader.seek(0).unwrap();
    assert_eq!(reader.read_s8le().unwrap(), 0x0102fffe_002a4150u64 as i64);
}

#[test]
fn read_single_bytes() {
    let b = vec![0x7f, 0x80];
    let mut reader = BytesReader::from(b);
    assert_eq!(reader.read_u1().unwrap(), 0x7f);
    assert_eq!(reader.read_s1().unwrap(), -128);
    assert_eq!(
        reader.read_u1().unwrap_err(),
        KError::Eof {
            requested: 1,
            available: 0
        }
    );
}
