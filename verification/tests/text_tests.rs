use kaitai::bytes_to_str;
use kaitai::reverse_string;
use kaitai::KError;

#[test]
fn decode_ascii() {
    let bytes = b"Some ASCII".to_vec();
    assert_eq!(bytes_to_str(&bytes, "ASCII").unwrap(), "Some ASCII");
}

#[test]
fn decode_utf8() {
    let bytes = "\u{3053}\u{3093}\u{306b}\u{3061}\u{306f}".as_bytes().to_vec();
    assert_eq!(
        bytes_to_str(&bytes, "UTF-8").unwrap(),
        "\u{3053}\u{3093}\u{306b}\u{3061}\u{306f}"
    );
}

#[test]
fn decode_cp437_shades() {
    let bytes = vec![0xb0, 0xb1, 0xb2];
    assert_eq!(
        bytes_to_str(&bytes, "IBM437").unwrap(),
        "\u{2591}\u{2592}\u{2593}"
    );
    assert_eq!(
        bytes_to_str(&bytes, "cp437").unwrap(),
        "\u{2591}\u{2592}\u{2593}"
    );
}

#[test]
fn decode_cp437_low_byte_is_an_error() {
    // bytes below 0x05 have no code page 437 entry; the decode must fail
    // with an ordinary error, not abort
    let bytes = vec![0x00];
    assert_eq!(
        bytes_to_str(&bytes, "cp437").unwrap_err(),
        KError::BytesDecodingError {
            msg: "a byte below 0x05 has no code page 437 entry".to_string()
        }
    );
    let mixed = vec![0x48, 0x04, 0x69];
    assert!(matches!(
        bytes_to_str(&mixed, "IBM437").unwrap_err(),
        KError::BytesDecodingError { .. }
    ));
}

#[test]
fn decode_unknown_label() {
    let bytes = vec![1, 2, 3];
    assert_eq!(
        bytes_to_str(&bytes, "no-such-encoding").unwrap_err(),
        KError::UnknownEncoding {
            name: "no-such-encoding".to_string()
        }
    );
}

#[test]
fn reverse_simple() {
    assert_eq!(reverse_string("hello").unwrap(), "olleh");
    assert_eq!(reverse_string("").unwrap(), "");
}

#[test]
fn reverse_keeps_combining_sequences() {
    // 'e' followed by a combining acute accent is one user-perceived character
    let s = "he\u{301}y";
    assert_eq!(reverse_string(s).unwrap(), "ye\u{301}h");
}
