use asn1_viewer::asn1_der::Asn1Error;
use asn1_viewer::input::base64::base64_decode;
use asn1_viewer::input::base64::is_valid_base64;
use asn1_viewer::input::base64::same_bytes;
use asn1_viewer::input::error::InputError;
use asn1_viewer::input::hex::hex_decode;
use asn1_viewer::input::hex::is_valid_hex;
use asn1_viewer::input::utils::get_raw_data;
use asn1_viewer::input::utils::process_text_content;

#[test]
fn hex_digits_in_pairs_are_valid() {
    assert!(is_valid_hex(b""));
    assert!(is_valid_hex(b"00"));
    assert!(is_valid_hex(b"3006020105"));
    assert!(is_valid_hex(b"aAfF09"));
    assert!(!is_valid_hex(b"0"));
    assert!(!is_valid_hex(b"abc"));
    assert!(!is_valid_hex(b"0g"));
    assert!(!is_valid_hex(b"0x10"));
    assert!(!is_valid_hex(b"12 34"));
    assert!(!is_valid_hex(b"/0"));
    assert!(!is_valid_hex(b":0"));
    assert!(!is_valid_hex(b"@0"));
    assert!(!is_valid_hex(b"G0"));
    assert!(!is_valid_hex(b"`0"));
}

#[test]
fn hex_decodes_pairs_of_digits() {
    assert_eq!(hex_decode(b"".to_vec()).unwrap(), Vec::<u8>::new());
    assert_eq!(hex_decode(b"3006".to_vec()).unwrap(), vec![0x30, 0x06]);
    assert_eq!(hex_decode(b"aAfF09".to_vec()).unwrap(), vec![0xaa, 0xff, 0x09]);
    assert_eq!(hex_decode(b"0f10".to_vec()).unwrap(), vec![0x0f, 0x10]);
}

#[test]
fn hex_rejects_what_is_not_pairs_of_digits() {
    assert_eq!(hex_decode(b"abc".to_vec()), Err(hex::FromHexError::OddLength));
    assert_eq!(
        hex_decode(b"0g".to_vec()),
        Err(hex::FromHexError::InvalidHexCharacter { c: 'g', index: 1 })
    );
}

#[test]
fn base64_decodes_the_standard_alphabet() {
    assert_eq!(base64_decode(b"MAYCAQUBAf8=".to_vec()).unwrap(), vec![
        0x30, 0x06, 0x02, 0x01, 0x05, 0x01, 0x01, 0xff
    ]);
    assert_eq!(base64_decode(b"+uwgVQA=".to_vec()).unwrap(), vec![0xfa, 0xec, 0x20, 0x55, 0x00]);
    assert_eq!(base64_decode(b"".to_vec()).unwrap(), Vec::<u8>::new());
}

#[test]
fn base64_rejects_what_is_not_base64() {
    assert!(base64_decode(b"MAYCAQUBAf8".to_vec()).is_err());
    assert!(base64_decode(b"not base64!".to_vec()).is_err());
    assert_eq!(
        base64_decode(b"****".to_vec()),
        Err(base64::DecodeError::InvalidByte(0, b'*'))
    );
}

#[test]
fn valid_base64_decodes_to_something_else() {
    assert!(is_valid_base64(b"MAYCAQUBAf8=".to_vec()));
    assert!(is_valid_base64(b"3006".to_vec()));
    assert!(!is_valid_base64(b"".to_vec()));
    assert!(!is_valid_base64(b"300".to_vec()));
    assert!(!is_valid_base64(vec![0x30, 0x03, 0x02, 0x01, 0x05]));
}

#[test]
fn same_bytes_compares_octet_by_octet() {
    assert!(same_bytes(b"", b""));
    assert!(same_bytes(b"abc", b"abc"));
    assert!(!same_bytes(b"abc", b"abd"));
    assert!(!same_bytes(b"abc", b"ab"));
}

#[test]
fn raw_data_tries_base64_then_hex() {
    assert_eq!(get_raw_data(b"MAYCAQUBAf8=".to_vec()).unwrap(), vec![
        0x30, 0x06, 0x02, 0x01, 0x05, 0x01, 0x01, 0xff
    ]);
    assert_eq!(get_raw_data(b"30060201050101ff".to_vec()).unwrap(), base64_decode(
        b"30060201050101ff".to_vec()
    ).unwrap());
    assert_eq!(get_raw_data(b"0205f".to_vec()).unwrap(), b"0205f".to_vec());
    assert_eq!(get_raw_data(b"30-06".to_vec()).unwrap(), b"30-06".to_vec());
    assert_eq!(get_raw_data(b"020105".to_vec()).unwrap(), vec![0x02, 0x01, 0x05]);
    assert_eq!(get_raw_data(b"".to_vec()).unwrap(), Vec::<u8>::new());
    let der = vec![0x30, 0x06, 0x02, 0x01, 0x05, 0x01, 0x01, 0xff];
    assert_eq!(get_raw_data(der.clone()).unwrap(), der);
}

#[test]
fn text_content_drops_banners_and_joins_lines() {
    let text = b"-----BEGIN X-----\nMAYC\nAQUB\r\nAf8=\n-----END X-----\n";
    assert_eq!(process_text_content(text), Some(b"MAYCAQUBAf8=".to_vec()));
    assert_eq!(process_text_content(b"abc"), Some(b"abc".to_vec()));
    assert_eq!(process_text_content(b"abc\n"), Some(b"abc".to_vec()));
    assert_eq!(process_text_content(b"abc\r"), Some(b"abc\r".to_vec()));
    assert_eq!(process_text_content(b"a\rb\n"), Some(b"a\rb".to_vec()));
    assert_eq!(process_text_content(b"\n\nab\n\ncd"), Some(b"abcd".to_vec()));
    assert_eq!(process_text_content(b"\r\n"), Some(b"".to_vec()));
    assert_eq!(process_text_content(b""), Some(b"".to_vec()));
    assert_eq!(process_text_content(b"----"), Some(b"".to_vec()));
    assert_eq!(process_text_content(b"---\n-- --\nx"), Some(b"----- --x".to_vec()));
    assert_eq!(process_text_content(b"x----\n----y\nz"), Some(b"x----z".to_vec()));
    assert_eq!(process_text_content(b"----\r\nz"), Some(b"z".to_vec()));
    assert_eq!(process_text_content(b"---\r\nz"), Some(b"---z".to_vec()));
}

#[test]
fn text_content_is_nothing_for_octets_that_are_no_text() {
    assert_eq!(process_text_content(&[0x30, 0x03, 0x02, 0x01, 0xff]), None);
    assert_eq!(process_text_content(&[b'a', b'\n', 0x80]), None);
    assert_eq!(process_text_content(&[0x02, 0x01, 0x0a]), Some(vec![0x02, 0x01]));
}

#[test]
fn errors_wrap_what_caused_them() {
    let error = InputError::from(hex::FromHexError::OddLength);
    assert!(matches!(error, InputError::DecodeHexError(hex::FromHexError::OddLength)));
    let error = InputError::from(base64::DecodeError::InvalidPadding);
    assert!(matches!(error, InputError::DecodeBase64Error(base64::DecodeError::InvalidPadding)));
    let error = InputError::from(std::io::Error::new(std::io::ErrorKind::NotFound, "gone"));
    assert!(matches!(error, InputError::IoError(_)));
    assert!(matches!(InputError::NoInputProvided, InputError::NoInputProvided));
    let cause = der::Error::from(der::ErrorKind::Overflow);
    let error = Asn1Error::from(cause);
    assert_eq!(error.0.kind(), der::ErrorKind::Overflow);
}

#[test]
fn decode_errors_carry_the_kind_of_failure() {
    let error = asn1_viewer::asn1_der::parse_asn1(&[0x02, 0x01, 0x05, 0x00], 0).unwrap_err();
    assert!(matches!(error.0.kind(), der::ErrorKind::TrailingData { .. }));
    let error = asn1_viewer::asn1_der::parse_asn1(&[0x10, 0x00], 0).unwrap_err();
    assert!(matches!(error.0.kind(), der::ErrorKind::TagUnknown { .. }));
    let error = asn1_viewer::asn1_der::parse_asn1(&[0x01, 0x01, 0x02], 0).unwrap_err();
    assert!(matches!(error.0.kind(), der::ErrorKind::Noncanonical { .. }));
}
