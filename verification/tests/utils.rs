use proka_exec::{slice_to_str, str_to_array, Error};

const TEXT: &str = "Hello world";
const RAW: &[u8] = &*b"Hello world";

#[test]
fn test_str_to_array() {
    let result: [u8; 11] = str_to_array(TEXT);
    assert_eq!(&result, RAW);
}

#[test]
fn test_slice_to_str() {
    let result = slice_to_str(RAW).unwrap();
    assert_eq!(result, TEXT);
}

#[test]
fn str_to_array_pads_and_truncates() {
    let short: [u8; 4] = str_to_array("ab");
    assert_eq!(short, [b'a', b'b', 0, 0]);
    let long: [u8; 3] = str_to_array("abcdef");
    assert_eq!(long, *b"abc");
}

#[test]
fn slice_to_str_rejects_invalid_utf8() {
    assert_eq!(slice_to_str(&[0xff, 0xfe]), Err(Error::UnknownCharacter));
    assert_eq!(slice_to_str("é".as_bytes()), Ok("é"));
}
