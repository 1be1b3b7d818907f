use ciphertools::base64::{base64_decode, base64_encode};

#[test]
fn encode_known_values() {
    assert_eq!(base64_encode(""), "");
    assert_eq!(base64_encode("hi"), "aGk=");
    assert_eq!(base64_encode("abc"), "YWJj");
    assert_eq!(base64_encode("hello world"), "aGVsbG8gd29ybGQ=");
}

#[test]
fn decode_known_values() {
    assert_eq!(base64_decode("YWJj"), Some(String::from("abc")));
    assert_eq!(base64_decode("aGk="), Some(String::from("hi")));
    assert_eq!(base64_decode(""), Some(String::new()));
}

#[test]
fn decode_inverts_encode() {
    for s in ["", "a", "ab", "abc", "abcd", "Hello, World!", "héllo ☃ 東京"] {
        let encoded = base64_encode(s);
        assert_eq!(base64_decode(&encoded), Some(String::from(s)));
    }
}

#[test]
fn decode_of_malformed_base64_is_indeterminate() {
    assert_eq!(base64_decode("not-valid-base64!!"), None);
}

#[test]
fn decode_of_non_utf8_bytes_is_indeterminate() {
    // "//4=" is valid Base64 for the bytes [0xff, 0xfe], which are not UTF-8
    assert_eq!(base64_decode("//4="), None);
}
