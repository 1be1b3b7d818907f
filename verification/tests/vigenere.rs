use ciphertools::vigenere::{decrypt, encrypt, find_key};

#[test]
fn encrypt_classic_example() {
    assert_eq!(
        encrypt("attackatdawn", "lemon"),
        Some(String::from("lxfopvefrnhr"))
    );
}

#[test]
fn encrypt_uppercase_key_counts_the_same() {
    assert_eq!(encrypt("attackatdawn", "LEMON"), encrypt("attackatdawn", "lemon"));
}

#[test]
fn encrypt_preserves_case_of_the_text() {
    assert_eq!(encrypt("Hello", "bbb"), Some(String::from("Ifmmp")));
}

#[test]
fn encrypt_non_alphabetic_text_consumes_key_characters() {
    // the space consumes the 'c': 'x' is rotated by 'a', not by 'c'
    assert_eq!(encrypt("ab x", "abca"), Some(String::from("ac x")));
}

#[test]
fn encrypt_fails_on_non_alphabetic_key_character() {
    assert_eq!(encrypt("ab", "a!"), None);
    // fails even where the text character itself is non-alphabetic
    assert_eq!(encrypt("a ", "a!"), None);
}

#[test]
fn encrypt_ignores_key_characters_past_the_text() {
    // the '!' at the third key position is never consumed
    assert_eq!(encrypt("ab", "ab!"), Some(String::from("ac")));
}

#[test]
fn encrypt_empty_key_gives_empty_stream() {
    assert_eq!(encrypt("anything", ""), Some(String::new()));
    assert_eq!(encrypt("", "key"), Some(String::new()));
}

#[test]
fn decrypt_inverts_encrypt() {
    let plain = "Attack at dawn! 42";
    let cipher = encrypt(plain, "lemon").unwrap();
    assert_eq!(decrypt(&cipher, "lemon"), Some(String::from(plain)));
}

#[test]
fn decrypt_fails_on_non_alphabetic_key_character() {
    assert_eq!(decrypt("ab", "a1"), None);
}

#[test]
fn find_key_recovers_minimal_period() {
    // a long plaintext enciphered with the repeating key "abc": the raw key
    // letters tile by three, so exactly "abc" comes back, not "abcabc"
    let plain = "thisisaratherlongplaintextwithletters";
    let cipher = encrypt(plain, "abc").unwrap();
    assert_eq!(find_key(plain, &cipher), Some(String::from("abc")));
}

#[test]
fn find_key_keeps_full_key_when_nothing_tiles() {
    let plain = "abcdef";
    let cipher = encrypt(plain, "zebras").unwrap();
    assert_eq!(find_key(plain, &cipher), Some(String::from("zebras")));
}

#[test]
fn find_key_checks_only_whole_chunks() {
    // raw key "ababz": the trailing partial chunk "z" is not checked, so the
    // key reduces to "ab"
    let plain = "aaaaa";
    let cipher = encrypt(plain, "ababz").unwrap();
    assert_eq!(find_key(plain, &cipher), Some(String::from("ab")));
}

#[test]
fn find_key_single_letter_key() {
    let cipher = encrypt("aaaa", "b").unwrap();
    assert_eq!(find_key("aaaa", &cipher), Some(String::from("b")));
}

#[test]
fn find_key_skips_equal_non_alphabetic_pairs() {
    let cipher = encrypt("ab cd", "bb").unwrap();
    assert_eq!(find_key("ab cd", &cipher), Some(String::from("b")));
}

#[test]
fn find_key_unequal_non_alphabetic_pair_is_indeterminate() {
    assert_eq!(find_key("a!", "b?"), None);
}

#[test]
fn find_key_letter_against_non_letter_fails() {
    assert_eq!(find_key("a1", "bc"), None);
    assert_eq!(find_key("1a", "cb"), None);
}

#[test]
fn find_key_empty_pair_gives_empty_key() {
    assert_eq!(find_key("", ""), Some(String::new()));
}
