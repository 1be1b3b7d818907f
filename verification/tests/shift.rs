use ciphertools::shift::{find_key, shift};

#[test]
fn shift_basic_lowercase() {
    assert_eq!(shift("abc", 3), "def");
}

#[test]
fn shift_wraps_around_the_alphabet() {
    assert_eq!(shift("xyz", 3), "abc");
    assert_eq!(shift("XYZ", 1), "YZA");
}

#[test]
fn shift_preserves_case() {
    assert_eq!(shift("Hello", 3), "Khoor");
}

#[test]
fn shift_count_zero_is_identity() {
    assert_eq!(shift("Hello, World!", 0), "Hello, World!");
}

#[test]
fn shift_count_twenty_five() {
    assert_eq!(shift("ab", 25), "za");
}

#[test]
fn shift_leaves_non_alphabetic_in_place() {
    assert_eq!(shift("a1b2-c!", 1), "b1c2-d!");
    assert_eq!(shift("héllo", 1), "iémmp");
    assert_eq!(shift("né", 2), "pé");
}

#[test]
fn shift_count_matters_only_modulo_twenty_six() {
    assert_eq!(shift("abc", 27), shift("abc", 1));
    assert_eq!(shift("abc", 52), "abc");
}

#[test]
fn shift_empty_text() {
    assert_eq!(shift("", 7), "");
}

#[test]
fn shift_decode_is_inverse() {
    let plain = "The quick brown fox, 42 times!";
    for count in 0u8..=25 {
        let cipher = shift(plain, count);
        let back = shift(&cipher, 26 - count);
        assert_eq!(back, plain);
    }
}

#[test]
fn find_key_recovers_every_count() {
    let plain = "Attack at dawn";
    for count in 0u8..=25 {
        let cipher = shift(plain, count);
        assert_eq!(find_key(plain, &cipher), Some(count));
    }
}

#[test]
fn find_key_ignores_shared_non_alphabetic_positions() {
    assert_eq!(find_key("a-b", "c-d"), Some(2));
}

#[test]
fn find_key_without_any_letter_pair_is_indeterminate() {
    assert_eq!(find_key("123", "123"), None);
    assert_eq!(find_key("", ""), None);
}

#[test]
fn find_key_case_mismatch_is_indeterminate() {
    assert_eq!(find_key("a", "A"), None);
}

#[test]
fn find_key_letter_against_non_letter_is_indeterminate() {
    assert_eq!(find_key("a1", "bb"), None);
    assert_eq!(find_key("1a", "bb"), None);
}

#[test]
fn find_key_disagreeing_counts_are_indeterminate() {
    assert_eq!(find_key("ab", "bd"), None);
}

#[test]
fn find_key_compares_only_the_shorter_prefix() {
    assert_eq!(find_key("abcdef", "cd"), Some(2));
    assert_eq!(find_key("cd", "abcdef"), Some(24));
}
