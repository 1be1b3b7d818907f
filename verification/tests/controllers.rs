use ciphertools::base64::Base64State;
use ciphertools::mode::{locked_field, mode_colour, Field, Mode, ModeColour};
use ciphertools::shift::ShiftState;
use ciphertools::tabs::{tab_indices, Entry};
use ciphertools::vigenere::VigenereState;
use ciphertools::State;

#[test]
fn shift_tool_encrypt_then_decrypt_scenario() {
    let mut tool = ShiftState::new();
    tool.edit_plaintext(String::from("Hello"));
    tool.edit_count(Some(3));
    assert_eq!(tool.ciphertext, "Khoor");

    tool.set_mode(Mode::Decrypt);
    assert_eq!(tool.plaintext, "Hello");
    assert_eq!(tool.ciphertext, "Khoor");
    assert_eq!(tool.count, Some(3));
}

#[test]
fn shift_tool_find_key_mode() {
    let mut tool = ShiftState::new();
    tool.edit_plaintext(String::from("Hello"));
    tool.edit_count(Some(3));
    tool.set_mode(Mode::FindKey);
    assert_eq!(tool.count, Some(3));
}

#[test]
fn shift_tool_missing_count_leaves_texts_alone() {
    let mut tool = ShiftState::new();
    tool.edit_plaintext(String::from("abc"));
    tool.edit_count(None);
    assert_eq!(tool.ciphertext, "abc");
    assert_eq!(tool.count, None);
}

#[test]
fn shift_tool_discards_edits_to_the_locked_field() {
    let mut tool = ShiftState::new();
    tool.edit_plaintext(String::from("abc"));
    // encrypt mode locks the ciphertext
    tool.edit_ciphertext(String::from("zzz"));
    assert_eq!(tool.ciphertext, "abc");

    tool.set_mode(Mode::Decrypt);
    tool.edit_plaintext(String::from("zzz"));
    assert_eq!(tool.plaintext, "abc");

    tool.set_mode(Mode::FindKey);
    tool.edit_count(Some(9));
    assert_eq!(tool.count, Some(0));
}

#[test]
fn vigenere_tool_encrypt_and_decrypt() {
    let mut tool = VigenereState::new();
    tool.edit_plaintext(String::from("attackatdawn"));
    tool.edit_key(String::from("lemon"));
    assert_eq!(tool.ciphertext, "lxfopvefrnhr");

    tool.set_mode(Mode::Decrypt);
    assert_eq!(tool.plaintext, "attackatdawn");
}

#[test]
fn vigenere_tool_surfaces_invalid_key_placeholder() {
    let mut tool = VigenereState::new();
    tool.edit_plaintext(String::from("ab"));
    tool.edit_key(String::from("a!"));
    assert_eq!(tool.ciphertext, "Invalid key");
    // the free fields keep their values
    assert_eq!(tool.plaintext, "ab");
    assert_eq!(tool.key, "a!");
}

#[test]
fn vigenere_tool_surfaces_invalid_text_placeholder() {
    let mut tool = VigenereState::new();
    tool.set_mode(Mode::FindKey);
    tool.edit_plaintext(String::from("a1"));
    tool.edit_ciphertext(String::from("bc"));
    assert_eq!(tool.key, "Invalid text");
}

#[test]
fn vigenere_tool_recovers_key() {
    let mut tool = VigenereState::new();
    tool.set_mode(Mode::FindKey);
    tool.edit_plaintext(String::from("abcabc"));
    tool.edit_ciphertext(String::from("bcdbcd"));
    assert_eq!(tool.key, "b");
}

#[test]
fn base64_tool_diff_driven_scenario() {
    let mut tool = Base64State::new();
    tool.edit_plaintext(String::from("hi"));
    assert_eq!(tool.base64, "aGk=");

    tool.edit_base64(String::from("YWJj"));
    assert_eq!(tool.plaintext, "abc");

    // editing neither field is a no-op
    let before = tool.clone();
    tool.resync(&before);
    assert_eq!(tool.plaintext, "abc");
    assert_eq!(tool.base64, "YWJj");
}

#[test]
fn base64_tool_resync_detects_the_changed_field() {
    let mut tool = Base64State::new();
    let before = tool.clone();
    tool.plaintext = String::from("hi");
    tool.resync(&before);
    assert_eq!(tool.base64, "aGk=");

    let before = tool.clone();
    tool.base64 = String::from("YWJj");
    tool.resync(&before);
    assert_eq!(tool.plaintext, "abc");
}

#[test]
fn base64_tool_surfaces_invalid_placeholder() {
    let mut tool = Base64State::new();
    tool.edit_base64(String::from("not-valid-base64!!"));
    assert_eq!(tool.plaintext, "Invalid");
    assert_eq!(tool.base64, "not-valid-base64!!");
}

#[test]
fn fresh_application_state() {
    let app = State::new();
    assert_eq!(app.selected_tab, 0);
    assert_eq!(app.shift.plaintext, "");
    assert_eq!(app.shift.count, Some(0));
    assert_eq!(app.shift.mode, Mode::Encrypt);
    assert_eq!(app.vigenere.key, "");
    assert_eq!(app.base64.base64, "");
}

#[test]
fn locked_field_per_mode() {
    assert_eq!(locked_field(Mode::Encrypt), Field::Ciphertext);
    assert_eq!(locked_field(Mode::Decrypt), Field::Plaintext);
    assert_eq!(locked_field(Mode::FindKey), Field::Key);
}

#[test]
fn mode_colours() {
    assert_eq!(mode_colour(Mode::Encrypt), ModeColour::Green);
    assert_eq!(mode_colour(Mode::Decrypt), ModeColour::Red);
    assert_eq!(mode_colour(Mode::FindKey), ModeColour::Blue);
}

#[test]
fn tab_indices_number_tabs_in_order() {
    let entries = vec![
        Entry::Category("CIPHERS"),
        Entry::Tab("Shift"),
        Entry::Tab("Vigenère"),
        Entry::Category("ENCODING"),
        Entry::Tab("Base64"),
    ];
    assert_eq!(
        tab_indices(&entries),
        vec![None, Some(0), Some(1), None, Some(2)]
    );
}
