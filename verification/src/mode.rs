//! The mode selector shared by the two cipher tools, the field identifiers of
//! their field sets, and the locking rule: under each mode exactly one field
//! is a derived output and must reject direct edits.

use vstd::prelude::*;

verus! {

/// What the tool computes on each pass: the ciphertext, the plaintext, or
/// the key.
#[derive(Clone, Copy, PartialEq, Eq, Structural, Debug)]
pub enum Mode {
    Encrypt,
    Decrypt,
    FindKey,
}

/// A field of a cipher tool's field set. `Key` stands for the shift count as
/// well as the Vigenère key string.
#[derive(Clone, Copy, PartialEq, Eq, Structural, Debug)]
pub enum Field {
    Plaintext,
    Key,
    Ciphertext,
}

/// The single derived-output field under each mode; the other two fields are
/// free inputs.
pub open spec fn spec_locked(mode: Mode) -> Field {
    match mode {
        Mode::Encrypt => Field::Ciphertext,
        Mode::Decrypt => Field::Plaintext,
        Mode::FindKey => Field::Key,
    }
}

/// The field that the host must render read-only and guard against edits
/// while `mode` is active.
pub fn locked_field(mode: Mode) -> (f: Field)
    ensures
        f == spec_locked(mode),
{
    match mode {
        Mode::Encrypt => Field::Ciphertext,
        Mode::Decrypt => Field::Plaintext,
        Mode::FindKey => Field::Key,
    }
}

/// The colour family a mode selector entry is drawn in.
#[derive(Clone, Copy, PartialEq, Eq, Structural, Debug)]
pub enum ModeColour {
    Red,
    Green,
    Blue,
}

/// The colour assigned to each mode in the selectors of both cipher tools.
pub fn mode_colour(mode: Mode) -> (c: ModeColour)
    ensures
        c == (match mode {
            Mode::Encrypt => ModeColour::Green,
            Mode::Decrypt => ModeColour::Red,
            Mode::FindKey => ModeColour::Blue,
        }),
{
    match mode {
        Mode::Encrypt => ModeColour::Green,
        Mode::Decrypt => ModeColour::Red,
        Mode::FindKey => ModeColour::Blue,
    }
}

} // verus!
