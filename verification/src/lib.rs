//! Reactive console core for three text transforms: a shift (Caesar) cipher,
//! a Vigenère cipher, and Base64 encoding.
//!
//! Each tool owns a small field set (plaintext, ciphertext / encoded form,
//! and possibly a key) together with a synchronization rule that, after any
//! host-applied edit, recomputes the derived fields from the authoritative
//! ones. The transform functions themselves are pure and live next to the
//! state they serve.

use vstd::prelude::*;

pub mod alphabet;
pub mod base64;
pub mod mode;
pub mod shift;
pub mod tabs;
mod text;
pub mod vigenere;

use crate::base64::{base64_init, Base64State};
use crate::shift::{shift_init, ShiftState};
use crate::vigenere::{vigenere_init, VigenereState};

verus! {

/// The application state: one independent tool per transform family, and the
/// selected tab. The tools share nothing; each is synchronized on its own.
pub struct State {
    pub shift: ShiftState,
    pub vigenere: VigenereState,
    pub base64: Base64State,
    pub selected_tab: usize,
}

impl State {
    /// A freshly opened application: every tool in its starting state, the
    /// first tab selected.
    pub fn new() -> (s: State)
        ensures
            s.shift@ == shift_init(),
            s.shift.wf(),
            s.vigenere@ == vigenere_init(),
            s.base64@ == base64_init(),
            s.selected_tab == 0,
    {
        State {
            shift: ShiftState::new(),
            vigenere: VigenereState::new(),
            base64: Base64State::new(),
            selected_tab: 0,
        }
    }
}

} // verus!
