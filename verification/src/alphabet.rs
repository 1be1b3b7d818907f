//! Character-level model shared by the shift and Vigenère ciphers: which
//! characters count as letters, and how a letter is rotated along the
//! alphabet while every other character passes through unchanged.

use vstd::arithmetic::div_mod::{
    lemma_add_mod_noop, lemma_add_mod_noop_right, lemma_mod_add_multiples_vanish,
    lemma_small_mod,
};
use vstd::prelude::*;

verus! {

/// True for an ASCII lowercase letter.
pub open spec fn is_lower(c: char) -> bool {
    97 <= c as int <= 122
}

/// True for an ASCII uppercase letter.
pub open spec fn is_upper(c: char) -> bool {
    65 <= c as int <= 90
}

/// True for an ASCII letter of either case.
pub open spec fn is_alpha(c: char) -> bool {
    is_lower(c) || is_upper(c)
}

/// Position of a letter within its alphabet: 'a' and 'A' are 0, 'z' and 'Z' are 25.
/// Meaningful only when `is_alpha(c)`.
pub open spec fn alpha_pos(c: char) -> int {
    if is_lower(c) {
        c as int - 97
    } else {
        c as int - 65
    }
}

/// Rotate a letter `k` steps along the alphabet, modularly and keeping its
/// case; any non-alphabetic character stays as it is.
pub open spec fn rot_char(c: char, k: int) -> char {
    if is_lower(c) {
        (97 + ((c as int - 97 + k) % 26)) as char
    } else if is_upper(c) {
        (65 + ((c as int - 65 + k) % 26)) as char
    } else {
        c
    }
}

/// Rotating a letter never changes its case, and leaves every other
/// character alone.
pub proof fn lemma_rot_char_case(c: char, k: int)
    requires
        k >= 0,
    ensures
        is_lower(c) <==> is_lower(rot_char(c, k)),
        is_upper(c) <==> is_upper(rot_char(c, k)),
        !is_alpha(c) ==> rot_char(c, k) == c,
{
}

/// The rotation amount only matters modulo the alphabet size.
pub proof fn lemma_rot_char_mod(c: char, k: int)
    requires
        k >= 0,
    ensures
        rot_char(c, k % 26) == rot_char(c, k),
{
    if is_lower(c) {
        let a = c as int - 97;
        lemma_add_mod_noop_right(a, k, 26);
    } else if is_upper(c) {
        let a = c as int - 65;
        lemma_add_mod_noop_right(a, k, 26);
    }
}

/// Rotating by `k` and then by `26 - k` restores the character: decoding is
/// encoding with the additive inverse of the key.
pub proof fn lemma_rot_char_inverse(c: char, k: int)
    requires
        0 <= k <= 26,
    ensures
        rot_char(rot_char(c, k), 26 - k) == c,
{
    if is_lower(c) || is_upper(c) {
        let base: int = if is_lower(c) { 97 } else { 65 };
        let a = c as int - base;
        let m1 = (a + k) % 26;
        assert((m1 + (26 - k)) % 26 == a) by {
            lemma_add_mod_noop_right(m1, 26 - k, 26);
            lemma_add_mod_noop(a + k, 26 - k, 26);
            lemma_mod_add_multiples_vanish(a, 26);
            lemma_small_mod(a as nat, 26);
        };
    }
}

/// A rotated letter witnesses its rotation amount: the alphabet distance
/// from a letter to its rotation is the amount itself, modulo 26.
pub proof fn lemma_rot_char_key(c: char, k: int)
    requires
        0 <= k <= 25,
        is_alpha(c),
    ensures
        (rot_char(c, k) as int - c as int) % 26 == k,
{
    let base: int = if is_lower(c) { 97 } else { 65 };
    let a = c as int - base;
    let r = rot_char(c, k);
    assert(r as int == base + (a + k) % 26);
    assert(((a + k) % 26 - a) % 26 == k) by {
        vstd::arithmetic::div_mod::lemma_sub_mod_noop(a + k, a, 26);
        lemma_small_mod(a as nat, 26);
        lemma_small_mod(k as nat, 26);
    };
}

/// Executable rotation of a single character, proved against `rot_char`.
pub fn rotate(c: char, k: u32) -> (r: char)
    requires
        k <= 26,
    ensures
        r == rot_char(c, k as int),
{
    let x = c as u32;
    if 97 <= x && x <= 122 {
        let y: u32 = ((x - 97 + k) % 26) + 97;
        let r = (y as u8) as char;
        assert(r as int == y as int);
        r
    } else if 65 <= x && x <= 90 {
        let y: u32 = ((x - 65 + k) % 26) + 65;
        let r = (y as u8) as char;
        assert(r as int == y as int);
        r
    } else {
        c
    }
}

} // verus!
