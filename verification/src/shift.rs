//! Shift (Caesar) cipher: rotate every letter of the text by a fixed count,
//! and recover that count from an aligned plaintext/ciphertext pair.

use crate::alphabet::{
    is_alpha, is_upper, lemma_rot_char_case, lemma_rot_char_inverse, lemma_rot_char_key,
    lemma_rot_char_mod, rot_char, rotate,
};
use crate::mode::{spec_locked, Field, Mode};
use crate::text::push_char;
use vstd::arithmetic::div_mod::lemma_mod_add_multiples_vanish;
use vstd::prelude::*;
use vstd::string::StrSliceExecFns;

verus! {

/// The whole text rotated by `k` steps: every letter moves within its case,
/// every other character stays where and what it was.
pub open spec fn shift_chars(s: Seq<char>, k: int) -> Seq<char> {
    s.map_values(|c: char| rot_char(c, k))
}

/// Rotate every letter of `plaintext` along the alphabet by `count` steps,
/// modularly and case-preserving; everything else passes through unchanged.
pub fn shift(plaintext: &str, count: u8) -> (r: String)
    ensures
        r@ == shift_chars(plaintext@, count as int),
        r@.len() == plaintext@.len(),
        forall|i: int|
            0 <= i < plaintext@.len() && !is_alpha(plaintext@[i]) ==> r@[i] == plaintext@[i],
{
    let k: u32 = (count as u32) % 26;
    let n = plaintext.unicode_len();
    let mut out = String::new();
    let mut i: usize = 0;
    while i < n
        invariant
            n == plaintext@.len(),
            i <= n,
            k == (count as u32) % 26,
            out@ =~= shift_chars(plaintext@, count as int).take(i as int),
        decreases n - i,
    {
        let c = plaintext.get_char(i);
        let r = rotate(c, k);
        proof {
            lemma_rot_char_mod(c, count as int);
        }
        push_char(&mut out, r);
        i = i + 1;
        proof {
            assert(out@ =~= shift_chars(plaintext@, count as int).take(i as int));
        }
    }
    proof {
        assert(out@ =~= shift_chars(plaintext@, count as int));
        assert forall|i: int|
            0 <= i < plaintext@.len() && !is_alpha(plaintext@[i]) implies out@[i]
            == plaintext@[i] by {
            lemma_rot_char_case(plaintext@[i], count as int);
        };
    }
    out
}

/// Encoding by `k` and then by `26 - k` gives the original text back, for
/// every text and every count in the key range.
pub proof fn lemma_shift_round_trip(t: Seq<char>, k: int)
    requires
        0 <= k <= 25,
    ensures
        shift_chars(shift_chars(t, k), 26 - k) == t,
{
    assert forall|i: int| 0 <= i < t.len() implies shift_chars(shift_chars(t, k), 26 - k)[i]
        == t[i] by {
        lemma_rot_char_inverse(t[i], k);
    };
    assert(shift_chars(shift_chars(t, k), 26 - k) =~= t);
}

/// Number of positions compared by key recovery: the zipped shorter-length
/// prefix of the two texts.
pub open spec fn zip_len(p: Seq<char>, c: Seq<char>) -> int {
    if p.len() <= c.len() {
        p.len() as int
    } else {
        c.len() as int
    }
}

/// At position `i` both texts hold a letter of the same case.
pub open spec fn letters_at(p: Seq<char>, c: Seq<char>, i: int) -> bool {
    is_alpha(p[i]) && is_alpha(c[i]) && (is_upper(p[i]) <==> is_upper(c[i]))
}

/// Every compared position is consistent with some shift: either two letters
/// of the same case, or two non-letters.
pub open spec fn compatible(p: Seq<char>, c: Seq<char>) -> bool {
    forall|i: int|
        0 <= i < zip_len(p, c) ==> (letters_at(p, c, i) || (!is_alpha(p[i]) && !is_alpha(c[i])))
}

/// The shift count witnessed by the pair of letters at position `i`.
pub open spec fn key_at(p: Seq<char>, c: Seq<char>, i: int) -> int {
    (c[i] as int - p[i] as int) % 26
}

/// Some compared position holds a pair of letters, so the pair carries
/// evidence of a key at all.
pub open spec fn has_letter_pair(p: Seq<char>, c: Seq<char>) -> bool {
    exists|i: int| 0 <= i < zip_len(p, c) && is_alpha(p[i]) && is_alpha(c[i])
}

/// `k` is the single key that explains the pair: every compared position is
/// consistent, at least one holds letters, and every letter position
/// witnesses exactly `k`.
pub open spec fn recovers(p: Seq<char>, c: Seq<char>, k: u8) -> bool {
    &&& k <= 25
    &&& compatible(p, c)
    &&& has_letter_pair(p, c)
    &&& forall|i: int|
        0 <= i < zip_len(p, c) && is_alpha(p[i]) && is_alpha(c[i]) ==> key_at(p, c, i) == k as int
}

/// At most one key explains a given pair.
pub proof fn lemma_recovers_unique(p: Seq<char>, c: Seq<char>, k1: u8, k2: u8)
    requires
        recovers(p, c, k1),
        recovers(p, c, k2),
    ensures
        k1 == k2,
{
    let i = choose|i: int| 0 <= i < zip_len(p, c) && is_alpha(p[i]) && is_alpha(c[i]);
    assert(key_at(p, c, i) == k1 as int);
    assert(key_at(p, c, i) == k2 as int);
}

/// The recovered key: `Some` exactly when a single consistent key explains
/// every compared position, and indeterminate otherwise.
pub open spec fn spec_find_key(p: Seq<char>, c: Seq<char>) -> Option<u8> {
    if exists|k: u8| recovers(p, c, k) {
        Some(choose|k: u8| recovers(p, c, k))
    } else {
        None
    }
}

/// Recover the shift count from an aligned plaintext/ciphertext pair, by
/// position over the zipped shorter-length prefix. Two letters of the same
/// case fix or confirm the count; two non-letters carry no constraint; any
/// other combination, or disagreeing counts, make the pair indeterminate.
pub fn find_key(plaintext: &str, ciphertext: &str) -> (r: Option<u8>)
    ensures
        r == spec_find_key(plaintext@, ciphertext@),
{
    let ghost p = plaintext@;
    let ghost c = ciphertext@;
    let pn = plaintext.unicode_len();
    let cn = ciphertext.unicode_len();
    let n = if pn <= cn { pn } else { cn };
    let mut current: Option<u8> = None;
    let mut i: usize = 0;
    while i < n
        invariant
            n == zip_len(p, c),
            p == plaintext@,
            c == ciphertext@,
            i <= n,
            forall|j: int|
                0 <= j < i ==> (letters_at(p, c, j) || (!is_alpha(p[j]) && !is_alpha(c[j]))),
            match current {
                Some(k) => {
                    &&& k <= 25
                    &&& exists|j: int| 0 <= j < i && is_alpha(p[j]) && is_alpha(c[j])
                    &&& forall|j: int|
                        0 <= j < i && is_alpha(p[j]) && is_alpha(c[j]) ==> key_at(p, c, j)
                            == k as int
                },
                None => forall|j: int| 0 <= j < i ==> !(is_alpha(p[j]) && is_alpha(c[j])),
            },
        decreases n - i,
    {
        let pc = plaintext.get_char(i);
        let cc = ciphertext.get_char(i);
        let px = pc as u32;
        let cx = cc as u32;
        let p_alpha = (97 <= px && px <= 122) || (65 <= px && px <= 90);
        let c_alpha = (97 <= cx && cx <= 122) || (65 <= cx && cx <= 90);
        if p_alpha && c_alpha {
            let p_upper = px <= 90;
            let c_upper = cx <= 90;
            if p_upper != c_upper {
                proof {
                    assert(!letters_at(p, c, i as int));
                    assert(forall|k: u8| !recovers(p, c, k));
                }
                return None;
            }
            let key = ((cx + 26 - px) % 26) as u8;
            proof {
                lemma_mod_add_multiples_vanish(cx as int - px as int, 26);
                assert(key as int == key_at(p, c, i as int));
            }
            match current {
                Some(cur) => {
                    if cur != key {
                        proof {
                            let j = choose|j: int|
                                0 <= j < i && is_alpha(p[j]) && is_alpha(c[j]);
                            assert forall|k: u8| !recovers(p, c, k) by {
                                if recovers(p, c, k) {
                                    assert(key_at(p, c, j) == k as int);
                                    assert(key_at(p, c, i as int) == k as int);
                                }
                            };
                        }
                        return None;
                    }
                },
                None => {
                    current = Some(key);
                },
            }
        } else if !p_alpha && !c_alpha {
            // two non-letters: consistent, no constraint
        } else {
            proof {
                assert(!letters_at(p, c, i as int));
                assert(forall|k: u8| !recovers(p, c, k));
            }
            return None;
        }
        i = i + 1;
    }
    proof {
        match current {
            Some(k) => {
                assert(recovers(p, c, k));
                let k2 = choose|k2: u8| recovers(p, c, k2);
                lemma_recovers_unique(p, c, k, k2);
            },
            None => {
                assert forall|k: u8| !recovers(p, c, k) by {
                    if recovers(p, c, k) {
                        let j = choose|j: int|
                            0 <= j < zip_len(p, c) && is_alpha(p[j]) && is_alpha(c[j]);
                    }
                };
            },
        }
    }
    current
}

/// Non-alphabetic characters survive encoding unchanged and in place, so a
/// position that holds two non-letters after encoding held two before, and a
/// letter encodes to a letter of its case `k` steps along: key recovery on a
/// pair produced by `shift` finds exactly the count that produced it,
/// provided the plaintext holds at least one letter.
pub proof fn lemma_shift_key_recovery(t: Seq<char>, k: u8)
    requires
        k <= 25,
        exists|i: int| 0 <= i < t.len() && is_alpha(t[i]),
    ensures
        spec_find_key(t, shift_chars(t, k as int)) == Some(k),
{
    let c = shift_chars(t, k as int);
    assert(c.len() == t.len());
    assert forall|i: int| 0 <= i < zip_len(t, c) implies (letters_at(t, c, i) || (!is_alpha(t[i])
        && !is_alpha(c[i]))) && (is_alpha(t[i]) && is_alpha(c[i]) ==> key_at(t, c, i)
        == k as int) by {
        lemma_rot_char_case(t[i], k as int);
        if is_alpha(t[i]) {
            lemma_rot_char_key(t[i], k as int);
        }
    };
    let w = choose|i: int| 0 <= i < t.len() && is_alpha(t[i]);
    assert(is_alpha(t[w]) && is_alpha(c[w])) by {
        lemma_rot_char_case(t[w], k as int);
    };
    assert(recovers(t, c, k));
    let k2 = choose|k2: u8| recovers(t, c, k2);
    lemma_recovers_unique(t, c, k, k2);
}

/// Field set of the shift tool. `count` is `None` while the key field is
/// indeterminate: not yet entered, or not recoverable from the text pair.
#[derive(Clone)]
pub struct ShiftState {
    pub plaintext: String,
    pub ciphertext: String,
    pub count: Option<u8>,
    pub mode: Mode,
}

/// Mathematical image of a `ShiftState`.
pub ghost struct ShiftView {
    pub plaintext: Seq<char>,
    pub ciphertext: Seq<char>,
    pub count: Option<u8>,
    pub mode: Mode,
}

impl View for ShiftState {
    type V = ShiftView;

    open spec fn view(&self) -> ShiftView {
        ShiftView {
            plaintext: self.plaintext@,
            ciphertext: self.ciphertext@,
            count: self.count,
            mode: self.mode,
        }
    }
}

/// The state a fresh shift tool starts in: empty texts, zero count, encrypt
/// mode.
pub open spec fn shift_init() -> ShiftView {
    ShiftView {
        plaintext: Seq::empty(),
        ciphertext: Seq::empty(),
        count: Some(0u8),
        mode: Mode::Encrypt,
    }
}

/// One synchronization pass: under the active mode, the derived field is
/// recomputed from the two free ones. A missing count leaves the text fields
/// as they are.
pub open spec fn shift_sync(v: ShiftView) -> ShiftView {
    match v.mode {
        Mode::Encrypt => match v.count {
            Some(k) => ShiftView { ciphertext: shift_chars(v.plaintext, k as int), ..v },
            None => v,
        },
        Mode::Decrypt => match v.count {
            Some(k) => ShiftView { plaintext: shift_chars(v.ciphertext, 26 - k as int), ..v },
            None => v,
        },
        Mode::FindKey => ShiftView { count: spec_find_key(v.plaintext, v.ciphertext), ..v },
    }
}

impl ShiftState {
    /// The count never leaves the key range.
    pub open spec fn wf(self) -> bool {
        self.count matches Some(k) ==> k <= 25
    }

    /// A fresh shift tool.
    pub fn new() -> (s: ShiftState)
        ensures
            s@ == shift_init(),
            s.wf(),
    {
        ShiftState {
            plaintext: String::new(),
            ciphertext: String::new(),
            count: Some(0),
            mode: Mode::Encrypt,
        }
    }

    /// One controller pass under the active mode, recomputing the locked
    /// field from the free ones.
    pub fn recompute(&mut self)
        requires
            old(self).wf(),
        ensures
            final(self)@ == shift_sync(old(self)@),
            final(self).wf(),
    {
        match self.mode {
            Mode::Encrypt => {
                if let Some(k) = self.count {
                    self.ciphertext = shift(self.plaintext.as_str(), k);
                }
            },
            Mode::Decrypt => {
                if let Some(k) = self.count {
                    self.plaintext = shift(self.ciphertext.as_str(), 26 - k);
                }
            },
            Mode::FindKey => {
                self.count = find_key(self.plaintext.as_str(), self.ciphertext.as_str());
                proof {
                    let p = old(self)@.plaintext;
                    let c = old(self)@.ciphertext;
                    if exists|k: u8| recovers(p, c, k) {
                        let k = choose|k: u8| recovers(p, c, k);
                        assert(recovers(p, c, k));
                    }
                }
            },
        }
    }

    /// Host-facing edit of the plaintext field: discarded while the mode
    /// locks it, otherwise applied and followed by one controller pass.
    pub fn edit_plaintext(&mut self, value: String)
        requires
            old(self).wf(),
        ensures
            final(self).wf(),
            spec_locked(old(self)@.mode) == Field::Plaintext ==> final(self)@ == old(self)@,
            spec_locked(old(self)@.mode) != Field::Plaintext ==> final(self)@ == shift_sync(
                ShiftView { plaintext: value@, ..old(self)@ },
            ),
    {
        if self.mode == Mode::Decrypt {
            return ;
        }
        self.plaintext = value;
        self.recompute();
    }

    /// Host-facing edit of the count field; the host hands `None` for an
    /// unparseable entry. Discarded while the mode locks the key.
    pub fn edit_count(&mut self, value: Option<u8>)
        requires
            old(self).wf(),
            value matches Some(k) ==> k <= 25,
        ensures
            final(self).wf(),
            spec_locked(old(self)@.mode) == Field::Key ==> final(self)@ == old(self)@,
            spec_locked(old(self)@.mode) != Field::Key ==> final(self)@ == shift_sync(
                ShiftView { count: value, ..old(self)@ },
            ),
    {
        if self.mode == Mode::FindKey {
            return ;
        }
        self.count = value;
        self.recompute();
    }

    /// Host-facing edit of the ciphertext field: discarded while the mode
    /// locks it, otherwise applied and followed by one controller pass.
    pub fn edit_ciphertext(&mut self, value: String)
        requires
            old(self).wf(),
        ensures
            final(self).wf(),
            spec_locked(old(self)@.mode) == Field::Ciphertext ==> final(self)@ == old(self)@,
            spec_locked(old(self)@.mode) != Field::Ciphertext ==> final(self)@ == shift_sync(
                ShiftView { ciphertext: value@, ..old(self)@ },
            ),
    {
        if self.mode == Mode::Encrypt {
            return ;
        }
        self.ciphertext = value;
        self.recompute();
    }

    /// Switch the active mode and recompute at once, so the state the host
    /// sees is consistent with the new mode.
    pub fn set_mode(&mut self, mode: Mode)
        requires
            old(self).wf(),
        ensures
            final(self).wf(),
            final(self)@ == shift_sync(ShiftView { mode: mode, ..old(self)@ }),
    {
        self.mode = mode;
        self.recompute();
    }
}

} // verus!
