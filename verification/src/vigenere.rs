//! Vigenère cipher: a repeating key string, consumed in lock-step with every
//! character of the text, rotates each letter by the key letter's alphabet
//! position; and key recovery with reduction to the minimal repeating unit.

use crate::alphabet::{
    alpha_pos, is_alpha, is_lower, lemma_rot_char_case, lemma_rot_char_inverse,
    lemma_rot_char_key, rot_char, rotate,
};
use crate::mode::{spec_locked, Field, Mode};
use crate::text::push_char;
use vstd::arithmetic::div_mod::{lemma_fundamental_div_mod, lemma_mod_multiples_vanish};
use vstd::prelude::*;
use vstd::string::{StrSliceExecFns, StringExecFns};

verus! {

/// The key character consumed at position `i` when the key is cycled.
pub open spec fn cycled(key: Seq<char>, i: int) -> char {
    key[i % key.len() as int]
}

/// Length of the zipped text/key stream: the cycled key is endless, so the
/// text decides — except that an empty key yields an empty stream at once.
pub open spec fn stream_len(text: Seq<char>, key: Seq<char>) -> int {
    if key.len() == 0 {
        0
    } else {
        text.len() as int
    }
}

/// Every key character that the text consumes is a letter.
pub open spec fn key_fits(text: Seq<char>, key: Seq<char>) -> bool {
    forall|i: int| 0 <= i < stream_len(text, key) ==> is_alpha(cycled(key, i))
}

/// The encoded stream: each character rotated forward by its key letter's
/// alphabet position. Meaningful under `key_fits`.
pub open spec fn encrypt_stream(text: Seq<char>, key: Seq<char>) -> Seq<char> {
    Seq::new(stream_len(text, key) as nat, |i: int| rot_char(text[i], alpha_pos(cycled(key, i))))
}

/// The decoded stream: each character rotated by the additive inverse of its
/// key letter's alphabet position.
pub open spec fn decrypt_stream(text: Seq<char>, key: Seq<char>) -> Seq<char> {
    Seq::new(
        stream_len(text, key) as nat,
        |i: int| rot_char(text[i], 26 - alpha_pos(cycled(key, i))),
    )
}

/// Encoding fails exactly when the cycled key ever aligns a non-letter with
/// a position of the text.
pub open spec fn vig_encrypt(text: Seq<char>, key: Seq<char>) -> Option<Seq<char>> {
    if key_fits(text, key) {
        Some(encrypt_stream(text, key))
    } else {
        None
    }
}

/// Mirror of `vig_encrypt`, rotating backwards.
pub open spec fn vig_decrypt(text: Seq<char>, key: Seq<char>) -> Option<Seq<char>> {
    if key_fits(text, key) {
        Some(decrypt_stream(text, key))
    } else {
        None
    }
}

/// Encrypt `plaintext` under the cycled `key`. Non-alphabetic plaintext
/// characters pass through unmodified but still consume one key character;
/// a non-alphabetic key character anywhere in the consumed stream makes the
/// whole operation fail.
pub fn encrypt(plaintext: &str, key: &str) -> (r: Option<String>)
    ensures
        match r {
            Some(s) => vig_encrypt(plaintext@, key@) == Some(s@),
            None => vig_encrypt(plaintext@, key@) is None,
        },
        r is None <==> !key_fits(plaintext@, key@),
{
    let m = key.unicode_len();
    let n = plaintext.unicode_len();
    if m == 0 {
        let out = String::new();
        assert(out@ =~= encrypt_stream(plaintext@, key@));
        return Some(out);
    }
    let mut out = String::new();
    let mut i: usize = 0;
    while i < n
        invariant
            m == key@.len(),
            n == plaintext@.len(),
            m > 0,
            i <= n,
            forall|j: int| 0 <= j < i ==> is_alpha(cycled(key@, j)),
            out@ =~= encrypt_stream(plaintext@, key@).take(i as int),
        decreases n - i,
    {
        let kc = key.get_char(i % m);
        let kx = kc as u32;
        let kv: u32;
        if 97 <= kx && kx <= 122 {
            kv = kx - 97;
        } else if 65 <= kx && kx <= 90 {
            kv = kx - 65;
        } else {
            proof {
                assert(!is_alpha(cycled(key@, i as int)));
            }
            return None;
        }
        assert(kv as int == alpha_pos(cycled(key@, i as int)));
        let c = plaintext.get_char(i);
        let r = rotate(c, kv);
        push_char(&mut out, r);
        i = i + 1;
        proof {
            assert(out@ =~= encrypt_stream(plaintext@, key@).take(i as int));
        }
    }
    proof {
        assert(out@ =~= encrypt_stream(plaintext@, key@));
    }
    Some(out)
}

/// Decrypt `ciphertext` under the cycled `key`: the mirror of `encrypt`,
/// rotating each letter backwards by its key letter's alphabet position.
pub fn decrypt(ciphertext: &str, key: &str) -> (r: Option<String>)
    ensures
        match r {
            Some(s) => vig_decrypt(ciphertext@, key@) == Some(s@),
            None => vig_decrypt(ciphertext@, key@) is None,
        },
        r is None <==> !key_fits(ciphertext@, key@),
{
    let m = key.unicode_len();
    let n = ciphertext.unicode_len();
    if m == 0 {
        let out = String::new();
        assert(out@ =~= decrypt_stream(ciphertext@, key@));
        return Some(out);
    }
    let mut out = String::new();
    let mut i: usize = 0;
    while i < n
        invariant
            m == key@.len(),
            n == ciphertext@.len(),
            m > 0,
            i <= n,
            forall|j: int| 0 <= j < i ==> is_alpha(cycled(key@, j)),
            out@ =~= decrypt_stream(ciphertext@, key@).take(i as int),
        decreases n - i,
    {
        let kc = key.get_char(i % m);
        let kx = kc as u32;
        let kv: u32;
        if 97 <= kx && kx <= 122 {
            kv = kx - 97;
        } else if 65 <= kx && kx <= 90 {
            kv = kx - 65;
        } else {
            proof {
                assert(!is_alpha(cycled(key@, i as int)));
            }
            return None;
        }
        assert(kv as int == alpha_pos(cycled(key@, i as int)));
        let c = ciphertext.get_char(i);
        let r = rotate(c, 26 - kv);
        push_char(&mut out, r);
        i = i + 1;
        proof {
            assert(out@ =~= decrypt_stream(ciphertext@, key@).take(i as int));
        }
    }
    proof {
        assert(out@ =~= decrypt_stream(ciphertext@, key@));
    }
    Some(out)
}

/// Encoding under a wholly alphabetic, nonempty key always succeeds, and
/// decoding the result under the same key restores the text.
pub proof fn lemma_vigenere_round_trip(t: Seq<char>, k: Seq<char>)
    requires
        k.len() > 0,
        forall|i: int| 0 <= i < k.len() ==> is_alpha(k[i]),
    ensures
        vig_encrypt(t, k) matches Some(c) && vig_decrypt(c, k) == Some(t),
{
    assert forall|i: int| 0 <= i < stream_len(t, k) implies is_alpha(cycled(k, i)) by {
        assert(0 <= i % (k.len() as int) && i % (k.len() as int) < k.len() as int);
    };
    let c = encrypt_stream(t, k);
    assert forall|i: int| 0 <= i < stream_len(c, k) implies is_alpha(cycled(k, i)) by {
        assert(0 <= i % (k.len() as int) && i % (k.len() as int) < k.len() as int);
    };
    assert forall|i: int| 0 <= i < t.len() implies decrypt_stream(c, k)[i] == t[i] by {
        lemma_rot_char_inverse(t[i], alpha_pos(cycled(k, i)));
    };
    assert(decrypt_stream(c, k) =~= t);
}

/// The lowercase letter witnessing the rotation from `p` to `c`.
pub open spec fn key_letter(p: char, c: char) -> char {
    (97 + ((c as int - p as int) % 26)) as char
}

/// The raw key letters read off an aligned pair, position by position: a
/// pair of letters contributes the letter witnessing its rotation, a pair of
/// equal non-letters contributes nothing, and any other combination makes
/// the pair indeterminate.
pub open spec fn raw_key(p: Seq<char>, c: Seq<char>) -> Option<Seq<char>>
    decreases p.len(),
{
    if p.len() == 0 || c.len() == 0 {
        Some(Seq::empty())
    } else if is_alpha(p[0]) && is_alpha(c[0]) {
        match raw_key(p.drop_first(), c.drop_first()) {
            Some(rest) => Some(seq![key_letter(p[0], c[0])] + rest),
            None => None,
        }
    } else if !is_alpha(p[0]) && !is_alpha(c[0]) && p[0] == c[0] {
        raw_key(p.drop_first(), c.drop_first())
    } else {
        None
    }
}

/// Over a pair whose every position holds two letters, the raw key is read
/// off position by position, with nothing skipped.
pub proof fn lemma_raw_key_all_alpha(p: Seq<char>, c: Seq<char>)
    requires
        p.len() == c.len(),
        forall|i: int| 0 <= i < p.len() ==> is_alpha(p[i]) && is_alpha(c[i]),
    ensures
        raw_key(p, c) == Some(Seq::new(p.len(), |i: int| key_letter(p[i], c[i]))),
    decreases p.len(),
{
    if p.len() == 0 {
        assert(Seq::new(p.len(), |i: int| key_letter(p[i], c[i])) =~= Seq::<char>::empty());
    } else {
        let tp = p.drop_first();
        let tc = c.drop_first();
        assert forall|i: int| 0 <= i < tp.len() implies is_alpha(tp[i]) && is_alpha(tc[i]) by {
            assert(tp[i] == p[i + 1]);
            assert(tc[i] == c[i + 1]);
        };
        lemma_raw_key_all_alpha(tp, tc);
        assert(seq![key_letter(p[0], c[0])] + Seq::new(tp.len(), |i: int| key_letter(tp[i], tc[i]))
            =~= Seq::new(p.len(), |i: int| key_letter(p[i], c[i])));
    }
}

/// The raw key that key recovery reads off a pair produced by `encrypt`
/// under a wholly lowercase key and a wholly alphabetic plaintext is exactly
/// the cycled key, letter for letter. The later reduction then cuts it to
/// its minimal repeating unit.
pub proof fn lemma_vigenere_key_recovery(t: Seq<char>, k: Seq<char>)
    requires
        k.len() > 0,
        forall|i: int| 0 <= i < k.len() ==> is_lower(k[i]),
        forall|i: int| 0 <= i < t.len() ==> is_alpha(t[i]),
    ensures
        raw_key(t, encrypt_stream(t, k)) == Some(Seq::new(t.len(), |i: int| cycled(k, i))),
{
    let c = encrypt_stream(t, k);
    assert(c.len() == t.len());
    assert forall|i: int| 0 <= i < t.len() implies is_alpha(c[i]) && key_letter(t[i], c[i])
        == cycled(k, i) by {
        assert(0 <= i % (k.len() as int) && i % (k.len() as int) < k.len() as int);
        let kc = cycled(k, i);
        assert(is_lower(kc));
        lemma_rot_char_case(t[i], alpha_pos(kc));
        lemma_rot_char_key(t[i], alpha_pos(kc));
        assert(key_letter(t[i], c[i]) as int == 97 + alpha_pos(kc));
    };
    lemma_raw_key_all_alpha(t, c);
    assert(Seq::new(t.len(), |i: int| key_letter(t[i], c[i])) =~= Seq::new(
        t.len(),
        |i: int| cycled(k, i),
    ));
}

/// Within its whole chunks of length `l`, `s` repeats its first `l`
/// characters exactly; a trailing partial chunk is not checked.
pub open spec fn tiles(s: Seq<char>, l: int) -> bool {
    forall|i: int| 0 <= i < (s.len() as int / l) * l ==> #[trigger] s[i] == s[i % l]
}

/// The smallest whole-chunk tiling length of `s`, searched upward from `l`
/// through half the length; the full length when no tiling exists.
pub open spec fn min_tile_from(s: Seq<char>, l: int) -> int
    decreases s.len() as int / 2 - l + 1,
{
    if l < 1 || l > s.len() as int / 2 {
        s.len() as int
    } else if tiles(s, l) {
        l
    } else {
        min_tile_from(s, l + 1)
    }
}

/// The recovered key: the raw key letters cut to their minimal repeating
/// unit, or kept whole when no shorter tiling exists.
pub open spec fn reduced_key(s: Seq<char>) -> Seq<char> {
    s.take(min_tile_from(s, 1))
}

/// A cycled key tiles by the key's own length, so the reduction of a raw key
/// read off a pair produced by `encrypt` never keeps more than one period of
/// the key that produced it.
pub proof fn lemma_cycled_key_tiles(k: Seq<char>, n: nat)
    requires
        k.len() > 0,
    ensures
        tiles(Seq::new(n, |i: int| cycled(k, i)), k.len() as int),
{
    let s = Seq::new(n, |i: int| cycled(k, i));
    let l = k.len() as int;
    assert forall|i: int| 0 <= i < (s.len() as int / l) * l implies #[trigger] s[i] == s[
        i % l
    ] by {
        lemma_fundamental_div_mod(s.len() as int, l);
        if l > s.len() {
            vstd::arithmetic::div_mod::lemma_basic_div(s.len() as int, l);
            vstd::arithmetic::mul::lemma_mul_basics(l);
        }
        assert(l <= s.len());
        assert(0 <= i % l < l);
        vstd::arithmetic::div_mod::lemma_mod_twice(i, l);
        assert(s[i] == k[i % l]);
        assert(s[i % l] == k[(i % l) % l]);
    };
}

/// Whether `letters` tiles by its first `l` characters, checked over the
/// whole chunks.
fn tiles_exec(letters: &Vec<char>, l: usize) -> (r: bool)
    requires
        1 <= l,
    ensures
        r == tiles(letters@, l as int),
{
    let n = letters.len();
    let nc = n / l;
    proof {
        lemma_fundamental_div_mod(n as int, l as int);
    }
    let end = nc * l;
    let mut i: usize = 0;
    while i < end
        invariant
            1 <= l,
            n == letters@.len(),
            end == (n as int / l as int) * l as int,
            end <= n,
            i <= end,
            forall|j: int| 0 <= j < i ==> #[trigger] letters@[j] == letters@[j % l as int],
        decreases end - i,
    {
        proof {
            if l > n {
                vstd::arithmetic::div_mod::lemma_basic_div(n as int, l as int);
                vstd::arithmetic::mul::lemma_mul_basics(l as int);
            }
        }
        if letters[i] != letters[i % l] {
            return false;
        }
        i = i + 1;
    }
    true
}

/// Recover the key from an aligned plaintext/ciphertext pair: read the raw
/// key letters off the pair, then cut them to the smallest length whose
/// repetition tiles the whole chunks of the raw key.
pub fn find_key(plaintext: &str, ciphertext: &str) -> (r: Option<String>)
    ensures
        match r {
            Some(k) => raw_key(plaintext@, ciphertext@) matches Some(raw) && k@ == reduced_key(
                raw,
            ),
            None => raw_key(plaintext@, ciphertext@) is None,
        },
{
    let ghost p = plaintext@;
    let ghost c = ciphertext@;
    let pn = plaintext.unicode_len();
    let cn = ciphertext.unicode_len();
    let n = if pn <= cn { pn } else { cn };
    let mut letters: Vec<char> = Vec::new();
    let mut i: usize = 0;
    proof {
        assert(p.skip(0) =~= p);
        assert(c.skip(0) =~= c);
    }
    while i < n
        invariant
            p == plaintext@,
            c == ciphertext@,
            n == if pn <= cn {
                pn
            } else {
                cn
            },
            pn == p.len(),
            cn == c.len(),
            i <= n,
            raw_key(p, c) == (match raw_key(p.skip(i as int), c.skip(i as int)) {
                Some(rest) => Some(letters@ + rest),
                None => None::<Seq<char>>,
            }),
        decreases n - i,
    {
        let pc = plaintext.get_char(i);
        let cc = ciphertext.get_char(i);
        proof {
            assert(p.skip(i as int)[0] == p[i as int]);
            assert(c.skip(i as int)[0] == c[i as int]);
            assert(p.skip(i as int).drop_first() =~= p.skip(i as int + 1));
            assert(c.skip(i as int).drop_first() =~= c.skip(i as int + 1));
        }
        let px = pc as u32;
        let cx = cc as u32;
        let p_alpha = (97 <= px && px <= 122) || (65 <= px && px <= 90);
        let c_alpha = (97 <= cx && cx <= 122) || (65 <= cx && cx <= 90);
        let ghost letters_pre = letters@;
        if p_alpha && c_alpha {
            let kl = (((cx + 130 - px) % 26 + 97) as u8) as char;
            proof {
                lemma_mod_multiples_vanish(5, cx as int - px as int, 26);
                assert(kl == key_letter(p[i as int], c[i as int]));
            }
            letters.push(kl);
            proof {
                if let Some(rest) = raw_key(p.skip(i as int + 1), c.skip(i as int + 1)) {
                    assert(letters_pre + (seq![kl] + rest) =~= letters@ + rest);
                }
            }
        } else if !p_alpha && !c_alpha {
            if px != cx {
                proof {
                    vstd::utf8::char_u32_cast(pc, px);
                    vstd::utf8::char_u32_cast(cc, cx);
                    assert(p[i as int] != c[i as int]);
                }
                return None;
            }
            proof {
                vstd::utf8::char_u32_cast(pc, px);
                vstd::utf8::char_u32_cast(cc, cx);
                assert(p[i as int] == c[i as int]);
            }
        } else {
            return None;
        }
        i = i + 1;
    }
    proof {
        assert(p.skip(n as int).len() == 0 || c.skip(n as int).len() == 0);
        assert(raw_key(p, c) == Some(letters@ + Seq::<char>::empty()));
        assert(letters@ + Seq::<char>::empty() =~= letters@);
    }
    let ghost raw = letters@;
    let nl = letters.len();
    let mut l: usize = 1;
    let mut found = false;
    while !found && l <= nl / 2
        invariant
            1 <= l,
            nl == raw.len(),
            letters@ == raw,
            found ==> 1 <= l as int <= nl as int / 2 && min_tile_from(raw, 1) == l as int,
            !found ==> min_tile_from(raw, 1) == min_tile_from(raw, l as int),
            !found ==> l <= nl / 2 + 1,
        decreases (if found {
            0int
        } else {
            1int
        }), nl / 2 + 1 - l,
    {
        if tiles_exec(&letters, l) {
            found = true;
        } else {
            l = l + 1;
        }
    }
    proof {
        if !found {
            assert(min_tile_from(raw, l as int) == raw.len() as int);
        }
    }
    let cut = if found {
        l
    } else {
        nl
    };
    assert(cut as int == min_tile_from(raw, 1));
    assert(cut <= nl);
    let mut out = String::new();
    let mut j: usize = 0;
    while j < cut
        invariant
            cut <= nl,
            nl == letters@.len(),
            j <= cut,
            out@ =~= letters@.take(cut as int).take(j as int),
        decreases cut - j,
    {
        let ch = letters[j];
        push_char(&mut out, ch);
        j = j + 1;
        proof {
            assert(out@ =~= letters@.take(cut as int).take(j as int));
        }
    }
    proof {
        assert(out@ =~= reduced_key(raw));
    }
    Some(out)
}

/// Field set of the Vigenère tool. Failed transforms surface as placeholder
/// text in the derived field, never as a fault.
#[derive(Clone)]
pub struct VigenereState {
    pub plaintext: String,
    pub ciphertext: String,
    pub key: String,
    pub mode: Mode,
}

/// Mathematical image of a `VigenereState`.
pub ghost struct VigenereView {
    pub plaintext: Seq<char>,
    pub ciphertext: Seq<char>,
    pub key: Seq<char>,
    pub mode: Mode,
}

impl View for VigenereState {
    type V = VigenereView;

    open spec fn view(&self) -> VigenereView {
        VigenereView {
            plaintext: self.plaintext@,
            ciphertext: self.ciphertext@,
            key: self.key@,
            mode: self.mode,
        }
    }
}

/// The state a fresh Vigenère tool starts in: everything empty, encrypt mode.
pub open spec fn vigenere_init() -> VigenereView {
    VigenereView {
        plaintext: Seq::empty(),
        ciphertext: Seq::empty(),
        key: Seq::empty(),
        mode: Mode::Encrypt,
    }
}

/// One synchronization pass: under the active mode, the derived field is
/// recomputed from the two free ones, with a placeholder where the transform
/// reports an invalid key or an inconsistent text pair.
pub open spec fn vigenere_sync(v: VigenereView) -> VigenereView {
    match v.mode {
        Mode::Encrypt => VigenereView {
            ciphertext: match vig_encrypt(v.plaintext, v.key) {
                Some(s) => s,
                None => "Invalid key"@,
            },
            ..v
        },
        Mode::Decrypt => VigenereView {
            plaintext: match vig_decrypt(v.ciphertext, v.key) {
                Some(s) => s,
                None => "Invalid key"@,
            },
            ..v
        },
        Mode::FindKey => VigenereView {
            key: match raw_key(v.plaintext, v.ciphertext) {
                Some(raw) => reduced_key(raw),
                None => "Invalid text"@,
            },
            ..v
        },
    }
}

impl VigenereState {
    /// A fresh Vigenère tool.
    pub fn new() -> (s: VigenereState)
        ensures
            s@ == vigenere_init(),
    {
        VigenereState {
            plaintext: String::new(),
            ciphertext: String::new(),
            key: String::new(),
            mode: Mode::Encrypt,
        }
    }

    /// One controller pass under the active mode, recomputing the locked
    /// field from the free ones.
    pub fn recompute(&mut self)
        ensures
            final(self)@ == vigenere_sync(old(self)@),
    {
        match self.mode {
            Mode::Encrypt => {
                self.ciphertext = match encrypt(self.plaintext.as_str(), self.key.as_str()) {
                    Some(s) => s,
                    None => String::from_str("Invalid key"),
                };
            },
            Mode::Decrypt => {
                self.plaintext = match decrypt(self.ciphertext.as_str(), self.key.as_str()) {
                    Some(s) => s,
                    None => String::from_str("Invalid key"),
                };
            },
            Mode::FindKey => {
                self.key = match find_key(self.plaintext.as_str(), self.ciphertext.as_str()) {
                    Some(s) => s,
                    None => String::from_str("Invalid text"),
                };
            },
        }
    }

    /// Host-facing edit of the plaintext field: discarded while the mode
    /// locks it, otherwise applied and followed by one controller pass.
    pub fn edit_plaintext(&mut self, value: String)
        ensures
            spec_locked(old(self)@.mode) == Field::Plaintext ==> final(self)@ == old(self)@,
            spec_locked(old(self)@.mode) != Field::Plaintext ==> final(self)@ == vigenere_sync(
                VigenereView { plaintext: value@, ..old(self)@ },
            ),
    {
        if self.mode == Mode::Decrypt {
            return ;
        }
        self.plaintext = value;
        self.recompute();
    }

    /// Host-facing edit of the key field: discarded while the mode locks it,
    /// otherwise applied and followed by one controller pass.
    pub fn edit_key(&mut self, value: String)
        ensures
            spec_locked(old(self)@.mode) == Field::Key ==> final(self)@ == old(self)@,
            spec_locked(old(self)@.mode) != Field::Key ==> final(self)@ == vigenere_sync(
                VigenereView { key: value@, ..old(self)@ },
            ),
    {
        if self.mode == Mode::FindKey {
            return ;
        }
        self.key = value;
        self.recompute();
    }

    /// Host-facing edit of the ciphertext field: discarded while the mode
    /// locks it, otherwise applied and followed by one controller pass.
    pub fn edit_ciphertext(&mut self, value: String)
        ensures
            spec_locked(old(self)@.mode) == Field::Ciphertext ==> final(self)@ == old(self)@,
            spec_locked(old(self)@.mode) != Field::Ciphertext ==> final(self)@ == vigenere_sync(
                VigenereView { ciphertext: value@, ..old(self)@ },
            ),
    {
        if self.mode == Mode::Encrypt {
            return ;
        }
        self.ciphertext = value;
        self.recompute();
    }

    /// Switch the active mode and recompute at once, so the state the host
    /// sees is consistent with the new mode.
    pub fn set_mode(&mut self, mode: Mode)
        ensures
            final(self)@ == vigenere_sync(VigenereView { mode: mode, ..old(self)@ }),
    {
        self.mode = mode;
        self.recompute();
    }
}

} // verus!
