//! Base64 tool: standard Base64 over the UTF-8 bytes of the text. The
//! encoding itself comes from the `base64` crate behind trusted wrappers;
//! everything around the calls — the byte/text plumbing and the round trip —
//! is verified against vstd's UTF-8 model.

use vstd::prelude::*;
use vstd::string::StringExecFns;
use vstd::utf8::{decode_utf8, encode_utf8, encode_utf8_decode_utf8, encode_utf8_valid_utf8,
    valid_utf8};

verus! {

/// The standard Base64 encoding (with padding) of a byte sequence, as
/// `base64::encode` produces it: a function of the bytes alone.
pub uninterp spec fn base64_chars(bytes: Seq<u8>) -> Seq<char>;

/// What `base64::decode` makes of a character sequence: a function of the
/// input alone, `None` standing for a decode error.
pub uninterp spec fn base64_decoded(s: Seq<char>) -> Option<Seq<u8>>;

/// Relies on `base64::encode` (standard alphabet, with padding): the
/// encoding depends on the input bytes alone.
#[verifier::external_body]
fn encode_bytes(bytes: &[u8]) -> (r: String)
    ensures
        r@ == base64_chars(bytes@),
{
    ::base64::encode(bytes)
}

/// Relies on `base64::decode` (standard alphabet, with padding): the result
/// depends on the input alone, and decoding inverts `base64::encode`.
#[verifier::external_body]
fn decode_bytes(encoded: &str) -> (r: Option<Vec<u8>>)
    ensures
        (r is Some) == (base64_decoded(encoded@) is Some),
        r matches Some(v) ==> base64_decoded(encoded@) == Some(v@),
        r matches Some(v) ==> forall|b: Seq<u8>| encoded@ == base64_chars(b) ==> v@ == b,
        r is None ==> forall|b: Seq<u8>| encoded@ != base64_chars(b),
{
    ::base64::decode(encoded).ok()
}

/// Relies on `String::from_utf8`: it succeeds exactly on valid UTF-8 and
/// returns the string made of those bytes.
#[verifier::external_body]
fn bytes_to_string(bytes: Vec<u8>) -> (r: Option<String>)
    ensures
        (r is Some) == valid_utf8(bytes@),
        r matches Some(s) ==> s@ == decode_utf8(bytes@),
{
    String::from_utf8(bytes).ok()
}

/// Encode the UTF-8 byte representation of `plaintext` as standard Base64.
pub fn base64_encode(plaintext: &str) -> (r: String)
    ensures
        r@ == base64_chars(encode_utf8(plaintext@)),
{
    encode_bytes(plaintext.as_bytes())
}

/// What decoding leaves for a field: the text whose UTF-8 bytes the input
/// encodes, or `None` when the input is not Base64 or its bytes are not
/// valid UTF-8.
pub open spec fn spec_base64_decode(s: Seq<char>) -> Option<Seq<char>> {
    match base64_decoded(s) {
        Some(bytes) => if valid_utf8(bytes) {
            Some(decode_utf8(bytes))
        } else {
            None
        },
        None => None,
    }
}

/// Decode standard Base64 back to text: decode to bytes, then require the
/// bytes to be valid UTF-8. Decoding gives back exactly the text whose
/// encoding was handed in: for every text `t`, an input equal to
/// `base64_encode(t)` decodes to `Some(t)`.
pub fn base64_decode(encoded: &str) -> (r: Option<String>)
    ensures
        match r {
            Some(p) => spec_base64_decode(encoded@) == Some(p@),
            None => spec_base64_decode(encoded@) is None,
        },
        forall|t: Seq<char>|
            encoded@ == base64_chars(encode_utf8(t)) ==> (r matches Some(p) && p@ == t),
{
    let decoded = decode_bytes(encoded);
    let r = match decoded {
        Some(bytes) => bytes_to_string(bytes),
        None => None,
    };
    proof {
        broadcast use encode_utf8_valid_utf8;
        broadcast use encode_utf8_decode_utf8;
    }
    r
}

/// Field set of the Base64 tool: no mode, the direction of each pass is
/// inferred from which field the host edited.
#[derive(Clone)]
pub struct Base64State {
    pub plaintext: String,
    pub base64: String,
}

/// Mathematical image of a `Base64State`.
pub ghost struct Base64View {
    pub plaintext: Seq<char>,
    pub base64: Seq<char>,
}

impl View for Base64State {
    type V = Base64View;

    open spec fn view(&self) -> Base64View {
        Base64View { plaintext: self.plaintext@, base64: self.base64@ }
    }
}

/// The state a fresh Base64 tool starts in: both fields empty.
pub open spec fn base64_init() -> Base64View {
    Base64View { plaintext: Seq::empty(), base64: Seq::empty() }
}

/// One diff-driven pass, given the view just before the host-applied edit
/// and the view just after it: a changed plaintext is re-encoded, else a
/// changed encoded field is decoded (a failure surfacing as a placeholder),
/// else nothing happens. The pass never reacts to a field it wrote itself.
pub open spec fn base64_sync(before: Base64View, after: Base64View) -> Base64View {
    if after.plaintext != before.plaintext {
        Base64View { base64: base64_chars(encode_utf8(after.plaintext)), ..after }
    } else if after.base64 != before.base64 {
        Base64View {
            plaintext: match spec_base64_decode(after.base64) {
                Some(t) => t,
                None => "Invalid"@,
            },
            ..after
        }
    } else {
        after
    }
}

impl Base64State {
    /// A fresh Base64 tool.
    pub fn new() -> (s: Base64State)
        ensures
            s@ == base64_init(),
    {
        Base64State { plaintext: String::new(), base64: String::new() }
    }

    /// One controller pass across a host-applied edit: `before` holds the
    /// field values from just before that edit, `self` the values after it.
    pub fn resync(&mut self, before: &Base64State)
        ensures
            final(self)@ == base64_sync(before@, old(self)@),
    {
        if !(self.plaintext == before.plaintext) {
            self.base64 = base64_encode(self.plaintext.as_str());
        } else if !(self.base64 == before.base64) {
            self.plaintext = match base64_decode(self.base64.as_str()) {
                Some(s) => s,
                None => String::from_str("Invalid"),
            };
        }
    }

    /// Host-facing edit of the plaintext field: apply it and run one pass.
    pub fn edit_plaintext(&mut self, value: String)
        ensures
            final(self)@ == base64_sync(old(self)@, Base64View { plaintext: value@, ..old(self)@ }),
    {
        let changed = !(self.plaintext == value);
        self.plaintext = value;
        if changed {
            self.base64 = base64_encode(self.plaintext.as_str());
        }
    }

    /// Host-facing edit of the encoded field: apply it and run one pass.
    pub fn edit_base64(&mut self, value: String)
        ensures
            final(self)@ == base64_sync(old(self)@, Base64View { base64: value@, ..old(self)@ }),
    {
        let changed = !(self.base64 == value);
        self.base64 = value;
        if changed {
            self.plaintext = match base64_decode(self.base64.as_str()) {
                Some(s) => s,
                None => String::from_str("Invalid"),
            };
        }
    }
}

} // verus!
