use vstd::prelude::*;

verus! {

use vstd::arithmetic::power2::{lemma2_to64, pow2};

/// A well-formed symbol table for a `w`-bit encoding: one symbol per value in
/// `[0, 2^w)`, all distinct, and none of them the alignment character `=`
/// (so that the body/alignment split of an encoded string is unambiguous).
pub open spec fn alphabet_wf(a: Seq<u8>, w: nat) -> bool {
    &&& 1 <= w <= 6
    &&& a.len() == pow2(w)
    &&& forall|i: int, j: int| 0 <= i < j < a.len() ==> a[i] != a[j]
    &&& forall|i: int| 0 <= i < a.len() ==> a[i] != ('=' as u8)
}

/// Symbol at position `i` of the RFC 4648 base64 alphabet
/// `A-Z a-z 0-9 + /`.
pub open spec fn base64_symbol(i: int) -> u8 {
    if 0 <= i < 26 {
        (65 + i) as u8  // 'A'..'Z'
    } else if 26 <= i < 52 {
        (71 + i) as u8  // 'a'..'z'
    } else if 52 <= i < 62 {
        (i - 4) as u8  // '0'..'9'
    } else if i == 62 {
        43u8  // '+'
    } else {
        47u8  // '/'
    }
}

/// Symbol at position `i` of the URL-safe base64 alphabet, which replaces
/// `+` and `/` by `-` and `_`.
pub open spec fn base64_urlsafe_symbol(i: int) -> u8 {
    if i == 62 {
        45u8  // '-'
    } else if i == 63 {
        95u8  // '_'
    } else {
        base64_symbol(i)
    }
}

/// Symbol at position `i` of the RFC 4648 base32 alphabet `A-Z 2-7`.
pub open spec fn base32_symbol(i: int) -> u8 {
    if 0 <= i < 26 {
        (65 + i) as u8  // 'A'..'Z'
    } else {
        (24 + i) as u8  // '2'..'7'
    }
}

pub open spec fn base64_alphabet() -> Seq<u8> {
    Seq::new(64, |i: int| base64_symbol(i))
}

pub open spec fn base64_urlsafe_alphabet() -> Seq<u8> {
    Seq::new(64, |i: int| base64_urlsafe_symbol(i))
}

pub open spec fn base32_alphabet() -> Seq<u8> {
    Seq::new(32, |i: int| base32_symbol(i))
}

pub proof fn lemma_base64_alphabet_wf()
    ensures
        alphabet_wf(base64_alphabet(), 6),
{
    lemma2_to64();
}

pub proof fn lemma_base64_urlsafe_alphabet_wf()
    ensures
        alphabet_wf(base64_urlsafe_alphabet(), 6),
{
    lemma2_to64();
}

pub proof fn lemma_base32_alphabet_wf()
    ensures
        alphabet_wf(base32_alphabet(), 5),
{
    lemma2_to64();
}

/// What `base64::decode` yields on a text: the RFC 4648 standard-alphabet
/// decoding with padding, or `None` on malformed input.
pub uninterp spec fn base64_decoding(s: Seq<char>) -> Option<Seq<u8>>;

/// What `base64::decode_config` with the URL-safe configuration yields on a
/// text, or `None` on malformed input.
pub uninterp spec fn base64_urlsafe_decoding(s: Seq<char>) -> Option<Seq<u8>>;

/// What `base32::decode` with the padded RFC 4648 alphabet yields on a text,
/// or `None` on malformed input.
pub uninterp spec fn base32_decoding(s: Seq<char>) -> Option<Seq<u8>>;

/// Relies on `base64::decode`: decodes RFC 4648 standard-alphabet base64 with
/// padding; a deterministic function of the input text alone, failing on
/// malformed input.
#[verifier::external_body]
fn base64_decode_raw(input: &str) -> (r: Option<Vec<u8>>)
    ensures
        r is Some <==> base64_decoding(input@) is Some,
        r matches Some(v) ==> base64_decoding(input@) matches Some(d) && v@ == d,
{
    match base64::decode(input) {
        Ok(v) => Some(v),
        Err(_) => None,
    }
}

/// Relies on `base64::decode_config` with `base64::URL_SAFE`: decodes RFC 4648
/// URL-safe base64 with padding; a deterministic function of the input text
/// alone, failing on malformed input.
#[verifier::external_body]
fn base64_urlsafe_decode_raw(input: &str) -> (r: Option<Vec<u8>>)
    ensures
        r is Some <==> base64_urlsafe_decoding(input@) is Some,
        r matches Some(v) ==> base64_urlsafe_decoding(input@) matches Some(d) && v@ == d,
{
    match base64::decode_config(input, base64::URL_SAFE) {
        Ok(v) => Some(v),
        Err(_) => None,
    }
}

/// Relies on `base32::decode` with `base32::Alphabet::RFC4648 { padding: true }`:
/// decodes RFC 4648 base32; a deterministic function of the input text alone,
/// failing on non-ASCII input or bytes outside its (lenient) symbol mapping.
#[verifier::external_body]
fn base32_decode_raw(input: &str) -> (r: Option<Vec<u8>>)
    ensures
        r is Some <==> base32_decoding(input@) is Some,
        r matches Some(v) ==> base32_decoding(input@) matches Some(d) && v@ == d,
{
    base32::decode(base32::Alphabet::RFC4648 { padding: true }, input)
}

/// An encoding scheme: its ordered symbol table, the bit-width one symbol
/// carries, a symbol membership test, and a decode operation.
pub trait DecodeContext: Sized {
    /// The ordered symbol table; a symbol's position is its decoded value.
    spec fn spec_alphabet(&self) -> Seq<u8>;

    /// Bits carried by one symbol.
    spec fn spec_bitness(&self) -> nat;

    /// What this scheme's decoder yields on a text: the decoded byte
    /// sequence, or `None` on malformed input.
    spec fn spec_decode(&self, s: Seq<char>) -> Option<Seq<u8>>;

    /// Every contract's alphabet is well-formed for its bit-width.
    proof fn lemma_wf(&self)
        ensures
            alphabet_wf(self.spec_alphabet(), self.spec_bitness()),
    ;

    fn alphabet(&self) -> (r: Vec<u8>)
        ensures
            r@ == self.spec_alphabet(),
    ;

    fn bitness(&self) -> (r: usize)
        ensures
            r == self.spec_bitness(),
    ;

    fn is_valid_byte(&self, b: u8) -> (r: bool)
        ensures
            r == self.spec_alphabet().contains(b),
    ;

    fn decode(&self, input: &str) -> (r: Option<Vec<u8>>)
        ensures
            r is Some <==> self.spec_decode(input@) is Some,
            r matches Some(v) ==> self.spec_decode(input@) matches Some(d) && v@ == d,
    ;
}

/// Linear scan for `b` in `a`.
fn vec_contains_byte(a: &Vec<u8>, b: u8) -> (r: bool)
    ensures
        r == a@.contains(b),
{
    let mut i: usize = 0;
    while i < a.len()
        invariant
            i <= a@.len(),
            forall|k: int| 0 <= k < i ==> a@[k] != b,
        decreases a@.len() - i,
    {
        if a[i] == b {
            return true;
        }
        i = i + 1;
    }
    false
}

fn base64_symbol_at(i: usize, urlsafe: bool) -> (r: u8)
    requires
        i < 64,
    ensures
        r == if urlsafe {
            base64_urlsafe_symbol(i as int)
        } else {
            base64_symbol(i as int)
        },
{
    if urlsafe && i == 62 {
        45
    } else if urlsafe && i == 63 {
        95
    } else if i < 26 {
        65 + (i as u8)
    } else if i < 52 {
        71 + (i as u8)
    } else if i < 62 {
        (i as u8) - 4
    } else if i == 62 {
        43
    } else {
        47
    }
}

fn build_base64_alphabet(urlsafe: bool) -> (r: Vec<u8>)
    ensures
        r@ == if urlsafe {
            base64_urlsafe_alphabet()
        } else {
            base64_alphabet()
        },
{
    let mut v: Vec<u8> = Vec::new();
    let mut i: usize = 0;
    while i < 64
        invariant
            i <= 64,
            v@.len() == i,
            forall|k: int|
                0 <= k < i ==> v@[k] == if urlsafe {
                    base64_urlsafe_symbol(k)
                } else {
                    base64_symbol(k)
                },
        decreases 64 - i,
    {
        v.push(base64_symbol_at(i, urlsafe));
        i = i + 1;
    }
    proof {
        if urlsafe {
            assert(v@ =~= base64_urlsafe_alphabet());
        } else {
            assert(v@ =~= base64_alphabet());
        }
    }
    v
}

fn base32_symbol_at(i: usize) -> (r: u8)
    requires
        i < 32,
    ensures
        r == base32_symbol(i as int),
{
    if i < 26 {
        65 + (i as u8)
    } else {
        24 + (i as u8)
    }
}

fn build_base32_alphabet() -> (r: Vec<u8>)
    ensures
        r@ == base32_alphabet(),
{
    let mut v: Vec<u8> = Vec::new();
    let mut i: usize = 0;
    while i < 32
        invariant
            i <= 32,
            v@.len() == i,
            forall|k: int| 0 <= k < i ==> v@[k] == base32_symbol(k),
        decreases 32 - i,
    {
        v.push(base32_symbol_at(i));
        i = i + 1;
    }
    proof {
        assert(v@ =~= base32_alphabet());
    }
    v
}

/// RFC 4648 base64 with the standard `+/` alphabet.
pub struct Base64;

impl DecodeContext for Base64 {
    open spec fn spec_alphabet(&self) -> Seq<u8> {
        base64_alphabet()
    }

    open spec fn spec_bitness(&self) -> nat {
        6
    }

    open spec fn spec_decode(&self, s: Seq<char>) -> Option<Seq<u8>> {
        base64_decoding(s)
    }

    proof fn lemma_wf(&self) {
        lemma_base64_alphabet_wf();
    }

    fn alphabet(&self) -> Vec<u8> {
        build_base64_alphabet(false)
    }

    fn bitness(&self) -> usize {
        6
    }

    fn is_valid_byte(&self, b: u8) -> bool {
        let a = self.alphabet();
        vec_contains_byte(&a, b)
    }

    fn decode(&self, input: &str) -> Option<Vec<u8>> {
        base64_decode_raw(input)
    }
}

/// RFC 4648 base64 with the URL-safe `-_` alphabet.
pub struct Base64Urlsafe;

impl DecodeContext for Base64Urlsafe {
    open spec fn spec_alphabet(&self) -> Seq<u8> {
        base64_urlsafe_alphabet()
    }

    open spec fn spec_bitness(&self) -> nat {
        6
    }

    open spec fn spec_decode(&self, s: Seq<char>) -> Option<Seq<u8>> {
        base64_urlsafe_decoding(s)
    }

    proof fn lemma_wf(&self) {
        lemma_base64_urlsafe_alphabet_wf();
    }

    fn alphabet(&self) -> Vec<u8> {
        build_base64_alphabet(true)
    }

    fn bitness(&self) -> usize {
        6
    }

    fn is_valid_byte(&self, b: u8) -> bool {
        let a = self.alphabet();
        vec_contains_byte(&a, b)
    }

    fn decode(&self, input: &str) -> Option<Vec<u8>> {
        base64_urlsafe_decode_raw(input)
    }
}

/// RFC 4648 base32 with the `A-Z 2-7` alphabet.
pub struct Base32;

impl DecodeContext for Base32 {
    open spec fn spec_alphabet(&self) -> Seq<u8> {
        base32_alphabet()
    }

    open spec fn spec_bitness(&self) -> nat {
        5
    }

    open spec fn spec_decode(&self, s: Seq<char>) -> Option<Seq<u8>> {
        base32_decoding(s)
    }

    proof fn lemma_wf(&self) {
        lemma_base32_alphabet_wf();
    }

    fn alphabet(&self) -> Vec<u8> {
        build_base32_alphabet()
    }

    fn bitness(&self) -> usize {
        5
    }

    fn is_valid_byte(&self, b: u8) -> bool {
        let a = self.alphabet();
        vec_contains_byte(&a, b)
    }

    fn decode(&self, input: &str) -> Option<Vec<u8>> {
        base32_decode_raw(input)
    }
}

} // verus!
