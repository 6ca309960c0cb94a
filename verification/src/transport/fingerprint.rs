//! Certificates by their SHA-256, as people copy it from one screen to
//! another.

use crate::crypto::{hashable, sha256_digest, sha256_of};
use crate::hex::{
    digit_value, hex_of, lemma_pair_of_byte, lemma_the_digits, pair_value, value_of_pair,
};
use crate::text::{ascii_lower, chars_of, decimal, push_decimal, same_but_case};
use vstd::prelude::*;

verus! {

/// SHA-256 of a certificate's DER encoding.
#[derive(Debug, Clone, Copy)]
pub struct Fingerprint {
    bytes: [u8; 32],
}

impl View for Fingerprint {
    type V = Seq<u8>;

    closed spec fn view(&self) -> Seq<u8> {
        self.bytes@
    }
}

impl PartialEq for Fingerprint {
    fn eq(&self, other: &Self) -> (same: bool) {
        let mut i: usize = 0;
        while i < 32
            invariant
                i <= 32,
                forall|j: int| 0 <= j < i ==> self.bytes@[j] == other.bytes@[j],
            decreases 32 - i,
        {
            if self.bytes[i] != other.bytes[i] {
                return false;
            }
            i = i + 1;
        }
        assert(self.bytes@ =~= other.bytes@);
        true
    }
}

impl vstd::std_specs::cmp::PartialEqSpecImpl for Fingerprint {
    open spec fn obeys_eq_spec() -> bool {
        true
    }

    open spec fn eq_spec(&self, other: &Self) -> bool {
        self@ == other@
    }
}

impl Eq for Fingerprint {

}

/// Why a text is no fingerprint.
#[derive(Debug, PartialEq, Eq)]
pub enum NotFingerprint {
    /// It does not have 64 digits; this many bytes are left without the
    /// separators.
    Length(usize),
    /// It holds something that is no hexadecimal digit.
    NotHex(String),
}

impl NotFingerprint {
    pub open spec fn says(&self) -> Seq<char> {
        match self {
            NotFingerprint::Length(n) => "invalid fingerprint: expected 64 hex digits, got "@
                + decimal(*n as nat),
            NotFingerprint::NotHex(s) => "invalid fingerprint: not hex: "@ + s@,
        }
    }

    pub fn message(&self) -> (text: String)
        ensures
            text@ == self.says(),
    {
        match self {
            NotFingerprint::Length(n) => {
                let mut text = "invalid fingerprint: expected 64 hex digits, got ".to_owned();
                push_decimal(&mut text, *n as u64);
                text
            },
            NotFingerprint::NotHex(s) => {
                let mut text = "invalid fingerprint: not hex: ".to_owned();
                text.append(s);
                text
            },
        }
    }
}

/// `:`, a space or `-`, which fingerprints are often displayed with.
pub open spec fn is_separator(c: char) -> bool {
    c == ':' || c == ' ' || c == '-'
}

/// A text without its separators.
pub open spec fn compact(s: Seq<char>) -> Seq<char> {
    s.filter(|c: char| !is_separator(c))
}

/// The bytes that 64 hexadecimal digits write, once the separators are gone.
pub open spec fn read_bytes(s: Seq<char>) -> Option<Seq<u8>> {
    let digits = compact(s);
    if digits.len() == 64 && forall|i: int|
        0 <= i < 32 ==> pair_value(#[trigger] digits[2 * i], digits[2 * i + 1]) is Some {
        Some(Seq::new(32, |i: int| pair_value(digits[2 * i], digits[2 * i + 1])->0))
    } else {
        None
    }
}

/// The number of bytes a text takes in UTF-8.
pub open spec fn utf8_len(s: Seq<char>) -> nat {
    vstd::utf8::encode_utf8(s).len()
}

fn without_separators(s: &[char]) -> (rest: Vec<char>)
    ensures
        rest@ == compact(s@),
{
    let mut rest: Vec<char> = Vec::new();
    let mut i: usize = 0;
    assert(compact(s@.take(0)) =~= Seq::<char>::empty()) by {
        reveal(Seq::filter);
    }
    while i < s.len()
        invariant
            i <= s@.len(),
            rest@ == compact(s@.take(i as int)),
        decreases s.len() - i,
    {
        proof {
            reveal(Seq::filter);
            assert(s@.take(i + 1).drop_last() =~= s@.take(i as int));
            assert(s@.take(i + 1).last() == s@[i as int]);
        }
        let c = s[i];
        if !(c == ':' || c == ' ' || c == '-') {
            rest.push(c);
        }
        i = i + 1;
    }
    assert(s@.take(i as int) =~= s@);
    rest
}

impl Fingerprint {
    pub fn from_bytes(bytes: [u8; 32]) -> (fingerprint: Fingerprint)
        ensures
            fingerprint@ == bytes@,
    {
        Fingerprint { bytes }
    }

    pub fn as_bytes(&self) -> (bytes: &[u8; 32])
        ensures
            bytes@ == self@,
    {
        &self.bytes
    }

    /// The fingerprint of a certificate.
    pub fn of(certificate: &[u8]) -> (fingerprint: Fingerprint)
        requires
            hashable(certificate@.len()),
        ensures
            fingerprint@ == sha256_of(certificate@),
    {
        Fingerprint { bytes: sha256_digest(certificate) }
    }

    /// Whether a peer that presents `certificate` is the one pinned: exactly
    /// one certificate is, by its SHA-256.
    pub fn pins(&self, certificate: &[u8]) -> (yes: bool)
        requires
            hashable(certificate@.len()),
        ensures
            yes == (sha256_of(certificate@) == self@),
    {
        let presented = Fingerprint::of(certificate);
        presented == *self
    }

    /// 64 small hexadecimal digits.
    pub fn text(&self) -> (text: String)
        ensures
            text@ == hex_of(self@),
    {
        crate::hex::hex(self.bytes.as_slice())
    }

    /// Accepts 64 hex digits, optionally split by `:` or spaces the way
    /// fingerprints are often displayed.
    pub fn from_text(s: &str) -> (read: Result<Fingerprint, NotFingerprint>)
        ensures
            match read {
                Ok(fingerprint) => read_bytes(s@) == Some(fingerprint@),
                Err(NotFingerprint::Length(n)) => n == utf8_len(compact(s@)) && n != 64,
                Err(NotFingerprint::NotHex(text)) => text@ == s@ && utf8_len(compact(s@)) == 64
                    && read_bytes(s@) is None,
            },
            read_bytes(s@) is Some <==> read is Ok,
    {
        let chars = chars_of(s);
        let digits = without_separators(&chars);
        let compacted = crate::text::text_of(&digits);
        let bytes: usize = compacted.as_str().as_bytes().len();
        if bytes != 64 {
            proof {
                if read_bytes(s@) is Some {
                    lemma_hex_is_ascii(digits@);
                }
            }
            return Err(NotFingerprint::Length(bytes));
        }
        if digits.len() != 64 {
            return Err(NotFingerprint::NotHex(s.to_owned()));
        }
        let mut read: [u8; 32] = [0; 32];
        let mut i: usize = 0;
        while i < 32
            invariant
                i <= 32,
                digits@ == compact(s@),
                digits@.len() == 64,
                utf8_len(compact(s@)) == 64,
                forall|j: int|
                    0 <= j < i ==> pair_value(#[trigger] digits@[2 * j], digits@[2 * j + 1])
                        == Some(read@[j]),
            decreases 32 - i,
        {
            match value_of_pair(digits[2 * i], digits[2 * i + 1]) {
                Some(b) => {
                    read[i] = b;
                },
                None => {
                    assert(pair_value(digits@[2 * (i as int)], digits@[2 * (i as int) + 1])
                        is None);
                    return Err(NotFingerprint::NotHex(s.to_owned()));
                },
            }
            i = i + 1;
        }
        proof {
            assert(read_bytes(s@)->0 =~= read@);
        }
        Ok(Fingerprint { bytes: read })
    }
}

impl std::str::FromStr for Fingerprint {
    type Err = NotFingerprint;

    fn from_str(s: &str) -> (read: Result<Fingerprint, NotFingerprint>)
        ensures
            match read {
                Ok(fingerprint) => read_bytes(s@) == Some(fingerprint@),
                Err(NotFingerprint::Length(n)) => n == utf8_len(compact(s@)) && n != 64,
                Err(NotFingerprint::NotHex(text)) => text@ == s@ && utf8_len(compact(s@)) == 64
                    && read_bytes(s@) is None,
            },
            read_bytes(s@) is Some <==> read is Ok,
    {
        Fingerprint::from_text(s)
    }
}

/// Hexadecimal digits are ASCII: a byte each.
proof fn lemma_hex_is_ascii(digits: Seq<char>)
    requires
        digits.len() == 64,
        forall|i: int|
            0 <= i < 32 ==> pair_value(#[trigger] digits[2 * i], digits[2 * i + 1]) is Some,
    ensures
        utf8_len(digits) == 64,
{
    assert(vstd::utf8::is_ascii_chars(digits)) by {
        assert forall|i: int| 0 <= i < digits.len() implies '\0' <= #[trigger] digits[i]
            <= '\u{7f}' by {
            let j = i / 2;
            assert(pair_value(digits[2 * j], digits[2 * j + 1]) is Some);
            assert(i == 2 * j || i == 2 * j + 1);
        }
    }
    vstd::utf8::is_ascii_chars_encode_utf8(digits);
}

/// There are 32 bytes in a fingerprint.
pub proof fn lemma_length(fingerprint: Fingerprint)
    ensures
        fingerprint@.len() == 32,
{
}

/// A fingerprint written out reads back as itself.
pub proof fn lemma_text_reads_back(fingerprint: Fingerprint)
    ensures
        read_bytes(hex_of(fingerprint@)) == Some(fingerprint@),
{
    lemma_hex_reads_back(fingerprint@);
}

/// 32 bytes written out in hexadecimal digits read back as themselves.
pub proof fn lemma_hex_reads_back(bytes: Seq<u8>)
    requires
        bytes.len() == 32,
    ensures
        read_bytes(hex_of(bytes)) == Some(bytes),
{
    let text = hex_of(bytes);
    assert(text.len() == 64);
    lemma_no_separators(text, 64);
    assert(text.take(64) =~= text);
    assert forall|i: int| 0 <= i < 32 implies pair_value(
        #[trigger] text[2 * i],
        text[2 * i + 1],
    ) == Some(bytes[i]) by {
        lemma_pair_of_byte(bytes[i]);
        assert((2 * i) / 2 == i && (2 * i + 1) / 2 == i);
    }
    assert(read_bytes(text)->0 =~= bytes);
}

proof fn lemma_no_separators(text: Seq<char>, n: int)
    requires
        0 <= n <= text.len(),
        exists|bytes: Seq<u8>| text == #[trigger] hex_of(bytes),
    ensures
        compact(text.take(n)) == text.take(n),
    decreases n,
{
    reveal(Seq::filter);
    if n > 0 {
        let bytes = choose|bytes: Seq<u8>| text == #[trigger] hex_of(bytes);
        lemma_no_separators(text, n - 1);
        assert(text.take(n).drop_last() =~= text.take(n - 1));
        assert(text.take(n).last() == text[n - 1]);
        assert(!is_separator(text[n - 1]));
        assert(compact(text.take(n)) =~= text.take(n));
    } else {
        assert(compact(text.take(0)) =~= text.take(0));
    }
}

/// A fingerprint is read from its own digits, in either case, whatever
/// separators stand between them; and from nothing else.
pub proof fn lemma_what_is_read_was_written(s: Seq<char>)
    ensures
        read_bytes(s) matches Some(bytes) ==> bytes.len() == 32 && same_but_case(
            hex_of(bytes),
            s.filter(|c: char| c != ':' && c != ' ' && c != '-'),
        ),
{
    let all = s.filter(|c: char| c != ':' && c != ' ' && c != '-');
    lemma_separators(s);
    if let Some(bytes) = read_bytes(s) {
        assert forall|k: int| 0 <= k < 64 implies ascii_lower(#[trigger] hex_of(bytes)[k])
            == ascii_lower(all[k]) by {
            let i = k / 2;
            assert(pair_value(all[2 * i], all[2 * i + 1]) is Some);
            assert(bytes[i] == pair_value(all[2 * i], all[2 * i + 1])->0);
            lemma_the_digits(0, all[2 * i]);
            lemma_the_digits(0, all[2 * i + 1]);
            let h = digit_value(all[2 * i])->0;
            let l = digit_value(all[2 * i + 1])->0;
            assert(bytes[i] as int / 16 == h && bytes[i] as int % 16 == l);
            reveal_strlit("0123456789abcdef");
            reveal_strlit("0123456789ABCDEF");
        }
    }
}

proof fn lemma_separators(s: Seq<char>)
    ensures
        compact(s) == s.filter(|c: char| c != ':' && c != ' ' && c != '-'),
    decreases s.len(),
{
    reveal(Seq::filter);
    if s.len() > 0 {
        lemma_separators(s.drop_last());
    }
}

}
