//! The release tool: the project's release key, and signing packages with it.
//!
//! The private key is kept as hexadecimal digits, in a file or in the
//! environment; a signature file sits beside the package it is for.

use crate::hex::{digit_value, hex, hex_of, lemma_pair_of_byte, nibble, push_hex, value_of_digit};
use crate::text::{
    ascii_lower, chars_of, decimal, eq_ignore_case, push_decimal, same_but_case, trim_text, trimmed,
};
use crate::transport::release::{Package, Release};
use vstd::prelude::*;

verus! {

/// Why a text is not bytes in hexadecimal.
#[derive(Debug, Clone, Copy, PartialEq, Eq, Structural)]
pub enum NotHex {
    OddOrNotAscii,
    NotADigit,
}

impl NotHex {
    pub open spec fn says(&self) -> Seq<char> {
        match self {
            NotHex::OddOrNotAscii => "odd length or not ASCII"@,
            NotHex::NotADigit => "not a hex digit"@,
        }
    }

    pub fn message(&self) -> (text: &'static str)
        ensures
            text@ == self.says(),
    {
        match self {
            NotHex::OddOrNotAscii => "odd length or not ASCII",
            NotHex::NotADigit => "not a hex digit",
        }
    }
}

/// The byte that two characters write: two digits of either case, or one
/// behind a plus sign.
pub open spec fn byte_of(high: char, low: char) -> Option<u8> {
    match (digit_value(high), digit_value(low)) {
        (Some(h), Some(l)) => Some((h * 16 + l) as u8),
        (None, Some(l)) => if high == '+' {
            Some(l as u8)
        } else {
            None
        },
        _ => None,
    }
}

fn read_byte(high: char, low: char) -> (byte: Option<u8>)
    ensures
        byte == byte_of(high, low),
{
    match (value_of_digit(high), value_of_digit(low)) {
        (Some(h), Some(l)) => Some(h * 16 + l),
        (None, Some(l)) => if high == '+' {
            Some(l)
        } else {
            None
        },
        _ => None,
    }
}

pub open spec fn ascii(text: Seq<char>) -> bool {
    forall|i: int| 0 <= i < text.len() ==> (#[trigger] text[i]) <= '\u{7F}'
}

/// The bytes that a text writes in pairs of characters.
pub open spec fn bytes_in(text: Seq<char>) -> Option<Seq<u8>>
    decreases text.len(),
{
    if text.len() < 2 {
        Some(Seq::empty())
    } else {
        let n = text.len() - 2;
        match (bytes_in(text.take(n)), byte_of(text[n], text[n + 1])) {
            (Some(bytes), Some(byte)) => Some(bytes.push(byte)),
            _ => None,
        }
    }
}

/// Bytes from hexadecimal digits.
pub fn unhex(text: &str) -> (bytes: Result<Vec<u8>, NotHex>)
    ensures
        match bytes {
            Ok(bytes) => ascii(text@) && text@.len() % 2 == 0 && bytes_in(text@) == Some(bytes@),
            Err(NotHex::OddOrNotAscii) => !ascii(text@) || text@.len() % 2 != 0,
            Err(NotHex::NotADigit) => ascii(text@) && text@.len() % 2 == 0 && bytes_in(
                text@,
            ) is None,
        },
{
    let chars = chars_of(text);
    let mut i: usize = 0;
    while i < chars.len()
        invariant
            i <= chars@.len(),
            chars@ == text@,
            forall|j: int| 0 <= j < i ==> (#[trigger] chars@[j]) <= '\u{7F}',
        decreases chars.len() - i,
    {
        if chars[i] > '\u{7F}' {
            assert(text@[i as int] > '\u{7F}');
            return Err(NotHex::OddOrNotAscii);
        }
        i = i + 1;
    }
    if chars.len() % 2 != 0 {
        return Err(NotHex::OddOrNotAscii);
    }
    let mut bytes: Vec<u8> = Vec::new();
    let mut n: usize = 0;
    while n < chars.len()
        invariant
            n <= chars@.len(),
            n % 2 == 0,
            chars@.len() % 2 == 0,
            chars@ == text@,
            ascii(text@),
            bytes_in(chars@.take(n as int)) == Some(bytes@),
        decreases chars.len() - n,
    {
        let ghost head = chars@.take(n + 2);
        assert(head.take(n as int) =~= chars@.take(n as int));
        match read_byte(chars[n], chars[n + 1]) {
            Some(byte) => bytes.push(byte),
            None => {
                proof {
                    lemma_bad_pair(chars@, n as int);
                }
                return Err(NotHex::NotADigit);
            },
        }
        n = n + 2;
    }
    assert(chars@.take(n as int) =~= text@);
    Ok(bytes)
}

/// One pair that writes nothing spoils the rest.
proof fn lemma_bad_pair(text: Seq<char>, n: int)
    requires
        0 <= n < text.len() - 1,
        n % 2 == 0,
        text.len() % 2 == 0,
        byte_of(text[n], text[n + 1]) is None,
    ensures
        bytes_in(text) is None,
    decreases text.len(),
{
    if n < text.len() - 2 {
        lemma_bad_pair(text.take(text.len() - 2), n);
    }
}

/// A key reads back from the digits it is written in.
pub proof fn lemma_keys_read_back(bytes: Seq<u8>)
    ensures
        ascii(hex_of(bytes)),
        hex_of(bytes).len() % 2 == 0,
        bytes_in(hex_of(bytes)) == Some(bytes),
    decreases bytes.len(),
{
    if bytes.len() == 0 {
        assert(bytes =~= Seq::empty());
        assert(hex_of(bytes).len() == 0);
    } else {
        let less = bytes.drop_last();
        lemma_keys_read_back(less);
        let text = hex_of(bytes);
        let b = bytes.last();
        crate::hex::lemma_hex_push(less, b);
        assert(less.push(b) =~= bytes);
        assert(text.take(text.len() - 2) =~= hex_of(less));
        lemma_pair_of_byte(b);
        assert(text[text.len() - 2] == nibble(b as int / 16));
        assert(text[text.len() - 1] == nibble(b as int % 16));
        assert(bytes_in(text) == Some(less.push(b)));
        assert forall|i: int| 0 <= i < text.len() implies (#[trigger] text[i]) <= '\u{7F}' by {
            if i < text.len() - 2 {
                assert(hex_of(less)[i] == text[i]);
            }
        }
    }
}

/// The private key, from the text it is kept in.
pub fn private_key(text: &str) -> (key: Result<Vec<u8>, String>)
    ensures
        match key {
            Ok(key) => ascii(trimmed(text@)) && trimmed(text@).len() % 2 == 0 && bytes_in(
                trimmed(text@),
            ) == Some(key@),
            Err(why) => why@ == "the release key is not hex"@ && !(ascii(trimmed(text@))
                && trimmed(text@).len() % 2 == 0 && bytes_in(trimmed(text@)) is Some),
        },
{
    match unhex(&trim_text(text)) {
        Ok(key) => Ok(key),
        Err(_) => Err("the release key is not hex".to_owned()),
    }
}

/// What `keygen` writes: the private key in hexadecimal, on a line.
pub fn key_file(private: &[u8]) -> (text: String)
    ensures
        text@ == hex_of(private@) + "\n"@,
{
    let mut text = hex(private);
    text.append("\n");
    text
}

/// What kind of package a file is, from the extension of its name.
pub fn package_kind(path: &str, extension: Option<&str>) -> (kind: Result<Package, String>)
    ensures
        match kind {
            Ok(package) => package == Package::Msi && (extension matches Some(e) && same_but_case(
                e@,
                "msi"@,
            )),
            Err(why) => why@ == path@ + " is not a package releases know: .msi"@ && !(
            extension matches Some(e) && same_but_case(e@, "msi"@)),
        },
{
    if let Some(e) = extension {
        if eq_ignore_case(&chars_of(e), &chars_of("msi")) {
            return Ok(Package::Msi);
        }
    }
    let mut why = path.to_owned();
    why.append(" is not a package releases know: .msi");
    Err(why)
}

/// Where a package's signature file is: beside it.
pub fn signature_path(package: &str) -> (path: String)
    ensures
        path@ == package@ + ".release"@,
{
    let mut path = package.to_owned();
    path.append(".release");
    path
}

/// Whether to sign with a key. One that agents do not trust is for tests
/// only, and has to be asked for.
pub fn may_sign(public: &[u8; 32], trusted: &[u8; 32], other_key: bool) -> (verdict: Result<
    (),
    String,
>)
    ensures
        match verdict {
            Ok(()) => public@ == trusted@ || other_key,
            Err(why) => public@ != trusted@ && !other_key && why@
                == "this key is not the release key agents trust (its public half is "@ + hex_of(
                public@,
            ) + "); --other-key signs anyway, for tests"@,
        },
{
    if other_key || crate::bytes::same_bytes(public.as_slice(), trusted.as_slice()) {
        return Ok(());
    }
    let mut why = "this key is not the release key agents trust (its public half is ".to_owned();
    push_hex(&mut why, public.as_slice());
    why.append("); --other-key signs anyway, for tests");
    Err(why)
}

/// What `verify` says of a package that is what was signed.
pub fn good(release: &Release) -> (text: String)
    ensures
        text@ == "good: "@ + release.product@ + " "@ + release.version.written() + " for "@
            + release.platform@ + ", "@ + decimal(release.size as nat) + " bytes"@,
{
    let mut text = "good: ".to_owned();
    text.append(&release.product);
    text.append(" ");
    text.append(&release.version.text());
    text.append(" for ");
    text.append(&release.platform);
    text.append(", ");
    push_decimal(&mut text, release.size);
    text.append(" bytes");
    text
}

/// `0x12,`
pub open spec fn item(b: u8) -> Seq<char> {
    "0x"@ + hex_of(seq![b]) + ","@
}

/// The first bytes of an array, eight to a line, as `rustfmt` would have it.
pub open spec fn items(bytes: Seq<u8>) -> Seq<char>
    decreases bytes.len(),
{
    if bytes.len() == 0 {
        Seq::empty()
    } else {
        let n = bytes.len() - 1;
        let gap = if n == 0 {
            "    "@
        } else if n % 8 == 0 {
            "\n    "@
        } else {
            " "@
        };
        items(bytes.drop_last()) + gap + item(bytes.last())
    }
}

/// `[0x12, 0x34, …]`, eight to a line.
pub fn rust_array(bytes: &[u8]) -> (text: String)
    ensures
        text@ == "[\n"@ + items(bytes@) + "\n]"@,
{
    let mut text = "[\n".to_owned();
    let mut n: usize = 0;
    assert(items(bytes@.take(0)) =~= Seq::<char>::empty());
    assert("[\n"@ + Seq::<char>::empty() =~= "[\n"@);
    while n < bytes.len()
        invariant
            n <= bytes@.len(),
            text@ == "[\n"@ + items(bytes@.take(n as int)),
        decreases bytes.len() - n,
    {
        let ghost head = bytes@.take(n + 1);
        assert(head.drop_last() =~= bytes@.take(n as int));
        if n == 0 {
            text.append("    ");
        } else if n % 8 == 0 {
            text.append("\n    ");
        } else {
            text.append(" ");
        }
        text.append("0x");
        let one = vec![bytes[n]];
        assert(one@ =~= seq![bytes@[n as int]]);
        push_hex(&mut text, &one);
        text.append(",");
        assert(text@ =~= "[\n"@ + items(head));
        n = n + 1;
    }
    assert(bytes@.take(n as int) =~= bytes@);
    text.append("\n]");
    text
}

/// The case of the digits does not matter.
pub proof fn lemma_keys_are_read_in_either_case(a: Seq<char>, b: Seq<char>)
    requires
        same_but_case(a, b),
    ensures
        bytes_in(a) == bytes_in(b),
    decreases a.len(),
{
    if a.len() >= 2 {
        let n = a.len() - 2;
        assert forall|i: int| 0 <= i < n implies ascii_lower(#[trigger] a.take(n)[i])
            == ascii_lower(b.take(n)[i]) by {
            assert(ascii_lower(a[i]) == ascii_lower(b[i]));
        }
        lemma_keys_are_read_in_either_case(a.take(n), b.take(n));
        assert(ascii_lower(a[n]) == ascii_lower(b[n]));
        assert(ascii_lower(a[n + 1]) == ascii_lower(b[n + 1]));
        assert(digit_value(a[n]) == digit_value(b[n]));
        assert(digit_value(a[n + 1]) == digit_value(b[n + 1]));
    }
}

/// Bytes as source code: eight stand on a line, each as `0x`, its two digits
/// and a comma, with a space between them and four in front of the line.
pub proof fn lemma_eight_bytes_to_a_line(line: Seq<u8>, lines: Seq<u8>, more: Seq<u8>, b: u8)
    requires
        0 < line.len() < 8,
        lines.len() % 8 == 0 && lines.len() > 0,
        more.len() > 0,
    ensures
        items(seq![b]) == "    0x"@ + hex_of(seq![b]) + ","@,
        items(line.push(b)) == items(line) + " 0x"@ + hex_of(seq![b]) + ","@,
        items(lines + more) == items(lines) + "\n"@ + items(more),
{
    reveal_with_fuel(items, 2);
    reveal_strlit("    ");
    reveal_strlit("    0x");
    reveal_strlit(" ");
    reveal_strlit(" 0x");
    reveal_strlit("0x");
    assert("    0x"@ =~= "    "@ + "0x"@);
    assert(" 0x"@ =~= " "@ + "0x"@);
    assert(seq![b].drop_last() =~= Seq::empty());
    assert(items(seq![b]) =~= "    0x"@ + hex_of(seq![b]) + ","@);
    assert(line.push(b).drop_last() =~= line);
    assert(items(line.push(b)) =~= items(line) + " 0x"@ + hex_of(seq![b]) + ","@);
    lemma_lines_follow(lines, more);
}

proof fn lemma_lines_follow(lines: Seq<u8>, more: Seq<u8>)
    requires
        lines.len() % 8 == 0 && lines.len() > 0,
        more.len() > 0,
    ensures
        items(lines + more) == items(lines) + "\n"@ + items(more),
    decreases more.len(),
{
    let all = lines + more;
    assert(all.last() == more.last());
    assert(all.drop_last() =~= lines + more.drop_last());
    reveal_strlit("\n");
    reveal_strlit("    ");
    reveal_strlit("\n    ");
    assert("\n    "@ =~= "\n"@ + "    "@);
    if more.len() == 1 {
        reveal_with_fuel(items, 2);
        assert(more.drop_last() =~= Seq::empty());
        assert(lines + more.drop_last() =~= lines);
        assert(items(all) =~= items(lines) + "\n"@ + items(more));
    } else {
        lemma_lines_follow(lines, more.drop_last());
        assert((all.len() - 1) % 8 == (more.len() - 1) % 8);
        assert(items(all) =~= items(lines) + "\n"@ + items(more));
    }
}

}
