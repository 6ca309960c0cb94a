//! Bytes as hexadecimal text, both ways.

use vstd::prelude::*;

verus! {

/// The small hexadecimal digit for `0..=15`.
pub open spec fn nibble(d: int) -> char {
    if d < 10 {
        (48 + d) as char
    } else {
        (87 + d) as char
    }
}

/// Two small digits a byte, the high one first.
pub open spec fn hex_of(bytes: Seq<u8>) -> Seq<char> {
    Seq::new(
        2 * bytes.len(),
        |i: int|
            if i % 2 == 0 {
                nibble(bytes[i / 2] as int / 16)
            } else {
                nibble(bytes[i / 2] as int % 16)
            },
    )
}

fn nibble_char(d: u8) -> (c: char)
    requires
        d < 16,
    ensures
        c == nibble(d as int),
{
    if d < 10 {
        (48 + d) as char
    } else {
        (87 + d) as char
    }
}

pub proof fn lemma_hex_push(bytes: Seq<u8>, b: u8)
    ensures
        hex_of(bytes.push(b)) == hex_of(bytes).push(nibble(b as int / 16)).push(
            nibble(b as int % 16),
        ),
{
    let more = bytes.push(b);
    assert forall|i: int| 0 <= i < 2 * more.len() implies hex_of(more)[i] == hex_of(bytes).push(
        nibble(b as int / 16),
    ).push(nibble(b as int % 16))[i] by {
        if i < 2 * bytes.len() {
            assert(more[i / 2] == bytes[i / 2]);
        }
    }
    assert(hex_of(more) =~= hex_of(bytes).push(nibble(b as int / 16)).push(nibble(b as int % 16)));
}

pub fn push_hex(out: &mut String, bytes: &[u8])
    ensures
        final(out)@ == old(out)@ + hex_of(bytes@),
{
    let mut i: usize = 0;
    assert(hex_of(bytes@.take(0)) =~= Seq::<char>::empty());
    assert(out@ =~= old(out)@ + hex_of(bytes@.take(0)));
    while i < bytes.len()
        invariant
            i <= bytes@.len(),
            out@ == old(out)@ + hex_of(bytes@.take(i as int)),
        decreases bytes.len() - i,
    {
        proof {
            lemma_hex_push(bytes@.take(i as int), bytes@[i as int]);
            assert(bytes@.take(i + 1) =~= bytes@.take(i as int).push(bytes@[i as int]));
        }
        out.push(nibble_char(bytes[i] / 16));
        out.push(nibble_char(bytes[i] % 16));
        assert(out@ =~= old(out)@ + hex_of(bytes@.take(i + 1)));
        i = i + 1;
    }
    assert(bytes@.take(i as int) =~= bytes@);
}

/// Two hexadecimal digits a byte.
pub fn hex(bytes: &[u8]) -> (text: String)
    ensures
        text@ == hex_of(bytes@),
{
    let mut out = String::new();
    push_hex(&mut out, bytes);
    assert(out@ =~= hex_of(bytes@));
    out
}

/// The value of a hexadecimal digit of either case.
pub open spec fn digit_value(c: char) -> Option<int> {
    if '0' <= c <= '9' {
        Some(c as int - 48)
    } else if 'a' <= c <= 'f' {
        Some(c as int - 87)
    } else if 'A' <= c <= 'F' {
        Some(c as int - 55)
    } else {
        None
    }
}

pub fn value_of_digit(c: char) -> (v: Option<u8>)
    ensures
        match v {
            Some(d) => d < 16 && digit_value(c) == Some(d as int),
            None => digit_value(c) is None,
        },
{
    if '0' <= c && c <= '9' {
        Some(c as u8 - 48)
    } else if 'a' <= c && c <= 'f' {
        Some(c as u8 - 87)
    } else if 'A' <= c && c <= 'F' {
        Some(c as u8 - 55)
    } else {
        None
    }
}

/// The byte that two hexadecimal digits write.
pub open spec fn pair_value(high: char, low: char) -> Option<u8> {
    match (digit_value(high), digit_value(low)) {
        (Some(h), Some(l)) => Some((h * 16 + l) as u8),
        _ => None,
    }
}

pub fn value_of_pair(high: char, low: char) -> (v: Option<u8>)
    ensures
        v == pair_value(high, low),
{
    match (value_of_digit(high), value_of_digit(low)) {
        (Some(h), Some(l)) => Some(h * 16 + l),
        _ => None,
    }
}

/// The digits of a byte read back as the byte.
pub proof fn lemma_pair_of_byte(b: u8)
    ensures
        pair_value(nibble(b as int / 16), nibble(b as int % 16)) == Some(b),
{
}

/// `n` in small hexadecimal digits, without leading zeros.
pub open spec fn hex_number(n: nat) -> Seq<char>
    decreases n,
{
    if n < 16 {
        seq![nibble(n as int)]
    } else {
        hex_number(n / 16).push(nibble((n % 16) as int))
    }
}

pub fn push_hex_number(out: &mut String, n: u64)
    ensures
        final(out)@ == old(out)@ + hex_number(n as nat),
    decreases n,
{
    if n < 16 {
        out.push(nibble_char(n as u8));
    } else {
        push_hex_number(out, n / 16);
        out.push(nibble_char((n % 16) as u8));
    }
    assert(out@ =~= old(out)@ + hex_number(n as nat));
}

/// The digits are `0` to `9` and then `a` to `f`, and read as they count, in
/// either case; nothing else is one.
pub proof fn lemma_the_digits(d: int, c: char)
    requires
        0 <= d < 16,
    ensures
        nibble(d) == "0123456789abcdef"@[d],
        digit_value("0123456789abcdef"@[d]) == Some(d),
        digit_value("0123456789ABCDEF"@[d]) == Some(d),
        digit_value(c) matches Some(v) ==> 0 <= v < 16 && (c == "0123456789abcdef"@[v] || c
            == "0123456789ABCDEF"@[v]),
{
    reveal_strlit("0123456789abcdef");
    reveal_strlit("0123456789ABCDEF");
}

/// The number that hexadecimal digits write, the high ones first.
pub open spec fn number_in_hex(s: Seq<char>) -> int
    decreases s.len(),
{
    if s.len() == 0 {
        0
    } else {
        number_in_hex(s.drop_last()) * 16 + digit_value(s.last())->0
    }
}

/// A number is written in the digits that count it, without zeros in front.
pub proof fn lemma_numbers_are_written_in_hex(n: nat)
    ensures
        number_in_hex(hex_number(n)) == n,
        hex_number(n).len() >= 1,
        n > 0 ==> hex_number(n)[0] != '0',
    decreases n,
{
    reveal_with_fuel(number_in_hex, 2);
    if n >= 16 {
        lemma_numbers_are_written_in_hex(n / 16);
        assert(hex_number(n).drop_last() =~= hex_number(n / 16));
        lemma_the_digits((n % 16) as int, '0');
        assert(nibble((n % 16) as int) == "0123456789abcdef"@[(n % 16) as int]);
    } else {
        lemma_the_digits(n as int, '0');
        assert(hex_number(n).drop_last() =~= Seq::empty());
    }
}

/// Each byte is written in two digits, the one that counts sixteens first.
pub proof fn lemma_bytes_are_written_in_hex(bytes: Seq<u8>, i: int)
    requires
        0 <= i < bytes.len(),
    ensures
        hex_of(bytes).len() == 2 * bytes.len(),
        number_in_hex(hex_of(bytes).subrange(2 * i, 2 * i + 2)) == bytes[i],
{
    reveal_with_fuel(number_in_hex, 3);
    let pair = hex_of(bytes).subrange(2 * i, 2 * i + 2);
    let b = bytes[i] as int;
    assert(pair[0] == nibble(b / 16) && pair[1] == nibble(b % 16));
    lemma_the_digits(b / 16, '0');
    lemma_the_digits(b % 16, '0');
    assert(pair.drop_last().last() == pair[0]);
    assert(pair.drop_last().drop_last() =~= Seq::empty());
}

}
