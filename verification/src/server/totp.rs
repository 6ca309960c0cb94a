//! Time-based one-time passwords (RFC 6238), as authenticator apps make
//! them: HMAC-SHA1, six digits, a new code every 30 seconds. HMAC-SHA1 is
//! what every authenticator app supports; its known weaknesses are in
//! collisions, which a MAC does not rely on.

use crate::crypto::{hashable, hmac_sha1, hmac_sha1_of, random_bytes};
use crate::text::{all_digits, chars_of, digit, is_space, number, parse_up_to, space};
use crate::transport::relay::{big_endian, tag};
use vstd::prelude::*;
use vstd::utf8::encode_utf8;

verus! {

pub const STEP_SECONDS: u64 = 30;

pub const DIGITS: usize = 6;

/// Codes from one step either side are accepted too: phones' clocks drift.
pub const SKEW_STEPS: u64 = 1;

/// 160 bits, as RFC 4226 recommends.
pub const SECRET_LEN: usize = 20;

/// The secret made of drawn bytes, if they could be drawn.
pub fn secret_of(drawn: Option<Vec<u8>>) -> (secret: Result<Vec<u8>, String>)
    ensures
        match (drawn, secret) {
            (Some(bytes), Ok(secret)) => secret@ == bytes@,
            (None, Err(why)) => why@ == "the system random number generator failed"@,
            _ => false,
        },
{
    match drawn {
        Some(bytes) => Ok(bytes),
        None => Err("the system random number generator failed".to_owned()),
    }
}

/// Draw a secret.
pub fn new_secret() -> (secret: Result<Vec<u8>, String>)
    ensures
        match secret {
            Ok(secret) => secret@.len() == SECRET_LEN,
            Err(why) => why@ == "the system random number generator failed"@,
        },
{
    secret_of(random_bytes(SECRET_LEN))
}

/// Dynamic truncation (RFC 4226, 5.3): four bytes of a tag, at the place its
/// last one says, as a number without its top bit; of that, six digits.
pub open spec fn truncated(tag: Seq<u8>) -> int {
    let at = tag[19] % 16;
    ((tag[at as int] % 128) * 0x100_0000 + tag[at + 1] * 0x1_0000 + tag[at + 2] * 0x100 + tag[at
        + 3]) % 1_000_000
}

/// The code for `secret` in a step.
pub open spec fn code_of(secret: Seq<u8>, step: int) -> int {
    truncated(hmac_sha1_of(secret, big_endian(step as u64)))
}

/// The six digits that a tag comes to.
pub fn truncate(tag: &[u8; 20]) -> (code: u32)
    ensures
        code == truncated(tag@),
{
    let at: usize = (tag[19] % 16) as usize;
    let binary: u32 = (tag[at] % 128) as u32 * 0x100_0000 + tag[at + 1] as u32 * 0x1_0000 + tag[at
        + 2] as u32 * 0x100 + tag[at + 3] as u32;
    binary % 1_000_000
}

/// The code for `secret` in the 30-second step that contains `unix_time`.
pub fn code_at(secret: &[u8], unix_time: u64) -> (code: u32)
    requires
        hashable(secret@.len()),
    ensures
        code == code_of(secret@, unix_time as int / 30),
        code < 1_000_000,
{
    let nothing: Vec<u8> = Vec::new();
    let counter = tag(unix_time / STEP_SECONDS, &nothing);
    assert(counter@ =~= big_endian(unix_time / STEP_SECONDS));
    truncate(&hmac_sha1(secret, &counter))
}

/// A code as it was meant, spaces aside.
pub open spec fn without_spaces(s: Seq<char>) -> Seq<char> {
    s.filter(|c: char| !is_space(c))
}

fn drop_spaces(s: &[char]) -> (rest: Vec<char>)
    ensures
        rest@ == without_spaces(s@),
{
    let mut rest: Vec<char> = Vec::new();
    let mut i: usize = 0;
    assert(without_spaces(s@.take(0)) =~= Seq::<char>::empty()) by {
        reveal(Seq::filter);
    }
    while i < s.len()
        invariant
            i <= s@.len(),
            rest@ == without_spaces(s@.take(i as int)),
        decreases s.len() - i,
    {
        proof {
            reveal(Seq::filter);
            assert(s@.take(i + 1).drop_last() =~= s@.take(i as int));
            assert(s@.take(i + 1).last() == s@[i as int]);
        }
        let c = s[i];
        if !space(c) {
            rest.push(c);
        }
        i = i + 1;
    }
    assert(s@.take(i as int) =~= s@);
    rest
}

/// The number a code writes, if it is six digits.
pub open spec fn wanted(code: Seq<char>) -> Option<nat> {
    let digits = without_spaces(code);
    if digits.len() == DIGITS && all_digits(digits) {
        Some(number(digits))
    } else {
        None
    }
}

/// The number a code writes, if it is six digits.
pub fn code_number(code: &str) -> (n: Option<u32>)
    ensures
        match n {
            Some(n) => wanted(code@) == Some(n as nat),
            None => wanted(code@) is None,
        },
{
    let digits = drop_spaces(&chars_of(code));
    if digits.len() != DIGITS {
        return None;
    }
    let mut i: usize = 0;
    while i < digits.len()
        invariant
            i <= digits@.len(),
            digits@ == without_spaces(code@),
            forall|j: int| 0 <= j < i ==> crate::text::is_digit(#[trigger] digits@[j]),
        decreases digits.len() - i,
    {
        if !digit(digits[i]) {
            assert(!crate::text::is_digit(digits@[i as int]));
            return None;
        }
        i = i + 1;
    }
    proof {
        lemma_six_digits(digits@);
        assert(digits@[0] != '+');
    }
    match parse_up_to(&digits, 999_999) {
        Some(n) => Some(n as u32),
        None => None,
    }
}

proof fn lemma_six_digits(s: Seq<char>)
    requires
        s.len() == 6,
        all_digits(s),
    ensures
        number(s) <= 999_999,
{
    reveal_with_fuel(number, 8);
    assert(crate::text::is_digit(s[0]) && crate::text::is_digit(s[1]) && crate::text::is_digit(s[2])
        && crate::text::is_digit(s[3]) && crate::text::is_digit(s[4]) && crate::text::is_digit(s[5]));
    let a = s.drop_last();
    let b = a.drop_last();
    let c = b.drop_last();
    let d = c.drop_last();
    let e = d.drop_last();
    assert(e.drop_last().len() == 0);
    assert(number(e) <= 9);
    assert(number(d) <= 99);
    assert(number(c) <= 999);
    assert(number(b) <= 9999);
    assert(number(a) <= 99999);
}

/// The first step from `step` to `last` whose code is `wanted`.
pub open spec fn first_step(secret: Seq<u8>, wanted: int, step: int, last: int) -> Option<int>
    decreases last + 1 - step,
{
    if step > last {
        None
    } else if code_of(secret, step) == wanted {
        Some(step)
    } else {
        first_step(secret, wanted, step + 1, last)
    }
}

/// The first of the steps whose code is accepted now.
pub open spec fn earliest(unix_time: u64) -> int {
    if unix_time < 30 {
        0
    } else {
        unix_time as int / 30 - 1
    }
}

/// The step that a code belongs to, if it is right for `secret` now.
pub open spec fn step_of(secret: Seq<u8>, code: Seq<char>, unix_time: u64) -> Option<int> {
    match wanted(code) {
        Some(n) => first_step(secret, n as int, earliest(unix_time), unix_time as int / 30 + 1),
        None => None,
    }
}

/// The step `code` belongs to, if it is right for `secret` at `unix_time`.
/// The caller keeps the last step used, so a code works only once.
pub fn verify(secret: &[u8], code: &str, unix_time: u64) -> (step: Option<u64>)
    requires
        hashable(secret@.len()),
        unix_time <= u64::MAX - 16,
    ensures
        match step {
            Some(step) => step_of(secret@, code@, unix_time) == Some(step as int),
            None => step_of(secret@, code@, unix_time) is None,
        },
{
    match code_number(code) {
        None => None,
        Some(wanted) => {
            let now: u64 = unix_time / STEP_SECONDS;
            let last: u64 = now + SKEW_STEPS;
            let mut step: u64 = if now >= SKEW_STEPS {
                now - SKEW_STEPS
            } else {
                0
            };
            while step <= last
                invariant
                    hashable(secret@.len()),
                    last == unix_time as int / 30 + 1,
                    last <= u64::MAX / 30,
                    step <= last + 1,
                    step_of(secret@, code@, unix_time) == first_step(
                        secret@,
                        wanted as int,
                        step as int,
                        last as int,
                    ),
                decreases last + 1 - step,
            {
                let here: u32 = code_at(secret, step * STEP_SECONDS);
                assert(step * 30 / 30 == step);
                if here == wanted {
                    return Some(step);
                }
                step = step + 1;
            }
            None
        },
    }
}

proof fn lemma_first_step(secret: Seq<u8>, wanted: int, step: int, last: int)
    ensures
        match first_step(secret, wanted, step, last) {
            Some(found) => step <= found <= last && code_of(secret, found) == wanted,
            None => forall|s: int| step <= s <= last ==> #[trigger] code_of(secret, s) != wanted,
        },
    decreases last + 1 - step,
{
    if step <= last && code_of(secret, step) != wanted {
        lemma_first_step(secret, wanted, step + 1, last);
    }
}

/// A code that is accepted is the one of a step no more than one away from
/// now; and the code of such a step is accepted.
pub proof fn lemma_one_step_either_side(secret: Seq<u8>, code: Seq<char>, unix_time: u64)
    ensures
        step_of(secret, code, unix_time) matches Some(step) ==> {
            &&& unix_time / 30 - 1 <= step <= unix_time / 30 + 1
            &&& wanted(code) == Some(code_of(secret, step) as nat)
        },
        forall|step: int|
            0 <= step && unix_time / 30 - 1 <= step <= unix_time / 30 + 1 && wanted(code) == Some(
                #[trigger] code_of(secret, step) as nat,
            ) && code_of(secret, step) >= 0 ==> step_of(secret, code, unix_time) is Some,
{
    match wanted(code) {
        Some(n) => {
            lemma_first_step(secret, n as int, earliest(unix_time), unix_time as int / 30 + 1);
        },
        None => {},
    }
}

/// A code keeps its step for as long as it is accepted.
pub proof fn lemma_a_code_keeps_its_step(
    secret: Seq<u8>,
    code: Seq<char>,
    unix_time: u64,
    later: u64,
    step: int,
)
    requires
        step_of(secret, code, unix_time) == Some(step),
        unix_time <= later,
        later / 30 <= step + 1,
    ensures
        step_of(secret, code, later) == Some(step),
{
    let wanted = wanted(code)->Some_0 as int;
    let last = unix_time as int / 30 + 1;
    lemma_first_step(secret, wanted, earliest(unix_time), last);
    lemma_found_from_later(
        secret,
        wanted,
        earliest(unix_time),
        last,
        earliest(later),
        later as int / 30 + 1,
        step,
    );
}

proof fn lemma_found_from_later(
    secret: Seq<u8>,
    wanted: int,
    from: int,
    last: int,
    later: int,
    later_last: int,
    step: int,
)
    requires
        first_step(secret, wanted, from, last) == Some(step),
        from <= later <= step,
        step <= last <= later_last,
    ensures
        first_step(secret, wanted, later, later_last) == Some(step),
    decreases step - from,
{
    lemma_first_step(secret, wanted, from, last);
    if from < step {
        if code_of(secret, from) != wanted {
            if from == later {
                lemma_found_from_later(secret, wanted, from + 1, last, later + 1, later_last, step);
            } else {
                lemma_found_from_later(secret, wanted, from + 1, last, later, later_last, step);
            }
        }
    }
}

// --- The link an app reads --------------------------------------------------------------

/// The digit of base32 for `0..=31`.
pub open spec fn digit32(v: int) -> char {
    if v < 26 {
        (65 + v) as char
    } else {
        (24 + v) as char
    }
}

/// The value of a digit of base32, in either case.
pub open spec fn value32(c: char) -> Option<int> {
    if 'A' <= c <= 'Z' {
        Some(c as int - 65)
    } else if 'a' <= c <= 'z' {
        Some(c as int - 97)
    } else if '2' <= c <= '7' {
        Some(c as int - 24)
    } else {
        None
    }
}

/// Two to the power of `0..=7`.
pub open spec fn weight(r: int) -> int {
    if r == 0 {
        1
    } else if r == 1 {
        2
    } else if r == 2 {
        4
    } else if r == 3 {
        8
    } else if r == 4 {
        16
    } else if r == 5 {
        32
    } else if r == 6 {
        64
    } else {
        128
    }
}

/// Bit `k` of a row of bytes, the high bits first; zeros follow.
pub open spec fn bit_at(bytes: Seq<u8>, k: int) -> int {
    if k / 8 < bytes.len() {
        bytes[k / 8] as int / weight(7 - k % 8) % 2
    } else {
        0
    }
}

/// Five bits of a row of bytes, as a number.
pub open spec fn group_at(bytes: Seq<u8>, i: int) -> int {
    16 * bit_at(bytes, 5 * i) + 8 * bit_at(bytes, 5 * i + 1) + 4 * bit_at(bytes, 5 * i + 2) + 2
        * bit_at(bytes, 5 * i + 3) + bit_at(bytes, 5 * i + 4)
}

/// Five bits a digit, and zeros to fill the last one.
pub open spec fn base32_of(bytes: Seq<u8>) -> Seq<char> {
    Seq::new((8 * bytes.len() + 4) as nat / 5, |i: int| digit32(group_at(bytes, i)))
}

fn digit32_char(v: u8) -> (c: char)
    requires
        v < 32,
    ensures
        c == digit32(v as int),
{
    if v < 26 {
        (65 + v) as char
    } else {
        (24 + v) as char
    }
}

fn bit_weight(r: u8) -> (w: u8)
    requires
        r < 8,
    ensures
        w == weight(r as int),
{
    match r {
        0 => 1,
        1 => 2,
        2 => 4,
        3 => 8,
        4 => 16,
        5 => 32,
        6 => 64,
        _ => 128,
    }
}

/// A bit is a bit.
proof fn lemma_bit_small(bytes: Seq<u8>, k: int)
    ensures
        0 <= bit_at(bytes, k) <= 1,
{
}

fn get_bit(bytes: &[u8], k: u128) -> (bit: u8)
    ensures
        bit == bit_at(bytes@, k as int),
        bit <= 1,
{
    if k / 8 < bytes.len() as u128 {
        let at: usize = (k / 8) as usize;
        let w: u8 = bit_weight((7 - k % 8) as u8);
        bytes[at] / w % 2
    } else {
        0
    }
}

/// RFC 4648 base32, unpadded, as authenticator apps expect.
pub fn base32(bytes: &[u8]) -> (text: String)
    ensures
        text@ == base32_of(bytes@),
{
    let mut out = String::new();
    let digits: u128 = (8 * bytes.len() as u128 + 4) / 5;
    let mut i: u128 = 0;
    while i < digits
        invariant
            bytes@.len() <= usize::MAX,
            digits == (8 * bytes@.len() + 4) / 5,
            i <= digits,
            out@ == base32_of(bytes@).take(i as int),
        decreases digits - i,
    {
        let v: u8 = 16 * get_bit(bytes, 5 * i) + 8 * get_bit(bytes, 5 * i + 1) + 4 * get_bit(
            bytes,
            5 * i + 2,
        ) + 2 * get_bit(bytes, 5 * i + 3) + get_bit(bytes, 5 * i + 4);
        out.push(digit32_char(v));
        assert(out@ =~= base32_of(bytes@).take(i + 1));
        i = i + 1;
    }
    assert(out@ =~= base32_of(bytes@));
    out
}

/// What counts in a base32 text: not its padding, nor spaces.
pub open spec fn digits32(s: Seq<char>) -> Seq<char> {
    s.filter(|c: char| c != '=' && !is_space(c))
}

/// Bit `k` of a row of base32 digits.
pub open spec fn digit_bit(digits: Seq<char>, k: int) -> int {
    match value32(digits[k / 5]) {
        Some(v) => v / weight(4 - k % 5) % 2,
        None => 0,
    }
}

/// Eight bits of a row of base32 digits, as a byte.
pub open spec fn byte_at(digits: Seq<char>, j: int) -> u8 {
    (128 * digit_bit(digits, 8 * j) + 64 * digit_bit(digits, 8 * j + 1) + 32 * digit_bit(
        digits,
        8 * j + 2,
    ) + 16 * digit_bit(digits, 8 * j + 3) + 8 * digit_bit(digits, 8 * j + 4) + 4 * digit_bit(
        digits,
        8 * j + 5,
    ) + 2 * digit_bit(digits, 8 * j + 6) + digit_bit(digits, 8 * j + 7)) as u8
}

/// The bytes that a base32 text writes: of its bits, as many as make whole
/// bytes.
pub open spec fn bytes_of_base32(s: Seq<char>) -> Option<Seq<u8>> {
    let digits = digits32(s);
    if forall|i: int| 0 <= i < digits.len() ==> value32(#[trigger] digits[i]) is Some {
        Some(Seq::new(5 * digits.len() / 8, |j: int| byte_at(digits, j)))
    } else {
        None
    }
}

fn value_of_digit32(c: char) -> (v: Option<u8>)
    ensures
        match v {
            Some(v) => v < 32 && value32(c) == Some(v as int),
            None => value32(c) is None,
        },
{
    if 'A' <= c && c <= 'Z' {
        Some(c as u8 - 65)
    } else if 'a' <= c && c <= 'z' {
        Some(c as u8 - 97)
    } else if '2' <= c && c <= '7' {
        Some(c as u8 - 24)
    } else {
        None
    }
}

fn get_digit_bit(values: &[u8], Ghost(digits): Ghost<Seq<char>>, k: u128) -> (bit: u8)
    requires
        k as int / 5 < values@.len(),
        values@.len() == digits.len(),
        forall|i: int|
            0 <= i < digits.len() ==> value32(#[trigger] digits[i]) == Some(values@[i] as int),
    ensures
        bit == digit_bit(digits, k as int),
        bit <= 1,
{
    assert(value32(digits[k as int / 5]) == Some(values@[k as int / 5] as int));
    let at: usize = (k / 5) as usize;
    let w: u8 = bit_weight((4 - k % 5) as u8);
    values[at] / w % 2
}

/// The bytes that a base32 text writes, if it is one: in either case, with or
/// without padding and spaces.
pub fn from_base32(text: &str) -> (bytes: Option<Vec<u8>>)
    ensures
        match bytes {
            Some(bytes) => bytes_of_base32(text@) == Some(bytes@),
            None => bytes_of_base32(text@) is None,
        },
{
    let chars = chars_of(text);
    let mut values: Vec<u8> = Vec::new();
    let mut i: usize = 0;
    assert(digits32(chars@.take(0)) =~= Seq::<char>::empty()) by {
        reveal(Seq::filter);
    }
    while i < chars.len()
        invariant
            i <= chars@.len(),
            chars@ == text@,
            values@.len() == digits32(chars@.take(i as int)).len(),
            values@.len() <= i,
            forall|j: int|
                0 <= j < values@.len() ==> value32(#[trigger] digits32(chars@.take(i as int))[j])
                    == Some(values@[j] as int),
        decreases chars.len() - i,
    {
        let c = chars[i];
        proof {
            reveal(Seq::filter);
            assert(chars@.take(i + 1).drop_last() =~= chars@.take(i as int));
            assert(chars@.take(i + 1).last() == chars@[i as int]);
        }
        if c != '=' && !space(c) {
            match value_of_digit32(c) {
                None => {
                    proof {
                        lemma_digit_stays(chars@, i as int);
                    }
                    return None;
                },
                Some(v) => {
                    values.push(v);
                },
            }
        }
        i = i + 1;
    }
    assert(chars@.take(i as int) =~= chars@);
    let ghost digits = digits32(text@);
    let many: u128 = 5 * values.len() as u128 / 8;
    let mut out: Vec<u8> = Vec::new();
    let mut j: u128 = 0;
    while j < many
        invariant
            j <= many,
            many == 5 * values@.len() / 8,
            values@.len() <= usize::MAX,
            values@.len() == digits.len(),
            forall|i: int|
                0 <= i < digits.len() ==> value32(#[trigger] digits[i]) == Some(values@[i] as int),
            out@ == Seq::new(j as nat, |t: int| byte_at(digits, t)),
        decreases many - j,
    {
        let byte: u8 = 128 * get_digit_bit(&values, Ghost(digits), 8 * j) + 64 * get_digit_bit(
            &values,
            Ghost(digits),
            8 * j + 1,
        ) + 32 * get_digit_bit(&values, Ghost(digits), 8 * j + 2) + 16 * get_digit_bit(
            &values,
            Ghost(digits),
            8 * j + 3,
        ) + 8 * get_digit_bit(&values, Ghost(digits), 8 * j + 4) + 4 * get_digit_bit(
            &values,
            Ghost(digits),
            8 * j + 5,
        ) + 2 * get_digit_bit(&values, Ghost(digits), 8 * j + 6) + get_digit_bit(
            &values,
            Ghost(digits),
            8 * j + 7,
        );
        out.push(byte);
        j = j + 1;
        assert(out@ =~= Seq::new(j as nat, |t: int| byte_at(digits, t)));
    }
    Some(out)
}

/// A character that counts is among those that do.
proof fn lemma_digit_stays(s: Seq<char>, i: int)
    requires
        0 <= i < s.len(),
        s[i] != '=' && !is_space(s[i]),
    ensures
        digits32(s).contains(s[i]),
{
    s.lemma_filter_contains(|c: char| c != '=' && !is_space(c), i);
}

/// Base32 reads back as the bytes it was written from.
pub proof fn lemma_base32_reads_back(bytes: Seq<u8>)
    ensures
        bytes_of_base32(base32_of(bytes)) == Some(bytes),
{
    let text = base32_of(bytes);
    assert forall|i: int| 0 <= i < text.len() implies {
        &&& #[trigger] value32(text[i]) == Some(group_at(bytes, i))
        &&& text[i] != '='
        &&& !is_space(text[i])
    } by {
        lemma_group_small(bytes, i);
    }
    lemma_all_count(text);
    let read = Seq::new((5 * text.len() / 8) as nat, |j: int| byte_at(text, j));
    assert(5 * text.len() / 8 == bytes.len());
    assert forall|j: int| 0 <= j < bytes.len() implies read[j] == bytes[j] by {
        assert forall|r: int| 0 <= r < 8 implies #[trigger] digit_bit(text, 8 * j + r) == bytes[j] as int
            / weight(7 - r) % 2 by {
            let k = 8 * j + r;
            assert(0 <= k / 5 < text.len());
            lemma_group_bits(bytes, k / 5, k % 5);
            assert(value32(text[k / 5]) == Some(group_at(bytes, k / 5)));
            assert(k == 5 * (k / 5) + k % 5);
            assert(k / 8 == j && k % 8 == r);
        }
        assert(digit_bit(text, 8 * j + 0) == bytes[j] as int / 128 % 2);
        assert(digit_bit(text, 8 * j + 1) == bytes[j] as int / 64 % 2);
        assert(digit_bit(text, 8 * j + 2) == bytes[j] as int / 32 % 2);
        assert(digit_bit(text, 8 * j + 3) == bytes[j] as int / 16 % 2);
        assert(digit_bit(text, 8 * j + 4) == bytes[j] as int / 8 % 2);
        assert(digit_bit(text, 8 * j + 5) == bytes[j] as int / 4 % 2);
        assert(digit_bit(text, 8 * j + 6) == bytes[j] as int / 2 % 2);
        assert(digit_bit(text, 8 * j + 7) == bytes[j] as int / 1 % 2);
        lemma_byte_of_bits(bytes[j]);
    }
    assert(read =~= bytes);
}

proof fn lemma_group_small(bytes: Seq<u8>, i: int)
    ensures
        0 <= group_at(bytes, i) < 32,
{
    lemma_bit_small(bytes, 5 * i);
    lemma_bit_small(bytes, 5 * i + 1);
    lemma_bit_small(bytes, 5 * i + 2);
    lemma_bit_small(bytes, 5 * i + 3);
    lemma_bit_small(bytes, 5 * i + 4);
}

proof fn lemma_group_bits(bytes: Seq<u8>, i: int, r: int)
    requires
        0 <= r < 5,
    ensures
        group_at(bytes, i) / weight(4 - r) % 2 == bit_at(bytes, 5 * i + r),
{
    lemma_bit_small(bytes, 5 * i);
    lemma_bit_small(bytes, 5 * i + 1);
    lemma_bit_small(bytes, 5 * i + 2);
    lemma_bit_small(bytes, 5 * i + 3);
    lemma_bit_small(bytes, 5 * i + 4);
    assert(r == 0 || r == 1 || r == 2 || r == 3 || r == 4);
}

proof fn lemma_byte_of_bits(b: u8)
    ensures
        b == 128 * (b as int / 128 % 2) + 64 * (b as int / 64 % 2) + 32 * (b as int / 32 % 2) + 16
            * (b as int / 16 % 2) + 8 * (b as int / 8 % 2) + 4 * (b as int / 4 % 2) + 2 * (b as int
            / 2 % 2) + b as int % 2,
{
    let h = b as int;
    assert(h / 2 == 2 * (h / 4) + h / 2 % 2);
    assert(h / 4 == 2 * (h / 8) + h / 4 % 2);
    assert(h / 8 == 2 * (h / 16) + h / 8 % 2);
    assert(h / 16 == 2 * (h / 32) + h / 16 % 2);
    assert(h / 32 == 2 * (h / 64) + h / 32 % 2);
    assert(h / 64 == 2 * (h / 128) + h / 64 % 2);
    assert(h / 128 % 2 == h / 128);
}

proof fn lemma_all_count(s: Seq<char>)
    requires
        forall|i: int| 0 <= i < s.len() ==> #[trigger] s[i] != '=' && !is_space(s[i]),
    ensures
        digits32(s) == s,
    decreases s.len(),
{
    reveal(Seq::filter);
    if s.len() > 0 {
        lemma_all_count(s.drop_last());
        assert(s.drop_last().push(s.last()) =~= s);
    } else {
        assert(digits32(s) =~= s);
    }
}

/// A byte that stands for itself in a URL.
pub open spec fn unreserved(b: u8) -> bool {
    ||| 65 <= b <= 90
    ||| 97 <= b <= 122
    ||| 48 <= b <= 57
    ||| b == 45
    ||| b == 46
    ||| b == 95
    ||| b == 126
}

/// The large hexadecimal digit for `0..=15`.
pub open spec fn large_nibble(d: int) -> char {
    if d < 10 {
        (48 + d) as char
    } else {
        (55 + d) as char
    }
}

/// A byte in a URL.
pub open spec fn escaped(b: u8) -> Seq<char> {
    if unreserved(b) {
        seq![b as char]
    } else {
        seq!['%', large_nibble(b as int / 16), large_nibble(b as int % 16)]
    }
}

/// Bytes in a URL, one after the other.
pub open spec fn all_escaped(bytes: Seq<u8>) -> Seq<char>
    decreases bytes.len(),
{
    if bytes.len() == 0 {
        Seq::empty()
    } else {
        all_escaped(bytes.drop_last()) + escaped(bytes.last())
    }
}

fn large_nibble_char(d: u8) -> (c: char)
    requires
        d < 16,
    ensures
        c == large_nibble(d as int),
{
    if d < 10 {
        (48 + d) as char
    } else {
        (55 + d) as char
    }
}

/// Text as it stands in a URL.
pub fn percent_encode(text: &str) -> (encoded: String)
    ensures
        encoded@ == all_escaped(encode_utf8(text@)),
{
    let bytes = text.as_bytes();
    let mut out = String::new();
    let mut i: usize = 0;
    while i < bytes.len()
        invariant
            i <= bytes@.len(),
            out@ == all_escaped(bytes@.take(i as int)),
        decreases bytes.len() - i,
    {
        let b: u8 = bytes[i];
        let ghost before = out@;
        if (65 <= b && b <= 90) || (97 <= b && b <= 122) || (48 <= b && b <= 57) || b == 45 || b
            == 46 || b == 95 || b == 126 {
            out.push(b as char);
        } else {
            out.push('%');
            out.push(large_nibble_char(b / 16));
            out.push(large_nibble_char(b % 16));
        }
        assert(out@ =~= before + escaped(b));
        assert(bytes@.take(i + 1).drop_last() =~= bytes@.take(i as int));
        i = i + 1;
    }
    assert(bytes@.take(i as int) =~= bytes@);
    out
}

/// The value of a large hexadecimal digit.
pub open spec fn large_value(c: char) -> Option<int> {
    if '0' <= c <= '9' {
        Some(c as int - 48)
    } else if 'A' <= c <= 'F' {
        Some(c as int - 55)
    } else {
        None
    }
}

/// The bytes that a text in a URL stands for: characters that stand for
/// themselves, and `%` with two large hexadecimal digits. Nothing for any
/// other text.
pub open spec fn unescaped(s: Seq<char>) -> Option<Seq<u8>>
    decreases s.len(),
{
    if s.len() == 0 {
        Some(Seq::empty())
    } else if s[0] == '%' && s.len() >= 3 {
        match (large_value(s[1]), large_value(s[2]), unescaped(s.skip(3))) {
            (Some(high), Some(low), Some(rest)) => Some(seq![(16 * high + low) as u8] + rest),
            _ => None,
        }
    } else if s[0] as int <= 0x7f && unreserved(s[0] as u8) {
        match unescaped(s.skip(1)) {
            Some(rest) => Some(seq![s[0] as u8] + rest),
            None => None,
        }
    } else {
        None
    }
}

proof fn lemma_escaped_from_the_front(bytes: Seq<u8>)
    requires
        bytes.len() > 0,
    ensures
        all_escaped(bytes) == escaped(bytes[0]) + all_escaped(bytes.skip(1)),
    decreases bytes.len(),
{
    reveal_with_fuel(all_escaped, 2);
    if bytes.len() > 1 {
        let most = bytes.drop_last();
        lemma_escaped_from_the_front(most);
        assert(bytes.skip(1).drop_last() =~= most.skip(1));
        assert(all_escaped(bytes) =~= escaped(bytes[0]) + all_escaped(bytes.skip(1)));
    } else {
        assert(all_escaped(bytes) =~= escaped(bytes[0]) + all_escaped(bytes.skip(1)));
    }
}

proof fn lemma_unescaped(bytes: Seq<u8>)
    ensures
        unescaped(all_escaped(bytes)) == Some(bytes),
    decreases bytes.len(),
{
    if bytes.len() > 0 {
        let b = bytes[0];
        let rest = bytes.skip(1);
        let text = all_escaped(bytes);
        lemma_escaped_from_the_front(bytes);
        lemma_unescaped(rest);
        assert(seq![b] + rest =~= bytes);
        if unreserved(b) {
            assert(text.skip(1) =~= all_escaped(rest));
            assert(text[0] == b as char);
        } else {
            assert(text.skip(3) =~= all_escaped(rest));
            assert(text[0] == '%');
            assert(large_value(text[1]) == Some(b as int / 16));
            assert(large_value(text[2]) == Some(b as int % 16));
        }
    } else {
        assert(bytes =~= Seq::<u8>::empty());
    }
}

/// What stands in a URL for a text holds nothing but characters that may stand
/// there, and gives its UTF-8 back.
pub proof fn lemma_percent_reads_back(text: Seq<char>)
    ensures
        unescaped(all_escaped(encode_utf8(text))) == Some(encode_utf8(text)),
{
    lemma_unescaped(encode_utf8(text));
}

/// Different texts are different in a URL.
pub proof fn lemma_percent_tells_apart(a: Seq<char>, b: Seq<char>)
    requires
        all_escaped(encode_utf8(a)) == all_escaped(encode_utf8(b)),
    ensures
        a == b,
{
    lemma_percent_reads_back(a);
    lemma_percent_reads_back(b);
    vstd::utf8::encode_utf8_decode_utf8(a);
    vstd::utf8::encode_utf8_decode_utf8(b);
}

/// A character that stands for itself in a URL.
pub open spec fn stands_for_itself(c: char) -> bool {
    ||| 'A' <= c <= 'Z'
    ||| 'a' <= c <= 'z'
    ||| '0' <= c <= '9'
    ||| c == '-'
    ||| c == '.'
    ||| c == '_'
    ||| c == '~'
}

/// A text of characters that stand for themselves stays as it is.
pub proof fn lemma_plain_text_stays(text: Seq<char>)
    requires
        forall|i: int| 0 <= i < text.len() ==> stands_for_itself(#[trigger] text[i]),
    ensures
        all_escaped(encode_utf8(text)) == text,
{
    assert(vstd::utf8::is_ascii_chars(text));
    vstd::utf8::is_ascii_chars_encode_utf8(text);
    let bytes = encode_utf8(text);
    assert forall|i: int| 0 <= i < bytes.len() implies unreserved(#[trigger] bytes[i]) by {
        assert(text[i] as u8 == bytes[i]);
    }
    lemma_plain_bytes_stay(bytes);
    assert forall|i: int| 0 <= i < text.len() implies #[trigger] all_escaped(bytes)[i] == text[i] by {
        assert(text[i] as u8 == bytes[i]);
        assert((text[i] as u8) as char == text[i]);
    }
    assert(all_escaped(bytes) =~= text);
}

proof fn lemma_plain_bytes_stay(bytes: Seq<u8>)
    requires
        forall|i: int| 0 <= i < bytes.len() ==> unreserved(#[trigger] bytes[i]),
    ensures
        all_escaped(bytes) == Seq::new(bytes.len(), |i: int| bytes[i] as char),
    decreases bytes.len(),
{
    if bytes.len() > 0 {
        lemma_plain_bytes_stay(bytes.drop_last());
    }
    assert(all_escaped(bytes) =~= Seq::new(bytes.len(), |i: int| bytes[i] as char));
}

/// The link an authenticator app reads.
pub open spec fn uri_of(secret: Seq<u8>, issuer: Seq<char>, account: Seq<char>) -> Seq<char> {
    let issuer = all_escaped(encode_utf8(issuer));
    "otpauth://totp/"@ + issuer + ":"@ + all_escaped(encode_utf8(account)) + "?secret="@
        + base32_of(secret) + "&issuer="@ + issuer + "&algorithm=SHA1&digits=6&period=30"@
}

/// The `otpauth://` link an authenticator app reads, from a QR code or
/// pasted.
pub fn uri(secret: &[u8], issuer: &str, account: &str) -> (link: String)
    ensures
        link@ == uri_of(secret@, issuer@, account@),
{
    let issuer = percent_encode(issuer);
    let mut link = "otpauth://totp/".to_owned();
    link.append(&issuer);
    link.append(":");
    link.append(&percent_encode(account));
    link.append("?secret=");
    link.append(&base32(secret));
    link.append("&issuer=");
    link.append(&issuer);
    link.append("&algorithm=SHA1&digits=6&period=30");
    link
}

// --- As authenticator apps make them ------------------------------------------------------

/// A code is six digits of the 31 bits that a tag holds where its last four
/// bits say.
pub proof fn lemma_codes_are_six_digits_of_31_bits(tag: Seq<u8>)
    requires
        tag.len() == 20,
    ensures
        ({
            let at = (tag[19] & 0xf) as int;
            let (a, b, c, d) = (tag[at], tag[at + 1], tag[at + 2], tag[at + 3]);
            let bits: u32 = ((a as u32 & 0x7f) << 24u32) | ((b as u32) << 16u32) | ((c as u32) << 8u32)
                | (d as u32);
            &&& truncated(tag) == bits as int % 1_000_000
            &&& 0 <= truncated(tag) < 1_000_000
        }),
{
    let last = tag[19];
    assert(last & 0xf == last % 16) by (bit_vector);
    let at = (last % 16) as int;
    let (a, b, c, d) = (tag[at], tag[at + 1], tag[at + 2], tag[at + 3]);
    let bits: u32 = ((a as u32 & 0x7f) << 24u32) | ((b as u32) << 16u32) | ((c as u32) << 8u32) | (
    d as u32);
    assert(bits == (a % 128) * 0x100_0000 + b * 0x1_0000 + c * 0x100 + d) by (bit_vector)
        requires
            bits == ((a as u32 & 0x7f) << 24u32) | ((b as u32) << 16u32) | ((c as u32) << 8u32) | (
            d as u32),
    ;
}

/// The code of a step is the six digits of the tag over the step's number, as
/// eight bytes with the highest first; a step is thirty seconds.
pub proof fn lemma_a_code_is_its_steps(secret: Seq<u8>, step: u64)
    ensures
        code_of(secret, step as int) == truncated(
            hmac_sha1_of(
                secret,
                seq![
                    (step / 0x100_0000_0000_0000) as u8,
                    (step / 0x1_0000_0000_0000 % 0x100) as u8,
                    (step / 0x100_0000_0000 % 0x100) as u8,
                    (step / 0x1_0000_0000 % 0x100) as u8,
                    (step / 0x100_0000 % 0x100) as u8,
                    (step / 0x1_0000 % 0x100) as u8,
                    (step / 0x100 % 0x100) as u8,
                    (step % 0x100) as u8,
                ],
            ),
        ),
{
    let bytes = seq![
        (step / 0x100_0000_0000_0000) as u8,
        (step / 0x1_0000_0000_0000 % 0x100) as u8,
        (step / 0x100_0000_0000 % 0x100) as u8,
        (step / 0x1_0000_0000 % 0x100) as u8,
        (step / 0x100_0000 % 0x100) as u8,
        (step / 0x1_0000 % 0x100) as u8,
        (step / 0x100 % 0x100) as u8,
        (step % 0x100) as u8,
    ];
    assert(big_endian(step) =~= bytes);
}

/// Someone's code is right just when it is six digits, spaces aside, that are
/// the code of the step that is now, or of the one before or after it.
pub proof fn lemma_a_right_code(secret: Seq<u8>, code: Seq<char>, unix_time: u64)
    ensures
        step_of(secret, code, unix_time) is Some <==> exists|step: int|
            {
                &&& 0 <= step && unix_time / 30 - 1 <= step <= unix_time / 30 + 1
                &&& wanted(code) == Some(#[trigger] code_of(secret, step) as nat)
                &&& code_of(secret, step) >= 0
            },
        wanted(code) is Some ==> code.filter(|c: char| !is_space(c)).len() == 6,
{
    lemma_one_step_either_side(secret, code, unix_time);
    if let Some(n) = wanted(code) {
        lemma_first_step(secret, n as int, earliest(unix_time), unix_time as int / 30 + 1);
        if let Some(step) = step_of(secret, code, unix_time) {
            assert(code_of(secret, step) == n);
        }
    }
}

/// A code is read as it is shown, with or without spaces.
pub proof fn lemma_spaces_do_not_count(code: Seq<char>)
    ensures
        (forall|i: int| 0 <= i < code.len() ==> '0' <= #[trigger] code[i] <= '9') && code.len() == 6
            ==> wanted(code) == Some(number(code)),
        wanted(code.filter(|c: char| !is_space(c))) == wanted(code),
{
    let keeps = |c: char| !is_space(c);
    let rest = code.filter(keeps);
    assert forall|i: int| 0 <= i < rest.len() implies keeps(#[trigger] rest[i]) by {
        code.lemma_filter_pred(keeps, i);
    }
    crate::server::rows::lemma_all_or_fewer(rest, keeps);
    crate::server::rows::lemma_all_or_fewer(code, keeps);
    if (forall|i: int| 0 <= i < code.len() ==> '0' <= #[trigger] code[i] <= '9') && code.len() == 6 {
        assert(forall|i: int| 0 <= i < code.len() ==> keeps(#[trigger] code[i]));
        assert(rest == code);
        assert(all_digits(code));
    }
}

/// Base32 is written with the capital letters and then the digits from 2 to 7,
/// and read with small letters too.
pub proof fn lemma_the_alphabet_of_base32(v: int)
    requires
        0 <= v < 32,
    ensures
        digit32(v) == "ABCDEFGHIJKLMNOPQRSTUVWXYZ234567"@[v],
        value32(digit32(v)) == Some(v),
        v < 26 ==> value32("abcdefghijklmnopqrstuvwxyz"@[v]) == Some(v),
{
    reveal_strlit("ABCDEFGHIJKLMNOPQRSTUVWXYZ234567");
    reveal_strlit("abcdefghijklmnopqrstuvwxyz");
}

/// Five bytes are eight digits: one number in base 256, and the same in base
/// 32, the highest first.
pub proof fn lemma_five_bytes_are_eight_digits(bytes: Seq<u8>, k: int)
    requires
        0 <= k,
        5 * k + 5 <= bytes.len(),
    ensures
        bytes[5 * k] * 0x1_0000_0000 + bytes[5 * k + 1] * 0x100_0000 + bytes[5 * k + 2] * 0x1_0000
            + bytes[5 * k + 3] * 0x100 + bytes[5 * k + 4] == group_at(bytes, 8 * k)
            * 0x8_0000_0000 + group_at(bytes, 8 * k + 1) * 0x4000_0000 + group_at(bytes, 8 * k + 2)
            * 0x200_0000 + group_at(bytes, 8 * k + 3) * 0x10_0000 + group_at(bytes, 8 * k + 4)
            * 0x8000 + group_at(bytes, 8 * k + 5) * 0x400 + group_at(bytes, 8 * k + 6) * 0x20
            + group_at(bytes, 8 * k + 7),
{
    let f = |j: int| bit_at(bytes, 40 * k + j);
    let b = bytes.subrange(5 * k, 5 * k + 5);
    let g = |i: int| group_at(bytes, 8 * k + i);
    assert(b[0] == eight(f, 0)) by {
        lemma_bits_of_byte(bytes, 5 * k + 0);
        assert(8 * (5 * k + 0) + 0 == 40 * k + 0);
        assert(8 * (5 * k + 0) + 1 == 40 * k + 1);
        assert(8 * (5 * k + 0) + 2 == 40 * k + 2);
        assert(8 * (5 * k + 0) + 3 == 40 * k + 3);
        assert(8 * (5 * k + 0) + 4 == 40 * k + 4);
        assert(8 * (5 * k + 0) + 5 == 40 * k + 5);
        assert(8 * (5 * k + 0) + 6 == 40 * k + 6);
        assert(8 * (5 * k + 0) + 7 == 40 * k + 7);
    }
    assert(b[1] == eight(f, 8)) by {
        lemma_bits_of_byte(bytes, 5 * k + 1);
        assert(8 * (5 * k + 1) + 0 == 40 * k + 8);
        assert(8 * (5 * k + 1) + 1 == 40 * k + 9);
        assert(8 * (5 * k + 1) + 2 == 40 * k + 10);
        assert(8 * (5 * k + 1) + 3 == 40 * k + 11);
        assert(8 * (5 * k + 1) + 4 == 40 * k + 12);
        assert(8 * (5 * k + 1) + 5 == 40 * k + 13);
        assert(8 * (5 * k + 1) + 6 == 40 * k + 14);
        assert(8 * (5 * k + 1) + 7 == 40 * k + 15);
    }
    assert(b[2] == eight(f, 16)) by {
        lemma_bits_of_byte(bytes, 5 * k + 2);
        assert(8 * (5 * k + 2) + 0 == 40 * k + 16);
        assert(8 * (5 * k + 2) + 1 == 40 * k + 17);
        assert(8 * (5 * k + 2) + 2 == 40 * k + 18);
        assert(8 * (5 * k + 2) + 3 == 40 * k + 19);
        assert(8 * (5 * k + 2) + 4 == 40 * k + 20);
        assert(8 * (5 * k + 2) + 5 == 40 * k + 21);
        assert(8 * (5 * k + 2) + 6 == 40 * k + 22);
        assert(8 * (5 * k + 2) + 7 == 40 * k + 23);
    }
    assert(b[3] == eight(f, 24)) by {
        lemma_bits_of_byte(bytes, 5 * k + 3);
        assert(8 * (5 * k + 3) + 0 == 40 * k + 24);
        assert(8 * (5 * k + 3) + 1 == 40 * k + 25);
        assert(8 * (5 * k + 3) + 2 == 40 * k + 26);
        assert(8 * (5 * k + 3) + 3 == 40 * k + 27);
        assert(8 * (5 * k + 3) + 4 == 40 * k + 28);
        assert(8 * (5 * k + 3) + 5 == 40 * k + 29);
        assert(8 * (5 * k + 3) + 6 == 40 * k + 30);
        assert(8 * (5 * k + 3) + 7 == 40 * k + 31);
    }
    assert(b[4] == eight(f, 32)) by {
        lemma_bits_of_byte(bytes, 5 * k + 4);
        assert(8 * (5 * k + 4) + 0 == 40 * k + 32);
        assert(8 * (5 * k + 4) + 1 == 40 * k + 33);
        assert(8 * (5 * k + 4) + 2 == 40 * k + 34);
        assert(8 * (5 * k + 4) + 3 == 40 * k + 35);
        assert(8 * (5 * k + 4) + 4 == 40 * k + 36);
        assert(8 * (5 * k + 4) + 5 == 40 * k + 37);
        assert(8 * (5 * k + 4) + 6 == 40 * k + 38);
        assert(8 * (5 * k + 4) + 7 == 40 * k + 39);
    }
    assert(g(0) == five(f, 0)) by {
        assert(5 * (8 * k + 0) + 0 == 40 * k + 0);
        assert(5 * (8 * k + 0) + 1 == 40 * k + 1);
        assert(5 * (8 * k + 0) + 2 == 40 * k + 2);
        assert(5 * (8 * k + 0) + 3 == 40 * k + 3);
        assert(5 * (8 * k + 0) + 4 == 40 * k + 4);
    }
    assert(g(1) == five(f, 5)) by {
        assert(5 * (8 * k + 1) + 0 == 40 * k + 5);
        assert(5 * (8 * k + 1) + 1 == 40 * k + 6);
        assert(5 * (8 * k + 1) + 2 == 40 * k + 7);
        assert(5 * (8 * k + 1) + 3 == 40 * k + 8);
        assert(5 * (8 * k + 1) + 4 == 40 * k + 9);
    }
    assert(g(2) == five(f, 10)) by {
        assert(5 * (8 * k + 2) + 0 == 40 * k + 10);
        assert(5 * (8 * k + 2) + 1 == 40 * k + 11);
        assert(5 * (8 * k + 2) + 2 == 40 * k + 12);
        assert(5 * (8 * k + 2) + 3 == 40 * k + 13);
        assert(5 * (8 * k + 2) + 4 == 40 * k + 14);
    }
    assert(g(3) == five(f, 15)) by {
        assert(5 * (8 * k + 3) + 0 == 40 * k + 15);
        assert(5 * (8 * k + 3) + 1 == 40 * k + 16);
        assert(5 * (8 * k + 3) + 2 == 40 * k + 17);
        assert(5 * (8 * k + 3) + 3 == 40 * k + 18);
        assert(5 * (8 * k + 3) + 4 == 40 * k + 19);
    }
    assert(g(4) == five(f, 20)) by {
        assert(5 * (8 * k + 4) + 0 == 40 * k + 20);
        assert(5 * (8 * k + 4) + 1 == 40 * k + 21);
        assert(5 * (8 * k + 4) + 2 == 40 * k + 22);
        assert(5 * (8 * k + 4) + 3 == 40 * k + 23);
        assert(5 * (8 * k + 4) + 4 == 40 * k + 24);
    }
    assert(g(5) == five(f, 25)) by {
        assert(5 * (8 * k + 5) + 0 == 40 * k + 25);
        assert(5 * (8 * k + 5) + 1 == 40 * k + 26);
        assert(5 * (8 * k + 5) + 2 == 40 * k + 27);
        assert(5 * (8 * k + 5) + 3 == 40 * k + 28);
        assert(5 * (8 * k + 5) + 4 == 40 * k + 29);
    }
    assert(g(6) == five(f, 30)) by {
        assert(5 * (8 * k + 6) + 0 == 40 * k + 30);
        assert(5 * (8 * k + 6) + 1 == 40 * k + 31);
        assert(5 * (8 * k + 6) + 2 == 40 * k + 32);
        assert(5 * (8 * k + 6) + 3 == 40 * k + 33);
        assert(5 * (8 * k + 6) + 4 == 40 * k + 34);
    }
    assert(g(7) == five(f, 35)) by {
        assert(5 * (8 * k + 7) + 0 == 40 * k + 35);
        assert(5 * (8 * k + 7) + 1 == 40 * k + 36);
        assert(5 * (8 * k + 7) + 2 == 40 * k + 37);
        assert(5 * (8 * k + 7) + 3 == 40 * k + 38);
        assert(5 * (8 * k + 7) + 4 == 40 * k + 39);
    }
    lemma_forty_bits(f);
}

/// Eight bits from `at` on, as a number.
spec fn eight(f: spec_fn(int) -> int, at: int) -> int {
    128 * f(at) + 64 * f(at + 1) + 32 * f(at + 2) + 16 * f(at + 3) + 8 * f(at + 4) + 4 * f(at + 5) + 2
        * f(at + 6) + f(at + 7)
}

/// Five bits from `at` on, as a number.
spec fn five(f: spec_fn(int) -> int, at: int) -> int {
    16 * f(at) + 8 * f(at + 1) + 4 * f(at + 2) + 2 * f(at + 3) + f(at + 4)
}

proof fn lemma_forty_bits(f: spec_fn(int) -> int)
    ensures
        eight(f, 0) * 0x1_0000_0000 + eight(f, 8) * 0x100_0000 + eight(f, 16) * 0x1_0000 + eight(
            f,
            24,
        ) * 0x100 + eight(f, 32) == five(f, 0) * 0x8_0000_0000 + five(f, 5) * 0x4000_0000 + five(
            f,
            10,
        ) * 0x200_0000 + five(f, 15) * 0x10_0000 + five(f, 20) * 0x8000 + five(f, 25) * 0x400
            + five(f, 30) * 0x20 + five(f, 35),
{
}

proof fn lemma_bits_of_byte(bytes: Seq<u8>, i: int)
    requires
        0 <= i < bytes.len(),
    ensures
        bytes[i] == 128 * bit_at(bytes, 8 * i) + 64 * bit_at(bytes, 8 * i + 1) + 32 * bit_at(
            bytes,
            8 * i + 2,
        ) + 16 * bit_at(bytes, 8 * i + 3) + 8 * bit_at(bytes, 8 * i + 4) + 4 * bit_at(
            bytes,
            8 * i + 5,
        ) + 2 * bit_at(bytes, 8 * i + 6) + bit_at(bytes, 8 * i + 7),
{
    lemma_byte_of_bits(bytes[i]);
    let b = bytes[i] as int;
    assert(bit_at(bytes, 8 * i) == b / 128 % 2);
    assert(bit_at(bytes, 8 * i + 1) == b / 64 % 2);
    assert(bit_at(bytes, 8 * i + 2) == b / 32 % 2);
    assert(bit_at(bytes, 8 * i + 3) == b / 16 % 2);
    assert(bit_at(bytes, 8 * i + 4) == b / 8 % 2);
    assert(bit_at(bytes, 8 * i + 5) == b / 4 % 2);
    assert(bit_at(bytes, 8 * i + 6) == b / 2 % 2);
    assert(bit_at(bytes, 8 * i + 7) == b / 1 % 2);
}

/// In a URL letters, digits and the four signs that may stand there stand for
/// themselves; any other byte is a percent sign and its two digits.
pub proof fn lemma_what_is_escaped(b: u8, d: int)
    ensures
        escaped(b).len() == 1 <==> ('A' as u8 <= b <= 'Z' as u8) || ('a' as u8 <= b <= 'z' as u8) || (
        '0' as u8 <= b <= '9' as u8) || b == '-' as u8 || b == '.' as u8 || b == '_' as u8 || b
            == '~' as u8,
        escaped(b).len() == 1 ==> escaped(b)[0] as int == b,
        escaped(b).len() != 1 ==> escaped(b).len() == 3 && escaped(b)[0] == '%',
        0 <= d < 16 ==> large_nibble(d) == "0123456789ABCDEF"@[d],
{
    reveal_strlit("0123456789ABCDEF");
}

}
