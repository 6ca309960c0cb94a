//! What stands in the certificates that the server makes for itself: the
//! names they are for, from when to when they are valid, and the public half of
//! their key.

use crate::net::Ip;
use vstd::prelude::*;

verus! {

// --- The names ----------------------------------------------------------------------------------

/// Nothing but ASCII.
pub open spec fn ascii(name: Seq<char>) -> bool {
    forall|i: int| 0 <= i < name.len() ==> (#[trigger] name[i]) as int <= 0x7f
}

/// A name that no IP address is written like: some character in it stands in
/// none.
pub open spec fn never_an_address(name: Seq<char>) -> bool {
    exists|i: int| 0 <= i < name.len() && !in_addresses(#[trigger] name[i])
}

/// A character that IP addresses are written with.
pub open spec fn in_addresses(c: char) -> bool {
    '0' <= c <= '9' || 'a' <= c <= 'f' || 'A' <= c <= 'F' || c == '.' || c == ':'
}

/// A text's characters as bytes, each in one.
pub open spec fn in_bytes(text: Seq<char>) -> Seq<u8> {
    Seq::new(text.len(), |i: int| text[i] as u8)
}

/// The bytes `part` stand somewhere in `bytes`, one after the other.
pub open spec fn holds(bytes: Seq<u8>, part: Seq<u8>) -> bool {
    exists|at: int| #[trigger] stands_at(bytes, part, at)
}

pub open spec fn stands_at(bytes: Seq<u8>, part: Seq<u8>, at: int) -> bool {
    &&& 0 <= at <= bytes.len() - part.len()
    &&& bytes.subrange(at, at + part.len()) == part
}

/// A number's bytes, the most significant first.
pub open spec fn big_endian(n: nat, many: nat) -> Seq<u8>
    decreases many,
{
    if many == 0 {
        Seq::empty()
    } else {
        big_endian(n / 256, (many - 1) as nat).push((n % 256) as u8)
    }
}

/// An address as a certificate has it: tagged as an IP address, and its bytes.
pub open spec fn address_field(ip: Ip) -> Seq<u8> {
    match ip {
        Ip::V4(bits) => seq![0x87u8, 4] + big_endian(bits as nat, 4),
        Ip::V6(bits) => seq![0x87u8, 16] + big_endian(bits as nat, 16),
    }
}

/// A certificate speaks of the names it was made for: of an address by its
/// bytes, of another name by its characters.
pub open spec fn speaks_of(certificate: Seq<u8>, names: Seq<String>) -> bool {
    forall|i: int|
        0 <= i < names.len() ==> {
            &&& ascii(#[trigger] names[i]@)
            &&& never_an_address(names[i]@) ==> holds(certificate, in_bytes(names[i]@))
            &&& forall|ip: Ip|
                names[i]@ == #[trigger] ip.written() ==> holds(certificate, address_field(ip))
        }
}

// --- The dates ----------------------------------------------------------------------------------

/// A second of the calendar, in UTC.
pub struct Date {
    pub year: int,
    pub month: int,
    pub day: int,
    pub hour: int,
    pub minute: int,
    pub second: int,
}

pub open spec fn leap(year: int) -> bool {
    year % 4 == 0 && (year % 100 != 0 || year % 400 == 0)
}

/// How many days a month has.
pub open spec fn days_in(year: int, month: int) -> int {
    if month == 2 {
        if leap(year) {
            29
        } else {
            28
        }
    } else if month == 4 || month == 6 || month == 9 || month == 11 {
        30
    } else {
        31
    }
}

/// How many days a year has before one of its months.
pub open spec fn days_before_month(year: int, month: int) -> int
    decreases month,
{
    if month <= 1 {
        0
    } else {
        days_before_month(year, month - 1) + days_in(year, month - 1)
    }
}

/// How many days there are before a year, from the start of year 0.
pub open spec fn days_before_year(year: int) -> int {
    365 * year + (year + 3) / 4 - (year + 99) / 100 + (year + 399) / 400
}

impl Date {
    pub open spec fn proper(self) -> bool {
        &&& 0 <= self.year <= 9999
        &&& 1 <= self.month <= 12
        &&& 1 <= self.day <= days_in(self.year, self.month)
        &&& 0 <= self.hour < 24
        &&& 0 <= self.minute < 60
        &&& 0 <= self.second < 60
    }

    /// How many days of the calendar are before it.
    pub open spec fn days(self) -> int {
        days_before_year(self.year) + days_before_month(self.year, self.month) + self.day - 1
    }

    /// In seconds since 1970 began.
    pub open spec fn moment(self) -> int {
        (self.days() - days_before_year(1970)) * 86_400 + self.hour * 3_600 + self.minute * 60
            + self.second
    }

    /// As a certificate has it: with two digits of the year if that is
    /// enough, and else with four.
    pub open spec fn field(self) -> Seq<u8> {
        let rest = two_digits(self.month) + two_digits(self.day) + two_digits(self.hour)
            + two_digits(self.minute) + two_digits(self.second) + seq![0x5au8];
        if 1950 <= self.year < 2050 {
            seq![0x17u8, 13] + two_digits(self.year) + rest
        } else {
            seq![0x18u8, 15] + two_digits(self.year / 100) + two_digits(self.year) + rest
        }
    }
}

/// The last two digits of a number.
pub open spec fn two_digits(n: int) -> Seq<u8> {
    seq![(0x30 + n / 10 % 10) as u8, (0x30 + n % 10) as u8]
}

/// As a certificate has the time that it is valid in.
pub open spec fn validity_field(first: Date, last: Date) -> Seq<u8> {
    let dates = first.field() + last.field();
    seq![0x30u8, dates.len() as u8] + dates
}

/// A certificate is valid from one moment to another.
pub open spec fn lasts(certificate: Seq<u8>, from: int, to: int) -> bool {
    exists|first: Date, last: Date|
        {
            &&& first.proper() && first.moment() == from
            &&& last.proper() && last.moment() == to
            &&& holds(certificate, #[trigger] validity_field(first, last))
        }
}

/// Every moment has one date, so a certificate says which moments it is valid
/// between.
pub proof fn lemma_one_date(a: Date, b: Date)
    requires
        a.proper(),
        b.proper(),
        a.moment() == b.moment(),
    ensures
        a == b,
{
    let a_clock = a.hour * 3_600 + a.minute * 60 + a.second;
    let b_clock = b.hour * 3_600 + b.minute * 60 + b.second;
    assert(0 <= a_clock < 86_400 && 0 <= b_clock < 86_400);
    assert(a.days() == b.days());
    assert(a_clock == b_clock);
    lemma_within_year(a);
    lemma_within_year(b);
    if a.year < b.year {
        lemma_years_grow(a.year + 1, b.year);
    } else if b.year < a.year {
        lemma_years_grow(b.year + 1, a.year);
    }
    assert(a.year == b.year);
    if a.month < b.month {
        lemma_months_grow(a.year, a.month + 1, b.month);
    } else if b.month < a.month {
        lemma_months_grow(a.year, b.month + 1, a.month);
    }
}

proof fn lemma_months_grow(year: int, from: int, to: int)
    requires
        1 <= from <= to,
    ensures
        days_before_month(year, from) <= days_before_month(year, to),
    decreases to - from,
{
    if from < to {
        lemma_months_grow(year, from, to - 1);
    }
}

proof fn lemma_within_year(date: Date)
    requires
        date.proper(),
    ensures
        days_before_year(date.year) <= date.days() < days_before_year(date.year + 1),
{
    lemma_months_grow(date.year, 1, date.month);
    lemma_months_grow(date.year, date.month + 1, 13);
    reveal_with_fuel(days_before_month, 14);
    assert(days_before_month(date.year, 13) == if leap(date.year) {
        366int
    } else {
        365int
    });
}

proof fn lemma_years_grow(from: int, to: int)
    requires
        0 <= from <= to,
    ensures
        days_before_year(from) <= days_before_year(to),
    decreases to - from,
{
    if from < to {
        lemma_years_grow(from, to - 1);
    }
}

// --- The key ------------------------------------------------------------------------------------

/// A certificate carries the public half of an ECDSA P-256 key: the point that
/// the key's PKCS#8 document ends with.
pub open spec fn made_with(certificate: Seq<u8>, key: Seq<u8>) -> bool {
    &&& key.len() == 138
    &&& holds(certificate, seq![0x03u8, 0x42, 0x00] + key.skip(73))
}

// --- In text ------------------------------------------------------------------------------------

pub open spec fn base64_digit(n: int) -> char {
    if n < 26 {
        ('A' as int + n) as char
    } else if n < 52 {
        ('a' as int + n - 26) as char
    } else if n < 62 {
        ('0' as int + n - 52) as char
    } else if n == 62 {
        '+'
    } else {
        '/'
    }
}

/// Bytes in base 64: three of them in four digits, and `=` where the last
/// three are not full.
pub open spec fn base64(bytes: Seq<u8>) -> Seq<char> {
    Seq::new(
        (bytes.len() + 2) / 3 * 4,
        |k: int|
            {
                let i = k / 4 * 3;
                let bits = byte_at(bytes, i) * 0x1_0000 + byte_at(bytes, i + 1) * 0x100 + byte_at(
                    bytes,
                    i + 2,
                );
                if k % 4 == 0 {
                    base64_digit(bits / 0x4_0000)
                } else if k % 4 == 1 {
                    base64_digit(bits / 0x1000 % 64)
                } else if k % 4 == 2 {
                    if i + 1 < bytes.len() {
                        base64_digit(bits / 64 % 64)
                    } else {
                        '='
                    }
                } else if i + 2 < bytes.len() {
                    base64_digit(bits % 64)
                } else {
                    '='
                }
            },
    )
}

/// A byte, or zero behind the end.
pub open spec fn byte_at(bytes: Seq<u8>, i: int) -> int {
    if 0 <= i < bytes.len() {
        bytes[i] as int
    } else {
        0
    }
}

/// A text in lines of 64 characters.
pub open spec fn in_lines(text: Seq<char>, end: Seq<char>) -> Seq<char>
    decreases text.len(),
{
    if text.len() == 0 {
        Seq::empty()
    } else if text.len() <= 64 {
        text + end
    } else {
        text.take(64) + end + in_lines(text.skip(64), end)
    }
}

/// Bytes in PEM, under a label, with lines that end in `end`.
pub open spec fn pem(label: Seq<char>, bytes: Seq<u8>, end: Seq<char>) -> Seq<char> {
    "-----BEGIN "@ + label + "-----"@ + end + in_lines(base64(bytes), end) + "-----END "@ + label
        + "-----"@ + end
}

/// A text is bytes in PEM, with the lines of one system or another.
pub open spec fn is_pem(text: Seq<char>, label: Seq<char>, bytes: Seq<u8>) -> bool {
    text == pem(label, bytes, "\n"@) || text == pem(label, bytes, "\r\n"@)
}

}
