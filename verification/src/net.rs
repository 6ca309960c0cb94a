//! Internet addresses, as numbers.

use crate::hex::{digit_value, hex_number, push_hex_number, value_of_digit};
use crate::text::{
    all_digits, decimal, find, index_from, is_digit, lemma_decimal_reads_back, lemma_last_piece,
    lemma_one_piece, lemma_parted, number, parse_up_to, pieces, push_decimal, split, texts,
};
use vstd::prelude::*;
use vstd::slice::slice_subrange;

verus! {

/// An IP address: 32 bits, or 128.
#[derive(Debug, Clone, Copy, PartialEq, Eq, Structural)]
pub enum Ip {
    V4(u32),
    V6(u128),
}

/// An IP address and a port.
#[derive(Debug, Clone, Copy, PartialEq, Eq, Structural)]
pub struct Address {
    pub ip: Ip,
    pub port: u16,
}

impl Ip {
    /// `a.b.c.d`.
    pub fn v4(a: u8, b: u8, c: u8, d: u8) -> (ip: Ip)
        ensures
            ip == Ip::V4((a * 0x100_0000 + b * 0x1_0000 + c * 0x100 + d) as u32),
    {
        Ip::V4(a as u32 * 0x100_0000 + b as u32 * 0x1_0000 + c as u32 * 0x100 + d as u32)
    }

    /// All zeros: no address at all.
    pub open spec fn unspecified(&self) -> bool {
        match self {
            Ip::V4(bits) => *bits == 0,
            Ip::V6(bits) => *bits == 0,
        }
    }

    pub fn is_unspecified(&self) -> (yes: bool)
        ensures
            yes == self.unspecified(),
    {
        match self {
            Ip::V4(bits) => *bits == 0,
            Ip::V6(bits) => *bits == 0,
        }
    }

    /// This machine: `127.0.0.0/8`, `::1`.
    pub open spec fn loopback(&self) -> bool {
        match self {
            Ip::V4(bits) => *bits / 0x100_0000 == 127,
            Ip::V6(bits) => *bits == 1,
        }
    }

    pub fn is_loopback(&self) -> (yes: bool)
        ensures
            yes == self.loopback(),
    {
        match self {
            Ip::V4(bits) => *bits / 0x100_0000 == 127,
            Ip::V6(bits) => *bits == 1,
        }
    }

    /// The IPv4 address that an IPv6 one carries (`::ffff:a.b.c.d`), and
    /// any other as it is.
    pub open spec fn canonical(&self) -> Ip {
        match self {
            Ip::V6(bits) => if *bits / 0x1_0000_0000 == 0xffff {
                Ip::V4((*bits % 0x1_0000_0000) as u32)
            } else {
                Ip::V6(*bits)
            },
            Ip::V4(bits) => Ip::V4(*bits),
        }
    }

    pub fn to_canonical(&self) -> (ip: Ip)
        ensures
            ip == self.canonical(),
    {
        match self {
            Ip::V6(bits) => if *bits / 0x1_0000_0000 == 0xffff {
                Ip::V4((*bits % 0x1_0000_0000) as u32)
            } else {
                Ip::V6(*bits)
            },
            Ip::V4(bits) => Ip::V4(*bits),
        }
    }

    /// Within a private network: `10/8`, `172.16/12`, `192.168/16`,
    /// `127/8`, `169.254/16`; `::1`, `fc00::/7`, `fe80::/10`.
    pub open spec fn local(&self) -> bool {
        match self.canonical() {
            Ip::V4(bits) => {
                ||| bits / 0x100_0000 == 10
                ||| bits / 0x10_0000 == 0xac1
                ||| bits / 0x1_0000 == 0xc0a8
                ||| bits / 0x100_0000 == 127
                ||| bits / 0x1_0000 == 0xa9fe
            },
            Ip::V6(bits) => {
                ||| bits == 1
                ||| bits / 0x200_0000_0000_0000_0000_0000_0000_0000 == 0x7e
                ||| bits / 0x40_0000_0000_0000_0000_0000_0000_0000 == 0x3fa
            },
        }
    }

    pub fn is_local(&self) -> (yes: bool)
        ensures
            yes == self.local(),
    {
        match self.to_canonical() {
            Ip::V4(bits) => bits / 0x100_0000 == 10 || bits / 0x10_0000 == 0xac1 || bits / 0x1_0000
                == 0xc0a8 || bits / 0x100_0000 == 127 || bits / 0x1_0000 == 0xa9fe,
            Ip::V6(bits) => bits == 1 || bits / 0x200_0000_0000_0000_0000_0000_0000_0000 == 0x7e
                || bits / 0x40_0000_0000_0000_0000_0000_0000_0000 == 0x3fa,
        }
    }

    /// The unspecified address of the same family: to bind to when any local
    /// address will do.
    pub fn any_like(&self) -> (ip: Ip)
        ensures
            ip.unspecified(),
            ip is V4 <==> self is V4,
    {
        match self {
            Ip::V4(_) => Ip::V4(0),
            Ip::V6(_) => Ip::V6(0),
        }
    }
}

impl Address {
    pub fn new(ip: Ip, port: u16) -> (address: Address)
        ensures
            address == (Address { ip, port }),
    {
        Address { ip, port }
    }
}

// --- As text ---------------------------------------------------------------------------------

/// `a.b.c.d`.
pub open spec fn dotted(bits: u32) -> Seq<char> {
    decimal((bits / 0x100_0000) as nat) + "."@ + decimal((bits / 0x1_0000 % 256) as nat) + "."@
        + decimal((bits / 0x100 % 256) as nat) + "."@ + decimal((bits % 256) as nat)
}

fn push_dotted(out: &mut String, bits: u32)
    ensures
        final(out)@ == old(out)@ + dotted(bits),
{
    push_decimal(out, (bits / 0x100_0000) as u64);
    out.append(".");
    push_decimal(out, (bits / 0x1_0000 % 256) as u64);
    out.append(".");
    push_decimal(out, (bits / 0x100 % 256) as u64);
    out.append(".");
    push_decimal(out, (bits % 256) as u64);
    assert(out@ =~= old(out)@ + dotted(bits));
}

/// What segment `i` of eight counts.
pub open spec fn segment_unit(i: int) -> int {
    if i == 0 {
        0x1_0000_0000_0000_0000_0000_0000_0000
    } else if i == 1 {
        0x1_0000_0000_0000_0000_0000_0000
    } else if i == 2 {
        0x1_0000_0000_0000_0000_0000
    } else if i == 3 {
        0x1_0000_0000_0000_0000
    } else if i == 4 {
        0x1_0000_0000_0000
    } else if i == 5 {
        0x1_0000_0000
    } else if i == 6 {
        0x1_0000
    } else {
        1
    }
}

/// The eight segments of an IPv6 address, the high ones first.
pub open spec fn segments_of(bits: u128) -> Seq<u16> {
    Seq::new(8, |i: int| (bits as int / segment_unit(i) % 0x1_0000) as u16)
}

/// How many segments from `i` on are zero.
pub open spec fn zeros_from(segments: Seq<u16>, i: int) -> int
    decreases segments.len() - i,
{
    if 0 <= i < segments.len() && segments[i] == 0 {
        1 + zeros_from(segments, i + 1)
    } else {
        0
    }
}

/// Where the longest row of zeros up to `n` starts, the first of several.
pub open spec fn longest_zeros(segments: Seq<u16>, n: int) -> int
    decreases n,
{
    if n <= 0 {
        0
    } else {
        let best = longest_zeros(segments, n - 1);
        if zeros_from(segments, n) > zeros_from(segments, best) {
            n
        } else {
            best
        }
    }
}

/// Segments from `from` to `to`, with colons between them.
pub open spec fn colons(segments: Seq<u16>, from: int, to: int) -> Seq<char>
    decreases to - from,
{
    if from >= to {
        Seq::empty()
    } else if from + 1 == to {
        hex_number(segments[from] as nat)
    } else {
        colons(segments, from, to - 1) + ":"@ + hex_number(segments[to - 1] as nat)
    }
}

/// An IPv6 address in the canonical form of RFC 5952.
pub open spec fn coloned(bits: u128) -> Seq<char> {
    if bits / 0x1_0000_0000 == 0xffff {
        "::ffff:"@ + dotted((bits % 0x1_0000_0000) as u32)
    } else {
        let segments = segments_of(bits);
        let start = longest_zeros(segments, 7);
        let many = zeros_from(segments, start);
        if many > 1 {
            colons(segments, 0, start) + "::"@ + colons(segments, start + many, 8)
        } else {
            colons(segments, 0, 8)
        }
    }
}

fn push_colons(out: &mut String, segments: &[u16], from: usize, to: usize)
    requires
        to <= segments@.len(),
    ensures
        final(out)@ == old(out)@ + colons(segments@, from as int, to as int),
{
    let mut i: usize = from;
    assert(out@ =~= old(out)@ + colons(segments@, from as int, from as int));
    while i < to
        invariant
            from <= i,
            from < to ==> i <= to,
            from >= to ==> i == from,
            to <= segments@.len(),
            out@ == old(out)@ + colons(segments@, from as int, i as int),
        decreases to - i,
    {
        if i > from {
            out.append(":");
        }
        push_hex_number(out, segments[i] as u64);
        assert(out@ =~= old(out)@ + colons(segments@, from as int, i + 1));
        i = i + 1;
    }
    assert(colons(segments@, from as int, i as int) =~= colons(segments@, from as int, to as int));
}

fn count_zeros(segments: &[u16], i: usize) -> (many: usize)
    requires
        i <= segments@.len(),
    ensures
        many == zeros_from(segments@, i as int),
        i + many <= segments@.len(),
{
    let mut end: usize = i;
    while end < segments.len() && segments[end] == 0
        invariant
            i <= end <= segments@.len(),
            zeros_from(segments@, i as int) == end - i + zeros_from(segments@, end as int),
        decreases segments.len() - end,
    {
        end = end + 1;
    }
    end - i
}

fn push_coloned(out: &mut String, bits: u128)
    ensures
        final(out)@ == old(out)@ + coloned(bits),
{
    if bits / 0x1_0000_0000 == 0xffff {
        out.append("::ffff:");
        push_dotted(out, (bits % 0x1_0000_0000) as u32);
        assert(out@ =~= old(out)@ + coloned(bits));
        return;
    }
    let mut segments: Vec<u16> = Vec::new();
    segments.push((bits / 0x1_0000_0000_0000_0000_0000_0000_0000 % 0x1_0000) as u16);
    segments.push((bits / 0x1_0000_0000_0000_0000_0000_0000 % 0x1_0000) as u16);
    segments.push((bits / 0x1_0000_0000_0000_0000_0000 % 0x1_0000) as u16);
    segments.push((bits / 0x1_0000_0000_0000_0000 % 0x1_0000) as u16);
    segments.push((bits / 0x1_0000_0000_0000 % 0x1_0000) as u16);
    segments.push((bits / 0x1_0000_0000 % 0x1_0000) as u16);
    segments.push((bits / 0x1_0000 % 0x1_0000) as u16);
    segments.push((bits % 0x1_0000) as u16);
    assert(segments@ =~= segments_of(bits));
    let mut start: usize = 0;
    let mut n: usize = 1;
    while n < 8
        invariant
            1 <= n <= 8,
            segments@.len() == 8,
            start == longest_zeros(segments@, n - 1),
            start < n,
        decreases 8 - n,
    {
        if count_zeros(&segments, n) > count_zeros(&segments, start) {
            start = n;
        }
        n = n + 1;
    }
    let many: usize = count_zeros(&segments, start);
    if many > 1 {
        push_colons(out, &segments, 0, start);
        out.append("::");
        push_colons(out, &segments, start + many, 8);
    } else {
        push_colons(out, &segments, 0, 8);
    }
    assert(out@ =~= old(out)@ + coloned(bits));
}

impl Ip {
    pub open spec fn written(&self) -> Seq<char> {
        match self {
            Ip::V4(bits) => dotted(*bits),
            Ip::V6(bits) => coloned(*bits),
        }
    }

    pub fn text(&self) -> (text: String)
        ensures
            text@ == self.written(),
    {
        let mut out = String::new();
        match self {
            Ip::V4(bits) => push_dotted(&mut out, *bits),
            Ip::V6(bits) => push_coloned(&mut out, *bits),
        }
        assert(out@ =~= self.written());
        out
    }
}

impl Address {
    pub open spec fn written(&self) -> Seq<char> {
        match self.ip {
            Ip::V4(bits) => dotted(bits) + ":"@ + decimal(self.port as nat),
            Ip::V6(bits) => "["@ + coloned(bits) + "]:"@ + decimal(self.port as nat),
        }
    }

    pub fn text(&self) -> (text: String)
        ensures
            text@ == self.written(),
    {
        let mut out = String::new();
        match self.ip {
            Ip::V4(bits) => {
                push_dotted(&mut out, bits);
                out.append(":");
            },
            Ip::V6(bits) => {
                out.append("[");
                push_coloned(&mut out, bits);
                out.append("]:");
            },
        }
        push_decimal(&mut out, self.port as u64);
        assert(out@ =~= self.written());
        out
    }
}

// --- From text -------------------------------------------------------------------------------

/// The number that up to three digits write, without a zero in front.
pub open spec fn octet(s: Seq<char>) -> Option<int> {
    if 1 <= s.len() <= 3 && all_digits(s) && (s.len() == 1 || s[0] != '0') && number(s) <= 255 {
        Some(number(s) as int)
    } else {
        None
    }
}

/// The address that four numbers between dots write.
pub open spec fn v4_of(s: Seq<char>) -> Option<u32> {
    let parts = pieces(s, '.');
    if parts.len() == 4 {
        match (octet(parts[0]), octet(parts[1]), octet(parts[2]), octet(parts[3])) {
            (Some(a), Some(b), Some(c), Some(d)) => Some(
                (a * 0x100_0000 + b * 0x1_0000 + c * 0x100 + d) as u32,
            ),
            _ => None,
        }
    } else {
        None
    }
}

fn read_octet(s: &[char]) -> (n: Option<u8>)
    ensures
        match n {
            Some(n) => octet(s@) == Some(n as int),
            None => octet(s@) is None,
        },
{
    if s.len() < 1 || s.len() > 3 || (s.len() > 1 && s[0] == '0') || !digits_only(s) {
        return None;
    }
    assert(crate::text::is_digit(s@[0]));
    match parse_up_to(s, 255) {
        Some(n) => Some(n as u8),
        None => None,
    }
}

fn digits_only(s: &[char]) -> (yes: bool)
    ensures
        yes == all_digits(s@),
{
    let mut i: usize = 0;
    while i < s.len()
        invariant
            i <= s@.len(),
            forall|j: int| 0 <= j < i ==> crate::text::is_digit(#[trigger] s@[j]),
        decreases s.len() - i,
    {
        if !crate::text::digit(s[i]) {
            assert(!crate::text::is_digit(s@[i as int]));
            return false;
        }
        i = i + 1;
    }
    true
}

fn read_v4(s: &[char]) -> (bits: Option<u32>)
    ensures
        bits == v4_of(s@),
{
    let parts = split(s, '.');
    let ghost all = pieces(s@, '.');
    assert(texts(parts@) == all);
    if parts.len() != 4 {
        return None;
    }
    assert(all[0] == parts@[0]@ && all[1] == parts@[1]@ && all[2] == parts@[2]@ && all[3]
        == parts@[3]@);
    match (
        read_octet(&parts[0]),
        read_octet(&parts[1]),
        read_octet(&parts[2]),
        read_octet(&parts[3]),
    ) {
        (Some(a), Some(b), Some(c), Some(d)) => Some(
            a as u32 * 0x100_0000 + b as u32 * 0x1_0000 + c as u32 * 0x100 + d as u32,
        ),
        _ => None,
    }
}

/// The number that hexadecimal digits write.
pub open spec fn hex_value(s: Seq<char>) -> Option<int>
    decreases s.len(),
{
    if s.len() == 0 {
        Some(0)
    } else {
        match (hex_value(s.drop_last()), digit_value(s.last())) {
            (Some(high), Some(low)) => Some(high * 16 + low),
            _ => None,
        }
    }
}

/// The segment that up to four hexadecimal digits write.
pub open spec fn segment(s: Seq<char>) -> Option<u16> {
    if 1 <= s.len() <= 4 && hex_value(s) is Some {
        Some(hex_value(s)->Some_0 as u16)
    } else {
        None
    }
}

proof fn lemma_hex_value(s: Seq<char>)
    requires
        s.len() <= 4,
    ensures
        hex_value(s) matches Some(v) ==> 0 <= v < (if s.len() == 0 {
            1int
        } else if s.len() == 1 {
            0x10int
        } else if s.len() == 2 {
            0x100int
        } else if s.len() == 3 {
            0x1000int
        } else {
            0x1_0000int
        }),
    decreases s.len(),
{
    if s.len() > 0 {
        lemma_hex_value(s.drop_last());
    }
}

fn read_segment(s: &[char]) -> (n: Option<u16>)
    ensures
        n == segment(s@),
{
    if s.len() < 1 || s.len() > 4 {
        return None;
    }
    let mut value: u32 = 0;
    let mut i: usize = 0;
    while i < s.len()
        invariant
            i <= s@.len() <= 4,
            hex_value(s@.take(i as int)) == Some(value as int),
            value < 0x1_0000,
        decreases s.len() - i,
    {
        assert(s@.take(i + 1).drop_last() =~= s@.take(i as int));
        proof {
            lemma_hex_value(s@.take(i as int));
            lemma_hex_value(s@.take(i + 1));
        }
        match value_of_digit(s[i]) {
            Some(d) => {
                value = value * 16 + d as u32;
            },
            None => {
                proof {
                    lemma_hex_fails(s@, i as int);
                }
                return None;
            },
        }
        i = i + 1;
    }
    assert(s@.take(i as int) =~= s@);
    Some(value as u16)
}

proof fn lemma_hex_fails(s: Seq<char>, i: int)
    requires
        0 <= i < s.len(),
        digit_value(s[i]) is None,
    ensures
        hex_value(s) is None,
    decreases s.len(),
{
    if i < s.len() - 1 {
        lemma_hex_fails(s.drop_last(), i);
    }
}

/// The segments that pieces write, if each writes one.
pub open spec fn all_segments(parts: Seq<Seq<char>>) -> Option<Seq<u16>>
    decreases parts.len(),
{
    if parts.len() == 0 {
        Some(Seq::empty())
    } else {
        match (all_segments(parts.drop_last()), segment(parts.last())) {
            (Some(rest), Some(last)) => Some(rest.push(last)),
            _ => None,
        }
    }
}

/// The segments between colons; the last two may be written as four numbers
/// between dots, where that is allowed.
pub open spec fn group_of(s: Seq<char>, quad: bool) -> Option<Seq<u16>> {
    if s.len() == 0 {
        Some(Seq::empty())
    } else {
        let parts = pieces(s, ':');
        match v4_of(parts.last()) {
            Some(bits) => match all_segments(parts.drop_last()) {
                Some(rest) if quad => Some(
                    rest.push((bits / 0x1_0000) as u16).push((bits % 0x1_0000) as u16),
                ),
                _ => None,
            },
            None => all_segments(parts),
        }
    }
}

/// The first place where two colons stand together; -1 where they do not.
pub open spec fn gap_in(s: Seq<char>, from: int) -> int
    decreases s.len() - from,
{
    if from < 0 || from + 1 >= s.len() {
        -1
    } else if s[from] == ':' && s[from + 1] == ':' {
        from
    } else {
        gap_in(s, from + 1)
    }
}

/// The eight segments of an IPv6 address: all written, or some zeros left
/// out, once.
pub open spec fn v6_segments(s: Seq<char>) -> Option<Seq<u16>> {
    let gap = gap_in(s, 0);
    if gap < 0 {
        match group_of(s, true) {
            Some(all) if all.len() == 8 => Some(all),
            _ => None,
        }
    } else {
        match (group_of(s.take(gap), false), group_of(s.skip(gap + 2), true)) {
            (Some(head), Some(tail)) if head.len() + tail.len() <= 7 => Some(
                head + Seq::new((8 - head.len() - tail.len()) as nat, |i: int| 0u16) + tail,
            ),
            _ => None,
        }
    }
}

/// The number that segments write, the high ones first.
pub open spec fn segments_value(segments: Seq<u16>) -> int
    decreases segments.len(),
{
    if segments.len() == 0 {
        0
    } else {
        segments_value(segments.drop_last()) * 0x1_0000 + segments.last()
    }
}

fn read_segments(parts: &[Vec<char>], many: usize) -> (segments: Option<Vec<u16>>)
    requires
        many <= parts@.len(),
    ensures
        match segments {
            Some(segments) => all_segments(texts(parts@).take(many as int)) == Some(segments@),
            None => all_segments(texts(parts@).take(many as int)) is None,
        },
{
    let ghost all = texts(parts@);
    let mut segments: Vec<u16> = Vec::new();
    let mut i: usize = 0;
    assert(all.take(0) =~= Seq::empty());
    while i < many
        invariant
            i <= many <= parts@.len(),
            all == texts(parts@),
            all_segments(all.take(i as int)) == Some(segments@),
        decreases many - i,
    {
        assert(all.take(i + 1).drop_last() =~= all.take(i as int));
        assert(all.take(i + 1).last() == parts@[i as int]@);
        match read_segment(&parts[i]) {
            Some(n) => {
                segments.push(n);
            },
            None => {
                proof {
                    lemma_segments_fail(all.take(many as int), i as int);
                }
                return None;
            },
        }
        i = i + 1;
    }
    Some(segments)
}

proof fn lemma_segments_fail(parts: Seq<Seq<char>>, i: int)
    requires
        0 <= i < parts.len(),
        segment(parts[i]) is None,
    ensures
        all_segments(parts) is None,
    decreases parts.len(),
{
    if i < parts.len() - 1 {
        lemma_segments_fail(parts.drop_last(), i);
    }
}

fn read_group(s: &[char], quad: bool) -> (segments: Option<Vec<u16>>)
    ensures
        match segments {
            Some(segments) => group_of(s@, quad) == Some(segments@),
            None => group_of(s@, quad) is None,
        },
{
    if s.len() == 0 {
        let none: Vec<u16> = Vec::new();
        assert(none@ =~= Seq::empty());
        return Some(none);
    }
    let parts = split(s, ':');
    let ghost all = pieces(s@, ':');
    let last: usize = parts.len() - 1;
    assert(all.last() == parts@[last as int]@);
    assert(all.drop_last() =~= texts(parts@).take(last as int));
    assert(all =~= texts(parts@).take(parts@.len() as int));
    match read_v4(&parts[last]) {
        Some(bits) => {
            let rest = read_segments(&parts, last);
            if !quad {
                return None;
            }
            match rest {
                Some(rest) => {
                    let mut segments = rest;
                    segments.push((bits / 0x1_0000) as u16);
                    segments.push((bits % 0x1_0000) as u16);
                    Some(segments)
                },
                None => None,
            }
        },
        None => read_segments(&parts, parts.len()),
    }
}

fn find_gap(s: &[char]) -> (at: Option<usize>)
    ensures
        match at {
            Some(at) => gap_in(s@, 0) == at && at + 2 <= s.len(),
            None => gap_in(s@, 0) < 0,
        },
{
    let mut i: usize = 0;
    while i < s.len() && s.len() - i > 1
        invariant
            i <= s@.len(),
            gap_in(s@, 0) == gap_in(s@, i as int),
        decreases s.len() - i,
    {
        if s[i] == ':' && s[i + 1] == ':' {
            return Some(i);
        }
        i = i + 1;
    }
    None
}

/// What so many segments cannot exceed.
spec fn segments_limit(many: int) -> int
    decreases many,
{
    if many <= 0 {
        1
    } else {
        0x1_0000 * segments_limit(many - 1)
    }
}

proof fn lemma_segments_value(segments: Seq<u16>)
    ensures
        0 <= segments_value(segments) < segments_limit(segments.len() as int),
    decreases segments.len(),
{
    if segments.len() > 0 {
        lemma_segments_value(segments.drop_last());
    }
}

fn value_of_segments(segments: &[u16]) -> (bits: u128)
    requires
        segments@.len() == 8,
    ensures
        bits == segments_value(segments@),
{
    let mut bits: u128 = 0;
    let mut i: usize = 0;
    while i < 8
        invariant
            i <= 8,
            segments@.len() == 8,
            bits == segments_value(segments@.take(i as int)),
        decreases 8 - i,
    {
        proof {
            reveal_with_fuel(segments_limit, 9);
            lemma_segments_value(segments@.take(i as int));
            lemma_segments_value(segments@.take(i + 1));
            assert(segments@.take(i + 1).drop_last() =~= segments@.take(i as int));
        }
        bits = bits * 0x1_0000 + segments[i] as u128;
        i = i + 1;
    }
    assert(segments@.take(i as int) =~= segments@);
    bits
}

/// The IPv6 address that a text writes.
pub open spec fn v6_of(s: Seq<char>) -> Option<int> {
    match v6_segments(s) {
        Some(segments) => Some(segments_value(segments)),
        None => None,
    }
}

fn read_v6(s: &[char]) -> (bits: Option<u128>)
    ensures
        match bits {
            Some(bits) => v6_of(s@) == Some(bits as int),
            None => v6_of(s@) is None,
        },
{
    match find_gap(s) {
        None => match read_group(s, true) {
            Some(all) => if all.len() == 8 {
                Some(value_of_segments(&all))
            } else {
                None
            },
            None => None,
        },
        Some(gap) => {
            let front = slice_subrange(s, 0, gap);
            let back = slice_subrange(s, gap + 2, s.len());
            assert(front@ =~= s@.take(gap as int));
            assert(back@ =~= s@.skip(gap + 2));
            match (read_group(front, false), read_group(back, true)) {
                (Some(head), Some(tail)) => {
                    if head.len() > 7 || tail.len() > 7 - head.len() {
                        return None;
                    }
                    let mut all: Vec<u16> = Vec::new();
                    all.extend_from_slice(&head);
                    let zeros: usize = 8 - head.len() - tail.len();
                    let mut i: usize = 0;
                    while i < zeros
                        invariant
                            i <= zeros,
                            all@ == head@ + Seq::new(i as nat, |k: int| 0u16),
                        decreases zeros - i,
                    {
                        all.push(0);
                        i = i + 1;
                        assert(all@ =~= head@ + Seq::new(i as nat, |k: int| 0u16));
                    }
                    all.extend_from_slice(&tail);
                    assert(all@ =~= head@ + Seq::new(zeros as nat, |k: int| 0u16) + tail@);
                    Some(value_of_segments(&all))
                },
                _ => None,
            }
        },
    }
}

impl Ip {
    /// The address that a text writes, of either family.
    pub open spec fn read_from(s: Seq<char>) -> Option<Ip> {
        match v4_of(s) {
            Some(bits) => Some(Ip::V4(bits)),
            None => match v6_of(s) {
                Some(bits) => Some(Ip::V6(bits as u128)),
                None => None,
            },
        }
    }

    pub fn parse(s: &[char]) -> (ip: Option<Ip>)
        ensures
            ip == Ip::read_from(s@),
    {
        match read_v4(s) {
            Some(bits) => Some(Ip::V4(bits)),
            None => match read_v6(s) {
                Some(bits) => Some(Ip::V6(bits)),
                None => None,
            },
        }
    }
}

/// The port that digits write.
pub open spec fn port_of(s: Seq<char>) -> Option<u16> {
    if s.len() >= 1 && all_digits(s) && number(s) <= 65535 {
        Some(number(s) as u16)
    } else {
        None
    }
}

fn read_port(s: &[char]) -> (port: Option<u16>)
    ensures
        port == port_of(s@),
{
    if s.len() < 1 || !digits_only(s) {
        return None;
    }
    assert(crate::text::is_digit(s@[0]));
    match parse_up_to(s, 65535) {
        Some(n) => Some(n as u16),
        None => None,
    }
}

impl Address {
    /// The address that `ip:port`, or `[ip]:port`, writes.
    pub open spec fn read_from(s: Seq<char>) -> Option<Address> {
        if s.len() > 0 && s[0] == '[' {
            let end = index_from(s, ']', 0);
            if end + 1 < s.len() && s[end + 1] == ':' {
                match (v6_of(s.subrange(1, end)), port_of(s.skip(end + 2))) {
                    (Some(bits), Some(port)) => Some(Address { ip: Ip::V6(bits as u128), port }),
                    _ => None,
                }
            } else {
                None
            }
        } else {
            let colon = index_from(s, ':', 0);
            if colon < s.len() {
                match (v4_of(s.take(colon)), port_of(s.skip(colon + 1))) {
                    (Some(bits), Some(port)) => Some(Address { ip: Ip::V4(bits), port }),
                    _ => None,
                }
            } else {
                None
            }
        }
    }

    pub fn parse(s: &[char]) -> (address: Option<Address>)
        ensures
            address == Address::read_from(s@),
    {
        if s.len() > 0 && s[0] == '[' {
            let end: usize = find(s, ']', 0);
            assert(end > 0) by {
                crate::text::lemma_index_from(s@, ']', 0);
            }
            if end >= s.len() || s.len() - end < 2 || s[end + 1] != ':' {
                return None;
            }
            let inside = slice_subrange(s, 1, end);
            let rest = slice_subrange(s, end + 2, s.len());
            assert(inside@ =~= s@.subrange(1, end as int));
            assert(rest@ =~= s@.skip(end + 2));
            match (read_v6(inside), read_port(rest)) {
                (Some(bits), Some(port)) => Some(Address { ip: Ip::V6(bits), port }),
                _ => None,
            }
        } else {
            let colon: usize = find(s, ':', 0);
            if colon >= s.len() {
                return None;
            }
            let front = slice_subrange(s, 0, colon);
            let rest = slice_subrange(s, colon + 1, s.len());
            assert(front@ =~= s@.take(colon as int));
            assert(rest@ =~= s@.skip(colon + 1));
            match (read_v4(front), read_port(rest)) {
                (Some(bits), Some(port)) => Some(Address { ip: Ip::V4(bits), port }),
                _ => None,
            }
        }
    }
}

/// A list of addresses holds one.
pub fn contains_address(list: &[Address], address: Address) -> (yes: bool)
    ensures
        yes == list@.contains(address),
{
    let mut i: usize = 0;
    while i < list.len()
        invariant
            i <= list@.len(),
            forall|j: int| 0 <= j < i ==> list@[j] != address,
        decreases list.len() - i,
    {
        if list[i] == address {
            return true;
        }
        i = i + 1;
    }
    false
}

/// Taking an address to its canonical form twice is taking it there once.
pub proof fn lemma_canonical_twice(ip: Ip)
    ensures
        ip.canonical().canonical() == ip.canonical(),
{
}

/// Any address and port, of the kind that `address` is: where to listen to
/// reach it.
pub fn unspecified_like(address: Address) -> (any: Address)
    ensures
        any.port == 0,
        any.ip == (match address.ip {
            Ip::V4(_) => Ip::V4(0),
            Ip::V6(_) => Ip::V6(0),
        }),
{
    Address { ip: address.ip.any_like(), port: 0 }
}

// --- What addresses come to --------------------------------------------------------------------

/// Which IPv4 addresses are of private networks, and which are this machine's.
pub proof fn lemma_private_ipv4(a: u8, b: u8, c: u8, d: u8)
    ensures
        ({
            let ip = Ip::V4((a * 0x100_0000 + b * 0x1_0000 + c * 0x100 + d) as u32);
            &&& ip.local() <==> a == 10 || (a == 172 && 16 <= b <= 31) || (a == 192 && b == 168)
                || a == 127 || (a == 169 && b == 254)
            &&& ip.loopback() <==> a == 127
            &&& ip.unspecified() <==> a == 0 && b == 0 && c == 0 && d == 0
            &&& ip.canonical() == ip
        }),
{
}

/// Which IPv6 addresses are, by their first sixteen bits; one that carries an
/// IPv4 address is what that one is.
pub proof fn lemma_private_ipv6(bits: u128, carried: u32)
    ensures
        bits / 0x1_0000_0000 != 0xffff ==> (Ip::V6(bits).local() <==> bits == 1 || 0xfc00 <= bits
            / 0x1_0000_0000_0000_0000_0000_0000_0000 <= 0xfdff || 0xfe80 <= bits
            / 0x1_0000_0000_0000_0000_0000_0000_0000 <= 0xfebf),
        Ip::V6(bits).loopback() <==> bits == 1,
        Ip::V6(bits).unspecified() <==> bits == 0,
        Ip::V6((0xffff_0000_0000 + carried) as u128).canonical() == Ip::V4(carried),
        Ip::V6((0xffff_0000_0000 + carried) as u128).local() == Ip::V4(carried).local(),
        Ip::V6(bits).canonical() is V4 <==> 0xffff_0000_0000 <= bits <= 0xffff_ffff_ffff,
{
}

proof fn lemma_decimal_of_a_byte(n: nat)
    requires
        n < 256,
    ensures
        octet(decimal(n)) == Some(n as int),
        !decimal(n).contains('.') && !decimal(n).contains(':') && !decimal(n).contains(']'),
{
    lemma_decimal_reads_back(n);
    reveal_with_fuel(decimal, 4);
    let s = decimal(n);
    assert forall|i: int| 0 <= i < s.len() implies s[i] != '.' && s[i] != ':' && s[i] != ']' by {
        assert(is_digit(s[i]));
    }
}

/// What stands between the dots of an IPv4 address.
pub proof fn lemma_dotted_parts(bits: u32)
    ensures
        pieces(dotted(bits), '.') == seq![
            decimal((bits / 0x100_0000) as nat),
            decimal((bits / 0x1_0000 % 256) as nat),
            decimal((bits / 0x100 % 256) as nat),
            decimal((bits % 256) as nat),
        ],
        !dotted(bits).contains(':'),
        dotted(bits).len() > 0 && is_digit(dotted(bits)[0]),
{
    let (a, b, c, d) = (
        decimal((bits / 0x100_0000) as nat),
        decimal((bits / 0x1_0000 % 256) as nat),
        decimal((bits / 0x100 % 256) as nat),
        decimal((bits % 256) as nat),
    );
    reveal_strlit(".");
    lemma_decimal_of_a_byte((bits / 0x100_0000) as nat);
    lemma_decimal_of_a_byte((bits / 0x1_0000 % 256) as nat);
    lemma_decimal_of_a_byte((bits / 0x100 % 256) as nat);
    lemma_decimal_of_a_byte((bits % 256) as nat);
    lemma_one_piece(a, '.');
    lemma_last_piece(a, '.', b);
    lemma_last_piece(a.push('.') + b, '.', c);
    lemma_last_piece((a.push('.') + b).push('.') + c, '.', d);
    let whole = ((a.push('.') + b).push('.') + c).push('.') + d;
    assert(dotted(bits) =~= whole);
    assert(seq![a].push(b).push(c).push(d) =~= seq![a, b, c, d]);
    lemma_decimal_reads_back((bits / 0x100_0000) as nat);
    assert(whole[0] == a[0] && is_digit(a[0]));
    assert forall|i: int| 0 <= i < whole.len() implies whole[i] != ':' by {
        let (m, n, o) = (a.len() as int, b.len() as int, c.len() as int);
        if i < m {
            assert(whole[i] == a[i]);
        } else if m < i < m + 1 + n {
            assert(whole[i] == b[i - m - 1]);
        } else if m + n + 1 < i < m + n + o + 2 {
            assert(whole[i] == c[i - m - n - 2]);
        } else if i > m + n + o + 2 {
            assert(whole[i] == d[i - m - n - o - 3]);
        }
    }
}

/// An IPv4 address that is written out reads back as itself, alone and with a
/// port.
pub proof fn lemma_ipv4_reads_back(bits: u32, port: u16)
    ensures
        Ip::read_from(Ip::V4(bits).written()) == Some(Ip::V4(bits)),
        Address::read_from((Address { ip: Ip::V4(bits), port }).written()) == Some(
            Address { ip: Ip::V4(bits), port },
        ),
{
    lemma_dotted_parts(bits);
    lemma_decimal_of_a_byte((bits / 0x100_0000) as nat);
    lemma_decimal_of_a_byte((bits / 0x1_0000 % 256) as nat);
    lemma_decimal_of_a_byte((bits / 0x100 % 256) as nat);
    lemma_decimal_of_a_byte((bits % 256) as nat);
    assert(v4_of(dotted(bits)) == Some(bits));
    reveal_strlit(":");
    let s = (Address { ip: Ip::V4(bits), port }).written();
    assert(s =~= dotted(bits).push(':') + decimal(port as nat));
    lemma_parted(dotted(bits), ':', decimal(port as nat));
    assert(s.take(dotted(bits).len() as int) =~= dotted(bits));
    assert(s.skip(dotted(bits).len() as int + 1) =~= decimal(port as nat));
    assert(s[0] == dotted(bits)[0]);
    lemma_decimal_reads_back(port as nat);
}

/// The first segments make up what is left once the others are taken off.
proof fn lemma_segments_so_far(bits: u128, k: int)
    requires
        1 <= k <= 8,
    ensures
        segments_value(segments_of(bits).take(k)) == bits as int / segment_unit(k - 1),
    decreases k,
{
    let s = segments_of(bits);
    let n = bits as int;
    assert(s.take(k).drop_last() =~= s.take(k - 1));
    assert(s.take(k).last() == s[k - 1]);
    if k == 1 {
        assert(s.take(0).len() == 0);
        let unit = segment_unit(0);
        let rest = n / unit;
        assert(0 <= rest < 0x1_0000) by (nonlinear_arith)
            requires
                rest == n / unit,
                0 <= n < 0x1_0000 * unit,
                unit > 0,
        ;
        assert(s[0] == rest % 0x1_0000);
        assert(segments_value(s.take(0)) == 0);
    } else {
        lemma_segments_so_far(bits, k - 1);
        let unit = segment_unit(k - 1);
        let rest = n / unit;
        assert(segment_unit(k - 2) == unit * 0x1_0000);
        vstd::arithmetic::div_mod::lemma_div_denominator(n, unit, 0x1_0000);
        assert(rest / 0x1_0000 == n / segment_unit(k - 2));
        assert(rest >= 0) by (nonlinear_arith)
            requires
                rest == n / unit,
                n >= 0,
                unit > 0,
        ;
        assert(s[k - 1] == rest % 0x1_0000);
        assert(rest == rest / 0x1_0000 * 0x1_0000 + rest % 0x1_0000);
    }
}

/// The eight segments of an IPv6 address are its digits to the base of 65,536,
/// the high ones first.
pub proof fn lemma_segments_make_up_the_address(bits: u128)
    ensures
        segments_value(segments_of(bits)) == bits,
        segments_of(bits).len() == 8,
{
    lemma_segments_so_far(bits, 8);
    assert(segments_of(bits).take(8) =~= segments_of(bits));
}

/// Where zeros are left out of an IPv6 address, they are the longest row that
/// there is, and the first of several as long.
pub proof fn lemma_the_longest_zeros_are_left_out(segments: Seq<u16>, n: int, i: int)
    requires
        0 <= i <= n,
    ensures
        0 <= longest_zeros(segments, n) <= n,
        zeros_from(segments, i) <= zeros_from(segments, longest_zeros(segments, n)),
        i < longest_zeros(segments, n) ==> zeros_from(segments, i) < zeros_from(
            segments,
            longest_zeros(segments, n),
        ),
    decreases n,
{
    if n > 0 {
        lemma_the_longest_zeros_are_left_out(segments, n - 1, if i < n {
            i
        } else {
            0
        });
    }
}

/// A row of zeros goes on as long as the segments are zero.
pub proof fn lemma_rows_of_zeros(segments: Seq<u16>, i: int)
    requires
        0 <= i <= segments.len(),
    ensures
        0 <= zeros_from(segments, i) <= segments.len() - i,
        forall|k: int| i <= k < i + zeros_from(segments, i) ==> segments[k] == 0,
        i + zeros_from(segments, i) < segments.len() ==> segments[i + zeros_from(segments, i)] != 0,
    decreases segments.len() - i,
{
    if i < segments.len() && segments[i] == 0 {
        lemma_rows_of_zeros(segments, i + 1);
    }
}

/// One zero is written out; more than one in a row are not.
pub proof fn lemma_single_zeros_are_written(bits: u128)
    requires
        bits / 0x1_0000_0000 != 0xffff,
    ensures
        ({
            let segments = segments_of(bits);
            let start = longest_zeros(segments, 7);
            &&& (forall|i: int|
                0 <= i < 7 ==> (#[trigger] segments[i]) != 0 || segments[i + 1] != 0) ==> Ip::V6(
                bits,
            ).written() == colons(segments, 0, 8)
            &&& (exists|i: int|
                0 <= i < 7 && (#[trigger] segments[i]) == 0 && segments[i + 1] == 0) ==> Ip::V6(
                bits,
            ).written() == colons(segments, 0, start) + "::"@ + colons(
                segments,
                start + zeros_from(segments, start),
                8,
            )
        }),
{
    let segments = segments_of(bits);
    let start = longest_zeros(segments, 7);
    lemma_the_longest_zeros_are_left_out(segments, 7, 0);
    lemma_rows_of_zeros(segments, start);
    if zeros_from(segments, start) > 1 {
        assert(segments[start] == 0 && segments[start + 1] == 0);
    }
    if exists|i: int| 0 <= i < 7 && (#[trigger] segments[i]) == 0 && segments[i + 1] == 0 {
        let i = choose|i: int| 0 <= i < 7 && (#[trigger] segments[i]) == 0 && segments[i + 1] == 0;
        lemma_the_longest_zeros_are_left_out(segments, 7, i);
        lemma_rows_of_zeros(segments, i);
        reveal_with_fuel(zeros_from, 3);
        lemma_rows_of_zeros(segments, i + 2);
        assert(zeros_from(segments, i) >= 2);
    }
}

/// What is written of an IPv4 address ends in a digit.
pub proof fn lemma_dotted_ends_in_a_digit(bits: u32)
    ensures
        is_digit(dotted(bits).last()),
{
    lemma_decimal_reads_back((bits % 256) as nat);
    let last = decimal((bits % 256) as nat);
    assert(dotted(bits).last() == last.last());
    assert(is_digit(last[last.len() - 1]));
}

/// Numbers between dots are up to 255, and have no zeros in front; a port is up
/// to 65,535.
pub proof fn lemma_what_numbers_addresses_have(n: nat, s: Seq<char>)
    ensures
        octet(decimal(n)) is Some <==> n <= 255,
        port_of(decimal(n)) is Some <==> n <= 65_535,
        n <= 65_535 ==> port_of(decimal(n)) == Some(n as u16),
        s.len() > 1 && s[0] == '0' ==> octet(s) is None,
        s.len() == 0 ==> octet(s) is None && port_of(s) is None,
{
    lemma_decimal_reads_back(n);
    if n < 256 {
        lemma_decimal_of_a_byte(n);
    }
}

}
