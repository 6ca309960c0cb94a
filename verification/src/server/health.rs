//! Whether the server running on this machine answers: what to ask it, and
//! how to read the answer.

use crate::net::{Address, Ip};
use crate::text::{
    chars_of, decimal, is_digit, is_space, lemma_decimal_reads_back, parse_up_to, parsed, push_decimal, space, starts, starts_with,
    trim_text, trimmed,
};
use vstd::prelude::*;
use vstd::slice::slice_subrange;
use vstd::utf8::{decode_utf8, valid_utf8};

verus! {

/// How long either side has to answer, in seconds.
pub const WAIT: u64 = 5;

/// The most of an answer that is read for its first line.
pub const MOST: usize = 4096;

/// Where a server bound to `bind` is reached from this machine.
pub open spec fn reached_at(bind: Address) -> Address {
    Address {
        ip: match bind.ip {
            Ip::V4(bits) => if bits == 0 {
                Ip::V4(0x7f00_0001)
            } else {
                bind.ip
            },
            Ip::V6(bits) => if bits == 0 {
                Ip::V6(1)
            } else {
                bind.ip
            },
        },
        port: bind.port,
    }
}

/// Where to reach a server bound to `bind` from this machine.
pub fn local(bind: Address) -> (to: Address)
    ensures
        to == reached_at(bind),
        bind.ip.unspecified() ==> to.ip.loopback(),
{
    let ip = match bind.ip {
        Ip::V4(bits) => if bits == 0 {
            Ip::V4(0x7f00_0001)
        } else {
            bind.ip
        },
        Ip::V6(bits) => if bits == 0 {
            Ip::V6(1)
        } else {
            bind.ip
        },
    };
    Address { ip, port: bind.port }
}

/// The request that asks a server how it is.
pub fn request(to: Address) -> (text: String)
    ensures
        text@ == "GET /api/v1/health HTTP/1.1\r\nHost: "@ + to.written()
            + "\r\nConnection: close\r\nUser-Agent: nearhand-server health\r\n\r\n"@,
{
    let mut text = "GET /api/v1/health HTTP/1.1\r\nHost: ".to_owned();
    text.append(&to.text());
    text.append("\r\nConnection: close\r\nUser-Agent: nearhand-server health\r\n\r\n");
    text
}

/// Where the first line of an answer ends.
pub open spec fn line_end(answer: Seq<u8>, from: int) -> int
    decreases answer.len() - from,
{
    if from >= answer.len() {
        answer.len() as int
    } else if answer[from] == 10 {
        from
    } else {
        line_end(answer, from + 1)
    }
}

fn find_line_end(answer: &[u8]) -> (at: usize)
    ensures
        at == line_end(answer@, 0),
        at <= answer@.len(),
        at < answer@.len() ==> answer@[at as int] == 10,
        forall|i: int| 0 <= i < at ==> answer@[i] != 10,
{
    let mut i: usize = 0;
    while i < answer.len() && answer[i] != 10
        invariant
            i <= answer@.len(),
            line_end(answer@, 0) == line_end(answer@, i as int),
            forall|j: int| 0 <= j < i ==> answer@[j] != 10,
        decreases answer.len() - i,
    {
        i = i + 1;
    }
    i
}

/// Read on until the status line is in, or there is too much.
pub fn read_head(answer: &[u8]) -> (on: bool)
    ensures
        on == (!answer@.contains(10) && answer@.len() < MOST),
{
    let at: usize = find_line_end(answer);
    if at < answer.len() {
        assert(answer@[at as int] == 10);
        return false;
    }
    answer.len() < MOST
}

/// Calls `std::str::from_utf8`: the text that bytes encode, if they are valid
/// UTF-8.
#[verifier::external_body]
fn utf8_text(bytes: &[u8]) -> (text: Option<String>)
    ensures
        match text {
            Some(text) => valid_utf8(bytes@) && text@ == decode_utf8(bytes@),
            None => !valid_utf8(bytes@),
        },
{
    std::str::from_utf8(bytes).ok().map(|text| text.to_owned())
}

/// The first line of an answer; nothing if it is not text.
pub open spec fn first_line(answer: Seq<u8>) -> Seq<char> {
    let line = answer.take(line_end(answer, 0));
    if valid_utf8(line) {
        decode_utf8(line)
    } else {
        Seq::empty()
    }
}

/// Where the next word starts, from place `from` on.
pub open spec fn word_start(s: Seq<char>, from: int) -> int
    decreases s.len() - from,
{
    if from < s.len() && is_space(s[from]) {
        word_start(s, from + 1)
    } else {
        from
    }
}

/// Where the word that `from` is in ends.
pub open spec fn word_end(s: Seq<char>, from: int) -> int
    decreases s.len() - from,
{
    if from < s.len() && !is_space(s[from]) {
        word_end(s, from + 1)
    } else {
        from
    }
}

/// The second word of a line; empty if there is none.
pub open spec fn second_word(s: Seq<char>) -> Seq<char> {
    let first = word_end(s, word_start(s, 0));
    let start = word_start(s, first);
    s.subrange(start, word_end(s, start))
}

/// The status code in an HTTP/1.1 answer's first line.
pub open spec fn status_of(line: Seq<char>) -> Option<nat> {
    if starts(line, "HTTP/"@) {
        parsed(second_word(line), u16::MAX as nat)
    } else {
        None
    }
}

fn skip_spaces(s: &[char], from: usize) -> (at: usize)
    requires
        from <= s@.len(),
    ensures
        at == word_start(s@, from as int),
        from <= at <= s@.len(),
{
    let mut i: usize = from;
    while i < s.len() && space(s[i])
        invariant
            from <= i <= s@.len(),
            word_start(s@, from as int) == word_start(s@, i as int),
        decreases s.len() - i,
    {
        i = i + 1;
    }
    i
}

fn skip_word(s: &[char], from: usize) -> (at: usize)
    requires
        from <= s@.len(),
    ensures
        at == word_end(s@, from as int),
        from <= at <= s@.len(),
{
    let mut i: usize = from;
    while i < s.len() && !space(s[i])
        invariant
            from <= i <= s@.len(),
            word_end(s@, from as int) == word_end(s@, i as int),
        decreases s.len() - i,
    {
        i = i + 1;
    }
    i
}

/// An answer that is not HTTP: its first line.
#[derive(Debug)]
pub struct NotHttp {
    pub line: String,
}

/// The status code that a first line gives.
pub fn status_in(line: &str) -> (status: Result<u16, NotHttp>)
    ensures
        match status {
            Ok(code) => status_of(line@) == Some(code as nat),
            Err(not) => status_of(line@) is None && not.line@ == trimmed(line@),
        },
{
    let chars = chars_of(line);
    let first: usize = skip_spaces(&chars, 0);
    let end: usize = skip_word(&chars, first);
    let second: usize = skip_spaces(&chars, end);
    let stop: usize = skip_word(&chars, second);
    let word = slice_subrange(&chars, second, stop);
    assert(word@ =~= second_word(line@));
    let code = parse_up_to(word, 65535);
    if starts_with(&chars, &chars_of("HTTP/")) {
        match code {
            Some(code) => {
                return Ok(code as u16);
            },
            None => {},
        }
    }
    Err(NotHttp { line: trim_text(line) })
}

/// The status code in an HTTP/1.1 answer's first line.
pub fn status(answer: &[u8]) -> (status: Result<u16, NotHttp>)
    ensures
        match status {
            Ok(code) => status_of(first_line(answer@)) == Some(code as nat),
            Err(not) => status_of(first_line(answer@)) is None && not.line@ == trimmed(
                first_line(answer@),
            ),
        },
{
    let end: usize = find_line_end(answer);
    let bytes = slice_subrange(answer, 0, end);
    assert(bytes@ =~= answer@.take(end as int));
    let line = match utf8_text(bytes) {
        Some(line) => line,
        None => String::new(),
    };
    assert(line@ =~= first_line(answer@));
    status_in(&line)
}

/// What both sides' answers come to: the QUIC port answered with this server's
/// key, and the HTTP port with `status`.
pub fn verdict(quic: Address, http: Address, status: u16) -> (verdict: Result<String, String>)
    ensures
        match verdict {
            Ok(said) => status == 200 && said@ == "healthy: UDP "@ + quic.written()
                + " answered with this server's key, TCP "@ + http.written() + " with 200"@,
            Err(why) => status != 200 && why@ == "TCP "@ + http.written()
                + ": /api/v1/health answered "@ + decimal(status as nat),
        },
{
    if status != 200 {
        let mut why = "TCP ".to_owned();
        why.append(&http.text());
        why.append(": /api/v1/health answered ");
        push_decimal(&mut why, status as u64);
        return Err(why);
    }
    let mut said = "healthy: UDP ".to_owned();
    said.append(&quic.text());
    said.append(" answered with this server's key, TCP ");
    said.append(&http.text());
    said.append(" with 200");
    Ok(said)
}

/// The status code is the second word of an answer's first line, which starts
/// with `HTTP/`; without that there is none.
pub proof fn lemma_the_status_is_the_second_word(
    version: Seq<char>,
    code: u16,
    rest: Seq<char>,
    line: Seq<char>,
)
    requires
        forall|i: int| 0 <= i < version.len() ==> !is_space(#[trigger] version[i]),
        rest.len() > 0 ==> is_space(rest[0]),
    ensures
        status_of("HTTP/"@ + version + seq![' '] + decimal(code as nat) + rest) == Some(code as nat),
        !starts(line, "HTTP/"@) ==> status_of(line) is None,
{
    reveal_strlit("HTTP/");
    let number = decimal(code as nat);
    let said = "HTTP/"@ + version + seq![' '] + number + rest;
    lemma_decimal_reads_back(code as nat);
    assert(said.take(5) =~= "HTTP/"@);
    let first = 5int + version.len();
    assert forall|i: int| 0 <= i < first implies !is_space(#[trigger] said[i]) by {
        if i >= 5 {
            assert(said[i] == version[i - 5]);
        } else {
            assert(said[i] == "HTTP/"@[i]);
        }
    }
    assert(said[first] == ' ');
    lemma_word_end(said, 0, first);
    assert(said[first + 1] == number[0]);
    assert(is_digit(number[0]));
    reveal_with_fuel(word_start, 3);
    assert(word_start(said, first) == first + 1);
    let end = first + 1 + number.len();
    assert forall|i: int| first + 1 <= i < end implies !is_space(#[trigger] said[i]) by {
        assert(said[i] == number[i - first - 1]);
        assert(is_digit(number[i - first - 1]));
    }
    if rest.len() > 0 {
        assert(said[end] == rest[0]);
    }
    lemma_word_end(said, first + 1, end);
    assert(second_word(said) =~= number);
}

proof fn lemma_word_end(s: Seq<char>, from: int, end: int)
    requires
        0 <= from <= end <= s.len(),
        forall|i: int| from <= i < end ==> !is_space(#[trigger] s[i]),
        end < s.len() ==> is_space(s[end]),
    ensures
        word_end(s, from) == end,
    decreases end - from,
{
    if from < end {
        lemma_word_end(s, from + 1, end);
    }
}

/// A line is what stands in front of the first line feed.
pub proof fn lemma_the_first_line_ends(answer: Seq<u8>, from: int)
    requires
        0 <= from <= answer.len(),
    ensures
        from <= line_end(answer, from) <= answer.len(),
        line_end(answer, from) < answer.len() ==> answer[line_end(answer, from)] == 10,
        forall|i: int| from <= i < line_end(answer, from) ==> answer[i] != 10,
    decreases answer.len() - from,
{
    if from < answer.len() && answer[from] != 10 {
        lemma_the_first_line_ends(answer, from + 1);
    }
}

/// A server that listens on any address is reached at this machine's own, of the
/// same kind; one that listens on one is reached there; and the port is its own.
pub proof fn lemma_the_server_is_reached_here(bind: Address)
    ensures
        reached_at(bind).port == bind.port,
        bind.ip == Ip::V4(0) ==> reached_at(bind).ip == Ip::V4((127 * 0x100_0000 + 1) as u32),
        bind.ip == Ip::V6(0) ==> reached_at(bind).ip == Ip::V6(1),
        bind.ip != Ip::V4(0) && bind.ip != Ip::V6(0) ==> reached_at(bind) == bind,
{
}

}
