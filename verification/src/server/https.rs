//! Names and certificates for the REST API and console.
//!
//! HTTPS has a certificate of its own, given as files, or made on first start
//! (ECDSA P-256) and kept in the data folder, which browsers warn about until
//! it is replaced with a real one.

use super::certificates::{ascii, is_pem, lasts, made_with, speaks_of};
use crate::text::{chars_of, digit, find, index_from, is_digit, lemma_index_from, same_text, text_of};
use vstd::prelude::*;
use vstd::slice::slice_subrange;

verus! {

/// Where `://` first stands in `s`; -1 where it does not.
pub open spec fn scheme_end(s: Seq<char>, from: int) -> int
    decreases s.len() - from,
{
    if from < 0 || from + 2 >= s.len() {
        -1
    } else if s[from] == ':' && s[from + 1] == '/' && s[from + 2] == '/' {
        from
    } else {
        scheme_end(s, from + 1)
    }
}

/// A URL behind its scheme, if it has one.
pub open spec fn behind_scheme(s: Seq<char>) -> Seq<char> {
    if scheme_end(s, 0) >= 0 {
        s.skip(scheme_end(s, 0) + 3)
    } else {
        s
    }
}

/// Where the last colon stands before `end`; -1 where there is none.
pub open spec fn last_colon(s: Seq<char>, end: int) -> int
    decreases end,
{
    if end <= 0 {
        -1
    } else if s[end - 1] == ':' {
        end - 1
    } else {
        last_colon(s, end - 1)
    }
}

/// A host and port without the port, where what is behind the last colon is
/// digits.
pub open spec fn without_port(s: Seq<char>) -> Seq<char> {
    let colon = last_colon(s, s.len() as int);
    if colon >= 0 && forall|i: int| colon < i < s.len() ==> is_digit(#[trigger] s[i]) {
        s.take(colon)
    } else {
        s
    }
}

pub open spec fn bracket(c: char) -> bool {
    c == '[' || c == ']'
}

/// Without the brackets in front.
pub open spec fn unbracket_start(s: Seq<char>) -> Seq<char>
    decreases s.len(),
{
    if s.len() > 0 && bracket(s[0]) {
        unbracket_start(s.skip(1))
    } else {
        s
    }
}

/// Without the brackets behind.
pub open spec fn unbracket_end(s: Seq<char>) -> Seq<char>
    decreases s.len(),
{
    if s.len() > 0 && bracket(s.last()) {
        unbracket_end(s.drop_last())
    } else {
        s
    }
}

/// The host of a URL, if it has one.
pub open spec fn host_in(url: Seq<char>) -> Option<Seq<char>> {
    let rest = behind_scheme(url);
    let host = without_port(rest.take(index_from(rest, '/', 0)));
    if host.len() == 0 {
        None
    } else {
        Some(unbracket_end(unbracket_start(host)))
    }
}

pub fn find_scheme(s: &[char]) -> (at: Option<usize>)
    ensures
        match at {
            Some(at) => scheme_end(s@, 0) == at && at + 3 <= s.len(),
            None => scheme_end(s@, 0) < 0,
        },
{
    let mut i: usize = 0;
    while i < s.len() && s.len() - i > 2
        invariant
            i <= s@.len(),
            scheme_end(s@, 0) == scheme_end(s@, i as int),
        decreases s.len() - i,
    {
        if s[i] == ':' && s[i + 1] == '/' && s[i + 2] == '/' {
            return Some(i);
        }
        i = i + 1;
    }
    None
}

fn drop_port(s: &[char]) -> (host: &[char])
    ensures
        host@ == without_port(s@),
{
    let mut end: usize = s.len();
    while end > 0 && s[end - 1] != ':'
        invariant
            end <= s@.len(),
            last_colon(s@, s@.len() as int) == last_colon(s@, end as int),
        decreases end,
    {
        end = end - 1;
    }
    if end == 0 {
        return s;
    }
    let colon: usize = end - 1;
    let mut i: usize = end;
    while i < s.len()
        invariant
            colon < i <= s@.len(),
            last_colon(s@, s@.len() as int) == colon,
            forall|j: int| colon < j < i ==> is_digit(#[trigger] s@[j]),
        decreases s.len() - i,
    {
        if !digit(s[i]) {
            assert(!is_digit(s@[i as int]));
            return s;
        }
        i = i + 1;
    }
    let host = slice_subrange(s, 0, colon);
    assert(host@ =~= s@.take(colon as int));
    host
}

pub fn unbracketed(s: &[char]) -> (inside: &[char])
    ensures
        inside@ == unbracket_end(unbracket_start(s@)),
{
    let mut from: usize = 0;
    assert(s@.skip(0) =~= s@);
    while from < s.len() && (s[from] == '[' || s[from] == ']')
        invariant
            from <= s@.len(),
            unbracket_start(s@) == unbracket_start(s@.skip(from as int)),
        decreases s.len() - from,
    {
        assert(s@.skip(from as int).skip(1) =~= s@.skip(from + 1));
        from = from + 1;
    }
    let rest = slice_subrange(s, from, s.len());
    assert(rest@ =~= s@.skip(from as int));
    let mut to: usize = rest.len();
    assert(rest@.take(to as int) =~= rest@);
    while to > 0 && (rest[to - 1] == '[' || rest[to - 1] == ']')
        invariant
            to <= rest@.len(),
            unbracket_end(rest@) == unbracket_end(rest@.take(to as int)),
        decreases to,
    {
        assert(rest@.take(to as int).drop_last() =~= rest@.take(to - 1));
        to = to - 1;
    }
    let inside = slice_subrange(rest, 0, to);
    assert(inside@ =~= rest@.take(to as int));
    inside
}

/// `desk.example.com` from `https://desk.example.com:8443/path`.
pub fn host_of(url: &str) -> (host: Option<String>)
    ensures
        match host {
            Some(host) => host_in(url@) == Some(host@),
            None => host_in(url@) is None,
        },
{
    let chars = chars_of(url);
    let from: usize = match find_scheme(&chars) {
        Some(at) => at + 3,
        None => 0,
    };
    let rest = slice_subrange(&chars, from, chars.len());
    assert(rest@ =~= behind_scheme(url@));
    let slash: usize = find(rest, '/', 0);
    let authority = slice_subrange(rest, 0, slash);
    assert(authority@ =~= rest@.take(slash as int));
    let host = drop_port(authority);
    if host.len() == 0 {
        None
    } else {
        Some(text_of(unbracketed(host)))
    }
}

/// The names a self-signed certificate is made for: `localhost`, and the host
/// of the URL people reach the console by.
pub fn certificate_names(public_url: Option<&str>) -> (names: Vec<String>)
    ensures
        ({
            let host = match public_url {
                Some(url) => host_in(url@),
                None => None,
            };
            &&& names@[0]@ == "localhost"@
            &&& match host {
                Some(host) => names@.len() == 2 && names@[1]@ == host,
                None => names@.len() == 1,
            }
        }),
{
    let mut names: Vec<String> = Vec::new();
    names.push("localhost".to_owned());
    match public_url {
        Some(url) => match host_of(url) {
            Some(host) => {
                names.push(host);
            },
            None => {},
        },
        None => {},
    }
    names
}

/// The names the certificate for browsers' WebTransport is made for:
/// `localhost`, and the host of the server's public address, each once.
pub fn web_names(public_address: &str) -> (names: Vec<String>)
    ensures
        names@[0]@ == "localhost"@,
        match host_in(public_address@) {
            Some(host) => if host == "localhost"@ {
                names@.len() == 1
            } else {
                names@.len() == 2 && names@[1]@ == host
            },
            None => names@.len() == 1,
        },
{
    let mut names: Vec<String> = Vec::new();
    names.push("localhost".to_owned());
    match host_of(public_address) {
        Some(host) => {
            if !same_text(&host, "localhost") {
                names.push(host);
            }
        },
        None => {},
    }
    names
}

/// A certificate in PEM, and its key.
#[derive(Debug)]
pub struct PemCertificate {
    pub certificate: String,
    pub key: String,
}

/// A certificate and its key, in PEM: it speaks of the names it was made for,
/// is valid from the start of 1975 to the start of 4096, and carries the public
/// half of the key.
pub open spec fn made_for(made: PemCertificate, names: Seq<String>) -> bool {
    exists|certificate: Seq<u8>, key: Seq<u8>|
        {
            &&& #[trigger] is_pem(made.certificate@, "CERTIFICATE"@, certificate)
            &&& #[trigger] is_pem(made.key@, "PRIVATE KEY"@, key)
            &&& speaks_of(certificate, names)
            &&& lasts(certificate, 157_766_400, 67_090_118_400)
            &&& made_with(certificate, key)
        }
}

/// Calls `rcgen`: `KeyPair::generate_for` with `PKCS_ECDSA_P256_SHA256`, and
/// self-signs `CertificateParams` for the names. The key is chance, and so is
/// the signature. Of the certificate it is said that it speaks of the names,
/// in its SubjectAltName; that it has the validity that the crate gives where
/// none is asked for; that it carries the public half of the key; and that what
/// comes back is the PEM of both. A name that is not ASCII is refused. The error
/// is the crate's, in words.
#[verifier::external_body]
fn fresh_certificate(names: &[String]) -> (made: Result<PemCertificate, String>)
    ensures
        made matches Ok(made) ==> made_for(made, names@),
{
    let pair = rcgen::KeyPair::generate_for(&rcgen::PKCS_ECDSA_P256_SHA256)
        .map_err(|e| e.to_string())?;
    let certificate = rcgen::CertificateParams::new(names.to_vec())
        .and_then(|params| params.self_signed(&pair))
        .map_err(|e| e.to_string())?;
    Ok(PemCertificate { certificate: certificate.pem(), key: pair.serialize_pem() })
}

/// A certificate that was made, with the names it is for; or why none was.
pub fn with_names(names: Vec<String>, made: Result<PemCertificate, String>) -> (named: Result<
    (Vec<String>, PemCertificate),
    String,
>)
    ensures
        match (made, named) {
            (Ok(made), Ok((all, certificate))) => all == names && certificate == made,
            (Err(why), Err(said)) => said == why,
            _ => false,
        },
{
    match made {
        Ok(made) => Ok((names, made)),
        Err(why) => Err(why),
    }
}

/// A self-signed HTTPS certificate for `localhost` and the host people reach
/// the console by, and the names it is for.
pub fn self_signed(public_url: Option<&str>) -> (made: Result<
    (Vec<String>, PemCertificate),
    String,
>)
    ensures
        made matches Ok((names, made)) ==> {
            let host = match public_url {
                Some(url) => host_in(url@),
                None => None,
            };
            &&& names@[0]@ == "localhost"@
            &&& match host {
                Some(host) => names@.len() == 2 && names@[1]@ == host && ascii(host),
                None => names@.len() == 1,
            }
            &&& made_for(made, names@)
        },
{
    let names = certificate_names(public_url);
    let made = fresh_certificate(&names);
    with_names(names, made)
}

/// The scheme ends where the first `://` stands.
pub proof fn lemma_scheme_end(s: Seq<char>, from: int, end: int)
    requires
        0 <= from <= end,
        end + 2 < s.len(),
        s[end] == ':' && s[end + 1] == '/' && s[end + 2] == '/',
        forall|i: int| from <= i < end ==> s[i] != ':',
    ensures
        scheme_end(s, from) == end,
    decreases end - from,
{
    if from < end {
        lemma_scheme_end(s, from + 1, end);
    }
}

/// A host as a URL shows it: its name, or its IPv6 address in brackets.
pub open spec fn shown_host(host: Seq<char>, shown: Seq<char>) -> bool {
    &&& host.len() > 0
    &&& forall|i: int| 0 <= i < host.len() ==> host[i] != '/' && !bracket(#[trigger] host[i])
    &&& shown == seq!['['] + host + seq![']'] || (shown == host && !host.contains(':'))
}

/// A port behind its colon, or none.
pub open spec fn shown_port(s: Seq<char>) -> bool {
    s.len() > 0 ==> s[0] == ':' && forall|i: int| 1 <= i < s.len() ==> is_digit(#[trigger] s[i])
}

/// The host of a URL is what stands behind the scheme, without port, path and
/// brackets.
pub proof fn lemma_the_host_of_a_url(
    scheme: Seq<char>,
    host: Seq<char>,
    shown: Seq<char>,
    port: Seq<char>,
    path: Seq<char>,
)
    requires
        !scheme.contains(':'),
        shown_host(host, shown),
        shown_port(port),
        path.len() > 0 ==> path[0] == '/',
    ensures
        host_in(scheme + seq![':', '/', '/'] + shown + port + path) == Some(host),
{
    let mark = seq![':', '/', '/'];
    let url = scheme + mark + shown + port + path;
    let end = scheme.len() as int;
    assert(url[end] == mark[0] && url[end + 1] == mark[1] && url[end + 2] == mark[2]);
    assert forall|i: int| 0 <= i < end implies url[i] != ':' by {
        assert(url[i] == scheme[i]);
    }
    lemma_scheme_end(url, 0, end);
    assert(behind_scheme(url) =~= shown + port + path);
    lemma_the_host_behind_the_scheme(url, host, shown, port, path);
}

/// And of an address without a scheme it is what stands in front of the port.
pub proof fn lemma_the_host_of_an_address(host: Seq<char>, shown: Seq<char>, port: Seq<char>)
    requires
        shown_host(host, shown),
        shown_port(port),
    ensures
        host_in(shown + port) == Some(host),
{
    let address = shown + port;
    assert forall|i: int| 0 <= i < address.len() implies address[i] != '/' by {
        if i < shown.len() {
            assert(address[i] == shown[i]);
            if shown.len() != host.len() && 0 < i < shown.len() - 1 {
                assert(shown[i] == host[i - 1]);
            }
        } else {
            assert(address[i] == port[i - shown.len()]);
        }
    }
    lemma_no_scheme(address, 0);
    assert(behind_scheme(address) =~= shown + port + Seq::empty());
    lemma_the_host_behind_the_scheme(address, host, shown, port, Seq::empty());
}

proof fn lemma_no_scheme(s: Seq<char>, from: int)
    requires
        0 <= from,
        forall|i: int| 0 <= i < s.len() ==> s[i] != '/',
    ensures
        scheme_end(s, from) == -1,
    decreases s.len() - from,
{
    if from + 2 < s.len() {
        lemma_no_scheme(s, from + 1);
    }
}

proof fn lemma_the_host_behind_the_scheme(
    url: Seq<char>,
    host: Seq<char>,
    shown: Seq<char>,
    port: Seq<char>,
    path: Seq<char>,
)
    requires
        behind_scheme(url) == shown + port + path,
        shown_host(host, shown),
        shown_port(port),
        path.len() > 0 ==> path[0] == '/',
    ensures
        host_in(url) == Some(host),
{
    let rest = behind_scheme(url);
    let whole = shown + port;
    lemma_index_from(rest, '/', 0);
    assert forall|i: int| 0 <= i < whole.len() implies rest[i] != '/' by {
        if i < shown.len() {
            assert(rest[i] == shown[i]);
            if shown.len() != host.len() && 0 < i < shown.len() - 1 {
                assert(shown[i] == host[i - 1]);
            }
        } else {
            assert(rest[i] == port[i - shown.len()]);
        }
    }
    if path.len() > 0 {
        assert(rest[whole.len() as int] == path[0]);
    }
    assert(index_from(rest, '/', 0) == whole.len());
    assert(rest.take(whole.len() as int) =~= whole);
    lemma_last_colon(whole, whole.len() as int);
    let colon = last_colon(whole, whole.len() as int);
    if port.len() > 0 {
        assert(whole[shown.len() as int] == port[0]);
        assert forall|i: int| shown.len() < i < whole.len() implies is_digit(#[trigger] whole[i]) by {
            assert(whole[i] == port[i - shown.len()]);
        }
        assert(colon == shown.len());
        assert(whole.take(colon) =~= shown);
    } else {
        assert(whole =~= shown);
        if colon >= 0 {
            if shown.len() == host.len() {
                assert(host[colon] == ':');
            }
            assert(whole[whole.len() - 1] == ']');
        }
    }
    assert(without_port(whole) == shown);
    lemma_unbracketed(host, shown);
}

proof fn lemma_last_colon(s: Seq<char>, end: int)
    requires
        0 <= end <= s.len(),
    ensures
        -1 <= last_colon(s, end) < end || (end == 0 && last_colon(s, end) == -1),
        last_colon(s, end) >= 0 ==> s[last_colon(s, end)] == ':',
        forall|i: int| last_colon(s, end) < i < end ==> s[i] != ':',
    decreases end,
{
    if end > 0 && s[end - 1] != ':' {
        lemma_last_colon(s, end - 1);
    }
}

proof fn lemma_unbracketed(host: Seq<char>, shown: Seq<char>)
    requires
        shown_host(host, shown),
    ensures
        unbracket_end(unbracket_start(shown)) == host,
{
    reveal_with_fuel(unbracket_start, 3);
    reveal_with_fuel(unbracket_end, 3);
    if shown.len() != host.len() {
        assert(shown.skip(1) =~= host + seq![']']);
        assert(shown.skip(1)[0] == host[0]);
        assert(shown.skip(1).drop_last() =~= host);
    }
    assert(!bracket(host[0]));
    assert(!bracket(host[host.len() - 1]));
}

}
