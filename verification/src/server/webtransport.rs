//! Browsers, over WebTransport on the QUIC port.
//!
//! A browser cannot speak raw QUIC, nor punch holes, so the web viewer always
//! comes through the relay. It opens a session to
//! `https://<server>:<quic port>/nearhand`, asks on its first stream to be
//! introduced to a device, and is answered as a native viewer is. From then
//! on the session's datagrams are its tunnel.
//!
//! Browsers do not accept the server's Ed25519 certificate. They get another:
//! the HTTPS certificate files when configured, or else a self-signed ECDSA
//! one that browsers take by its SHA-256 if it is valid for at most two
//! weeks. So the server makes a new one every few days, in memory.

use super::certificates::{lasts, made_with, speaks_of};
use super::https::{host_in, web_names};
use crate::crypto::{can_hash, hashable, sha256_digest, sha256_of};
use crate::net::Address;
use crate::protocol::{DeviceId, Refusal, ToServer};
use crate::text::same_text;
use vstd::prelude::*;

verus! {

/// How long a browser has to open its session and say what it wants, in
/// seconds.
pub const FIRST_MESSAGE: u64 = 10;

/// A self-signed certificate's life, in seconds: browsers take one by hash
/// only if it is valid for at most 14 days, counted from its first moment.
pub const LIFETIME: i64 = 1_123_200;

/// How often a new self-signed certificate is made, in seconds. Pages ask for
/// the hash each time they connect, so a new one needs no warning.
pub const RENEW_EVERY: i64 = 518_400;

/// A slack for a browser whose clock is a little behind, in seconds.
pub const SLACK: i64 = 3_600;

/// The first moment that a certificate can date from: the start of year 0.
pub const FIRST_DATE: i64 = -62_167_219_200;

/// The last moment that a certificate can date to: the end of year 9999.
pub const LAST_DATE: i64 = 253_402_300_799;

/// Where on the server WebTransport sessions are accepted.
pub open spec fn accepted_path() -> Seq<char> {
    "/nearhand"@
}

/// Where on the server WebTransport sessions are accepted.
pub fn path() -> (path: &'static str)
    ensures
        path@ == accepted_path(),
{
    "/nearhand"
}

/// Whether a session on this path is accepted.
pub fn accepts(path: &str) -> (yes: bool)
    ensures
        yes == (path@ == accepted_path()),
{
    same_text(path, "/nearhand")
}

/// The device that a browser's first message asks for. A browser cannot be
/// reached directly, so the addresses it gives are none.
pub fn first_message(message: ToServer) -> (asked: Result<(DeviceId, Vec<Address>), Refusal>)
    ensures
        match message {
            ToServer::Connect { id, .. } => asked matches Ok((asked_id, addresses)) && asked_id
                == id && addresses@.len() == 0,
            _ => asked matches Err(refusal) && refusal == Refusal::Protocol,
        },
{
    match message {
        ToServer::Connect { id, .. } => Ok((id, Vec::new())),
        _ => Err(Refusal::Protocol),
    }
}

/// From when to when a certificate made at `now` is valid.
pub fn validity(now: i64) -> (valid: (i64, i64))
    requires
        i64::MIN + SLACK <= now <= i64::MAX - LIFETIME,
    ensures
        valid_from(now, valid),
{
    (now - SLACK, now - SLACK + LIFETIME)
}

/// A certificate is never valid for as long as two weeks, is valid when it is
/// made, and still is when the next one is made in its place.
pub proof fn lemma_certificates_last(now: i64, later: i64)
    requires
        i64::MIN + SLACK <= now <= i64::MAX - LIFETIME,
        now <= later <= now + RENEW_EVERY,
    ensures
        LIFETIME < 14 * 86_400,
        now - SLACK <= later < now - SLACK + LIFETIME,
{
}

/// A certificate for browsers, its key, and the hash they are told.
#[derive(Debug)]
pub struct WebCertificate {
    pub certificate: Vec<u8>,
    pub key: Vec<u8>,
    pub hash: [u8; 32],
}

/// Calls `rcgen`: `KeyPair::generate_for` with `PKCS_ECDSA_P256_SHA256`, and
/// self-signs `CertificateParams` for the names, valid between the two times
/// (`time::OffsetDateTime::from_unix_timestamp`). The key is chance, and so is
/// the signature. Of the certificate it is said that it speaks of the names,
/// in its SubjectAltName, has the two times in its Validity, and carries the
/// public half of the key that comes with it, as PKCS#8. A name that is not
/// ASCII is refused. Years before 0 and after 9999 cannot be written.
/// The error is the crates', in words.
#[verifier::external_body]
fn fresh_certificate(names: &[String], from: i64, to: i64) -> (made: Result<
    (Vec<u8>, Vec<u8>),
    String,
>)
    requires
        FIRST_DATE <= from <= to <= LAST_DATE,
    ensures
        made matches Ok((certificate, key)) ==> {
            &&& speaks_of(certificate@, names@)
            &&& lasts(certificate@, from as int, to as int)
            &&& made_with(certificate@, key@)
        },
{
    let pair = rcgen::KeyPair::generate_for(&rcgen::PKCS_ECDSA_P256_SHA256)
        .map_err(|e| e.to_string())?;
    let mut params = rcgen::CertificateParams::new(names.to_vec()).map_err(|e| e.to_string())?;
    params.not_before =
        time::OffsetDateTime::from_unix_timestamp(from).map_err(|e| e.to_string())?;
    params.not_after = time::OffsetDateTime::from_unix_timestamp(to).map_err(|e| e.to_string())?;
    let certificate = params.self_signed(&pair).map_err(|e| e.to_string())?;
    Ok((certificate.der().to_vec(), pair.serialize_der()))
}

/// The certificate that was made, with the hash browsers are told.
pub fn hashed(made: Result<(Vec<u8>, Vec<u8>), String>) -> (web: Result<WebCertificate, String>)
    ensures
        match (made, web) {
            (Ok((certificate, key)), Ok(web)) => {
                &&& web.certificate@ == certificate@
                &&& web.key@ == key@
                &&& hashable(certificate@.len())
                &&& web.hash@ == sha256_of(certificate@)
            },
            (Ok((certificate, _)), Err(why)) => !hashable(certificate@.len()) && why@
                == "the certificate is too long"@,
            (Err(said), Err(why)) => why@ == said@,
            (Err(_), Ok(_)) => false,
        },
{
    let (certificate, key) = match made {
        Ok(made) => made,
        Err(why) => {
            return Err(why);
        },
    };
    if !can_hash(certificate.len()) {
        return Err("the certificate is too long".to_owned());
    }
    let hash = sha256_digest(&certificate);
    Ok(WebCertificate { certificate, key, hash })
}

/// A self-signed certificate for `names`, valid from an hour before `now`,
/// and its SHA-256.
pub fn self_signed(names: &[String], now: i64) -> (web: Result<WebCertificate, String>)
    requires
        FIRST_DATE <= now - SLACK,
        now - SLACK + LIFETIME <= LAST_DATE,
    ensures
        web matches Ok(web) ==> {
            &&& hashable(web.certificate@.len())
            &&& web.hash@ == sha256_of(web.certificate@)
            &&& speaks_of(web.certificate@, names@)
            &&& lasts(web.certificate@, now - SLACK, now - SLACK + LIFETIME)
            &&& made_with(web.certificate@, web.key@)
        },
{
    let (from, to) = validity(now);
    hashed(fresh_certificate(names, from, to))
}

/// A new certificate for browsers of the server at `public_address`.
pub fn renew(public_address: &str, now: i64) -> (web: Result<(Vec<String>, WebCertificate), String>)
    requires
        FIRST_DATE <= now - SLACK,
        now - SLACK + LIFETIME <= LAST_DATE,
    ensures
        web matches Ok((names, web)) ==> {
            &&& names@[0]@ == "localhost"@
            &&& match host_in(public_address@) {
                Some(host) => if host == "localhost"@ {
                    names@.len() == 1
                } else {
                    names@.len() == 2 && names@[1]@ == host
                },
                None => names@.len() == 1,
            }
            &&& speaks_of(web.certificate@, names@)
            &&& lasts(web.certificate@, now - SLACK, now - SLACK + LIFETIME)
            &&& made_with(web.certificate@, web.key@)
            &&& hashable(web.certificate@.len())
            &&& web.hash@ == sha256_of(web.certificate@)
        },
{
    let names = web_names(public_address);
    match self_signed(&names, now) {
        Ok(web) => Ok((names, web)),
        Err(why) => Err(why),
    }
}

/// This is from when to when a certificate made at `now` is valid.
pub open spec fn valid_from(now: i64, valid: (i64, i64)) -> bool {
    &&& valid.0 == now - SLACK
    &&& valid.1 == valid.0 + LIFETIME
}

/// A certificate for browsers is valid from an hour before it is made, for
/// thirteen days, and is replaced after six.
pub proof fn lemma_certificates_last_thirteen_days(now: i64, valid: (i64, i64))
    requires
        valid_from(now, valid),
    ensures
        now - valid.0 == 3_600,
        valid.1 - valid.0 == 13 * 86_400,
        RENEW_EVERY == 6 * 86_400,
        valid.0 <= now < now + RENEW_EVERY < valid.1,
{
}

/// Sessions are accepted at `/nearhand`.
pub proof fn lemma_sessions_are_accepted_in_one_place()
    ensures
        accepted_path() == "/"@ + "nearhand"@,
{
    reveal_strlit("/");
    reveal_strlit("nearhand");
    reveal_strlit("/nearhand");
    assert(accepted_path() =~= "/"@ + "nearhand"@);
}

}
