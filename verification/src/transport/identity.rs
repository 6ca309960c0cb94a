//! A certificate and the private key behind it.
//!
//! Every certificate is self-signed over an Ed25519 key, with fixed validity
//! and a serial number derived from the key: a pure function of it. A key
//! kept on disk gives the same fingerprint on every run.

use super::fingerprint::Fingerprint;
use super::grant::carries;
use crate::crypto::{can_hash, ed25519_public_of, hashable, sha256_of};
use vstd::prelude::*;

verus! {

/// The certificate `rcgen` makes for the Ed25519 key in a PKCS#8 document,
/// or the words in which it refuses.
pub uninterp spec fn certificate_of(pkcs8: Seq<u8>) -> Result<Seq<u8>, Seq<char>>;

/// Calls `rcgen`: reads the key with `KeyPair::try_from`, and self-signs
/// `CertificateParams` with one name and every other default. For an Ed25519
/// key nothing in that is chance, and the certificate carries the key's public
/// half in its SubjectPublicKeyInfo, behind the header that says so. Other
/// keys read too, and sign with random numbers: of those nothing is said.
#[verifier::external_body]
fn self_signed(pkcs8: &[u8]) -> (certificate: Result<Vec<u8>, String>)
    ensures
        ed25519_public_of(pkcs8@) matches Ok(public) ==> match certificate {
            Ok(der) => certificate_of(pkcs8@) == Ok::<Seq<u8>, Seq<char>>(der@) && carries(
                der@,
                public,
            ),
            Err(why) => certificate_of(pkcs8@) == Err::<Seq<u8>, Seq<char>>(why@),
        },
{
    let key = rcgen::KeyPair::try_from(pkcs8).map_err(|e| e.to_string())?;
    let params = rcgen::CertificateParams::new(vec!["nearhand-agent".to_owned()])
        .map_err(|e| e.to_string())?;
    let certificate = params.self_signed(&key).map_err(|e| e.to_string())?;
    Ok(certificate.der().to_vec())
}

/// Calls `rcgen::KeyPair::generate_for` with `PKCS_ED25519` and serialises the
/// key: a fresh PKCS#8 document that reads as an Ed25519 key. It fails when
/// the system has no random numbers.
#[verifier::external_body]
fn fresh_key() -> (pkcs8: Result<Vec<u8>, String>)
    ensures
        pkcs8 matches Ok(document) ==> ed25519_public_of(document@) is Ok,
{
    rcgen::KeyPair::generate_for(&rcgen::PKCS_ED25519).map(|key| key.serialize_der()).map_err(
        |e| e.to_string(),
    )
}

/// Why there is no identity, or no signature.
#[derive(Debug, PartialEq, Eq)]
pub enum Error {
    /// Making the certificate failed.
    Certificate(String),
    /// The key is not one that signs, or what it should sign is too long.
    Config(String),
}

impl Error {
    pub open spec fn says(&self) -> Seq<char> {
        match self {
            Error::Certificate(why) => "generating the certificate: "@ + why@,
            Error::Config(why) => "QUIC configuration: "@ + why@,
        }
    }

    pub fn message(&self) -> (text: String)
        ensures
            text@ == self.says(),
    {
        match self {
            Error::Certificate(why) => {
                let mut text = "generating the certificate: ".to_owned();
                text.append(why);
                text
            },
            Error::Config(why) => {
                let mut text = "QUIC configuration: ".to_owned();
                text.append(why);
                text
            },
        }
    }
}

/// A certificate and its private key.
pub struct Identity {
    certificate: Vec<u8>,
    key: Vec<u8>,
    fingerprint: Fingerprint,
}

impl Identity {
    pub closed spec fn certificate_bytes(&self) -> Seq<u8> {
        self.certificate@
    }

    pub closed spec fn key_bytes(&self) -> Seq<u8> {
        self.key@
    }

    pub closed spec fn print(&self) -> Seq<u8> {
        self.fingerprint@
    }

    /// The fingerprint is the certificate's, and the certificate of an
    /// Ed25519 key is the one made for it, with its public half inside.
    pub open spec fn wf(&self) -> bool {
        &&& hashable(self.certificate_bytes().len())
        &&& self.print() == sha256_of(self.certificate_bytes())
        &&& ed25519_public_of(self.key_bytes()) matches Ok(public) ==> certificate_of(
            self.key_bytes(),
        ) == Ok::<Seq<u8>, Seq<char>>(self.certificate_bytes()) && carries(
            self.certificate_bytes(),
            public,
        )
    }

    /// The identity with this key, a PKCS#8 document.
    pub fn from_key(key: Vec<u8>) -> (identity: Result<Identity, Error>)
        ensures
            match identity {
                Ok(identity) => identity.wf() && identity.key_bytes() == key@,
                Err(error) => error matches Error::Certificate(why),
            },
            ed25519_public_of(key@) is Ok ==> match (identity, certificate_of(key@)) {
                (Ok(identity), Ok(certificate)) => identity.certificate_bytes() == certificate,
                (Err(Error::Certificate(why)), Err(words)) => why@ == words,
                (Err(Error::Certificate(why)), Ok(certificate)) => !hashable(certificate.len())
                    && why@ == "the certificate is too long"@,
                _ => false,
            },
    {
        match self_signed(&key) {
            Ok(certificate) => {
                if !can_hash(certificate.len()) {
                    return Err(Error::Certificate("the certificate is too long".to_owned()));
                }
                let fingerprint = Fingerprint::of(&certificate);
                Ok(Identity { certificate, key, fingerprint })
            },
            Err(why) => Err(Error::Certificate(why)),
        }
    }

    /// A fresh identity, kept only in memory.
    pub fn generate() -> (identity: Result<Identity, Error>)
        ensures
            identity matches Ok(identity) ==> identity.wf() && ed25519_public_of(
                identity.key_bytes(),
            ) is Ok,
            identity matches Err(error) ==> error is Certificate,
    {
        match fresh_key() {
            Ok(key) => Identity::from_key(key),
            Err(why) => Err(Error::Certificate(why)),
        }
    }

    pub fn fingerprint(&self) -> (fingerprint: Fingerprint)
        ensures
            fingerprint@ == self.print(),
    {
        self.fingerprint
    }

    pub fn certificate(&self) -> (certificate: &[u8])
        ensures
            certificate@ == self.certificate_bytes(),
    {
        self.certificate.as_slice()
    }

    /// The key, as a PKCS#8 document: what a key file holds.
    pub fn key(&self) -> (key: &[u8])
        ensures
            key@ == self.key_bytes(),
    {
        self.key.as_slice()
    }
}

/// One key, one certificate: two identities with the same Ed25519 key have
/// the same certificate and the same fingerprint.
pub proof fn lemma_same_key_same_identity(a: Identity, b: Identity)
    requires
        a.wf(),
        b.wf(),
        a.key_bytes() == b.key_bytes(),
        ed25519_public_of(a.key_bytes()) is Ok,
    ensures
        a.certificate_bytes() == b.certificate_bytes(),
        a.print() == b.print(),
{
}

}
