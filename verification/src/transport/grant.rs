//! Signing grants on the server and checking them on the agent.
//!
//! The server signs with the Ed25519 key behind its certificate, the one
//! agents pin, so an agent needs nothing new to check a grant: it confirms
//! the certificate that comes with the grant is the one it pinned, takes the
//! public key out of it, and checks the signature.

use super::fingerprint::Fingerprint;
use super::identity::{Error, Identity};
use crate::crypto::{
    can_hash,
    ed25519_holds,
    ed25519_public,
    ed25519_public_of,
    ed25519_sign,
    ed25519_signature_of,
    ed25519_verify,
    hashable,
    sha256_of,
};
use crate::protocol::Role;
use vstd::prelude::*;
use vstd::slice::slice_subrange;

verus! {

/// What a grant says: who may do what on which device, and for how long.
#[derive(Debug)]
pub struct Grant {
    pub device: [u8; 32],
    pub user: String,
    pub role: Role,
    pub issued_at: u64,
    pub expires_at: u64,
    pub nonce: [u8; 16],
}

/// A grant as it travels: its bytes, their signature, and the certificate of
/// the server that signed.
#[derive(Debug)]
pub struct SignedGrant {
    pub grant: Vec<u8>,
    pub signature: Vec<u8>,
    pub server_certificate: Vec<u8>,
}

/// Why a grant was not accepted.
#[derive(Debug, Clone, Copy, PartialEq, Eq, Structural)]
pub enum Invalid {
    OtherServer,
    Signature,
    Malformed,
}

impl Invalid {
    pub open spec fn says(&self) -> Seq<char> {
        match self {
            Invalid::OtherServer => "the grant is from another server"@,
            Invalid::Signature => "the grant's signature is wrong"@,
            Invalid::Malformed => "the grant cannot be read"@,
        }
    }

    pub fn message(&self) -> (text: &'static str)
        ensures
            text@ == self.says(),
    {
        match self {
            Invalid::OtherServer => "the grant is from another server",
            Invalid::Signature => "the grant's signature is wrong",
            Invalid::Malformed => "the grant cannot be read",
        }
    }
}

/// The DER that comes before an Ed25519 key in a certificate: the
/// SubjectPublicKeyInfo header, with the algorithm's OID (1.3.101.112).
pub open spec fn spki_prefix() -> Seq<u8> {
    seq![0x30, 0x2a, 0x30, 0x05, 0x06, 0x03, 0x2b, 0x65, 0x70, 0x03, 0x21, 0x00]
}

/// The header stands in `certificate` at place `at`.
pub open spec fn header_at(certificate: Seq<u8>, at: int) -> bool {
    0 <= at && at + 12 <= certificate.len() && certificate.subrange(at, at + 12) == spki_prefix()
}

/// The key behind the first header, if 32 bytes follow it.
pub open spec fn key_in(certificate: Seq<u8>, key: Seq<u8>) -> bool {
    exists|at: int|
        {
            &&& #[trigger] header_at(certificate, at)
            &&& forall|i: int| 0 <= i < at ==> !#[trigger] header_at(certificate, i)
            &&& at + 44 <= certificate.len()
            &&& key == certificate.subrange(at + 12, at + 44)
        }
}

/// The key stands behind the header at place `at`.
pub open spec fn key_at(certificate: Seq<u8>, at: int, key: Seq<u8>) -> bool {
    &&& header_at(certificate, at)
    &&& at + 44 <= certificate.len()
    &&& key == certificate.subrange(at + 12, at + 44)
}

/// The key stands behind some header.
pub open spec fn carries(certificate: Seq<u8>, key: Seq<u8>) -> bool {
    exists|at: int| #[trigger] key_at(certificate, at, key)
}

fn is_header(certificate: &[u8], at: usize) -> (yes: bool)
    requires
        at + 12 <= certificate@.len(),
    ensures
        yes == header_at(certificate@, at as int),
{
    let prefix: [u8; 12] = [
        0x30,
        0x2a,
        0x30,
        0x05,
        0x06,
        0x03,
        0x2b,
        0x65,
        0x70,
        0x03,
        0x21,
        0x00,
    ];
    assert(prefix@ =~= spki_prefix());
    let mut i: usize = 0;
    while i < 12
        invariant
            i <= 12,
            at + 12 <= certificate.len(),
            prefix@ == spki_prefix(),
            forall|j: int| 0 <= j < i ==> certificate@[at + j] == prefix@[j],
        decreases 12 - i,
    {
        if certificate[at + i] != prefix[i] {
            assert(certificate@.subrange(at as int, at + 12)[i as int] != spki_prefix()[i as int]);
            return false;
        }
        i = i + 1;
    }
    assert(certificate@.subrange(at as int, at + 12) =~= spki_prefix());
    true
}

/// The Ed25519 public key in a certificate. Only ever applied to the pinned
/// certificate, whose hash was checked first, so finding the key's header is
/// enough.
pub fn ed25519_key(certificate: &[u8]) -> (key: Option<&[u8]>)
    ensures
        match key {
            Some(key) => key_in(certificate@, key@),
            None => forall|k: Seq<u8>| !#[trigger] key_in(certificate@, k),
        },
{
    if certificate.len() < 12 {
        assert(forall|at: int| !header_at(certificate@, at));
        return None;
    }
    let mut at: usize = 0;
    while at <= certificate.len() - 12
        invariant
            12 <= certificate@.len(),
            at <= certificate@.len() - 11,
            forall|i: int| 0 <= i < at ==> !#[trigger] header_at(certificate@, i),
        decreases certificate.len() - at,
    {
        if is_header(certificate, at) {
            if certificate.len() - at < 44 {
                assert forall|k: Seq<u8>| !#[trigger] key_in(certificate@, k) by {
                    if key_in(certificate@, k) {
                        let other = choose|other: int|
                            {
                                &&& #[trigger] header_at(certificate@, other)
                                &&& forall|i: int|
                                    0 <= i < other ==> !#[trigger] header_at(certificate@, i)
                                &&& other + 44 <= certificate@.len()
                                &&& k == certificate@.subrange(other + 12, other + 44)
                            };
                        assert(header_at(certificate@, at as int));
                        assert(other == at);
                    }
                }
                return None;
            }
            let key = slice_subrange(certificate, at + 12, at + 44);
            assert(header_at(certificate@, at as int));
            return Some(key);
        }
        at = at + 1;
    }
    assert(forall|i: int| !#[trigger] header_at(certificate@, i));
    None
}

/// What is signed: the context's bytes, then the grant's.
pub fn signed_bytes(context: &[u8], grant: &[u8]) -> (bytes: Vec<u8>)
    ensures
        bytes@ == context@ + grant@,
{
    let mut bytes: Vec<u8> = Vec::new();
    bytes.extend_from_slice(context);
    bytes.extend_from_slice(grant);
    assert(bytes@ =~= context@ + grant@);
    bytes
}

impl Identity {
    /// Sign the bytes of a grant with this identity's key.
    pub fn sign_grant(&self, context: &[u8], grant: Vec<u8>) -> (signed: Result<SignedGrant, Error>)
        ensures
            match signed {
                Ok(signed) => signed.grant@ == grant@ && signed_with(self, context@, &signed),
                Err(Error::Config(why)) => match ed25519_public_of(self.key_bytes()) {
                    Err(words) => why@ == "the key cannot sign: "@ + words,
                    Ok(_) => !hashable((context@ + grant@).len()) && why@
                        == "the grant is too long to sign"@,
                },
                Err(Error::Certificate(_)) => false,
            },
    {
        match ed25519_public(self.key()) {
            Err(words) => {
                let mut why = "the key cannot sign: ".to_owned();
                why.append(&words);
                Err(Error::Config(why))
            },
            Ok(_) => {
                let message = signed_bytes(context, &grant);
                if !can_hash(message.len()) {
                    return Err(Error::Config("the grant is too long to sign".to_owned()));
                }
                let signature = ed25519_sign(self.key(), &message);
                let mut server_certificate: Vec<u8> = Vec::new();
                server_certificate.extend_from_slice(self.certificate());
                assert(server_certificate@ =~= self.certificate_bytes());
                Ok(SignedGrant { grant, signature, server_certificate })
            },
        }
    }
}

/// Whether the signature of a grant holds for a server's certificate.
pub open spec fn signed_by(signed: &SignedGrant, context: Seq<u8>) -> bool {
    exists|key: Seq<u8>|
        #[trigger] key_in(signed.server_certificate@, key) && ed25519_holds(
            key,
            context + signed.grant@,
            signed.signature@,
        )
}

/// What comes of checking a grant, with `claims` as what its bytes decode to:
/// the certificate has to be the pinned one, hold a key, and that key has to
/// have signed.
pub open spec fn verdict_on(
    signed: &SignedGrant,
    context: Seq<u8>,
    claims: Option<Grant>,
    server: Seq<u8>,
) -> Result<Grant, Invalid> {
    if sha256_of(signed.server_certificate@) != server {
        Err(Invalid::OtherServer)
    } else if !(exists|key: Seq<u8>| #[trigger] key_in(signed.server_certificate@, key)) {
        Err(Invalid::Malformed)
    } else if !signed_by(signed, context) {
        Err(Invalid::Signature)
    } else {
        match claims {
            Some(grant) => Ok(grant),
            None => Err(Invalid::Malformed),
        }
    }
}

/// What `signed` says, if the server whose certificate has the fingerprint
/// `server` signed it. `claims` is what the grant's bytes decode to, if they
/// decode. Whether it is for this device, and still valid, is for the caller
/// to check.
pub fn verify(
    signed: &SignedGrant,
    context: &[u8],
    claims: Option<Grant>,
    server: Fingerprint,
) -> (verdict: Result<Grant, Invalid>)
    requires
        hashable(signed.server_certificate@.len()),
        hashable((context@ + signed.grant@).len()),
    ensures
        verdict == verdict_on(signed, context@, claims, server@),
{
    if Fingerprint::of(&signed.server_certificate) != server {
        return Err(Invalid::OtherServer);
    }
    match ed25519_key(&signed.server_certificate) {
        None => Err(Invalid::Malformed),
        Some(key) => {
            let message = signed_bytes(context, &signed.grant);
            let holds = ed25519_verify(key, &message, &signed.signature);
            proof {
                assert(key_in(signed.server_certificate@, key@));
                if signed_by(signed, context@) {
                    let other = choose|other: Seq<u8>|
                        #[trigger] key_in(signed.server_certificate@, other) && ed25519_holds(
                            other,
                            context@ + signed.grant@,
                            signed.signature@,
                        );
                    lemma_one_key(signed.server_certificate@, key@, other);
                }
            }
            if !holds {
                return Err(Invalid::Signature);
            }
            match claims {
                Some(grant) => Ok(grant),
                None => Err(Invalid::Malformed),
            }
        },
    }
}

/// A certificate holds one key.
pub proof fn lemma_one_key(certificate: Seq<u8>, a: Seq<u8>, b: Seq<u8>)
    requires
        key_in(certificate, a),
        key_in(certificate, b),
    ensures
        a == b,
{
    let i = choose|at: int|
        {
            &&& #[trigger] header_at(certificate, at)
            &&& forall|i: int| 0 <= i < at ==> !#[trigger] header_at(certificate, i)
            &&& at + 44 <= certificate.len()
            &&& a == certificate.subrange(at + 12, at + 44)
        };
    let j = choose|at: int|
        {
            &&& #[trigger] header_at(certificate, at)
            &&& forall|i: int| 0 <= i < at ==> !#[trigger] header_at(certificate, i)
            &&& at + 44 <= certificate.len()
            &&& b == certificate.subrange(at + 12, at + 44)
        };
    assert(i == j);
}

/// What `sign_grant` makes.
pub open spec fn signed_with(identity: &Identity, context: Seq<u8>, signed: &SignedGrant) -> bool {
    &&& ed25519_public_of(identity.key_bytes()) is Ok
    &&& hashable((context + signed.grant@).len())
    &&& signed.server_certificate@ == identity.certificate_bytes()
    &&& signed.signature@ == ed25519_signature_of(identity.key_bytes(), context + signed.grant@)
    &&& ed25519_holds(
        ed25519_public_of(identity.key_bytes())->Ok_0,
        context + signed.grant@,
        signed.signature@,
    )
}

/// A grant that a server signs checks out against that server, and only
/// against it. Left out is a certificate in which the first header of a key is
/// not the one of the server's own.
pub proof fn lemma_signed_grant_checks_out(
    identity: Identity,
    context: Seq<u8>,
    signed: SignedGrant,
    grant: Grant,
    other: Seq<u8>,
)
    requires
        identity.wf(),
        signed_with(&identity, context, &signed),
        forall|at: int| #[trigger]
            first_header(identity.certificate_bytes(), at) ==> key_at(
                identity.certificate_bytes(),
                at,
                ed25519_public_of(identity.key_bytes())->Ok_0,
            ),
        other != identity.print(),
    ensures
        verdict_on(&signed, context, Some(grant), identity.print()) == Ok::<Grant, Invalid>(grant),
        verdict_on(&signed, context, Some(grant), other) == Err::<Grant, Invalid>(
            Invalid::OtherServer,
        ),
{
    let certificate = identity.certificate_bytes();
    let key = ed25519_public_of(identity.key_bytes())->Ok_0;
    let at = choose|at: int| #[trigger] key_at(certificate, at, key);
    let first = lemma_some_header_is_first(certificate, at);
    assert(header_at(certificate, first));
    assert(key_in(signed.server_certificate@, key));
}

/// No header of a key stands before this one.
pub open spec fn first_header(certificate: Seq<u8>, at: int) -> bool {
    header_at(certificate, at) && forall|i: int|
        0 <= i < at ==> !#[trigger] header_at(certificate, i)
}

proof fn lemma_some_header_is_first(certificate: Seq<u8>, at: int) -> (first: int)
    requires
        header_at(certificate, at),
        0 <= at,
    ensures
        first_header(certificate, first),
    decreases at,
{
    if exists|i: int| 0 <= i < at && #[trigger] header_at(certificate, i) {
        let i = choose|i: int| 0 <= i < at && #[trigger] header_at(certificate, i);
        lemma_some_header_is_first(certificate, i)
    } else {
        at
    }
}

/// The twelve bytes from place `at` on.
pub open spec fn twelve_at(bytes: Seq<u8>, at: int) -> Seq<u8> {
    bytes.subrange(at, at + 12)
}

/// Only what the pinned server signed is accepted: the certificate that came
/// has the fingerprint that was pinned, the 32 bytes behind the first Ed25519
/// header in it are a key whose signature over the context and the grant's own
/// bytes this is, and what is accepted is what those bytes decode to.
pub proof fn lemma_accepted_grants_are_signed(
    signed: SignedGrant,
    context: Seq<u8>,
    claims: Option<Grant>,
    server: Seq<u8>,
    grant: Grant,
)
    requires
        verdict_on(&signed, context, claims, server) == Ok::<Grant, Invalid>(grant),
    ensures
        claims == Some(grant),
        sha256_of(signed.server_certificate@) == server,
        exists|at: int|
            {
                &&& 0 <= at && at + 44 <= signed.server_certificate@.len()
                &&& #[trigger] twelve_at(signed.server_certificate@, at) == seq![
                    0x30u8, 0x2a, 0x30, 0x05, 0x06, 0x03, 0x2b, 0x65, 0x70, 0x03, 0x21, 0x00,
                ]
                &&& ed25519_holds(
                    signed.server_certificate@.subrange(at + 12, at + 44),
                    context + signed.grant@,
                    signed.signature@,
                )
                &&& forall|i: int|
                    0 <= i < at ==> #[trigger] twelve_at(signed.server_certificate@, i) != seq![
                        0x30u8, 0x2a, 0x30, 0x05, 0x06, 0x03, 0x2b, 0x65, 0x70, 0x03, 0x21, 0x00,
                    ]
            },
{
    let certificate = signed.server_certificate@;
    let key = choose|key: Seq<u8>|
        #[trigger] key_in(certificate, key) && ed25519_holds(
            key,
            context + signed.grant@,
            signed.signature@,
        );
    let at = choose|at: int|
        {
            &&& #[trigger] header_at(certificate, at)
            &&& forall|i: int| 0 <= i < at ==> !#[trigger] header_at(certificate, i)
            &&& at + 44 <= certificate.len()
            &&& key == certificate.subrange(at + 12, at + 44)
        };
    assert(twelve_at(certificate, at) == spki_prefix());
    assert forall|i: int| 0 <= i < at implies #[trigger] twelve_at(certificate, i)
        != spki_prefix() by {
        assert(!header_at(certificate, i));
    }
}

/// What is refused is refused for the first of these that holds: it is from
/// another server; no key can be read from the certificate, or no grant from
/// the bytes; the server's key did not sign it.
pub proof fn lemma_refused_grants_are_not_signed(
    signed: SignedGrant,
    context: Seq<u8>,
    claims: Option<Grant>,
    server: Seq<u8>,
    key: Seq<u8>,
)
    requires
        key_in(signed.server_certificate@, key),
    ensures
        verdict_on(&signed, context, claims, server) == Err::<Grant, Invalid>(Invalid::OtherServer)
            <==> sha256_of(signed.server_certificate@) != server,
        verdict_on(&signed, context, claims, server) == Err::<Grant, Invalid>(Invalid::Signature)
            <==> sha256_of(signed.server_certificate@) == server && !ed25519_holds(
            key,
            context + signed.grant@,
            signed.signature@,
        ),
        verdict_on(&signed, context, claims, server) == Err::<Grant, Invalid>(Invalid::Malformed)
            <==> sha256_of(signed.server_certificate@) == server && ed25519_holds(
            key,
            context + signed.grant@,
            signed.signature@,
        ) && claims is None,
{
    if signed_by(&signed, context) {
        let other = choose|other: Seq<u8>|
            #[trigger] key_in(signed.server_certificate@, other) && ed25519_holds(
                other,
                context + signed.grant@,
                signed.signature@,
            );
        lemma_one_key(signed.server_certificate@, key, other);
    }
}

}
