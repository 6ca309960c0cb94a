//! Signing releases, and checking them and their packages.
//!
//! The release key is a plain Ed25519 key pair, separate from every server
//! and device key: it is the project's, and agents check against its public
//! half built into them.

use super::grant::signed_bytes;
use super::identity::Error;
use crate::crypto::{
    can_hash,
    ed25519_generate,
    ed25519_holds,
    ed25519_public,
    ed25519_public_of,
    ed25519_sign,
    ed25519_signature_of,
    ed25519_verify,
    hashable,
    sha256_digest,
    sha256_of,
};
use crate::protocol::Version;
use vstd::prelude::*;

verus! {

/// The kinds of package there are.
#[derive(Debug, Clone, Copy, PartialEq, Eq, Structural)]
pub enum Package {
    Msi,
}

/// What a release says of its package.
#[derive(Debug)]
pub struct Release {
    pub product: String,
    pub version: Version,
    pub platform: String,
    pub package: Package,
    pub sha256: [u8; 32],
    pub size: u64,
}

/// A release as it travels: its bytes and their signature.
#[derive(Debug)]
pub struct SignedRelease {
    pub release: Vec<u8>,
    pub signature: Vec<u8>,
}

/// Why a release or its package was not accepted.
#[derive(Debug, Clone, Copy, PartialEq, Eq, Structural)]
pub enum Invalid {
    Signature,
    Malformed,
    Package,
}

impl Invalid {
    pub open spec fn says(&self) -> Seq<char> {
        match self {
            Invalid::Signature => "the release is not signed by the release key"@,
            Invalid::Malformed => "the release cannot be read"@,
            Invalid::Package => "the package is not the one the release describes"@,
        }
    }

    pub fn message(&self) -> (text: &'static str)
        ensures
            text@ == self.says(),
    {
        match self {
            Invalid::Signature => "the release is not signed by the release key",
            Invalid::Malformed => "the release cannot be read",
            Invalid::Package => "the package is not the one the release describes",
        }
    }
}

/// The refusal of a document that holds no release key.
pub open spec fn not_a_key(words: Seq<char>) -> Seq<char> {
    "not an Ed25519 release key: "@ + words
}

fn refuse_key(words: &str) -> (error: Error)
    ensures
        error matches Error::Config(why) && why@ == not_a_key(words@),
{
    let mut why = "not an Ed25519 release key: ".to_owned();
    why.append(words);
    Error::Config(why)
}

/// A new release key: its private half as PKCS#8, to keep secret, and its
/// public half, to build into agents.
pub fn generate_key() -> (key: Result<(Vec<u8>, [u8; 32]), Error>)
    ensures
        match key {
            Ok((private, public)) => ed25519_public_of(private@) == Ok::<Seq<u8>, Seq<char>>(
                public@,
            ),
            Err(error) => error matches Error::Config(why) && why@ == "could not generate a key"@,
        },
{
    match ed25519_generate() {
        None => Err(Error::Config("could not generate a key".to_owned())),
        Some(private) => match public_key(&private) {
            Ok(public) => Ok((private, public)),
            Err(error) => Err(error),
        },
    }
}

/// The public half of the release key `pkcs8`.
pub fn public_key(pkcs8: &[u8]) -> (public: Result<[u8; 32], Error>)
    ensures
        match public {
            Ok(key) => ed25519_public_of(pkcs8@) == Ok::<Seq<u8>, Seq<char>>(key@),
            Err(error) => error matches Error::Config(why) && (ed25519_public_of(
                pkcs8@,
            ) matches Err(words) && why@ == not_a_key(words)),
        },
{
    match ed25519_public(pkcs8) {
        Ok(key) => Ok(key),
        Err(words) => Err(refuse_key(&words)),
    }
}

/// What `sign` makes.
pub open spec fn signed_with(pkcs8: Seq<u8>, context: Seq<u8>, signed: &SignedRelease) -> bool {
    &&& ed25519_public_of(pkcs8) is Ok
    &&& hashable((context + signed.release@).len())
    &&& signed.signature@ == ed25519_signature_of(pkcs8, context + signed.release@)
    &&& signature_holds(
        context,
        signed.release@,
        signed.signature@,
        ed25519_public_of(pkcs8)->Ok_0,
    )
}

/// A release that a key signs checks out under that key's public half.
pub proof fn lemma_signed_release_checks_out(
    pkcs8: Seq<u8>,
    context: Seq<u8>,
    signed: SignedRelease,
    release: Release,
)
    requires
        signed_with(pkcs8, context, &signed),
    ensures
        verdict_on(&signed, context, Some(release), ed25519_public_of(pkcs8)->Ok_0) == Ok::<
            Release,
            Invalid,
        >(release),
{
}

/// Sign the bytes of a release with the release key `pkcs8`.
pub fn sign(pkcs8: &[u8], context: &[u8], release: Vec<u8>) -> (signed: Result<
    SignedRelease,
    Error,
>)
    ensures
        match signed {
            Ok(signed) => signed.release@ == release@ && signed_with(pkcs8@, context@, &signed),
            Err(Error::Config(why)) => match ed25519_public_of(pkcs8@) {
                Err(words) => why@ == not_a_key(words),
                Ok(_) => !hashable((context@ + release@).len()) && why@
                    == "the release is too long to sign"@,
            },
            Err(Error::Certificate(_)) => false,
        },
{
    match ed25519_public(pkcs8) {
        Err(words) => Err(refuse_key(&words)),
        Ok(_) => {
            let message = signed_bytes(context, &release);
            if !can_hash(message.len()) {
                return Err(Error::Config("the release is too long to sign".to_owned()));
            }
            let signature = ed25519_sign(pkcs8, &message);
            Ok(SignedRelease { release, signature })
        },
    }
}

/// The signature is one over the context and the release, under `key`.
pub open spec fn signature_holds(
    context: Seq<u8>,
    release: Seq<u8>,
    signature: Seq<u8>,
    key: Seq<u8>,
) -> bool {
    ed25519_holds(key, context + release, signature)
}

/// What comes of checking a release, with `described` as what its bytes decode
/// to.
pub open spec fn verdict_on(
    signed: &SignedRelease,
    context: Seq<u8>,
    described: Option<Release>,
    key: Seq<u8>,
) -> Result<Release, Invalid> {
    if !signature_holds(context, signed.release@, signed.signature@, key) {
        Err(Invalid::Signature)
    } else {
        match described {
            Some(release) => Ok(release),
            None => Err(Invalid::Malformed),
        }
    }
}

/// What `signed` says, if the release key whose public half is `key` signed
/// it. `described` is what the release's bytes decode to, if they decode.
pub fn verify(
    signed: &SignedRelease,
    context: &[u8],
    described: Option<Release>,
    key: &[u8; 32],
) -> (verdict: Result<Release, Invalid>)
    requires
        hashable((context@ + signed.release@).len()),
    ensures
        verdict == verdict_on(signed, context@, described, key@),
{
    let message = signed_bytes(context, &signed.release);
    if !ed25519_verify(key.as_slice(), &message, &signed.signature) {
        return Err(Invalid::Signature);
    }
    match described {
        Some(release) => Ok(release),
        None => Err(Invalid::Malformed),
    }
}

/// `package` has the size and the hash that `release` records.
pub open spec fn describes(release: &Release, package: Seq<u8>) -> bool {
    package.len() == release.size && sha256_of(package) == release.sha256@
}

/// Whether `package` is the file `release` describes: its size, then its
/// hash.
pub fn check_package(release: &Release, package: &[u8]) -> (verdict: Result<(), Invalid>)
    requires
        hashable(package@.len()),
    ensures
        verdict == (if describes(release, package@) {
            Ok::<(), Invalid>(())
        } else {
            Err(Invalid::Package)
        }),
{
    if package.len() as u64 != release.size {
        return Err(Invalid::Package);
    }
    let hash = sha256(package);
    let mut i: usize = 0;
    while i < 32
        invariant
            i <= 32,
            hash@ == sha256_of(package@),
            forall|j: int| 0 <= j < i ==> hash@[j] == release.sha256@[j],
        decreases 32 - i,
    {
        if hash[i] != release.sha256[i] {
            return Err(Invalid::Package);
        }
        i = i + 1;
    }
    assert(hash@ =~= release.sha256@);
    Ok(())
}

/// SHA-256 of `data`, as a release records it.
pub fn sha256(data: &[u8]) -> (hash: [u8; 32])
    requires
        hashable(data@.len()),
    ensures
        hash@ == sha256_of(data@),
{
    sha256_digest(data)
}

/// Only what the release key signed is accepted: the signature that came is the
/// key's over the context and the release's own bytes, and what is accepted is
/// what those decode to. What does not check out under a key is refused for
/// that, whatever it says.
pub proof fn lemma_accepted_releases_are_signed(
    signed: SignedRelease,
    context: Seq<u8>,
    described: Option<Release>,
    key: Seq<u8>,
)
    ensures
        match verdict_on(&signed, context, described, key) {
            Ok(release) => {
                &&& ed25519_holds(key, context + signed.release@, signed.signature@)
                &&& described == Some(release)
            },
            Err(Invalid::Signature) => !ed25519_holds(
                key,
                context + signed.release@,
                signed.signature@,
            ),
            Err(Invalid::Malformed) => described is None && ed25519_holds(
                key,
                context + signed.release@,
                signed.signature@,
            ),
            Err(Invalid::Package) => false,
        },
{
}

/// A package is the one that was released just when it is as long and has the
/// hash that was signed: of two packages that one release describes, both are
/// of that length and hash.
pub proof fn lemma_a_package_goes_by_length_and_hash(release: Release, package: Seq<u8>)
    ensures
        describes(&release, package) ==> package.len() == release.size,
        describes(&release, package) ==> sha256_of(package) == release.sha256@,
        package.len() == release.size && sha256_of(package) == release.sha256@ ==> describes(
            &release,
            package,
        ),
{
}

}
