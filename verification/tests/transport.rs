use nearhand::net::{unspecified_like, Address, Ip};
use nearhand::protocol::{Role, Version};
use nearhand::transport::access::{seed, seed_of};
use nearhand::transport::fingerprint::{Fingerprint, NotFingerprint};
use nearhand::transport::grant::{self, ed25519_key, Grant, SignedGrant};
use nearhand::transport::identity::Identity;
use nearhand::transport::netem::{self, Dice, Link, NotNumber, Shaper};
use nearhand::transport::relay::{
    arrived, datagrams, is_relayed, relayed_address, session_of, tag, untag, Inbox, INBOX_LIMIT,
};
use nearhand::transport::release::{
    check_package, generate_key, public_key, sha256, sign, verify, Invalid, Package, Release,
    SignedRelease,
};
use ring::signature::{Ed25519KeyPair, KeyPair};

const CONTEXT: &[u8] = b"a context of the tests";

fn address(text: &str) -> Address {
    let chars: Vec<char> = text.chars().collect();
    Address::parse(&chars).expect("address")
}

// --- Fingerprints and identities ---------------------------------------------

#[test]
fn fingerprints_roundtrip_through_text() {
    let identity = Identity::generate().expect("identity");
    let text = identity.fingerprint().text();
    assert_eq!(text.len(), 64);
    assert_eq!(
        text.parse::<Fingerprint>().expect("parse"),
        identity.fingerprint()
    );
}

#[test]
fn fingerprints_accept_common_separators() {
    let plain = "00".repeat(31) + "ff";
    let colons = plain
        .as_bytes()
        .chunks(2)
        .map(|pair| std::str::from_utf8(pair).expect("ascii"))
        .collect::<Vec<_>>()
        .join(":");
    assert_eq!(
        plain.parse::<Fingerprint>().expect("plain"),
        colons.parse::<Fingerprint>().expect("colons")
    );
}

#[test]
fn malformed_fingerprints_are_rejected() {
    assert!("abc".parse::<Fingerprint>().is_err());
    assert!("zz".repeat(32).parse::<Fingerprint>().is_err());
}

#[test]
fn only_digits_and_separators_make_a_fingerprint() {
    let signs = "+1".repeat(32);
    assert_eq!(
        signs.parse::<Fingerprint>(),
        Err(NotFingerprint::NotHex(signs.clone()))
    );
    let letters = format!("a{}a", "\u{e9}".repeat(31));
    assert_eq!(letters.len(), 64);
    assert_eq!(
        letters.parse::<Fingerprint>(),
        Err(NotFingerprint::NotHex(letters.clone()))
    );
}

#[test]
fn what_is_wrong_with_a_fingerprint_is_said() {
    assert_eq!(
        Fingerprint::from_text("a:b-c"),
        Err(NotFingerprint::Length(3))
    );
    let odd = "zz".repeat(32);
    assert_eq!(
        Fingerprint::from_text(&odd),
        Err(NotFingerprint::NotHex(odd.clone()))
    );
    assert!(NotFingerprint::Length(3).message().contains('3'));
}

#[test]
fn identities_are_distinct() {
    let a = Identity::generate().expect("a");
    let b = Identity::generate().expect("b");
    assert_ne!(a.fingerprint(), b.fingerprint());
}

#[test]
fn a_key_is_the_same_identity_every_time() {
    let first = Identity::generate().expect("create");
    let again = Identity::from_key(first.key().to_vec()).expect("load");
    assert_eq!(first.fingerprint(), again.fingerprint());
    assert_eq!(
        first.certificate(),
        again.certificate(),
        "the certificate is a function of the key"
    );
    assert!(
        Identity::from_key(b"not a key".to_vec()).is_err(),
        "never silently replaced"
    );
}

#[test]
fn only_the_pinned_certificate_is_accepted() {
    let server = Identity::generate().expect("server");
    let other = Identity::generate().expect("other");
    assert!(server.fingerprint().pins(server.certificate()));
    assert!(!server.fingerprint().pins(other.certificate()));
}

#[test]
fn a_fingerprint_is_the_sha_256_of_a_certificate() {
    assert_eq!(
        Fingerprint::of(b"abc").text(),
        "ba7816bf8f01cfea414140de5dae2223b00361a396177a9cb410ff61f20015ad"
    );
    assert_eq!(Fingerprint::from_bytes([3; 32]).as_bytes(), &[3; 32]);
}

#[test]
fn seeds_differ() {
    let (a, b) = (seed().expect("a"), seed().expect("b"));
    assert_ne!(a.0, b.0);
    assert_ne!(a.0, [0; 64]);
    assert!(seed_of(None).is_err());
}

// --- Grants ------------------------------------------------------------------

fn claims(role: Role) -> Grant {
    Grant {
        device: [7; 32],
        user: "ada".to_owned(),
        role,
        issued_at: 1_000,
        expires_at: 1_300,
        nonce: [1; 16],
    }
}

/// The claims as bytes, for signing.
fn bytes(grant: &Grant) -> Vec<u8> {
    format!("{} {}", grant.user, grant.role.as_str()).into_bytes()
}

fn copy(signed: &SignedGrant) -> SignedGrant {
    SignedGrant {
        grant: signed.grant.clone(),
        signature: signed.signature.clone(),
        server_certificate: signed.server_certificate.clone(),
    }
}

#[test]
fn a_signed_grant_checks_out_against_its_server_only() {
    let server = Identity::generate().expect("server");
    let granted = claims(Role::Control);
    let signed = server.sign_grant(CONTEXT, bytes(&granted)).expect("sign");
    let checked = grant::verify(
        &signed,
        CONTEXT,
        Some(claims(Role::Control)),
        server.fingerprint(),
    )
    .expect("its server");
    assert_eq!(checked.user, "ada");
    assert_eq!(checked.device, [7; 32]);

    let other = Identity::generate().expect("other server");
    assert!(matches!(
        grant::verify(
            &signed,
            CONTEXT,
            Some(claims(Role::Control)),
            other.fingerprint()
        ),
        Err(grant::Invalid::OtherServer)
    ));
    // Another server's certificate swapped in, with the key it pins.
    let mut swapped = copy(&signed);
    swapped.server_certificate = other.certificate().to_vec();
    assert!(matches!(
        grant::verify(
            &swapped,
            CONTEXT,
            Some(claims(Role::Control)),
            other.fingerprint()
        ),
        Err(grant::Invalid::Signature)
    ));
}

#[test]
fn a_changed_grant_or_signature_fails() {
    let server = Identity::generate().expect("server");
    let signed = server
        .sign_grant(CONTEXT, bytes(&claims(Role::Control)))
        .expect("sign");

    let mut forged = copy(&signed);
    forged.grant = bytes(&claims(Role::Full));
    assert!(matches!(
        grant::verify(
            &forged,
            CONTEXT,
            Some(claims(Role::Full)),
            server.fingerprint()
        ),
        Err(grant::Invalid::Signature)
    ));

    let mut scratched = copy(&signed);
    scratched.signature[0] ^= 1;
    assert!(matches!(
        grant::verify(
            &scratched,
            CONTEXT,
            Some(claims(Role::Control)),
            server.fingerprint()
        ),
        Err(grant::Invalid::Signature)
    ));
    scratched.signature.truncate(10);
    assert!(matches!(
        grant::verify(
            &scratched,
            CONTEXT,
            Some(claims(Role::Control)),
            server.fingerprint()
        ),
        Err(grant::Invalid::Signature)
    ));
}

#[test]
fn a_grant_that_cannot_be_read_is_malformed() {
    let server = Identity::generate().expect("server");
    let signed = server
        .sign_grant(CONTEXT, b"whatever".to_vec())
        .expect("sign");
    assert!(matches!(
        grant::verify(&signed, CONTEXT, None, server.fingerprint()),
        Err(grant::Invalid::Malformed)
    ));
}

#[test]
fn the_key_is_found_in_our_certificates() {
    let identity = Identity::generate().expect("identity");
    let key = ed25519_key(identity.certificate()).expect("key");
    assert_eq!(key.len(), 32);
    let pair = Ed25519KeyPair::from_pkcs8_maybe_unchecked(identity.key()).expect("pair");
    assert_eq!(key, pair.public_key().as_ref());
    assert!(ed25519_key(b"not a certificate").is_none());
}

// --- Releases ----------------------------------------------------------------

fn release(package: &[u8]) -> Release {
    Release {
        product: "nearhand-agent".to_owned(),
        version: Version {
            major: 0,
            minor: 2,
            patch: 0,
        },
        platform: "windows-x86_64".to_owned(),
        package: Package::Msi,
        sha256: sha256(package),
        size: package.len() as u64,
    }
}

#[test]
fn a_signed_release_checks_out_against_its_key_only() {
    let (private, public) = generate_key().expect("key");
    assert_eq!(public_key(&private).expect("public"), public);
    let signed = sign(&private, CONTEXT, b"0.2.0".to_vec()).expect("sign");
    let checked = verify(&signed, CONTEXT, Some(release(b"package")), &public).expect("its key");
    assert_eq!(checked.sha256, sha256(b"package"));

    let (_, other) = generate_key().expect("other key");
    assert!(matches!(
        verify(&signed, CONTEXT, Some(release(b"package")), &other),
        Err(Invalid::Signature)
    ));
    assert!(matches!(
        verify(&signed, CONTEXT, None, &public),
        Err(Invalid::Malformed)
    ));
}

#[test]
fn a_changed_release_or_signature_fails() {
    let (private, public) = generate_key().expect("key");
    let signed = sign(&private, CONTEXT, b"0.2.0".to_vec()).expect("sign");

    let forged = SignedRelease {
        release: b"9.0.0".to_vec(),
        signature: signed.signature.clone(),
    };
    assert!(matches!(
        verify(&forged, CONTEXT, Some(release(b"package")), &public),
        Err(Invalid::Signature)
    ));

    let mut garbled = SignedRelease {
        release: signed.release.clone(),
        signature: signed.signature.clone(),
    };
    garbled.signature[0] ^= 1;
    assert!(matches!(
        verify(&garbled, CONTEXT, Some(release(b"package")), &public),
        Err(Invalid::Signature)
    ));

    // A signature over the bare release, without the context, is not one over
    // the release.
    let pair = Ed25519KeyPair::from_pkcs8_maybe_unchecked(&private).expect("pair");
    let bare = SignedRelease {
        signature: pair.sign(&signed.release).as_ref().to_vec(),
        release: signed.release,
    };
    assert!(matches!(
        verify(&bare, CONTEXT, Some(release(b"package")), &public),
        Err(Invalid::Signature)
    ));
}

#[test]
fn only_the_described_package_passes() {
    let release = release(b"the package");
    assert_eq!(check_package(&release, b"the package"), Ok(()));
    assert_eq!(
        check_package(&release, b"the packagE"),
        Err(Invalid::Package)
    );
    assert_eq!(
        check_package(&release, b"the package, longer"),
        Err(Invalid::Package)
    );
}

#[test]
fn what_is_no_key_does_not_sign() {
    assert!(public_key(b"not a key").is_err());
    assert!(sign(b"not a key", CONTEXT, vec![]).is_err());
}

// --- The relay ---------------------------------------------------------------

#[test]
fn sessions_roundtrip_through_addresses_and_tags() {
    for session in [0, 1, 7, u64::MAX] {
        let address = relayed_address(session);
        assert!(is_relayed(address));
        assert_eq!(session_of(address), Some(session));
        let (back, packet) = untag(&tag(session, b"quic")).expect("untag");
        assert_eq!((back, &packet[..]), (session, &b"quic"[..]));
    }
    assert!(!is_relayed(address("203.0.113.1:443")));
    assert!(!is_relayed(address("[2001:db8::1]:443")));
    assert!(untag(b"short").is_none());
}

#[test]
fn packets_go_out_one_datagram_each() {
    let to = relayed_address(3);
    let out = datagrams(b"aabbc", Some(2), to, false);
    assert_eq!(out, [b"aa".to_vec(), b"bb".to_vec(), b"c".to_vec()]);
    let out = datagrams(b"aabbc", None, to, true);
    assert_eq!(out, [tag(3, b"aabbc")]);
    assert_eq!(
        arrived(true, &tag(3, b"x")),
        Some((relayed_address(3), b"x".to_vec()))
    );
}

#[test]
fn an_inbox_has_an_end() {
    let mut inbox = Inbox::new();
    let from = relayed_address(1);
    for _ in 0..INBOX_LIMIT {
        assert!(inbox.push(from, vec![1, 2, 3]));
    }
    assert!(!inbox.push(from, vec![4]));
    let (who, packet) = inbox.pop(10).expect("first in");
    assert_eq!((who, packet), (from, vec![1, 2, 3]));
}

// --- The bad network ---------------------------------------------------------

fn args(line: &str) -> Vec<String> {
    line.split_whitespace().map(str::to_owned).collect()
}

#[test]
fn a_bad_network_is_asked_for_on_the_command_line() {
    let options = netem::parse(&args(
        "--listen 127.0.0.1:5000 --upstream 127.0.0.1:4433 --down-kbps 3000 --delay-ms 20 --loss 250",
    ))
    .expect("options");
    assert_eq!(options.listen, address("127.0.0.1:5000"));
    assert_eq!(
        options.down,
        Link {
            kbps: 3000,
            delay_ms: 20,
            queue_ms: 100,
            loss_percent: 100
        }
    );
    assert_eq!(
        options.up,
        Link {
            kbps: 0,
            ..options.down
        }
    );
}

#[test]
fn mistakes_on_the_command_line_are_named() {
    let wrong = |line: &str| netem::parse(&args(line)).expect_err("wrong");
    assert_eq!(wrong(""), "--listen is required");
    assert_eq!(wrong("--listen 1.2.3.4:5"), "--upstream is required");
    assert_eq!(wrong("--listen"), "--listen needs a value");
    assert_eq!(wrong("--fast 1"), "unknown option --fast");
    assert_eq!(
        wrong("--listen here"),
        "--listen: invalid socket address syntax"
    );
    assert_eq!(
        wrong("--loss x"),
        "--loss: invalid digit found in string"
    );
    assert_eq!(
        wrong("--loss 99999999999999999999"),
        "--loss: number too large to fit in target type"
    );
    assert_eq!(
        NotNumber::Empty.message(),
        "cannot parse integer from empty string"
    );
}

#[test]
fn a_link_queues_in_order_and_drops_what_would_wait_too_long() {
    let link = Link {
        kbps: 8,
        delay_ms: 0,
        queue_ms: 1_500,
        loss_percent: 0,
    };
    let mut shaper = Shaper::new(link, 0, Dice::new(7));
    // A kilobyte a second.
    assert_eq!(shaper.pass(0, 1_000), Some(1_000_000));
    assert_eq!(shaper.pass(600_000, 1_000), Some(2_000_000));
    assert_eq!(shaper.pass(600_000, 1_000), None, "it would wait too long");
    assert_eq!(shaper.pass(1_600_000, 500), Some(2_500_000));
    let mut lossy = Shaper::new(
        Link {
            kbps: 0,
            delay_ms: 0,
            queue_ms: 0,
            loss_percent: 100,
        },
        0,
        Dice::new(7),
    );
    assert_eq!(lossy.pass(5, 100), None, "all of it is lost");
}

#[test]
fn dice_are_the_same_for_the_same_seed() {
    let mut a = Dice::new(42);
    let mut b = Dice::new(42);
    for _ in 0..100 {
        let n = a.roll();
        assert!(n < 100);
        assert_eq!(n, b.roll());
    }
}

#[test]
fn a_client_listens_on_any_address_of_the_same_kind() {
    assert_eq!(
        unspecified_like(address("192.0.2.1:443")),
        Address::new(Ip::V4(0), 0)
    );
    assert_eq!(
        unspecified_like(address("[2001:db8::1]:443")),
        Address::new(Ip::V6(0), 0)
    );
}
