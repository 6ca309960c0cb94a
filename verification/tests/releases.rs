use nearhand::protocol::Version;
use nearhand::server::accounts::Refused;
use nearhand::server::releases::{file_name, Releases, Signed};
use nearhand::transport::release::{generate_key, sha256, sign, Package, Release, SignedRelease};

const CONTEXT: &[u8] = b"a release of the tests";
const AGENT: &str = "nearhand-agent";
const WINDOWS: &str = "windows-x86_64";
const NOW: i64 = 1_700_000_000;

/// A release key of the tests' own, and packages signed with it.
struct Signer {
    private: Vec<u8>,
    public: [u8; 32],
}

fn version(text: &str) -> Version {
    let parts: Vec<u64> = text.split('.').map(|p| p.parse().expect("number")).collect();
    Version {
        major: parts[0],
        minor: parts[1],
        patch: parts[2],
    }
}

fn describe(package: &[u8], text: &str) -> Release {
    Release {
        product: AGENT.to_owned(),
        version: version(text),
        platform: WINDOWS.to_owned(),
        package: Package::Msi,
        sha256: sha256(package),
        size: package.len() as u64,
    }
}

impl Signer {
    fn new() -> Self {
        let (private, public) = generate_key().expect("key");
        Self { private, public }
    }

    /// A package for `version`, and its signature file.
    fn package(&self, version: &str) -> (Vec<u8>, Signed) {
        let package = format!("the agent, version {version}").into_bytes();
        let signed = sign(&self.private, CONTEXT, version.as_bytes().to_vec()).expect("sign");
        let described = Some(describe(&package, version));
        let signed = Signed {
            release: signed,
            described,
            text: format!("release {version}\n"),
        };
        (package, signed)
    }
}

/// The signature file of the release on offer, read back.
fn read_back(signer: &Signer, text: Option<String>) -> Option<Result<Signed, String>> {
    let text = text?;
    let version = text.trim().strip_prefix("release ").expect("a release");
    Some(Ok(signer.package(version).1))
}

fn offer(releases: &Releases, signer: &Signer, platform: &str, running: &str) -> Option<Release> {
    let kept = releases.on_offer(AGENT, platform);
    releases
        .offer_for(read_back(signer, kept), CONTEXT, version(running))
        .expect("offer")
        .map(|o| o.release)
}

#[test]
fn only_signed_packages_are_taken() {
    let signer = Signer::new();
    let mut releases = Releases::new(Vec::new(), signer.public);

    // Signed with another key.
    let stranger = Signer::new();
    let (other, other_signature) = stranger.package("0.2.0");
    assert_eq!(
        releases.add(&other, Ok(other_signature), CONTEXT, NOW),
        Err(Refused::Invalid(
            "the release is not signed by the release key: not a Nearhand release".to_owned()
        ))
    );
    // The right signature, the wrong package.
    let (package, signature) = signer.package("0.2.0");
    assert_eq!(
        releases.add(b"something else", Ok(signature), CONTEXT, NOW),
        Err(Refused::Invalid(
            "the package is not the one that was signed".to_owned()
        ))
    );
    assert_eq!(
        releases.add(&package, Err("release 00".to_owned()), CONTEXT, NOW),
        Err(Refused::Invalid(
            "not a signature file: release 00".to_owned()
        ))
    );

    let (package, signature) = signer.package("0.2.0");
    let added = releases
        .add(&package, Ok(signature), CONTEXT, NOW)
        .expect("add");
    assert_eq!(
        (added.version.as_str(), added.offered, added.size),
        ("0.2.0", false, package.len() as i64)
    );
    assert_eq!(
        file_name(&sha256(&package)),
        format!("{}.pkg", added.sha256)
    );
    let (package, signature) = signer.package("0.2.0");
    assert_eq!(
        releases.add(&package, Ok(signature), CONTEXT, NOW),
        Err(Refused::Invalid("this package is here already".to_owned()))
    );
    assert_eq!(releases.list().len(), 1);
}

#[test]
fn a_release_nobody_can_read_is_not_taken() {
    let signer = Signer::new();
    let mut releases = Releases::new(Vec::new(), signer.public);
    let (package, mut signature) = signer.package("0.2.0");
    signature.described = None;
    assert_eq!(
        releases.add(&package, Ok(signature), CONTEXT, NOW),
        Err(Refused::Invalid(
            "the release cannot be read: not a Nearhand release".to_owned()
        ))
    );
}

#[test]
fn agents_are_offered_the_offered_release_if_it_is_newer() {
    let signer = Signer::new();
    let mut releases = Releases::new(Vec::new(), signer.public);
    let (old, old_signature) = signer.package("0.2.0");
    let (new, new_signature) = signer.package("0.3.0");
    let old = releases
        .add(&old, Ok(old_signature), CONTEXT, NOW)
        .expect("add");
    let new_id = releases
        .add(&new, Ok(new_signature), CONTEXT, NOW)
        .expect("add")
        .id;

    assert!(
        offer(&releases, &signer, WINDOWS, "0.1.0").is_none(),
        "none offered"
    );
    releases.offer(old.id).expect("offer");
    let offered = offer(&releases, &signer, WINDOWS, "0.1.0").expect("offered");
    assert_eq!(offered.version, version("0.2.0"));
    assert!(
        offer(&releases, &signer, WINDOWS, "0.2.0").is_none(),
        "not newer"
    );
    assert!(
        offer(&releases, &signer, WINDOWS, "0.9.0").is_none(),
        "never older"
    );
    assert!(
        offer(&releases, &signer, "macos-aarch64", "0.1.0").is_none(),
        "another platform"
    );

    // Offering another replaces it.
    releases.offer(new_id).expect("offer");
    let listed = releases.list();
    assert_eq!(
        listed
            .iter()
            .map(|r| (r.version.as_str(), r.offered))
            .collect::<Vec<_>>(),
        [("0.3.0", true), ("0.2.0", false)]
    );
    releases.withdraw(new_id).expect("withdraw");
    assert!(
        offer(&releases, &signer, WINDOWS, "0.1.0").is_none(),
        "withdrawn"
    );
}

#[test]
fn an_offered_release_is_not_deleted() {
    let signer = Signer::new();
    let mut releases = Releases::new(Vec::new(), signer.public);
    let (package, signature) = signer.package("0.2.0");
    let id = releases
        .add(&package, Ok(signature), CONTEXT, NOW)
        .expect("add")
        .id;
    releases.offer(id).expect("offer");
    assert!(matches!(releases.delete(id), Err(Refused::Invalid(_))));
    releases.withdraw(id).expect("withdraw");
    let deleted = releases.delete(id).expect("delete");
    assert_eq!(deleted.sha256, nearhand::hex::hex(&sha256(&package)));
    assert!(matches!(releases.release(id), Err(Refused::NotFound)));
    assert!(matches!(releases.offer(id), Err(Refused::NotFound)));
}

#[test]
fn what_was_kept_is_checked_again() {
    let signer = Signer::new();
    let releases = Releases::new(Vec::new(), signer.public);
    let tampered = Signed {
        release: SignedRelease {
            release: b"0.9.0".to_vec(),
            signature: vec![0; 64],
        },
        described: Some(describe(b"x", "0.9.0")),
        text: String::new(),
    };
    assert!(releases
        .offer_for(Some(Ok(tampered)), CONTEXT, version("0.1.0"))
        .is_err());
    assert!(releases
        .offer_for(Some(Err("unreadable".to_owned())), CONTEXT, version("0.1.0"))
        .is_err());
}

#[test]
fn the_last_offer_stands_whatever_else_is_asked() {
    let signer = Signer::new();
    let mut releases = Releases::new(Vec::new(), signer.public);
    let mut ids = Vec::new();
    for version in ["0.2.0", "0.3.0", "0.4.0"] {
        let (package, signature) = signer.package(version);
        let added = releases
            .add(&package, Ok(signature), CONTEXT, NOW)
            .expect("add");
        ids.push(added.id);
    }
    let offered = |releases: &Releases| {
        offer(releases, &signer, WINDOWS, "0.1.0").map(|release| release.version)
    };
    assert_eq!(offered(&releases), None, "nothing was put on offer yet");

    releases.offer(ids[2]).expect("offer");
    releases.offer(ids[0]).expect("offer");
    assert_eq!(offered(&releases), Some(version("0.2.0")), "the last one");
    releases.withdraw(ids[2]).expect("withdraw");
    releases.delete(ids[1]).expect("delete");
    assert_eq!(releases.offer(99), Err(Refused::NotFound));
    assert_eq!(releases.withdraw(ids[1]), Err(Refused::NotFound));
    let (package, signature) = signer.package("0.5.0");
    releases
        .add(&package, Ok(signature), CONTEXT, NOW)
        .expect("add");
    assert_eq!(offered(&releases), Some(version("0.2.0")), "still");
    assert!(offer(&releases, &signer, WINDOWS, "0.2.0").is_none());

    releases.withdraw(ids[0]).expect("withdraw");
    assert_eq!(offered(&releases), None, "not the one before it either");
    releases.offer(ids[2]).expect("offer");
    assert_eq!(offered(&releases), Some(version("0.4.0")));
}
