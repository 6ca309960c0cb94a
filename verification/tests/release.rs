use nearhand::hex::hex;
use nearhand::protocol::Version;
use nearhand::release::{
    good, key_file, may_sign, package_kind, private_key, rust_array, signature_path, unhex, NotHex,
};
use nearhand::transport::release::{generate_key, Package, Release};
use std::path::Path;

fn kind(path: &str) -> Result<Package, String> {
    package_kind(path, Path::new(path).extension().and_then(|e| e.to_str()))
}

#[test]
fn keys_round_trip_through_hex() {
    let (private, _) = generate_key().expect("key");
    assert_eq!(unhex(&hex(&private)).expect("unhex"), private);
    assert!(unhex("abc").is_err());
    assert!(unhex("zz").is_err());
}

#[test]
fn signature_files_sit_beside_packages() {
    assert_eq!(
        signature_path("out/nearhand-agent-0.2.0-x64.msi"),
        "out/nearhand-agent-0.2.0-x64.msi.release"
    );
    assert_eq!(kind("a.MSI").expect("msi"), Package::Msi);
    assert!(kind("a.exe").is_err());
}

#[test]
fn what_is_not_hex_is_told_apart() {
    assert_eq!(unhex("abc"), Err(NotHex::OddOrNotAscii));
    assert_eq!(unhex("éé"), Err(NotHex::OddOrNotAscii));
    assert_eq!(unhex("zz"), Err(NotHex::NotADigit));
    assert_eq!(unhex("+f"), Ok(vec![0x0f]), "a digit behind a plus sign");
    assert_eq!(unhex("f+"), Err(NotHex::NotADigit));
    assert_eq!(unhex("++"), Err(NotHex::NotADigit));
    assert_eq!(unhex("-1"), Err(NotHex::NotADigit));
    assert_eq!(unhex(""), Ok(vec![]));
    assert_eq!(unhex("00fFA5"), Ok(vec![0x00, 0xff, 0xa5]));
    assert_eq!(NotHex::OddOrNotAscii.message(), "odd length or not ASCII");
    assert_eq!(NotHex::NotADigit.message(), "not a hex digit");
}

#[test]
fn a_private_key_is_read_without_the_space_around_it() {
    assert_eq!(private_key(" 0102\n"), Ok(vec![1, 2]));
    assert_eq!(key_file(&[1, 2]), "0102\n");
    assert_eq!(
        private_key("not a key"),
        Err("the release key is not hex".to_owned())
    );
}

#[test]
fn only_the_key_agents_trust_signs_unless_asked() {
    let trusted = [1u8; 32];
    let other = [2u8; 32];
    assert!(may_sign(&trusted, &trusted, false).is_ok());
    assert!(may_sign(&other, &trusted, true).is_ok());
    let refused = may_sign(&other, &trusted, false).expect_err("refused");
    assert!(refused.contains(&"02".repeat(32)), "{refused}");
    assert!(refused.ends_with("--other-key signs anyway, for tests"));
}

#[test]
fn keys_come_out_as_source() {
    let bytes: Vec<u8> = (0..10).collect();
    assert_eq!(
        rust_array(&bytes),
        "[\n    0x00, 0x01, 0x02, 0x03, 0x04, 0x05, 0x06, 0x07,\n    0x08, 0x09,\n]"
    );
    assert_eq!(rust_array(&[]), "[\n\n]");
}

#[test]
fn a_good_package_is_named() {
    let release = Release {
        product: "nearhand-agent".to_owned(),
        version: Version {
            major: 0,
            minor: 2,
            patch: 0,
        },
        platform: "windows-x86_64".to_owned(),
        package: Package::Msi,
        sha256: [0; 32],
        size: 1234,
    };
    assert_eq!(
        good(&release),
        "good: nearhand-agent 0.2.0 for windows-x86_64, 1234 bytes"
    );
}
