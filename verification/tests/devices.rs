use nearhand::net::{Address, Ip};
use nearhand::protocol::{DeviceId, Enrollment};
use nearhand::server::accounts::{internal, Refused, User};
use nearhand::server::devices::{reported, Devices, MAX_ENROLL_DAYS, MAX_REPORTED};
use nearhand::transport::fingerprint::Fingerprint;

const NOW: i64 = 1_700_000_000;
/// 198.51.100.7:50000
const HERE: Address = Address {
    ip: Ip::V4(0xC633_6407),
    port: 50_000,
};

fn admin() -> User {
    User {
        id: 1,
        name: "ada".to_owned(),
        admin: true,
        totp: false,
        disabled: false,
    }
}

fn enrollment(token: &str, name: &str) -> Enrollment {
    Enrollment {
        token: token.to_owned(),
        name: name.to_owned(),
        os: "windows x86_64".to_owned(),
        version: "0.1.0".to_owned(),
    }
}

fn key(n: u8) -> Fingerprint {
    Fingerprint::from_bytes([n; 32])
}

fn number(n: u8) -> DeviceId {
    DeviceId::new(1_000_000_000 + u64::from(n)).expect("ten digits")
}

#[test]
fn a_token_enrolls_as_many_devices_as_it_is_for() {
    let mut devices = Devices::new();
    let (listed, token) = devices
        .new_enroll_token(&admin(), "office", None, Some(2), 7, NOW)
        .expect("token");
    assert!(token.starts_with("nhe_"));
    assert_eq!(listed.uses_left, Some(2));

    let first = devices
        .enroll(&key(1), number(1), &enrollment(&token, "RECEPTION"), HERE, NOW)
        .expect("first");
    assert_eq!(first.name, "RECEPTION");
    assert_eq!(first.device_id, number(1).text());
    assert_eq!(first.last_address.as_deref(), Some("198.51.100.7:50000"));
    devices
        .enroll(
            &key(2),
            number(2),
            &enrollment(&token, "BACK-OFFICE"),
            HERE,
            NOW,
        )
        .expect("second");
    assert_eq!(
        devices.enroll(
            &key(3),
            number(3),
            &enrollment(&token, "ONE-TOO-MANY"),
            HERE,
            NOW
        ),
        Err(Refused::Forbidden)
    );
    assert_eq!(devices.devices().len(), 2);
    assert!(devices.enroll_tokens(NOW).is_empty(), "used up, and gone");
}

#[test]
fn wrong_and_deleted_tokens_enroll_nothing() {
    let mut devices = Devices::new();
    assert_eq!(
        devices.enroll(&key(1), number(1), &enrollment("nhe_guess", "X"), HERE, NOW),
        Err(Refused::Forbidden)
    );
    let (listed, token) = devices
        .new_enroll_token(&admin(), "any", None, None, 1, NOW)
        .expect("token");
    devices.delete_enroll_token(listed.id).expect("delete");
    assert_eq!(
        devices.enroll(&key(1), number(1), &enrollment(&token, "X"), HERE, NOW),
        Err(Refused::Forbidden)
    );
    assert!(devices
        .new_enroll_token(&admin(), "forever", None, None, MAX_ENROLL_DAYS + 1, NOW)
        .is_err());
    assert_eq!(
        devices.delete_enroll_token(listed.id),
        Err(Refused::NotFound)
    );
}

#[test]
fn a_token_ends_with_its_days() {
    let mut devices = Devices::new();
    let (listed, token) = devices
        .new_enroll_token(&admin(), "a day", None, None, 1, NOW)
        .expect("token");
    assert_eq!(listed.expires_at, NOW + 86_400);
    assert_eq!(
        devices.enroll(
            &key(1),
            number(1),
            &enrollment(&token, "LATE"),
            HERE,
            NOW + 86_400
        ),
        Err(Refused::Forbidden)
    );
    assert!(devices
        .enroll(
            &key(1),
            number(1),
            &enrollment(&token, "IN-TIME"),
            HERE,
            NOW + 86_399
        )
        .is_ok());
}

#[test]
fn enrolling_again_updates_the_same_device() {
    let mut devices = Devices::new();
    let lab = devices.create_group("Lab", NOW).expect("group");
    let (_, into_lab) = devices
        .new_enroll_token(&admin(), "lab", Some(lab.id), None, 1, NOW)
        .expect("token");
    let (_, anywhere) = devices
        .new_enroll_token(&admin(), "any", None, None, 1, NOW)
        .expect("token");

    let first = devices
        .enroll(&key(1), number(1), &enrollment(&into_lab, "PC-1"), HERE, NOW)
        .expect("enroll");
    assert_eq!(first.group.as_deref(), Some("Lab"));
    let again = devices
        .enroll(
            &key(1),
            number(1),
            &enrollment(&anywhere, "PC-1-RENAMED"),
            HERE,
            NOW,
        )
        .expect("again");
    assert_eq!(again.id, first.id);
    assert_eq!(again.name, "PC-1-RENAMED");
    assert_eq!(
        again.group_id,
        Some(lab.id),
        "a token without a group keeps it"
    );
    assert_eq!(devices.devices().len(), 1);
}

#[test]
fn groups_hold_devices_and_let_them_go() {
    let mut devices = Devices::new();
    let lab = devices.create_group("Lab", NOW).expect("group");
    assert!(
        devices.create_group("lab", NOW).is_err(),
        "names are unique"
    );
    let (_, token) = devices
        .new_enroll_token(&admin(), "lab", Some(lab.id), None, 1, NOW)
        .expect("token");
    let pc = devices
        .enroll(&key(1), number(1), &enrollment(&token, "PC"), HERE, NOW)
        .expect("enroll");
    assert_eq!(devices.groups()[0].devices, 1);

    let office = devices.create_group("Office", NOW).expect("group");
    let moved = devices
        .update_device(pc.id, Some("Front desk"), Some(Some(office.id)))
        .expect("move");
    assert_eq!(moved.name, "Front desk");
    assert_eq!(moved.group.as_deref(), Some("Office"));
    assert_eq!(
        devices.update_device(pc.id, None, Some(Some(999))),
        Err(Refused::NotFound)
    );
    assert!(devices.rename_group(lab.id, "office").is_err());
    devices.rename_group(lab.id, "Workshop").expect("rename");

    devices.delete_group(office.id).expect("delete");
    let pc = devices.device(pc.id).expect("still there");
    assert_eq!(pc.group_id, None);
    devices.delete_group(lab.id).expect("delete");
    assert!(
        devices.enroll_tokens(NOW).is_empty(),
        "the group's token went with it"
    );
    assert_eq!(devices.delete_group(lab.id), Err(Refused::NotFound));
}

#[test]
fn presence_is_noted_for_enrolled_devices_only() {
    let mut devices = Devices::new();
    let (_, token) = devices
        .new_enroll_token(&admin(), "one", None, Some(1), 1, NOW)
        .expect("token");
    let pc = devices
        .enroll(&key(1), number(1), &enrollment(&token, "PC"), HERE, NOW)
        .expect("enroll");
    assert!(devices.is_enrolled(&key(1)));
    assert!(!devices.is_enrolled(&key(2)));
    // 203.0.113.9:40000
    let elsewhere = Address::new(Ip::V4(0xCB00_7109), 40_000);
    devices.seen(&key(1), elsewhere, NOW + 5);
    devices.seen(&key(2), elsewhere, NOW + 5);
    let pc = devices.device(pc.id).expect("device");
    assert_eq!(pc.last_address.as_deref(), Some("203.0.113.9:40000"));
    assert_eq!(pc.last_seen_at, Some(NOW + 5));
    assert_eq!(devices.devices().len(), 1);

    devices.delete_device(pc.id).expect("forget");
    assert!(!devices.is_enrolled(&key(1)));
}

#[test]
fn reported_text_is_tidied() {
    assert_eq!(reported("  PC-1\n", "x"), "PC-1");
    assert_eq!(reported("\u{7}", "unnamed"), "unnamed");
    assert_eq!(reported(&"a".repeat(200), "x").len(), MAX_REPORTED);
}

#[test]
fn what_was_tidied_stays_as_it_is() {
    for text in [
        " PC-1 ",
        "a\u{7}b\tc",
        "\u{0}\u{0}",
        "x y",
        &"ab ".repeat(50),
    ] {
        let tidy = reported(text, "unnamed");
        assert!(!tidy.is_empty() && tidy.chars().count() <= MAX_REPORTED);
        assert!(tidy.chars().all(|c| !c.is_control()));
        assert_eq!(tidy.trim(), tidy);
        assert_eq!(reported(&tidy, "unnamed"), tidy);
        if tidy != "unnamed" {
            let mut left = text.chars();
            assert!(tidy.chars().all(|c| left.any(|other| other == c)));
        }
    }
}

#[test]
fn an_enrollment_token_is_its_drawn_bytes() {
    let mut devices = Devices::new();
    let (listed, token) = devices
        .add_enroll_token(1, "office", None, Some(3), 7, Some(vec![0x5a; 32]), NOW)
        .expect("token");
    assert_eq!(token, format!("nhe_{}", "5a".repeat(32)));
    assert_eq!(listed.uses_left, Some(3));
    assert_eq!(listed.expires_at, NOW + 7 * 86_400);
    assert_eq!(
        devices.add_enroll_token(1, "office", None, Some(3), 7, None, NOW),
        Err(internal())
    );
}
