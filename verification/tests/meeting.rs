use nearhand::net::{Address, Ip};
use nearhand::protocol::{DeviceId, Enrollment, FromServer, Refusal, Role};
use nearhand::server::accounts::{Accounts, User};
use nearhand::server::api::ServerInfo;
use nearhand::server::audit::Audit;
use nearhand::server::devices::Devices;
use nearhand::server::grants::Grants;
use nearhand::server::releases::Releases;
use nearhand::server::rendezvous::{Registry, ATTEMPTS};
use nearhand::server::service::AppState;
use nearhand::transport::fingerprint::Fingerprint;
use nearhand::transport::grant::{verify, Grant};
use nearhand::transport::identity::Identity;

const NOW: i64 = 1_700_000_000;
const CLOCK: u64 = 5_000_000;
const LIFETIME: u64 = 600;
const CONTEXT: &[u8] = b"a grant of the tests";

fn at(last: u8, port: u16) -> Address {
    Address::new(Ip::v4(192, 0, 2, last), port)
}

fn state(access: bool) -> (AppState, User) {
    let mut accounts = Accounts::new();
    let setup = accounts.new_setup_token(NOW).expect("setup token");
    let admin = accounts
        .setup(&setup, "ada", "correct horse battery", NOW)
        .expect("admin");
    let state = AppState {
        accounts,
        devices: Devices::new(),
        grants: Grants::new(),
        audit: Audit::new(),
        registry: Registry::new(true, access),
        releases: Releases::new(Vec::new(), [0; 32]),
        server: ServerInfo {
            address: "localhost:443".to_owned(),
            fingerprint: "ab".repeat(32),
        },
    };
    (state, admin)
}

fn asking(token: &str, name: &str, os: &str, version: &str) -> Enrollment {
    Enrollment {
        token: token.to_owned(),
        name: name.to_owned(),
        os: os.to_owned(),
        version: version.to_owned(),
    }
}

/// A device's key, and the number that goes with it.
fn agent() -> (Fingerprint, DeviceId) {
    let identity = Identity::generate().expect("agent key");
    let id = DeviceId::new(1_234_567_890).expect("ten digits");
    (identity.fingerprint(), id)
}

#[test]
fn users_get_a_signed_grant_for_devices_they_may_reach_and_nothing_else() {
    let (mut state, admin) = state(true);
    let bob = state
        .accounts
        .create_user("bob", "bobs long password", false, NOW)
        .expect("bob");
    let (_, ada_token) = state
        .accounts
        .new_api_token(&admin, "viewer", None, NOW)
        .expect("token");
    let (_, bob_token) = state
        .accounts
        .new_api_token(&bob, "viewer", None, NOW)
        .expect("token");
    let office = state.devices.create_group("Office", NOW).expect("group");
    let users = &state.accounts.users;
    let staff = state
        .grants
        .create_user_group("Staff", users, NOW)
        .expect("group");
    state
        .grants
        .add_member(staff.id, bob.id, users)
        .expect("member");
    state
        .grants
        .set_grant(
            staff.id,
            office.id,
            Role::Control,
            &state.devices.groups,
            NOW,
        )
        .expect("grant");
    let (_, enroll_token) = state
        .devices
        .new_enroll_token(&admin, "office", Some(office.id), None, 1, NOW)
        .expect("token");

    // An enrolled agent in the office group, registered and accepting.
    let server = Identity::generate().expect("server key");
    let (key, id) = agent();
    let answer = state.enroll(
        Some(&key),
        id,
        &asking(&enroll_token, "PC", "test", "0"),
        at(1, 5000),
        NOW,
        CLOCK,
    );
    assert!(matches!(answer, FromServer::Enrolled { .. }), "enroll");
    state
        .register(Some(key), id, Vec::new(), at(1, 5000), NOW)
        .expect("the agent registers");

    let viewer = at(2, 6000).ip;
    let authorized = state
        .arrange(id, viewer, Some(&bob_token), NOW, CLOCK, LIFETIME)
        .expect("bob has a grant")
        .expect("to sign");
    let given = &authorized.grant;
    let claims = Grant {
        device: given.device,
        user: given.user.clone(),
        role: given.role,
        issued_at: given.issued_at,
        expires_at: given.expires_at,
        nonce: given.nonce,
    };
    let signed = server
        .sign_grant(CONTEXT, b"the grant, encoded".to_vec())
        .expect("signed");
    let signed = state
        .session_granted(&authorized, Some(signed), id, viewer, NOW)
        .expect("granted");
    let grant = verify(&signed, CONTEXT, Some(claims), server.fingerprint())
        .expect("signed by the server");
    assert_eq!(grant.device, *key.as_bytes());
    assert_eq!(grant.user, "bob");
    assert_eq!(grant.role, Role::Control);
    assert_eq!(grant.expires_at - grant.issued_at, LIFETIME);

    assert_eq!(
        state
            .arrange(id, viewer, Some(&ada_token), NOW, CLOCK, LIFETIME)
            .err(),
        Some(Refusal::NotAllowed),
        "administrators need a grant too"
    );
    assert_eq!(
        state
            .arrange(id, viewer, Some("nht_guess"), NOW, CLOCK, LIFETIME)
            .err(),
        Some(Refusal::NotSignedIn)
    );
    let actions: Vec<(Option<String>, String)> = state
        .audit
        .entries(None, 10)
        .into_iter()
        .rev()
        .map(|e| (e.actor, e.action))
        .collect();
    assert_eq!(
        actions,
        [
            (None, "device.enroll".to_owned()),
            (Some("bob".to_owned()), "session.grant".to_owned()),
            (Some("ada".to_owned()), "session.refuse".to_owned()),
        ]
    );
}

#[test]
fn agents_enroll_with_a_token_and_are_seen_when_they_register() {
    let (mut state, admin) = state(false);
    let (_, token) = state
        .devices
        .new_enroll_token(&admin, "rollout", None, Some(1), 1, NOW)
        .expect("token");
    let (key, own) = agent();
    let ask = |state: &mut AppState, token: &str| {
        state.enroll(
            Some(&key),
            own,
            &asking(token, "RECEPTION", "windows x86_64", "0.1.0"),
            at(1, 5000),
            NOW,
            CLOCK,
        )
    };
    let wrong = ask(&mut state, "nhe_guess");
    assert!(
        matches!(wrong, FromServer::Refused(Refusal::Enrollment)),
        "{wrong:?}"
    );
    let answer = ask(&mut state, &token);
    assert!(
        matches!(answer, FromServer::Enrolled { id } if id == own),
        "enrolled"
    );
    let again = ask(&mut state, &token);
    assert!(
        matches!(again, FromServer::Refused(_)),
        "the token was for one device"
    );

    let listed = state.devices.devices();
    assert_eq!(listed.len(), 1);
    assert_eq!(listed[0].name, "RECEPTION");
    assert_eq!(listed[0].fingerprint, key.text());
    assert!(state.registry.online(own, &key).is_none());

    let registered = state
        .register(Some(key), own, Vec::new(), at(9, 7000), NOW + 5)
        .expect("the agent registers");
    assert!(state.registry.online(own, &key).is_some());
    assert!(state.registry.agent(own).expect("registered").enrolled);

    // Seen as it came, and as it goes.
    let seen = state.devices.device(listed[0].id).expect("device");
    assert_eq!(seen.last_seen_at, Some(NOW + 5));
    assert_eq!(seen.last_address.as_deref(), Some("192.0.2.9:7000"));
    assert!(!state.leave(own, &key, registered.registration + 1, at(9, 1), NOW + 6));
    assert!(state.leave(own, &key, registered.registration, at(9, 7001), NOW + 7));
    let seen = state.devices.device(listed[0].id).expect("device");
    assert_eq!(seen.last_seen_at, Some(NOW + 7));
    assert!(state.registry.online(own, &key).is_none());
    assert_eq!(
        state.audit.entries(None, 10).len(),
        0,
        "nothing to record where nobody is"
    );
}

#[test]
fn viewers_without_an_account_reach_whoever_is_there() {
    let (mut state, _) = state(false);
    let (key, id) = agent();
    let viewer = at(2, 6000).ip;
    assert_eq!(
        state.arrange(id, viewer, None, NOW, CLOCK, LIFETIME).err(),
        Some(Refusal::Offline)
    );
    state
        .register(Some(key), id, Vec::new(), at(1, 5000), NOW)
        .expect("registered");
    assert!(state
        .arrange(id, viewer, None, NOW, CLOCK, LIFETIME)
        .expect("there")
        .is_none());
    assert_eq!(
        state
            .arrange(id, viewer, Some("nht_any"), NOW, CLOCK, LIFETIME)
            .err(),
        Some(Refusal::NotAllowed),
        "nobody knows who may connect to what"
    );
    for _ in 3..ATTEMPTS {
        assert!(state
            .arrange(id, viewer, None, NOW, CLOCK, LIFETIME)
            .is_ok());
    }
    assert_eq!(
        state.arrange(id, viewer, None, NOW, CLOCK, LIFETIME).err(),
        Some(Refusal::TooManyAttempts)
    );
    assert!(matches!(
        state.enroll(
            None,
            id,
            &asking("nhe_any", "PC", "test", "0"),
            at(1, 1),
            NOW,
            CLOCK
        ),
        FromServer::Refused(Refusal::NoCertificate)
    ));
    assert_eq!(
        state.register(None, id, Vec::new(), at(1, 5000), NOW).err(),
        Some(Refusal::NoCertificate)
    );
}
