use nearhand::net::{Address, Ip};
use nearhand::protocol::{DeviceId, Enrollment, Role, Version};
use nearhand::server::accounts::{Accounts, Refused, User};
use nearhand::server::api::{
    device_granted, framed, install_commands, may_relay, upload, webtransport, Act, Admin,
    ApiError, Caller, Endpoint, Guard, Headers, Method, NotFramed, ServerInfo,
};
use nearhand::server::audit::{Audit, Entry};
use nearhand::server::devices::Devices;
use nearhand::server::grants::{issue, Grants, Reachable};
use nearhand::server::releases::{Listed, Releases, Signed};
use nearhand::server::rendezvous::Registry;
use nearhand::server::service::{role_named, AppState};
use nearhand::transport::fingerprint::Fingerprint;
use nearhand::transport::release::{generate_key, sha256, sign, Package, Release};

const NOW: i64 = 1_700_000_000;
const CLOCK: u64 = 5_000_000;
const CONTEXT: &[u8] = b"a release of the tests";
/// 192.0.2.1
const HOME: Ip = Ip::V4(0xC000_0201);
/// 198.51.100.7:50000
const AGENT: Address = Address {
    ip: Ip::V4(0xC633_6407),
    port: 50_000,
};

const OK: u16 = 200;
const CREATED: u16 = 201;
const NO_CONTENT: u16 = 204;
const BAD_REQUEST: u16 = 400;
const UNAUTHORIZED: u16 = 401;
const FORBIDDEN: u16 = 403;
const NOT_FOUND: u16 = 404;

/// A release key of the tests' own, and packages signed with it.
struct Signer {
    private: Vec<u8>,
    public: [u8; 32],
}

impl Signer {
    fn new() -> Self {
        let (private, public) = generate_key().expect("key");
        Self { private, public }
    }

    /// Version 0.2.0 of the agent, and its signature file.
    fn package(&self) -> (Vec<u8>, Signed) {
        let package = b"the agent, version 0.2.0".to_vec();
        let release = sign(&self.private, CONTEXT, b"0.2.0".to_vec()).expect("sign");
        let described = Release {
            product: "nearhand-agent".to_owned(),
            version: Version {
                major: 0,
                minor: 2,
                patch: 0,
            },
            platform: "windows-x86_64".to_owned(),
            package: Package::Msi,
            sha256: sha256(&package),
            size: package.len() as u64,
        };
        let signed = Signed {
            release,
            described: Some(described),
            text: "release 0.2.0\n".to_owned(),
        };
        (package, signed)
    }
}

fn headers(auth: &[(&str, &str)]) -> Headers {
    let mut headers = Headers {
        authorization: None,
        cookies: Vec::new(),
        origin: None,
        host: Some("desk.example.com".to_owned()),
    };
    for (name, value) in auth {
        match *name {
            "authorization" => headers.authorization = Some((*value).to_owned()),
            "cookie" => headers.cookies.push((*value).to_owned()),
            "origin" => headers.origin = Some((*value).to_owned()),
            _ => panic!("{name}"),
        }
    }
    headers
}

fn fingerprint() -> String {
    "ab".repeat(32)
}

struct Api {
    state: AppState,
    setup_token: String,
    signer: Signer,
}

fn api() -> Api {
    let signer = Signer::new();
    let mut accounts = Accounts::new();
    let setup_token = accounts.new_setup_token(NOW).expect("setup token");
    let state = AppState {
        accounts,
        devices: Devices::new(),
        grants: Grants::new(),
        audit: Audit::new(),
        registry: Registry::new(true, true),
        releases: Releases::new(Vec::new(), signer.public),
        server: ServerInfo {
            address: "desk.example.com:443".to_owned(),
            fingerprint: fingerprint(),
        },
    };
    Api {
        state,
        setup_token,
        signer,
    }
}

/// The status that an endpoint answers with.
fn status<T, E: Into<ApiError>>(endpoint: Endpoint, answer: Result<T, E>) -> (u16, Option<T>) {
    match answer {
        Ok(value) => (endpoint.route().status, Some(value)),
        Err(error) => {
            let answer = error.into().answer();
            assert!(!answer.message.is_empty());
            (answer.status, None)
        }
    }
}

impl Api {
    /// Who asks, if they may; the status they are answered with, if not.
    fn who(&mut self, endpoint: Endpoint, auth: &[(&str, &str)]) -> Result<Option<Caller>, u16> {
        let caller = Caller::identify(
            &mut self.state.accounts,
            endpoint.route().method,
            &headers(auth),
            Some(HOME),
            NOW,
        );
        endpoint.open_to(caller).map_err(|e| {
            let answer = e.answer();
            assert!(!answer.message.is_empty());
            answer.status
        })
    }

    fn caller(&mut self, endpoint: Endpoint, auth: &[(&str, &str)]) -> Caller {
        self.who(endpoint, auth).expect("let in").expect("someone")
    }

    fn admin(&mut self, endpoint: Endpoint, auth: &[(&str, &str)]) -> Admin {
        assert_eq!(endpoint.route().guard, Guard::Administrators);
        self.caller(endpoint, auth).admin().expect("administrator")
    }

    fn refused(&mut self, endpoint: Endpoint, auth: &[(&str, &str)]) -> u16 {
        self.who(endpoint, auth).expect_err("kept out")
    }

    /// Set up the first administrator and sign in: the session cookie.
    fn admin_cookie(&mut self) -> String {
        let token = self.setup_token.clone();
        let made = self
            .state
            .setup(&token, "ada", "correct horse battery", HOME, NOW);
        assert_eq!(status(Endpoint::Setup, made).0, OK);
        self.sign_in("ada", "correct horse battery")
    }

    fn sign_in(&mut self, name: &str, password: &str) -> String {
        let (code, signed_in) = status(
            Endpoint::Login,
            self.state.login(name, password, None, HOME, NOW, CLOCK),
        );
        assert_eq!(code, OK);
        let (_, set_cookie) = signed_in.expect("signed in");
        assert!(set_cookie.contains("HttpOnly"));
        assert!(set_cookie.contains("SameSite=Strict"));
        assert!(set_cookie.contains("Secure"));
        set_cookie.split(';').next().expect("pair").to_owned()
    }

    fn make_bob(&mut self, auth: &[(&str, &str)]) -> User {
        let admin = self.admin(Endpoint::CreateUser, auth);
        let made = self
            .state
            .create_user(&admin, "bob", "bobs long password", false, NOW);
        let (code, made) = status(Endpoint::CreateUser, made);
        assert_eq!(code, CREATED);
        made.expect("bob")
    }

    fn enroll(&mut self, n: u8, name: &str, token: &str, os: &str) -> i64 {
        self.state
            .devices
            .enroll(
                &Fingerprint::from_bytes([n; 32]),
                DeviceId::new(1_000_000_000 + u64::from(n)).expect("ten digits"),
                &Enrollment {
                    token: token.to_owned(),
                    name: name.to_owned(),
                    os: os.to_owned(),
                    version: "0.1.0".to_owned(),
                },
                AGENT,
                NOW,
            )
            .expect("enroll")
            .id
    }

    fn log(&mut self, auth: &[(&str, &str)], before: Option<i64>, limit: u32) -> Vec<Entry> {
        let _ = self.admin(Endpoint::AuditLog, auth);
        self.state.audit.entries(before, limit)
    }
}

#[test]
fn anyone_may_ask_whether_the_server_is_up() {
    let mut api = api();
    let who = api.who(Endpoint::Health, &[]).expect("let in");
    assert!(who.is_none());
    assert_eq!(Endpoint::Health.route().status, OK);
    assert_eq!(Endpoint::Health.route().resource.path(), "/api/v1/health");
    assert_eq!(Endpoint::Health.route().method, Method::Get);
}

#[test]
fn signing_in_and_out_with_the_cookie() {
    let mut api = api();
    let cookie = api.admin_cookie();
    let me = api.caller(Endpoint::Me, &[("cookie", &cookie)]);
    assert_eq!(Endpoint::Me.route().resource.path(), "/api/v1/me");
    assert_eq!(Endpoint::Me.route().status, OK);
    assert_eq!(me.user.name, "ada");
    assert!(me.user.admin);

    assert_eq!(Endpoint::Logout.route().resource.path(), "/api/v1/logout");
    let cleared = api.state.logout(&headers(&[("cookie", &cookie)]));
    assert_eq!(Endpoint::Logout.route().status, NO_CONTENT);
    assert_eq!(
        cleared,
        "nearhand_session=; Path=/; HttpOnly; Secure; SameSite=Strict; Max-Age=0"
    );
    assert_eq!(
        api.refused(Endpoint::Me, &[("cookie", &cookie)]),
        UNAUTHORIZED
    );
}

#[test]
fn nobody_is_anybody_without_credentials() {
    let mut api = api();
    for (endpoint, path) in [
        (Endpoint::Me, "/api/v1/me"),
        (Endpoint::ListUsers, "/api/v1/users"),
        (Endpoint::ListTokens, "/api/v1/me/tokens"),
    ] {
        assert_eq!(endpoint.route().resource.path(), path);
        assert_eq!(api.refused(endpoint, &[]), UNAUTHORIZED, "{path}");
    }
    let wrong = api
        .state
        .login("ada", "nope nope nope", None, HOME, NOW, CLOCK);
    assert_eq!(status(Endpoint::Login, wrong).0, UNAUTHORIZED);
}

#[test]
fn api_tokens_work_as_bearer_tokens() {
    let mut api = api();
    let cookie = api.admin_cookie();
    let auth = [("cookie", cookie.as_str())];
    let me = api.caller(Endpoint::NewToken, &auth);
    let (code, made) = status(
        Endpoint::NewToken,
        api.state.new_token(&me, "script", None, NOW),
    );
    assert_eq!(code, CREATED);
    let (_, token) = made.expect("token");
    let bearer = format!("Bearer {token}");
    let with_token = [("authorization", bearer.as_str())];
    let _ = api.admin(Endpoint::ListUsers, &with_token);
    assert_eq!(Endpoint::ListUsers.route().status, OK);
    assert_eq!(api.state.accounts.users()[0].name, "ada");

    let me = api.caller(Endpoint::ListTokens, &auth);
    let listed = api.state.accounts.api_tokens(&me.user);
    assert!(!format!("{listed:?}").contains(&token), "never shown again");
    let id = listed[0].id;
    let me = api.caller(Endpoint::DeleteToken, &auth);
    let deleted = api.state.delete_token(&me, id, NOW);
    assert_eq!(status(Endpoint::DeleteToken, deleted).0, NO_CONTENT);
    assert_eq!(api.refused(Endpoint::Me, &with_token), UNAUTHORIZED);
}

#[test]
fn only_administrators_manage_users() {
    let mut api = api();
    let cookie = api.admin_cookie();
    let made = api.make_bob(&[("cookie", &cookie)]);
    assert!(!made.admin);

    let bob = api.sign_in("bob", "bobs long password");
    assert_eq!(
        api.refused(Endpoint::ListUsers, &[("cookie", &bob)]),
        FORBIDDEN
    );
    assert_eq!(
        api.refused(Endpoint::UpdateUser, &[("cookie", &bob)]),
        FORBIDDEN,
        "not by himself"
    );
}

#[test]
fn cookie_requests_from_another_site_are_refused() {
    let mut api = api();
    let cookie = api.admin_cookie();
    let from_elsewhere = api.refused(
        Endpoint::NewToken,
        &[("cookie", &cookie), ("origin", "https://evil.example")],
    );
    assert_eq!(from_elsewhere, FORBIDDEN);
    let me = api.caller(
        Endpoint::NewToken,
        &[("cookie", &cookie), ("origin", "https://desk.example.com")],
    );
    let from_here = api.state.new_token(&me, "mine", None, NOW);
    assert_eq!(status(Endpoint::NewToken, from_here).0, CREATED);
}

#[test]
fn enrolling_and_managing_devices() {
    let mut api = api();
    let cookie = api.admin_cookie();
    let auth = [("cookie", cookie.as_str())];
    let admin = api.admin(Endpoint::CreateGroup, &auth);
    let (code, group) = status(
        Endpoint::CreateGroup,
        api.state.create_group(&admin, "Front office", NOW),
    );
    assert_eq!(code, CREATED);
    let group_id = group.expect("group").id;

    let admin = api.admin(Endpoint::NewEnrollToken, &auth);
    let (code, made) = status(
        Endpoint::NewEnrollToken,
        api.state
            .new_enroll_token(&admin, "rollout", Some(group_id), None, 7, NOW),
    );
    assert_eq!(code, CREATED);
    let (details, token) = made.expect("made");
    assert_eq!(details.uses_left, None);
    let (install, msi) = install_commands(&api.state.server, &token);
    assert!(
        install.contains("--server desk.example.com:443"),
        "{install}"
    );
    assert!(install.contains(&token));
    assert!(msi.contains(&token));
    let _ = api.admin(Endpoint::ListEnrollTokens, &auth);
    let listed = api.state.devices.enroll_tokens(NOW);
    assert!(!format!("{listed:?}").contains(&token), "never shown again");

    // An agent enrolls (on the QUIC side; here, straight in).
    let key = Fingerprint::from_bytes([7; 32]);
    api.enroll(7, "RECEPTION", &token, "windows x86_64");

    let me = api.caller(Endpoint::ListDevices, &auth);
    let devices = api.state.list_devices(&me);
    assert_eq!(Endpoint::ListDevices.route().status, OK);
    let device = &devices[0];
    assert_eq!(device.name, "RECEPTION");
    assert_eq!(device.group.as_deref(), Some("Front office"));
    assert!(!device.online, "enrolled, but not connected");
    assert_eq!(device.fingerprint, key.text());
    let id = device.id;

    let admin = api.admin(Endpoint::UpdateDevice, &auth);
    let renamed = api
        .state
        .update_device(&admin, id, Some("Front desk"), None, NOW)
        .expect("renamed");
    assert_eq!(renamed.name, "Front desk");
    assert_eq!(renamed.group_id, Some(group_id), "absent: unchanged");
    let ungrouped = api
        .state
        .update_device(&admin, id, None, Some(None), NOW)
        .expect("moved");
    assert_eq!(ungrouped.group_id, None);

    let admin = api.admin(Endpoint::DeleteDevice, &auth);
    let removed = api.state.delete_device(&admin, id, NOW);
    assert_eq!(status(Endpoint::DeleteDevice, removed).0, NO_CONTENT);
    let me = api.caller(Endpoint::GetDevice, &auth);
    let gone = api.state.get_device(&me, id);
    assert_eq!(status(Endpoint::GetDevice, gone).0, NOT_FOUND);
}

#[test]
fn a_device_that_changed_is_in_the_log_though_it_could_not_be_moved() {
    let mut api = api();
    let cookie = api.admin_cookie();
    let auth = [("cookie", cookie.as_str())];
    let admin = api.admin(Endpoint::NewEnrollToken, &auth);
    let (_, token) = api
        .state
        .devices
        .new_enroll_token(&admin.0.user, "office", None, None, 7, NOW)
        .expect("token");
    api.enroll(7, "RECEPTION", &token, "windows x86_64");
    let id = api.state.devices.devices()[0].id;

    let before = api.state.audit.entries.len();
    let refused = api.state.update_device(&admin, id, None, Some(Some(999)), NOW);
    assert_eq!(refused, Err(Refused::NotFound));
    assert_eq!(api.state.audit.entries.len(), before, "nothing changed");
    let refused = api
        .state
        .update_device(&admin, id, Some("Front desk"), Some(Some(999)), NOW);
    assert_eq!(refused, Err(Refused::NotFound));
    assert_eq!(api.state.devices.devices()[0].name, "Front desk");
    let entry = &api.state.audit.entries(None, 1)[0];
    assert_eq!(api.state.audit.entries.len(), before + 1);
    assert_eq!(entry.action, "device.update");
    assert_eq!(entry.target.as_deref(), Some("Front desk"));
    assert_eq!(entry.detail.as_deref(), Some("group: none"));
}

#[test]
fn users_see_the_devices_their_grants_let_them_at() {
    let mut api = api();
    let cookie = api.admin_cookie();
    let auth = [("cookie", cookie.as_str())];
    let bob_id = api.make_bob(&auth).id;
    let bob_cookie = api.sign_in("bob", "bobs long password");
    let bob = [("cookie", bob_cookie.as_str())];
    for (endpoint, path) in [
        (Endpoint::ListGroups, "/api/v1/device-groups"),
        (Endpoint::ListEnrollTokens, "/api/v1/enroll-tokens"),
        (Endpoint::ListUserGroups, "/api/v1/user-groups"),
        (Endpoint::ListGrants, "/api/v1/grants"),
    ] {
        assert_eq!(endpoint.route().resource.path(), path);
        assert_eq!(api.refused(endpoint, &bob), FORBIDDEN, "{path}");
    }

    // Two devices, one in a group bob's group has a grant for.
    let admin = api.admin(Endpoint::CreateGroup, &auth);
    let office = api
        .state
        .create_group(&admin, "Office", NOW)
        .expect("group")
        .id;
    let ada = admin.0.user.clone();
    let mut ids = Vec::new();
    for (n, group) in [(1u8, Some(office)), (2, None)] {
        let (_, token) = api
            .state
            .devices
            .new_enroll_token(&ada, "t", group, Some(1), 1, NOW)
            .expect("token");
        ids.push(api.enroll(n, &format!("PC-{n}"), &token, "windows"));
    }
    let admin = api.admin(Endpoint::CreateUserGroup, &auth);
    let (code, staff) = status(
        Endpoint::CreateUserGroup,
        api.state.create_user_group(&admin, "Staff", NOW),
    );
    assert_eq!(code, CREATED);
    let staff = staff.expect("group").id;
    let admin = api.admin(Endpoint::AddMember, &auth);
    let joined = api
        .state
        .add_member(&admin, staff, bob_id, NOW)
        .expect("joined");
    assert_eq!(joined.members[0].name, "bob");
    let admin = api.admin(Endpoint::SetGrant, &auth);
    assert_eq!(
        status(Endpoint::SetGrant, role_named("admin")).0,
        BAD_REQUEST
    );
    let role = role_named("control").expect("a role");
    let (code, rule) = status(
        Endpoint::SetGrant,
        api.state.set_grant(&admin, staff, office, role, NOW),
    );
    assert_eq!(code, CREATED);
    assert_eq!(rule.expect("rule").device_group, "Office");

    let bob_himself = api.caller(Endpoint::ListDevices, &bob);
    assert_eq!(Endpoint::ListDevices.route().status, OK);
    let seen = api.state.list_devices(&bob_himself);
    assert_eq!(seen.len(), 1, "only the granted one");
    assert_eq!(seen[0].name, "PC-1");
    assert_eq!(seen[0].role.as_deref(), Some("control"));
    let hidden = api.state.get_device(&bob_himself, ids[1]);
    assert_eq!(status(Endpoint::GetDevice, hidden).0, NOT_FOUND);
    assert_eq!(
        api.refused(Endpoint::UpdateDevice, &bob),
        FORBIDDEN,
        "seeing is not managing"
    );

    let ada = api.caller(Endpoint::ListDevices, &auth);
    let all = api.state.list_devices(&ada);
    assert_eq!(all.len(), 2, "admins see all");
    assert_eq!(all[0].role, None, "but reach none");

    // The web viewer's grant: for bob on the device he may reach, not
    // on the other, nor for the administrator without a grant.
    let from_here = api.caller(
        Endpoint::DeviceGrant,
        &[
            ("cookie", &bob_cookie),
            ("origin", "https://desk.example.com"),
        ],
    );
    let (code, device) = status(
        Endpoint::DeviceGrant,
        api.state.device_grant(&from_here, ids[0], NOW),
    );
    assert_eq!(code, OK);
    let device = device.expect("granted");
    let claims = issue(&device, &from_here.user.name, NOW, 3600).expect("claims");
    assert_eq!(claims.user, "bob");
    assert_eq!(claims.device, [1u8; 32]);
    let granted = api
        .state
        .device_granted(&from_here, &device, Some(&[0x0a, 0xff]), NOW)
        .expect("granted");
    assert_eq!(granted.role, "control");
    assert_eq!(granted.grant, "0aff");
    for (who, device) in [(&bob, ids[1]), (&auth, ids[0])] {
        let who = api.caller(Endpoint::DeviceGrant, who);
        let refused = api.state.device_grant(&who, device, NOW);
        assert_eq!(status(Endpoint::DeviceGrant, refused).0, NOT_FOUND);
    }
    let from_elsewhere = api.refused(
        Endpoint::DeviceGrant,
        &[("cookie", &bob_cookie), ("origin", "https://evil.example")],
    );
    assert_eq!(from_elsewhere, FORBIDDEN, "no grants for other sites");
    let _ = api.caller(Endpoint::Webtransport, &bob);
    let (url, hashes) = webtransport(&api.state.server, Some(&[1, 2, 3]));
    assert_eq!(url, "https://desk.example.com:443/nearhand");
    assert_eq!(hashes.len(), 1);
    assert_eq!(hashes[0], "010203");

    let _ = api.caller(Endpoint::Server, &bob);
    assert_eq!(Endpoint::Server.route().status, OK);
    assert_eq!(api.state.server.address, "desk.example.com:443");
}

#[test]
fn changes_and_sign_ins_go_in_the_audit_log() {
    let mut api = api();
    let cookie = api.admin_cookie();
    let auth = [("cookie", cookie.as_str())];
    api.make_bob(&auth);
    let wrong = api
        .state
        .login("bob", "not bobs password", None, HOME, NOW, CLOCK);
    assert!(wrong.is_err());
    let bob = api.sign_in("bob", "bobs long password");
    assert_eq!(
        api.refused(Endpoint::AuditLog, &[("cookie", &bob)]),
        FORBIDDEN
    );

    let log = api.log(&auth, None, 100);
    assert_eq!(Endpoint::AuditLog.route().status, OK);
    let entries: Vec<(&str, &str, &str)> = log
        .iter()
        .rev()
        .map(|e| {
            (
                e.actor.as_deref().unwrap_or("-"),
                e.action.as_str(),
                e.target.as_deref().unwrap_or("-"),
            )
        })
        .collect();
    assert_eq!(
        entries,
        [
            ("ada", "setup", "ada"),
            ("ada", "login", "ada"),
            ("ada", "user.create", "bob"),
            ("-", "login.fail", "bob"),
            ("bob", "login", "bob"),
        ]
    );
    assert_eq!(log[0].address.as_deref(), Some("192.0.2.1"));

    let page = api.log(&auth, None, 2);
    assert_eq!(page.len(), 2);
    let last = page[1].id;
    let older = api.log(&auth, Some(last), 100);
    assert_eq!(older.len(), 3);
}

#[test]
fn administrators_upload_offer_and_withdraw_releases() {
    let mut api = api();
    let cookie = api.admin_cookie();
    let auth = [("cookie", cookie.as_str())];
    let (package, signature) = api.signer.package();
    let admin = api.admin(Endpoint::UploadRelease, &auth);

    // Signed by some other key: refused, whoever uploads it.
    let (other, other_signature) = Signer::new().package();
    let refused = api
        .state
        .upload_release(&admin, &other, Ok(other_signature), CONTEXT, NOW);
    assert_eq!(status(Endpoint::UploadRelease, refused).0, BAD_REQUEST);
    let refused = api
        .state
        .upload_release(&admin, b"not it", Ok(signature), CONTEXT, NOW);
    assert_eq!(status(Endpoint::UploadRelease, refused).0, BAD_REQUEST);

    let (_, signature) = api.signer.package();
    let (code, uploaded) = status(
        Endpoint::UploadRelease,
        api.state
            .upload_release(&admin, &package, Ok(signature), CONTEXT, NOW),
    );
    assert_eq!(code, CREATED);
    let uploaded: Listed = uploaded.expect("uploaded");
    assert_eq!(uploaded.version, "0.2.0");
    assert!(!uploaded.offered);
    let id = uploaded.id;

    let admin = api.admin(Endpoint::OfferRelease, &auth);
    let (code, offered) = status(
        Endpoint::OfferRelease,
        api.state.offer_release(&admin, id, NOW),
    );
    assert_eq!(code, OK);
    assert!(offered.expect("offered").offered);
    let admin = api.admin(Endpoint::DeleteRelease, &auth);
    let deleted = api.state.delete_release(&admin, id, NOW);
    assert_eq!(
        status(Endpoint::DeleteRelease, deleted).0,
        BAD_REQUEST,
        "not while offered"
    );
    let _ = api.admin(Endpoint::ListReleases, &auth);
    let listed = api.state.releases.list();
    assert_eq!(listed.len(), 1);
    assert!(listed[0].offered);

    let admin = api.admin(Endpoint::WithdrawRelease, &auth);
    let withdrawn = api
        .state
        .withdraw_release(&admin, id, NOW)
        .expect("withdrawn");
    assert!(!withdrawn.offered);
    let deleted = api.state.delete_release(&admin, id, NOW);
    assert_eq!(status(Endpoint::DeleteRelease, deleted).0, NO_CONTENT);

    // Administrators only.
    api.make_bob(&auth);
    let bob = api.sign_in("bob", "bobs long password");
    for endpoint in [Endpoint::UploadRelease, Endpoint::ListReleases] {
        assert_eq!(api.refused(endpoint, &[("cookie", &bob)]), FORBIDDEN);
    }

    let log = api.log(&auth, None, 100);
    let actions: Vec<&str> = log
        .iter()
        .map(|e| e.action.as_str())
        .filter(|a| a.starts_with("release."))
        .collect();
    assert_eq!(
        actions,
        [
            "release.delete",
            "release.withdraw",
            "release.offer",
            "release.upload"
        ]
    );
}

#[test]
fn setup_cannot_be_repeated() {
    let mut api = api();
    let _ = api.admin_cookie();
    let token = api.setup_token.clone();
    let again = api
        .state
        .setup(&token, "mallory", "mallorys password", HOME, NOW);
    assert_eq!(status(Endpoint::Setup, again).0, FORBIDDEN);
}

#[test]
fn a_relay_needs_an_account_and_the_consoles_own_page() {
    let mut api = api();
    assert_eq!(api.refused(Endpoint::Relay, &[]), UNAUTHORIZED);
    assert!(may_relay(&headers(&[("origin", "https://desk.example.com")])).is_ok());
    assert_eq!(
        may_relay(&headers(&[("origin", "https://evil.example")])),
        Err(ApiError::CrossSite)
    );
}

#[test]
fn messages_are_framed_by_their_length() {
    assert_eq!(framed(&[9, 9, 1, 2, 3, 4], 2, 3), Ok(&[1u8, 2, 3][..]));
    assert_eq!(framed(&[9], 2, 0), Err(NotFramed::NoHeader));
    assert_eq!(framed(&[9, 9, 1], 2, 3), Err(NotFramed::CutShort));
}

#[test]
fn an_upload_is_a_package_and_its_signature_file() {
    assert_eq!(
        upload(Some(vec![1]), Some("text".to_owned())),
        Ok((vec![1], "text".to_owned()))
    );
    for (package, signature) in [
        (None, Some("text".to_owned())),
        (Some(vec![1]), None),
        (None, None),
    ] {
        let refused = upload(package, signature).expect_err("incomplete");
        assert_eq!(refused.answer().status, BAD_REQUEST);
        assert_eq!(
            refused.answer().message,
            "send the package and its signature file, as the fields `package` and `signature`"
        );
    }
}

#[test]
fn errors_have_a_fitting_status() {
    for (error, status, message) in [
        (ApiError::Unauthenticated, 401, "sign in first"),
        (
            ApiError::CrossSite,
            403,
            "request from another site refused",
        ),
    ] {
        let answer = error.answer();
        assert_eq!(answer.status, status);
        assert_eq!(answer.message, message);
        assert!(!answer.totp_needed);
    }
    for (refused, status) in [
        (Refused::WrongCredentials, 401),
        (Refused::TotpNeeded, 401),
        (Refused::WrongCode, 401),
        (Refused::TooManyAttempts, 429),
        (Refused::Invalid("why".to_owned()), 400),
        (Refused::Forbidden, 403),
        (Refused::NotFound, 404),
    ] {
        let needed = refused == Refused::TotpNeeded;
        let answer = ApiError::from(refused).answer();
        assert_eq!(answer.status, status);
        assert_eq!(answer.totp_needed, needed);
    }
}

fn ada() -> Caller {
    Caller {
        user: User {
            id: 1,
            name: "ada".to_owned(),
            admin: true,
            totp: false,
            disabled: false,
        },
        from: Some(HOME),
    }
}

#[test]
fn what_is_done_is_recorded_in_words() {
    let name = || "Front desk".to_owned();
    let cases = [
        (Act::PasswordChange, "password.change", "ada", None),
        (Act::TotpEnable, "totp.enable", "ada", None),
        (Act::TokenDelete { id: 4 }, "token.delete", "ada", Some("#4")),
        (
            Act::UserUpdate {
                name: name(),
                admin: true,
                disabled: false,
            },
            "user.update",
            "Front desk",
            Some("admin: true, disabled: false"),
        ),
        (
            Act::UserDelete { id: 9, was: None },
            "user.delete",
            "#9",
            None,
        ),
        (
            Act::DeviceUpdate {
                name: name(),
                group: None,
            },
            "device.update",
            "Front desk",
            Some("group: none"),
        ),
        (
            Act::EnrollTokenCreate {
                name: name(),
                uses: None,
                days: 7,
                group_id: Some(3),
            },
            "enroll_token.create",
            "Front desk",
            Some("uses: any, days: 7, group: #3"),
        ),
        (
            Act::GrantSet {
                user_group: "Staff".to_owned(),
                device_group: "Office".to_owned(),
                role: "view".to_owned(),
            },
            "grant.set",
            "Staff → Office",
            Some("view"),
        ),
        (
            Act::SessionRefuse { id: 5 },
            "session.refuse",
            "#5",
            Some("no grant"),
        ),
    ];
    for (act, action, target, detail) in cases {
        let event = act.event(&ada());
        assert_eq!(event.actor.as_deref(), Some("ada"));
        assert_eq!(event.address, Some(HOME));
        assert_eq!(event.action, action);
        assert_eq!(event.target.as_deref(), Some(target));
        assert_eq!(event.detail.as_deref(), detail);
    }
}

#[test]
fn a_grant_that_cannot_be_signed_is_none_and_not_on_record() {
    let mut api = api();
    let device = Reachable {
        id: 1,
        fingerprint: Fingerprint::from_bytes([1; 32]),
        number: DeviceId::new(1_000_000_001).expect("ten digits"),
        role: Role::View,
    };
    assert!(device_granted(&device, None, &ada()).is_err());
    assert!(api.state.device_granted(&ada(), &device, None, NOW).is_err());
    assert_eq!(api.state.audit.entries(None, 10).len(), 0);
    api.state
        .device_granted(&ada(), &device, Some(&[1]), NOW)
        .expect("signed");
    let entry = &api.state.audit.entries(None, 10)[0];
    assert_eq!(entry.action, "session.grant");
    assert_eq!(entry.detail.as_deref(), Some("view, web"));
}

/// Whatever changes goes in the log; whatever is refused does not.
#[test]
fn every_change_leaves_one_entry() {
    let mut api = api();
    let cookie = api.admin_cookie();
    let auth = [("cookie", cookie.as_str())];
    let admin = api.admin(Endpoint::CreateUser, &auth);
    let bob = api.make_bob(&auth);
    let count = |api: &Api| api.state.audit.entries.len();
    let mut n = count(&api);
    assert!(api
        .state
        .create_user(&admin, "bob", "bobs long password", false, NOW)
        .is_err());
    assert_eq!(count(&api), n, "refused");

    let group = api.state.create_group(&admin, "Office", NOW).expect("group");
    api.state
        .rename_group(&admin, group.id, "Back office", NOW)
        .expect("renamed");
    let users = api
        .state
        .create_user_group(&admin, "Staff", NOW)
        .expect("group");
    api.state
        .rename_user_group(&admin, users.id, "Everyone", NOW)
        .expect("renamed");
    api.state
        .add_member(&admin, users.id, bob.id, NOW)
        .expect("added");
    let rule = api
        .state
        .set_grant(&admin, users.id, group.id, Role::View, NOW)
        .expect("set");
    let (token, _) = api
        .state
        .new_enroll_token(&admin, "rollout", Some(group.id), Some(1), 1, NOW)
        .expect("token");
    n += 7;
    assert_eq!(count(&api), n);

    assert_eq!(
        api.state.rename_group(&admin, 99, "Nowhere", NOW),
        Err(Refused::NotFound)
    );
    assert_eq!(
        api.state.delete_grant(&admin, 99, NOW),
        Err(Refused::NotFound)
    );
    assert_eq!(
        api.state.delete_device(&admin, 99, NOW),
        Err(Refused::NotFound)
    );
    assert_eq!(count(&api), n, "refused");

    api.state
        .delete_grant(&admin, rule.id, NOW)
        .expect("deleted");
    api.state
        .delete_enroll_token(&admin, token.id, NOW)
        .expect("deleted");
    api.state
        .remove_member(&admin, users.id, bob.id, NOW)
        .expect("removed");
    api.state
        .add_member(&admin, users.id, bob.id, NOW)
        .expect("added");
    api.state
        .update_user(&admin, bob.id, None, Some(true), NOW)
        .expect("disabled");
    api.state
        .delete_user(&admin, bob.id, NOW)
        .expect("deleted");
    api.state
        .delete_user_group(&admin, users.id, NOW)
        .expect("deleted");
    api.state
        .delete_group(&admin, group.id, NOW)
        .expect("deleted");
    n += 8;
    assert_eq!(count(&api), n);
    assert!(api.state.grants.members.is_empty(), "bob is in no group");

    let log = api.log(&auth, None, 100);
    assert_eq!(log[0].action, "device_group.delete");
    assert_eq!(log[0].target.as_deref(), Some("Back office"));
    assert_eq!(log[2].action, "user.delete");
    assert_eq!(log[2].target.as_deref(), Some("bob"));
    assert_eq!(log[6].target.as_deref(), Some("rollout"));
    assert_eq!(log[7].target.as_deref(), Some("Everyone → Back office"));
}

#[test]
fn ones_own_password_codes_and_tokens() {
    let mut api = api();
    let cookie = api.admin_cookie();
    let me = api.caller(Endpoint::Me, &[("cookie", &cookie)]);
    let (secret, link) = api.state.totp_begin(&me).expect("secret");
    assert!(link.contains(&secret));
    assert_eq!(
        api.state.totp_confirm(&me, "000", NOW),
        Err(Refused::WrongCode)
    );
    assert_eq!(api.state.totp_disable(&me, "000", NOW).is_ok(), false);
    api.state
        .change_password(&me, "correct horse battery", "another long one", NOW)
        .expect("changed");
    assert_eq!(
        api.refused(Endpoint::Me, &[("cookie", &cookie)]),
        UNAUTHORIZED,
        "signed out by it"
    );
    let last = &api.state.audit.entries(None, 1)[0];
    assert_eq!(last.action, "password.change");
}
