use nearhand::net::{Address, Ip};
use nearhand::protocol::{DeviceId, Enrollment, Role};
use nearhand::server::accounts::{Accounts, Refused, User};
use nearhand::server::devices::Devices;
use nearhand::server::grants::{claims, issue, Grants};
use nearhand::transport::fingerprint::Fingerprint;

const NOW: i64 = 1_700_000_000;

struct World {
    accounts: Accounts,
    devices: Devices,
    grants: Grants,
    admin: User,
}

fn world() -> World {
    let mut accounts = Accounts::new();
    let token = accounts.new_setup_token(NOW).expect("token");
    let admin = accounts
        .setup(&token, "ada", "correct horse battery", NOW)
        .expect("setup");
    World {
        accounts,
        devices: Devices::new(),
        grants: Grants::new(),
        admin,
    }
}

impl World {
    /// Enroll a device with key `n` into `group`.
    fn device(&mut self, n: u8, group: Option<i64>) -> i64 {
        let (_, token) = self
            .devices
            .new_enroll_token(&self.admin, "t", group, Some(1), 1, NOW)
            .expect("token");
        self.devices
            .enroll(
                &Fingerprint::from_bytes([n; 32]),
                DeviceId::new(1_000_000_000 + u64::from(n)).expect("ten digits"),
                &Enrollment {
                    token,
                    name: format!("PC-{n}"),
                    os: "windows".to_owned(),
                    version: "0.1.0".to_owned(),
                },
                // 192.0.2.1:1
                Address::new(Ip::V4(0xC000_0201), 1),
                NOW,
            )
            .expect("enroll")
            .id
    }

    fn group(&mut self, name: &str) -> i64 {
        self.devices.create_group(name, NOW).expect("group").id
    }

    fn users(&mut self, name: &str) -> i64 {
        self.grants
            .create_user_group(name, &self.accounts.users, NOW)
            .expect("group")
            .id
    }

    fn join(&mut self, group: i64, user: i64) {
        self.grants
            .add_member(group, user, &self.accounts.users)
            .expect("member");
    }

    fn grant(&mut self, users: i64, devices: i64, role: Role) {
        self.grants
            .set_grant(users, devices, role, &self.devices.groups, NOW)
            .expect("grant");
    }

    fn reach(&self, user: i64) -> Vec<(i64, Role)> {
        self.grants
            .reachable(user, &self.accounts.users, &self.devices.devices)
            .iter()
            .map(|r| (r.id, r.role))
            .collect()
    }
}

#[test]
fn the_highest_role_any_grant_gives_wins() {
    let mut w = world();
    let bob = w
        .accounts
        .create_user("bob", "bobs long password", false, NOW)
        .expect("bob");
    let office = w.group("Office");
    let lab = w.group("Lab");
    let pc_office = w.device(1, Some(office));
    let pc_lab = w.device(2, Some(lab));
    let _loose = w.device(3, None);

    let helpdesk = w.users("Helpdesk");
    let admins = w.users("IT");
    w.join(helpdesk, bob.id);
    w.join(admins, bob.id);
    w.grant(helpdesk, office, Role::View);
    w.grant(helpdesk, lab, Role::Control);
    w.grant(admins, office, Role::Full);

    assert_eq!(
        w.reach(bob.id),
        [(pc_office, Role::Full), (pc_lab, Role::Control)]
    );
    assert!(
        w.reach(w.admin.id).is_empty(),
        "administrators need grants too"
    );

    // Setting a grant again changes its role; leaving the group loses it.
    w.grant(helpdesk, lab, Role::View);
    assert_eq!(w.grants.grants(&w.devices.groups).len(), 3);
    w.grants
        .remove_member(admins, bob.id, &w.accounts.users)
        .expect("leave");
    let roles: Vec<Role> = w.reach(bob.id).iter().map(|r| r.1).collect();
    assert_eq!(roles, [Role::View, Role::View]);
}

#[test]
fn disabled_users_and_deleted_groups_reach_nothing() {
    let mut w = world();
    let bob = w
        .accounts
        .create_user("bob", "bobs long password", false, NOW)
        .expect("bob");
    let office = w.group("Office");
    w.device(1, Some(office));
    let staff = w.users("Staff");
    w.join(staff, bob.id);
    let rule = w
        .grants
        .set_grant(staff, office, Role::Control, &w.devices.groups, NOW)
        .expect("grant");
    assert_eq!(rule.role, "control");
    assert_eq!(rule.user_group, "Staff");
    assert_eq!(w.reach(bob.id).len(), 1);

    w.accounts
        .update_user(bob.id, None, Some(true))
        .expect("disable");
    assert!(w.reach(bob.id).is_empty());
    w.accounts
        .update_user(bob.id, None, Some(false))
        .expect("enable");

    w.devices.delete_group(office).expect("delete");
    w.grants.forget_device_group(office);
    assert!(w.grants.grants(&w.devices.groups).is_empty());
    assert!(w.reach(bob.id).is_empty());
    w.grants.delete_user_group(staff).expect("delete");
    assert!(w.grants.user_groups(&w.accounts.users).is_empty());
}

#[test]
fn groups_check_what_they_are_given() {
    let mut w = world();
    let staff = w.users("Staff");
    assert!(w
        .grants
        .create_user_group("staff", &w.accounts.users, NOW)
        .is_err());
    assert_eq!(
        w.grants.add_member(staff, 999, &w.accounts.users),
        Err(Refused::NotFound)
    );
    assert_eq!(
        w.grants.add_member(999, w.admin.id, &w.accounts.users),
        Err(Refused::NotFound)
    );
    assert_eq!(
        w.grants
            .set_grant(staff, 999, Role::View, &w.devices.groups, NOW),
        Err(Refused::NotFound)
    );
    let with_ada = w
        .grants
        .add_member(staff, w.admin.id, &w.accounts.users)
        .expect("add");
    assert_eq!(with_ada.members[0].name, "ada");
    let again = w
        .grants
        .add_member(staff, w.admin.id, &w.accounts.users)
        .expect("again");
    assert_eq!(again.members.len(), 1);
    let renamed = w
        .grants
        .rename_user_group(staff, "Everyone", &w.accounts.users)
        .expect("rename");
    assert_eq!(renamed.name, "Everyone");
}

#[test]
fn someone_who_leaves_is_in_no_group() {
    let mut w = world();
    let bob = w
        .accounts
        .create_user("bob", "bobs long password", false, NOW)
        .expect("bob");
    let staff = w.users("Staff");
    w.join(staff, bob.id);
    w.accounts.delete_user(bob.id).expect("delete");
    w.grants.forget_user(bob.id);
    let group = w
        .grants
        .user_group(staff, &w.accounts.users)
        .expect("still there");
    assert!(group.members.is_empty());
}

#[test]
fn a_grant_says_who_what_where_and_until_when() {
    let mut w = world();
    let office = w.group("Office");
    let pc = w.device(7, Some(office));
    let staff = w.users("Staff");
    w.join(staff, w.admin.id);
    w.grant(staff, office, Role::Control);
    let reachable = w
        .grants
        .reachable(w.admin.id, &w.accounts.users, &w.devices.devices);
    assert_eq!(reachable[0].id, pc);
    let grant = claims(&reachable[0], "ada", Some(vec![9; 16]), NOW, 60).expect("grant");
    assert_eq!(grant.device, [7; 32]);
    assert_eq!(grant.user, "ada");
    assert_eq!(grant.role, Role::Control);
    assert_eq!(grant.issued_at, NOW as u64);
    assert_eq!(grant.expires_at, NOW as u64 + 60);
    assert_eq!(grant.nonce, [9; 16]);
    let one = issue(&reachable[0], "ada", NOW, 60).expect("grant");
    let other = issue(&reachable[0], "ada", NOW, 60).expect("grant");
    assert_ne!(one.nonce, other.nonce);
    assert!(claims(&reachable[0], "ada", None, NOW, 60).is_err());
}
