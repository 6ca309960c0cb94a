//! Who may connect to what. Users are put in user groups and devices in
//! device groups; a grant lets a user group at a device group with a role. A
//! user's role on a device is the highest any of their grants gives; none,
//! and they cannot reach it.
//!
//! Administrators manage all of this, and are no exception to it: to connect
//! to a device, an administrator needs a grant like anyone else.
//!
//! When a user asks for a device, the rendezvous signs a grant for it with
//! the server's key, and the agent checks that.

use super::accounts::{check_name, internal, name_rule, valid_name, Record, Refused};
use super::devices::{name_taken, refuse_name, DeviceRecord, GroupRecord};
use super::rows::{
    at, find, fresh_id, keep, lemma_at, lemma_at_own, lemma_kept, lemma_left,
    lemma_listed_chain, lemma_listed_total, lemma_numbered_kept, listed_first, lists_first, next_id, numbered, Row,
};
use crate::crypto::random_bytes;
use crate::protocol::{DeviceId, Role};
use crate::sort::{
    in_order, lemma_places_all, lemma_places_sorted, lemma_places_within, places, Ranked,
};
use crate::text::{
    chars_of, eq_ignore_case, folded_at_most, in_front, lemma_folded_chain, lemma_folded_total,
    same_but_case,
};
use crate::transport::fingerprint::Fingerprint;
use crate::transport::grant::Grant;
use vstd::prelude::*;

verus! {

#[derive(Debug, Clone, PartialEq, Eq)]
pub struct UserGroup {
    pub id: i64,
    pub name: String,
    pub members: Vec<Member>,
}

#[derive(Debug, Clone, PartialEq, Eq)]
pub struct Member {
    pub id: i64,
    pub name: String,
}

#[derive(Debug, Clone, PartialEq, Eq)]
pub struct GrantRule {
    pub id: i64,
    pub user_group_id: i64,
    pub user_group: String,
    pub device_group_id: i64,
    pub device_group: String,
    pub role: String,
}

/// A device a user may reach, and how.
#[derive(Debug, Clone, Copy)]
pub struct Reachable {
    /// The device's row.
    pub id: i64,
    pub fingerprint: Fingerprint,
    /// The number that goes with the fingerprint.
    pub number: DeviceId,
    pub role: Role,
}

// --- What a grant says ------------------------------------------------------------------------

/// What is granted: `role` on `device` to `user`, good from `now` for
/// `lifetime` seconds, once.
pub fn claims(
    device: &Reachable,
    user: &str,
    nonce: Option<Vec<u8>>,
    now: i64,
    lifetime: u64,
) -> (grant: Result<Grant, String>)
    requires
        nonce matches Some(bytes) ==> bytes@.len() == 16,
        lifetime <= i64::MAX,
    ensures
        match (nonce, grant) {
            (Some(bytes), Ok(grant)) => {
                &&& grant.device@ == device.fingerprint@
                &&& grant.user@ == user@
                &&& grant.role == device.role
                &&& grant.issued_at == (if now > 0 {
                    now as int
                } else {
                    0
                })
                &&& grant.expires_at == grant.issued_at + lifetime
                &&& grant.nonce@ == bytes@
            },
            (None, Err(why)) => why@ == "the system random number generator failed"@,
            _ => false,
        },
{
    let bytes = match nonce {
        Some(bytes) => bytes,
        None => {
            return Err("the system random number generator failed".to_owned());
        },
    };
    let mut nonce: [u8; 16] = [0; 16];
    let mut i: usize = 0;
    while i < 16
        invariant
            i <= 16,
            bytes@.len() == 16,
            forall|j: int| 0 <= j < i ==> nonce@[j] == bytes@[j],
        decreases 16 - i,
    {
        nonce[i] = bytes[i];
        i = i + 1;
    }
    assert(nonce@ =~= bytes@);
    let issued_at: u64 = if now > 0 {
        now as u64
    } else {
        0
    };
    Ok(
        Grant {
            device: *device.fingerprint.as_bytes(),
            user: user.to_owned(),
            role: device.role,
            issued_at,
            expires_at: issued_at + lifetime,
            nonce,
        },
    )
}

/// A grant for `user` on `device`, for the server's key to sign.
pub fn issue(device: &Reachable, user: &str, now: i64, lifetime: u64) -> (grant: Result<
    Grant,
    String,
>)
    requires
        lifetime <= i64::MAX,
    ensures
        match grant {
            Ok(grant) => {
                &&& grant.device@ == device.fingerprint@
                &&& grant.user@ == user@
                &&& grant.role == device.role
                &&& grant.issued_at == (if now > 0 {
                    now as int
                } else {
                    0
                })
                &&& grant.expires_at == grant.issued_at + lifetime
            },
            Err(why) => why@ == "the system random number generator failed"@,
        },
{
    claims(device, user, random_bytes(16), now, lifetime)
}

// --- What is kept -----------------------------------------------------------------------------

#[derive(Debug)]
pub struct UserGroupRecord {
    pub id: i64,
    pub name: String,
    pub created_at: i64,
}

impl Row for UserGroupRecord {
    open spec fn key(&self) -> i64 {
        self.id
    }

    fn id(&self) -> (id: i64) {
        self.id
    }
}

impl Ranked for UserGroupRecord {
    open spec fn ranks(&self, other: &UserGroupRecord) -> bool {
        listed_first(self.name@, self.id, other.name@, other.id)
    }

    fn at_most(&self, other: &UserGroupRecord) -> (yes: bool) {
        lists_first(&self.name, self.id, &other.name, other.id)
    }

    proof fn lemma_total(a: &UserGroupRecord, b: &UserGroupRecord) {
        lemma_listed_total(a.name@, a.id, b.name@, b.id);
    }

    proof fn lemma_chain(a: &UserGroupRecord, b: &UserGroupRecord, c: &UserGroupRecord) {
        lemma_listed_chain(a.name@, a.id, b.name@, b.id, c.name@, c.id);
    }
}

/// A user in a user group.
#[derive(Debug, Clone, Copy, PartialEq, Eq, Structural)]
pub struct Membership {
    pub group: i64,
    pub user: i64,
}

#[derive(Debug, Clone, Copy, PartialEq, Eq, Structural)]
pub struct GrantRecord {
    pub id: i64,
    pub user_group: i64,
    pub device_group: i64,
    pub role: Role,
    pub created_at: i64,
}

impl Row for GrantRecord {
    open spec fn key(&self) -> i64 {
        self.id
    }

    fn id(&self) -> (id: i64) {
        self.id
    }
}

impl Ranked for Reachable {
    open spec fn ranks(&self, other: &Reachable) -> bool {
        self.id <= other.id
    }

    fn at_most(&self, other: &Reachable) -> (yes: bool) {
        self.id <= other.id
    }

    proof fn lemma_total(a: &Reachable, b: &Reachable) {
    }

    proof fn lemma_chain(a: &Reachable, b: &Reachable, c: &Reachable) {
    }
}

/// By the user group's name, and then by the device group's.
impl Ranked for GrantRule {
    open spec fn ranks(&self, other: &GrantRule) -> bool {
        if !folded_at_most(other.user_group@, self.user_group@) {
            true
        } else if !folded_at_most(self.user_group@, other.user_group@) {
            false
        } else {
            listed_first(self.device_group@, self.id, other.device_group@, other.id)
        }
    }

    fn at_most(&self, other: &GrantRule) -> (yes: bool) {
        let a = chars_of(&self.user_group);
        let b = chars_of(&other.user_group);
        if !in_front(&b, &a) {
            true
        } else if !in_front(&a, &b) {
            false
        } else {
            lists_first(&self.device_group, self.id, &other.device_group, other.id)
        }
    }

    proof fn lemma_total(a: &GrantRule, b: &GrantRule) {
        lemma_folded_total(a.user_group@, b.user_group@);
        lemma_listed_total(a.device_group@, a.id, b.device_group@, b.id);
    }

    proof fn lemma_chain(a: &GrantRule, b: &GrantRule, c: &GrantRule) {
        let (x, y, z) = (a.user_group@, b.user_group@, c.user_group@);
        lemma_folded_total(x, y);
        lemma_folded_total(y, z);
        lemma_folded_chain(x, y, z);
        if folded_at_most(z, x) {
            lemma_folded_chain(z, x, y);
            lemma_folded_chain(y, z, x);
            lemma_listed_chain(
                a.device_group@,
                a.id,
                b.device_group@,
                b.id,
                c.device_group@,
                c.id,
            );
        }
    }
}

// --- User groups ---------------------------------------------------------------------------------

/// Where the user group called `name` is; -1 if there is none.
pub open spec fn user_group_called(groups: Seq<UserGroupRecord>, name: Seq<char>) -> int
    decreases groups.len(),
{
    if groups.len() == 0 {
        -1
    } else if same_but_case(groups.last().name@, name) {
        groups.len() - 1
    } else {
        user_group_called(groups.drop_last(), name)
    }
}

fn find_called(groups: &[UserGroupRecord], name: &str) -> (found: Option<usize>)
    ensures
        match found {
            Some(i) => user_group_called(groups@, name@) == i && i < groups@.len(),
            None => user_group_called(groups@, name@) < 0,
        },
{
    let wanted = chars_of(name);
    let mut i: usize = groups.len();
    assert(groups@.take(i as int) =~= groups@);
    while i > 0
        invariant
            i <= groups@.len(),
            wanted@ == name@,
            user_group_called(groups@, name@) == user_group_called(groups@.take(i as int), name@),
        decreases i,
    {
        assert(groups@.take(i as int).drop_last() =~= groups@.take(i - 1));
        i = i - 1;
        if eq_ignore_case(&chars_of(groups[i].name.as_str()), &wanted) {
            return Some(i);
        }
    }
    None
}

/// Another user group than `id` is called `name`.
pub open spec fn taken(groups: Seq<UserGroupRecord>, name: Seq<char>, id: i64) -> bool {
    exists|i: int|
        0 <= i < groups.len() && same_but_case((#[trigger] groups[i]).name@, name) && groups[i].id
            != id
}

fn is_taken(groups: &[UserGroupRecord], name: &str, id: i64) -> (yes: bool)
    ensures
        yes == taken(groups@, name@, id),
{
    let wanted = chars_of(name);
    let mut i: usize = 0;
    while i < groups.len()
        invariant
            i <= groups@.len(),
            wanted@ == name@,
            forall|j: int|
                0 <= j < i ==> !(same_but_case((#[trigger] groups@[j]).name@, name@)
                    && groups@[j].id != id),
        decreases groups.len() - i,
    {
        if eq_ignore_case(&chars_of(groups[i].name.as_str()), &wanted) && groups[i].id != id {
            assert(same_but_case(groups@[i as int].name@, name@));
            return true;
        }
        i = i + 1;
    }
    false
}

fn is_member(members: &[Membership], group: i64, user: i64) -> (yes: bool)
    ensures
        yes == members@.contains(Membership { group, user }),
{
    let mut i: usize = 0;
    while i < members.len()
        invariant
            i <= members@.len(),
            forall|j: int| 0 <= j < i ==> members@[j] != (Membership { group, user }),
        decreases members.len() - i,
    {
        if members[i].group == group && members[i].user == user {
            assert(members@[i as int] == (Membership { group, user }));
            return true;
        }
        i = i + 1;
    }
    false
}

/// The members of a group among users, in order: where each is.
pub open spec fn roll(
    order: Seq<usize>,
    users: Seq<Record>,
    members: Seq<Membership>,
    group: i64,
) -> Seq<int>
    decreases order.len(),
{
    if order.len() == 0 {
        Seq::empty()
    } else {
        let rest = roll(order.drop_last(), users, members, group);
        let user = order.last() as int;
        if members.contains(Membership { group, user: users[user].id }) {
            rest.push(user)
        } else {
            rest
        }
    }
}

impl UserGroup {
    /// This is what is shown of a user group: its members by name.
    pub open spec fn shows(
        &self,
        record: &UserGroupRecord,
        users: Seq<Record>,
        members: Seq<Membership>,
    ) -> bool {
        &&& self.id == record.id
        &&& self.name@ == record.name@
        &&& exists|order: Seq<usize>|
            {
                let roll = roll(order, users, members, record.id);
                &&& #[trigger] places(users, order)
                &&& self.members@.len() == roll.len()
                &&& forall|i: int|
                    0 <= i < roll.len() ==> (#[trigger] self.members@[i]).id == users[roll[i]].id
                        && self.members@[i].name@ == users[roll[i]].name@
            }
    }
}

/// The user groups but number `id`.
pub open spec fn groups_but(id: i64) -> spec_fn(UserGroupRecord) -> bool {
    |group: UserGroupRecord| group.id != id
}

/// The memberships of other groups.
pub open spec fn members_elsewhere(id: i64) -> spec_fn(Membership) -> bool {
    |member: Membership| member.group != id
}

/// The memberships of other users.
pub open spec fn other_members(user: i64) -> spec_fn(Membership) -> bool {
    |member: Membership| member.user != user
}

/// The memberships but one.
pub open spec fn members_but(group: i64, user: i64) -> spec_fn(Membership) -> bool {
    |member: Membership| member != (Membership { group, user })
}

/// The grants to other user groups.
pub open spec fn grants_elsewhere(id: i64) -> spec_fn(GrantRecord) -> bool {
    |grant: GrantRecord| grant.user_group != id
}

/// The grants on other device groups.
pub open spec fn grants_on_others(id: i64) -> spec_fn(GrantRecord) -> bool {
    |grant: GrantRecord| grant.device_group != id
}

/// The grants but number `id`.
pub open spec fn grants_but(id: i64) -> spec_fn(GrantRecord) -> bool {
    |grant: GrantRecord| grant.id != id
}

/// User groups, who is in them, and what they may reach.
#[derive(Debug)]
pub struct Grants {
    pub groups: Vec<UserGroupRecord>,
    pub members: Vec<Membership>,
    pub grants: Vec<GrantRecord>,
}

impl Grants {
    pub fn new() -> (grants: Grants)
        ensures
            grants.groups@.len() == 0,
            grants.members@.len() == 0,
            grants.grants@.len() == 0,
    {
        Grants { groups: Vec::new(), members: Vec::new(), grants: Vec::new() }
    }

    fn group_shown(&self, i: usize, users: &[Record]) -> (group: UserGroup)
        requires
            i < self.groups@.len(),
        ensures
            group.shows(&self.groups@[i as int], users@, self.members@),
    {
        let id: i64 = self.groups[i].id;
        let order = in_order(users);
        let mut members: Vec<Member> = Vec::new();
        let mut n: usize = 0;
        while n < order.len()
            invariant
                n <= order@.len(),
                places(users@, order@),
                members@.len() == roll(order@.take(n as int), users@, self.members@, id).len(),
                forall|j: int|
                    0 <= j < members@.len() ==> {
                        let user = roll(order@.take(n as int), users@, self.members@, id)[j];
                        (#[trigger] members@[j]).id == users@[user].id && members@[j].name@
                            == users@[user].name@
                    },
            decreases order.len() - n,
        {
            assert(order@.take(n + 1).drop_last() =~= order@.take(n as int));
            let user: usize = order[n];
            if is_member(&self.members, id, users[user].id) {
                members.push(
                    Member { id: users[user].id, name: users[user].name.as_str().to_owned() },
                );
            }
            n = n + 1;
        }
        assert(order@.take(n as int) =~= order@);
        UserGroup { id, name: self.groups[i].name.as_str().to_owned(), members }
    }

    /// Every user group, by name.
    pub fn user_groups(&self, users: &[Record]) -> (listed: Vec<UserGroup>)
        ensures
            exists|order: Seq<usize>|
                {
                    &&& #[trigger] places(self.groups@, order)
                    &&& listed@.len() == order.len()
                    &&& forall|i: int|
                        0 <= i < listed@.len() ==> (#[trigger] listed@[i]).shows(
                            &self.groups@[order[i] as int],
                            users@,
                            self.members@,
                        )
                },
    {
        let order = in_order(&self.groups);
        let mut listed: Vec<UserGroup> = Vec::new();
        let mut i: usize = 0;
        while i < order.len()
            invariant
                i <= order@.len(),
                places(self.groups@, order@),
                listed@.len() == i,
                forall|j: int|
                    0 <= j < i ==> (#[trigger] listed@[j]).shows(
                        &self.groups@[order@[j] as int],
                        users@,
                        self.members@,
                    ),
            decreases order.len() - i,
        {
            listed.push(self.group_shown(order[i], users));
            i = i + 1;
        }
        listed
    }

    pub fn user_group(&self, id: i64, users: &[Record]) -> (group: Result<UserGroup, Refused>)
        ensures
            match group {
                Ok(group) => at(self.groups@, id) >= 0 && group.shows(
                    &self.groups@[at(self.groups@, id)],
                    users@,
                    self.members@,
                ),
                Err(refused) => refused is NotFound && at(self.groups@, id) < 0,
            },
    {
        match find(&self.groups, id) {
            Some(i) => Ok(self.group_shown(i, users)),
            None => Err(Refused::NotFound),
        }
    }

    /// What `create_user_group` does.
    pub open spec fn create_user_group_does(
        before: &Grants,
        after: &Grants,
        name: &str,
        users: Seq<Record>,
        now: i64,
        made: Result<UserGroup, Refused>,
    ) -> bool {
        &&& after.members == before.members
        &&& after.grants == before.grants
        &&& match made {
            Ok(group) => {
                &&& valid_name(name@)
                &&& user_group_called(before.groups@, name@) < 0
                &&& next_id(before.groups@) == Some(group.id)
                &&& after.groups@.len() == before.groups@.len() + 1
                &&& after.groups@.drop_last() == before.groups@
                &&& after.groups@.last().created_at == now
                &&& group.shows(&after.groups@.last(), users, before.members@)
                &&& group.name@ == name@
            },
            Err(refused) => {
                &&& after.groups == before.groups
                &&& if !valid_name(name@) {
                    refused matches Refused::Invalid(why) && why@ == name_rule()
                } else if user_group_called(before.groups@, name@) >= 0 {
                    refused matches Refused::Invalid(why) && why@ == name_taken(name@)
                } else {
                    refused.is_internal() && next_id(before.groups@) is None
                }
            },
        }
    }

    pub fn create_user_group(&mut self, name: &str, users: &[Record], now: i64) -> (made: Result<
        UserGroup,
        Refused,
    >)
        ensures
            Grants::create_user_group_does(old(self), final(self), name, users@, now, made),
    {
        check_name(name)?;
        if find_called(&self.groups, name).is_some() {
            return Err(refuse_name(name));
        }
        let id = match fresh_id(&self.groups) {
            Some(id) => id,
            None => {
                return Err(internal());
            },
        };
        self.groups.push(UserGroupRecord { id, name: name.to_owned(), created_at: now });
        assert(self.groups@.drop_last() =~= old(self).groups@);
        let last: usize = self.groups.len() - 1;
        Ok(self.group_shown(last, users))
    }

    /// What `rename_user_group` does.
    pub open spec fn rename_user_group_does(
        before: &Grants,
        after: &Grants,
        id: i64,
        name: &str,
        users: Seq<Record>,
        renamed: Result<UserGroup, Refused>,
    ) -> bool {
        &&& after.members == before.members
        &&& after.grants == before.grants
        &&& {
            let i = at(before.groups@, id);
            match renamed {
                Ok(group) => {
                    &&& valid_name(name@)
                    &&& !taken(before.groups@, name@, id)
                    &&& i >= 0
                    &&& after.groups@.len() == before.groups@.len()
                    &&& after.groups@[i].name@ == name@
                    &&& after.groups@ == before.groups@.update(
                        i,
                        UserGroupRecord {
                            name: after.groups@[i].name,
                            ..before.groups@[i]
                        },
                    )
                    &&& group.shows(&after.groups@[i], users, before.members@)
                },
                Err(refused) => {
                    &&& after.groups == before.groups
                    &&& if !valid_name(name@) {
                        refused matches Refused::Invalid(why) && why@ == name_rule()
                    } else if taken(before.groups@, name@, id) {
                        refused matches Refused::Invalid(why) && why@ == name_taken(name@)
                    } else {
                        refused is NotFound && i < 0
                    }
                },
            }
        }
    }

    pub fn rename_user_group(&mut self, id: i64, name: &str, users: &[Record]) -> (renamed: Result<
        UserGroup,
        Refused,
    >)
        ensures
            Grants::rename_user_group_does(old(self), final(self), id, name, users@, renamed),
    {
        check_name(name)?;
        if is_taken(&self.groups, name, id) {
            return Err(refuse_name(name));
        }
        match find(&self.groups, id) {
            None => Err(Refused::NotFound),
            Some(i) => {
                self.groups[i].name = name.to_owned();
                assert(self.groups@ =~= old(self).groups@.update(
                    i as int,
                    UserGroupRecord {
                        name: self.groups@[i as int].name,
                        ..old(self).groups@[i as int]
                    },
                ));
                Ok(self.group_shown(i, users))
            },
        }
    }

    fn keep_members<F: Fn(&Membership) -> bool>(
        &mut self,
        wanted: F,
        Ghost(which): Ghost<spec_fn(Membership) -> bool>,
    )
        requires
            forall|member: &Membership| call_requires(wanted, (member,)),
            forall|member: &Membership, yes: bool|
                call_ensures(wanted, (member,), yes) ==> yes == which(*member),
        ensures
            final(self).groups == old(self).groups,
            final(self).grants == old(self).grants,
            final(self).members@ == old(self).members@.filter(which),
    {
        let mut members: Vec<Membership> = Vec::new();
        std::mem::swap(&mut members, &mut self.members);
        self.members = keep(members, wanted, Ghost(which));
    }

    fn keep_grants<F: Fn(&GrantRecord) -> bool>(
        &mut self,
        wanted: F,
        Ghost(which): Ghost<spec_fn(GrantRecord) -> bool>,
    )
        requires
            forall|grant: &GrantRecord| call_requires(wanted, (grant,)),
            forall|grant: &GrantRecord, yes: bool|
                call_ensures(wanted, (grant,), yes) ==> yes == which(*grant),
        ensures
            final(self).groups == old(self).groups,
            final(self).members == old(self).members,
            final(self).grants@ == old(self).grants@.filter(which),
    {
        let mut grants: Vec<GrantRecord> = Vec::new();
        std::mem::swap(&mut grants, &mut self.grants);
        self.grants = keep(grants, wanted, Ghost(which));
    }

    /// What `delete_user_group` does.
    pub open spec fn delete_user_group_does(
        before: &Grants,
        after: &Grants,
        id: i64,
        deleted: Result<(), Refused>,
    ) -> bool {
        &&& match deleted {
            Ok(()) => {
                &&& at(before.groups@, id) >= 0
                &&& after.groups@ == before.groups@.filter(groups_but(id))
                &&& after.members@ == before.members@.filter(members_elsewhere(id))
                &&& after.grants@ == before.grants@.filter(grants_elsewhere(id))
            },
            Err(refused) => {
                &&& refused is NotFound && at(before.groups@, id) < 0
                &&& *after == *before
            },
        }
    }

    /// Delete a user group, and its grants. Its members stay.
    pub fn delete_user_group(&mut self, id: i64) -> (deleted: Result<(), Refused>)
        ensures
            Grants::delete_user_group_does(old(self), final(self), id, deleted),
    {
        if find(&self.groups, id).is_none() {
            return Err(Refused::NotFound);
        }
        let mut groups: Vec<UserGroupRecord> = Vec::new();
        std::mem::swap(&mut groups, &mut self.groups);
        let stays = |group: &UserGroupRecord| -> (yes: bool)
            ensures
                yes == (group.id != id),
            {
                group.id != id
            };
        self.groups = keep(groups, stays, Ghost(groups_but(id)));
        let elsewhere = |member: &Membership| -> (yes: bool)
            ensures
                yes == (member.group != id),
            {
                member.group != id
            };
        self.keep_members(elsewhere, Ghost(members_elsewhere(id)));
        let others = |grant: &GrantRecord| -> (yes: bool)
            ensures
                yes == (grant.user_group != id),
            {
                grant.user_group != id
            };
        self.keep_grants(others, Ghost(grants_elsewhere(id)));
        Ok(())
    }

    /// What `add_member` does.
    pub open spec fn add_member_does(
        before: &Grants,
        after: &Grants,
        group: i64,
        user: i64,
        users: Seq<Record>,
        added: Result<UserGroup, Refused>,
    ) -> bool {
        &&& after.groups == before.groups
        &&& after.grants == before.grants
        &&& {
            let i = at(before.groups@, group);
            let member = Membership { group, user };
            match added {
                Ok(shown) => {
                    &&& i >= 0
                    &&& at(users, user) >= 0
                    &&& after.members@ == (if before.members@.contains(member) {
                        before.members@
                    } else {
                        before.members@.push(member)
                    })
                    &&& shown.shows(&before.groups@[i], users, after.members@)
                },
                Err(refused) => {
                    &&& refused is NotFound
                    &&& i < 0 || at(users, user) < 0
                    &&& after.members == before.members
                },
            }
        }
    }

    /// Put a user in a user group; nothing if they are in it.
    pub fn add_member(&mut self, group: i64, user: i64, users: &[Record]) -> (added: Result<
        UserGroup,
        Refused,
    >)
        ensures
            Grants::add_member_does(old(self), final(self), group, user, users@, added),
    {
        let i = match find(&self.groups, group) {
            Some(i) => i,
            None => {
                return Err(Refused::NotFound);
            },
        };
        if find(users, user).is_none() {
            return Err(Refused::NotFound);
        }
        if !is_member(&self.members, group, user) {
            self.members.push(Membership { group, user });
        }
        Ok(self.group_shown(i, users))
    }

    /// What `remove_member` does.
    pub open spec fn remove_member_does(
        before: &Grants,
        after: &Grants,
        group: i64,
        user: i64,
        users: Seq<Record>,
        removed: Result<UserGroup, Refused>,
    ) -> bool {
        &&& after.groups == before.groups
        &&& after.grants == before.grants
        &&& {
            let i = at(before.groups@, group);
            let held = before.members@.contains(Membership { group, user });
            &&& after.members@ == (if held {
                before.members@.filter(members_but(group, user))
            } else {
                before.members@
            })
            &&& match removed {
                Ok(shown) => held && i >= 0 && shown.shows(
                    &before.groups@[i],
                    users,
                    after.members@,
                ),
                Err(refused) => refused is NotFound && (!held || i < 0),
            }
        }
    }

    /// Take a user out of a user group.
    pub fn remove_member(&mut self, group: i64, user: i64, users: &[Record]) -> (removed: Result<
        UserGroup,
        Refused,
    >)
        ensures
            Grants::remove_member_does(old(self), final(self), group, user, users@, removed),
    {
        if !is_member(&self.members, group, user) {
            return Err(Refused::NotFound);
        }
        let stays = |member: &Membership| -> (yes: bool)
            ensures
                yes == (*member != (Membership { group, user })),
            {
                !(member.group == group && member.user == user)
            };
        self.keep_members(stays, Ghost(members_but(group, user)));
        self.user_group(group, users)
    }

    /// What `forget_user` does.
    pub open spec fn forget_user_does(
        before: &Grants,
        after: &Grants,
        user: i64,
    ) -> bool {
        &&& after.groups == before.groups
        &&& after.grants == before.grants
        &&& after.members@ == before.members@.filter(other_members(user))
    }

    /// A user is gone: they are in no group any more.
    pub fn forget_user(&mut self, user: i64)
        ensures
            Grants::forget_user_does(old(self), final(self), user),
    {
        let stays = |member: &Membership| -> (yes: bool)
            ensures
                yes == (member.user != user),
            {
                member.user != user
            };
        self.keep_members(stays, Ghost(other_members(user)));
    }

    /// What `forget_device_group` does.
    pub open spec fn forget_device_group_does(
        before: &Grants,
        after: &Grants,
        group: i64,
    ) -> bool {
        &&& after.groups == before.groups
        &&& after.members == before.members
        &&& after.grants@ == before.grants@.filter(grants_on_others(group))
    }

    /// A device group is gone: there are no grants on it any more.
    pub fn forget_device_group(&mut self, group: i64)
        ensures
            Grants::forget_device_group_does(old(self), final(self), group),
    {
        let stays = |grant: &GrantRecord| -> (yes: bool)
            ensures
                yes == (grant.device_group != group),
            {
                grant.device_group != group
            };
        self.keep_grants(stays, Ghost(grants_on_others(group)));
    }
}

// --- Grants -------------------------------------------------------------------------------------

/// A grant between groups that both exist.
pub open spec fn joined(
    users: Seq<UserGroupRecord>,
    devices: Seq<GroupRecord>,
) -> spec_fn(GrantRecord) -> bool {
    |grant: GrantRecord| at(users, grant.user_group) >= 0 && at(devices, grant.device_group) >= 0
}

impl GrantRule {
    /// This is what is shown of a grant.
    pub open spec fn shows(
        &self,
        record: &GrantRecord,
        users: Seq<UserGroupRecord>,
        devices: Seq<GroupRecord>,
    ) -> bool {
        &&& self.id == record.id
        &&& self.user_group_id == record.user_group
        &&& self.user_group@ == users[at(users, record.user_group)].name@
        &&& self.device_group_id == record.device_group
        &&& self.device_group@ == devices[at(devices, record.device_group)].name@
        &&& self.role@ == record.role.name()
    }

    /// The same, word for word.
    pub open spec fn same(&self, other: &GrantRule) -> bool {
        &&& self.id == other.id
        &&& self.user_group_id == other.user_group_id
        &&& self.user_group@ == other.user_group@
        &&& self.device_group_id == other.device_group_id
        &&& self.device_group@ == other.device_group@
        &&& self.role@ == other.role@
    }

    fn copy(&self) -> (copy: GrantRule)
        ensures
            copy.same(self),
    {
        GrantRule {
            id: self.id,
            user_group_id: self.user_group_id,
            user_group: self.user_group.as_str().to_owned(),
            device_group_id: self.device_group_id,
            device_group: self.device_group.as_str().to_owned(),
            role: self.role.as_str().to_owned(),
        }
    }
}

fn rule_of(grant: &GrantRecord, users: &[UserGroupRecord], devices: &[GroupRecord]) -> (rule: Option<
    GrantRule,
>)
    ensures
        match rule {
            Some(rule) => joined(users@, devices@)(*grant) && rule.shows(grant, users@, devices@),
            None => !joined(users@, devices@)(*grant),
        },
{
    match (find(users, grant.user_group), find(devices, grant.device_group)) {
        (Some(u), Some(d)) => Some(
            GrantRule {
                id: grant.id,
                user_group_id: grant.user_group,
                user_group: users[u].name.as_str().to_owned(),
                device_group_id: grant.device_group,
                device_group: devices[d].name.as_str().to_owned(),
                role: grant.role.as_str().to_owned(),
            },
        ),
        _ => None,
    }
}

/// Where the grant between two groups is; -1 if there is none.
pub open spec fn grant_between(grants: Seq<GrantRecord>, users: i64, devices: i64) -> int
    decreases grants.len(),
{
    if grants.len() == 0 {
        -1
    } else if grants.last().user_group == users && grants.last().device_group == devices {
        grants.len() - 1
    } else {
        grant_between(grants.drop_last(), users, devices)
    }
}

fn find_between(grants: &[GrantRecord], users: i64, devices: i64) -> (found: Option<usize>)
    ensures
        match found {
            Some(i) => grant_between(grants@, users, devices) == i && i < grants@.len()
                && grants@[i as int].user_group == users && grants@[i as int].device_group
                == devices,
            None => grant_between(grants@, users, devices) < 0,
        },
{
    let mut i: usize = grants.len();
    assert(grants@.take(i as int) =~= grants@);
    while i > 0
        invariant
            i <= grants@.len(),
            grant_between(grants@, users, devices) == grant_between(
                grants@.take(i as int),
                users,
                devices,
            ),
        decreases i,
    {
        assert(grants@.take(i as int).drop_last() =~= grants@.take(i - 1));
        i = i - 1;
        if grants[i].user_group == users && grants[i].device_group == devices {
            return Some(i);
        }
    }
    None
}

/// Some grant gives `user` the role on a device group.
pub open spec fn gives(
    members: Seq<Membership>,
    grants: Seq<GrantRecord>,
    user: i64,
    devices: i64,
    role: Role,
) -> bool {
    exists|i: int|
        {
            &&& 0 <= i < grants.len()
            &&& (#[trigger] grants[i]).device_group == devices
            &&& grants[i].role == role
            &&& members.contains(Membership { group: grants[i].user_group, user })
        }
}

/// The highest role that grants give `user` on a device group.
pub open spec fn highest(
    members: Seq<Membership>,
    grants: Seq<GrantRecord>,
    user: i64,
    devices: i64,
) -> Option<Role>
    decreases grants.len(),
{
    if grants.len() == 0 {
        None
    } else {
        let rest = highest(members, grants.drop_last(), user, devices);
        let grant = grants.last();
        if grant.device_group == devices && members.contains(
            Membership { group: grant.user_group, user },
        ) && (rest matches Some(role) ==> grant.role.rank() > role.rank()) {
            Some(grant.role)
        } else {
            rest
        }
    }
}

/// The role that a user has on a device, if their account is in use.
pub open spec fn role_on(
    members: Seq<Membership>,
    grants: Seq<GrantRecord>,
    users: Seq<Record>,
    user: i64,
    device: DeviceRecord,
) -> Option<Role> {
    if at(users, user) >= 0 && !users[at(users, user)].disabled {
        match device.group {
            Some(group) => highest(members, grants, user, group),
            None => None,
        }
    } else {
        None
    }
}

/// The devices that a user may reach.
pub open spec fn may_reach(
    members: Seq<Membership>,
    grants: Seq<GrantRecord>,
    users: Seq<Record>,
    user: i64,
) -> spec_fn(DeviceRecord) -> bool {
    |device: DeviceRecord| role_on(members, grants, users, user, device) is Some
}

impl Grants {
    /// Every grant, by the names of the two groups.
    pub fn grants(&self, devices: &[GroupRecord]) -> (listed: Vec<GrantRule>)
        ensures
            exists|rules: Seq<GrantRule>, order: Seq<usize>|
                {
                    let records = self.grants@.filter(joined(self.groups@, devices@));
                    &&& #[trigger] places(rules, order)
                    &&& rules.len() == records.len()
                    &&& forall|i: int|
                        0 <= i < rules.len() ==> (#[trigger] rules[i]).shows(
                            &records[i],
                            self.groups@,
                            devices@,
                        )
                    &&& listed@.len() == rules.len()
                    &&& forall|i: int|
                        0 <= i < listed@.len() ==> (#[trigger] listed@[i]).same(
                            &rules[order[i] as int],
                        )
                },
    {
        let mut rules: Vec<GrantRule> = Vec::new();
        let mut n: usize = 0;
        let ghost which = joined(self.groups@, devices@);
        assert(self.grants@.take(0).filter(which) =~= Seq::<GrantRecord>::empty()) by {
            reveal(Seq::filter);
        }
        while n < self.grants.len()
            invariant
                n <= self.grants@.len(),
                which == joined(self.groups@, devices@),
                rules@.len() == self.grants@.take(n as int).filter(which).len(),
                forall|i: int|
                    0 <= i < rules@.len() ==> (#[trigger] rules@[i]).shows(
                        &self.grants@.take(n as int).filter(which)[i],
                        self.groups@,
                        devices@,
                    ),
            decreases self.grants.len() - n,
        {
            proof {
                reveal(Seq::filter);
                assert(self.grants@.take(n + 1).drop_last() =~= self.grants@.take(n as int));
                assert(self.grants@.take(n + 1).last() == self.grants@[n as int]);
            }
            match rule_of(&self.grants[n], &self.groups, devices) {
                Some(rule) => {
                    rules.push(rule);
                },
                None => {},
            }
            n = n + 1;
        }
        assert(self.grants@.take(n as int) =~= self.grants@);
        let order = in_order(&rules);
        let mut listed: Vec<GrantRule> = Vec::new();
        let mut i: usize = 0;
        while i < order.len()
            invariant
                i <= order@.len(),
                places(rules@, order@),
                listed@.len() == i,
                forall|j: int|
                    0 <= j < i ==> (#[trigger] listed@[j]).same(&rules@[order@[j] as int]),
            decreases order.len() - i,
        {
            listed.push(rules[order[i]].copy());
            i = i + 1;
        }
        listed
    }

    /// One grant, between groups that both exist.
    pub fn rule(&self, id: i64, devices: &[GroupRecord]) -> (rule: Option<GrantRule>)
        ensures
            ({
                let i = at(self.grants@, id);
                let there = i >= 0 && joined(self.groups@, devices@)(self.grants@[i]);
                match rule {
                    Some(rule) => there && rule.shows(&self.grants@[i], self.groups@, devices@),
                    None => !there,
                }
            }),
    {
        match find(&self.grants, id) {
            Some(i) => rule_of(&self.grants[i], &self.groups, devices),
            None => None,
        }
    }

    /// What `set_grant` does.
    pub open spec fn set_grant_does(
        before: &Grants,
        after: &Grants,
        user_group: i64,
        device_group: i64,
        role: Role,
        devices: Seq<GroupRecord>,
        now: i64,
        set: Result<GrantRule, Refused>,
    ) -> bool {
        &&& after.groups == before.groups
        &&& after.members == before.members
        &&& {
            let i = grant_between(before.grants@, user_group, device_group);
            let exist = at(before.groups@, user_group) >= 0 && at(devices, device_group)
                >= 0;
            match set {
                Ok(rule) => {
                    &&& exist
                    &&& if i >= 0 {
                        let record = GrantRecord { role, ..before.grants@[i] };
                        &&& after.grants@ == before.grants@.update(i, record)
                        &&& rule.shows(&record, before.groups@, devices)
                    } else {
                        let record = after.grants@.last();
                        &&& after.grants@ == before.grants@.push(record)
                        &&& next_id(before.grants@) == Some(record.id)
                        &&& record.user_group == user_group && record.device_group
                            == device_group && record.role == role && record.created_at == now
                        &&& rule.shows(&record, before.groups@, devices)
                    }
                },
                Err(refused) => {
                    &&& after.grants == before.grants
                    &&& if !exist {
                        refused is NotFound
                    } else {
                        refused.is_internal() && i < 0 && next_id(before.grants@) is None
                    }
                },
            }
        }
    }

    /// Let `user_group` at `device_group` with `role`; replaces the role of a
    /// grant between the two that exists already.
    pub fn set_grant(
        &mut self,
        user_group: i64,
        device_group: i64,
        role: Role,
        devices: &[GroupRecord],
        now: i64,
    ) -> (set: Result<GrantRule, Refused>)
        ensures
            Grants::set_grant_does(
                old(self),
                final(self),
                user_group,
                device_group,
                role,
                devices@,
                now,
                set,
            ),
    {
        if find(&self.groups, user_group).is_none() || find(devices, device_group).is_none() {
            return Err(Refused::NotFound);
        }
        let ghost before = self.grants@;
        let i: usize = match find_between(&self.grants, user_group, device_group) {
            Some(i) => {
                let changed = GrantRecord {
                    id: self.grants[i].id,
                    user_group,
                    device_group,
                    role,
                    created_at: self.grants[i].created_at,
                };
                self.grants[i] = changed;
                assert(self.grants@ =~= before.update(
                    i as int,
                    GrantRecord { role, ..before[i as int] },
                ));
                i
            },
            None => {
                let id: i64 = match fresh_id(&self.grants) {
                    Some(id) => id,
                    None => {
                        return Err(internal());
                    },
                };
                self.grants.push(
                    GrantRecord { id, user_group, device_group, role, created_at: now },
                );
                self.grants.len() - 1
            },
        };
        match rule_of(&self.grants[i], &self.groups, devices) {
            Some(rule) => Ok(rule),
            None => Err(Refused::NotFound),
        }
    }

    /// What `delete_grant` does.
    pub open spec fn delete_grant_does(
        before: &Grants,
        after: &Grants,
        id: i64,
        deleted: Result<(), Refused>,
    ) -> bool {
        &&& after.groups == before.groups
        &&& after.members == before.members
        &&& match deleted {
            Ok(()) => {
                &&& at(before.grants@, id) >= 0
                &&& after.grants@ == before.grants@.filter(grants_but(id))
            },
            Err(refused) => {
                &&& refused is NotFound && at(before.grants@, id) < 0
                &&& after.grants == before.grants
            },
        }
    }

    pub fn delete_grant(&mut self, id: i64) -> (deleted: Result<(), Refused>)
        ensures
            Grants::delete_grant_does(old(self), final(self), id, deleted),
    {
        if find(&self.grants, id).is_none() {
            return Err(Refused::NotFound);
        }
        let stays = |grant: &GrantRecord| -> (yes: bool)
            ensures
                yes == (grant.id != id),
            {
                grant.id != id
            };
        self.keep_grants(stays, Ghost(grants_but(id)));
        Ok(())
    }

    fn highest_role(&self, user: i64, devices: i64) -> (role: Option<Role>)
        ensures
            role == highest(self.members@, self.grants@, user, devices),
    {
        let mut best: Option<Role> = None;
        let mut n: usize = 0;
        while n < self.grants.len()
            invariant
                n <= self.grants@.len(),
                best == highest(self.members@, self.grants@.take(n as int), user, devices),
            decreases self.grants.len() - n,
        {
            assert(self.grants@.take(n + 1).drop_last() =~= self.grants@.take(n as int));
            let grant = self.grants[n];
            let more = match best {
                Some(role) => grant.role.exceeds(&role),
                None => true,
            };
            if grant.device_group == devices && is_member(&self.members, grant.user_group, user)
                && more {
                best = Some(grant.role);
            }
            n = n + 1;
        }
        assert(self.grants@.take(n as int) =~= self.grants@);
        best
    }

    /// These are the devices that `user` may reach, with the highest role that
    /// their grants give on each, in the order of the devices' numbers.
    pub open spec fn reached(
        &self,
        user: i64,
        users: Seq<Record>,
        devices: Seq<DeviceRecord>,
        listed: Seq<Reachable>,
    ) -> bool {
        exists|found: Seq<Reachable>, order: Seq<usize>|
            {
                let records = devices.filter(may_reach(self.members@, self.grants@, users, user));
                &&& #[trigger] places(found, order)
                &&& found.len() == records.len()
                &&& forall|i: int|
                    0 <= i < found.len() ==> {
                        &&& (#[trigger] found[i]).id == records[i].id
                        &&& found[i].fingerprint@ == records[i].fingerprint@
                        &&& found[i].number == records[i].number
                        &&& role_on(self.members@, self.grants@, users, user, records[i]) == Some(
                            found[i].role,
                        )
                    }
                &&& listed.len() == found.len()
                &&& forall|i: int|
                    0 <= i < listed.len() ==> #[trigger] listed[i] == found[order[i] as int]
            }
    }

    /// Every device `user` may reach.
    pub fn reachable(&self, user: i64, users: &[Record], devices: &[DeviceRecord]) -> (listed: Vec<
        Reachable,
    >)
        ensures
            self.reached(user, users@, devices@, listed@),
    {
        let active = match find(users, user) {
            Some(i) => !users[i].disabled,
            None => false,
        };
        let ghost which = may_reach(self.members@, self.grants@, users@, user);
        let mut found: Vec<Reachable> = Vec::new();
        let mut n: usize = 0;
        assert(devices@.take(0).filter(which) =~= Seq::<DeviceRecord>::empty()) by {
            reveal(Seq::filter);
        }
        while n < devices.len()
            invariant
                n <= devices@.len(),
                active == (at(users@, user) >= 0 && !users@[at(users@, user)].disabled),
                which == may_reach(self.members@, self.grants@, users@, user),
                found@.len() == devices@.take(n as int).filter(which).len(),
                forall|i: int|
                    0 <= i < found@.len() ==> {
                        let record = devices@.take(n as int).filter(which)[i];
                        &&& (#[trigger] found@[i]).id == record.id
                        &&& found@[i].fingerprint@ == record.fingerprint@
                        &&& found@[i].number == record.number
                        &&& role_on(self.members@, self.grants@, users@, user, record) == Some(
                            found@[i].role,
                        )
                    },
            decreases devices.len() - n,
        {
            proof {
                reveal(Seq::filter);
                assert(devices@.take(n + 1).drop_last() =~= devices@.take(n as int));
                assert(devices@.take(n + 1).last() == devices@[n as int]);
            }
            let role: Option<Role> = if active {
                match devices[n].group {
                    Some(group) => self.highest_role(user, group),
                    None => None,
                }
            } else {
                None
            };
            match role {
                Some(role) => {
                    found.push(
                        Reachable {
                            id: devices[n].id,
                            fingerprint: devices[n].fingerprint,
                            number: devices[n].number,
                            role,
                        },
                    );
                },
                None => {},
            }
            n = n + 1;
        }
        assert(devices@.take(n as int) =~= devices@);
        let order = in_order(&found);
        let mut listed: Vec<Reachable> = Vec::new();
        let mut i: usize = 0;
        while i < order.len()
            invariant
                i <= order@.len(),
                places(found@, order@),
                listed@.len() == i,
                forall|j: int| 0 <= j < i ==> #[trigger] listed@[j] == found@[order@[j] as int],
            decreases order.len() - i,
        {
            listed.push(found[order[i]]);
            i = i + 1;
        }
        listed
    }
}

// --- What grants come to -----------------------------------------------------------------------

/// The highest role any grant gives wins: it is one that a grant gives, and
/// none gives a higher one. Without a grant there is none.
pub proof fn lemma_the_highest_role_wins(
    members: Seq<Membership>,
    grants: Seq<GrantRecord>,
    user: i64,
    devices: i64,
)
    ensures
        match highest(members, grants, user, devices) {
            Some(role) => {
                &&& gives(members, grants, user, devices, role)
                &&& forall|other: Role| #[trigger]
                    gives(members, grants, user, devices, other) ==> other.rank() <= role.rank()
            },
            None => forall|other: Role| !#[trigger] gives(members, grants, user, devices, other),
        },
        highest(members, grants, user, devices) == (if gives(
            members,
            grants,
            user,
            devices,
            Role::Full,
        ) {
            Some(Role::Full)
        } else if gives(members, grants, user, devices, Role::Control) {
            Some(Role::Control)
        } else if gives(members, grants, user, devices, Role::View) {
            Some(Role::View)
        } else {
            None
        }),
    decreases grants.len(),
{
    if grants.len() > 0 {
        let less = grants.drop_last();
        lemma_the_highest_role_wins(members, less, user, devices);
        let last = grants.last();
        assert forall|other: Role| #[trigger]
            gives(members, grants, user, devices, other) implies gives(
            members,
            less,
            user,
            devices,
            other,
        ) || (last.device_group == devices && last.role == other && members.contains(
            Membership { group: last.user_group, user },
        )) by {
            let i = choose|i: int|
                {
                    &&& 0 <= i < grants.len()
                    &&& (#[trigger] grants[i]).device_group == devices
                    &&& grants[i].role == other
                    &&& members.contains(Membership { group: grants[i].user_group, user })
                };
            if i < less.len() {
                assert(less[i] == grants[i]);
            }
        }
        assert forall|other: Role| #[trigger]
            gives(members, less, user, devices, other) implies gives(
            members,
            grants,
            user,
            devices,
            other,
        ) by {
            let i = choose|i: int|
                {
                    &&& 0 <= i < less.len()
                    &&& (#[trigger] less[i]).device_group == devices
                    &&& less[i].role == other
                    &&& members.contains(Membership { group: less[i].user_group, user })
                };
            assert(grants[i] == less[i]);
        }
        assert(grants[grants.len() - 1] == last);
    }
}

/// Someone in no group reaches nothing, an administrator included: being one
/// gives no role.
pub proof fn lemma_administrators_need_grants_too(
    members: Seq<Membership>,
    grants: Seq<GrantRecord>,
    users: Seq<Record>,
    user: i64,
    device: DeviceRecord,
)
    requires
        forall|group: i64| !#[trigger] members.contains(Membership { group, user }),
    ensures
        role_on(members, grants, users, user, device) is None,
{
    match device.group {
        Some(group) => {
            lemma_the_highest_role_wins(members, grants, user, group);
            if let Some(role) = highest(members, grants, user, group) {
                assert(gives(members, grants, user, group, role));
                let i = choose|i: int|
                    {
                        &&& 0 <= i < grants.len()
                        &&& (#[trigger] grants[i]).device_group == group
                        &&& grants[i].role == role
                        &&& members.contains(Membership { group: grants[i].user_group, user })
                    };
                assert(!members.contains(Membership { group: grants[i].user_group, user }));
            }
        },
        None => {},
    }
}

/// A disabled user reaches nothing.
pub proof fn lemma_disabled_users_reach_nothing(
    members: Seq<Membership>,
    grants: Seq<GrantRecord>,
    users: Seq<Record>,
    user: i64,
    device: DeviceRecord,
)
    requires
        at(users, user) >= 0 ==> users[at(users, user)].disabled,
    ensures
        role_on(members, grants, users, user, device) is None,
{
}

/// Grants on a deleted device group let nobody at anything.
pub proof fn lemma_deleted_groups_are_reached_by_nobody(
    members: Seq<Membership>,
    grants: Seq<GrantRecord>,
    user: i64,
    group: i64,
)
    ensures
        highest(members, grants.filter(grants_on_others(group)), user, group) is None,
{
    let left = grants.filter(grants_on_others(group));
    lemma_the_highest_role_wins(members, left, user, group);
    lemma_kept(grants, grants_on_others(group));
    if let Some(role) = highest(members, left, user, group) {
        assert(gives(members, left, user, group, role));
        let i = choose|i: int|
            {
                &&& 0 <= i < left.len()
                &&& (#[trigger] left[i]).device_group == group
                &&& left[i].role == role
                &&& members.contains(Membership { group: left[i].user_group, user })
            };
        assert(left[i].device_group != group);
    }
}

/// Whoever may reach a device may because of a grant: every device that is
/// listed is a device, with its key and its number; the user is known and not
/// disabled; they are in a group that has a grant on the device's group with
/// the listed role, and in none that has one with a higher role.
pub proof fn lemma_what_is_reachable_is_granted(
    grants: Grants,
    user: i64,
    users: Seq<Record>,
    devices: Seq<DeviceRecord>,
    listed: Seq<Reachable>,
    i: int,
)
    requires
        grants.reached(user, users, devices, listed),
        0 <= i < listed.len(),
    ensures
        exists|u: int| 0 <= u < users.len() && (#[trigger] users[u]).id == user && !users[u].disabled,
        exists|d: int, g: int|
            {
                &&& 0 <= d < devices.len() && 0 <= g < grants.grants@.len()
                &&& (#[trigger] devices[d]).id == listed[i].id
                &&& devices[d].fingerprint@ == listed[i].fingerprint@
                &&& devices[d].number == listed[i].number
                &&& devices[d].group == Some((#[trigger] grants.grants@[g]).device_group)
                &&& grants.grants@[g].role == listed[i].role
                &&& grants.members@.contains(
                    Membership { group: grants.grants@[g].user_group, user },
                )
                &&& forall|h: int|
                    0 <= h < grants.grants@.len() && devices[d].group == Some(
                        (#[trigger] grants.grants@[h]).device_group,
                    ) && grants.members@.contains(
                        Membership { group: grants.grants@[h].user_group, user },
                    ) ==> {
                        ||| listed[i].role == Role::Full
                        ||| listed[i].role == grants.grants@[h].role
                        ||| grants.grants@[h].role == Role::View
                    }
            },
{
    let which = may_reach(grants.members@, grants.grants@, users, user);
    let records = devices.filter(which);
    let (found, order) = choose|found: Seq<Reachable>, order: Seq<usize>|
        {
            &&& #[trigger] places(found, order)
            &&& found.len() == records.len()
            &&& forall|i: int|
                0 <= i < found.len() ==> {
                    &&& (#[trigger] found[i]).id == records[i].id
                    &&& found[i].fingerprint@ == records[i].fingerprint@
                    &&& found[i].number == records[i].number
                    &&& role_on(grants.members@, grants.grants@, users, user, records[i]) == Some(
                        found[i].role,
                    )
                }
            &&& listed.len() == found.len()
            &&& forall|i: int|
                0 <= i < listed.len() ==> #[trigger] listed[i] == found[order[i] as int]
        };
    let k = order[i] as int;
    lemma_places_within(found, order, i);
    assert(listed[i] == found[k]);
    lemma_kept(devices, which);
    assert(devices.contains(records[k]));
    let d = choose|d: int| 0 <= d < devices.len() && devices[d] == records[k];
    lemma_at(users, user);
    assert(users[at(users, user)].id == user);
    let group = devices[d].group->Some_0;
    let role = listed[i].role;
    lemma_the_highest_role_wins(grants.members@, grants.grants@, user, group);
    assert(gives(grants.members@, grants.grants@, user, group, role));
    let g = choose|g: int|
        {
            &&& 0 <= g < grants.grants@.len()
            &&& (#[trigger] grants.grants@[g]).device_group == group
            &&& grants.grants@[g].role == role
            &&& grants.members@.contains(Membership { group: grants.grants@[g].user_group, user })
        };
    assert forall|h: int|
        0 <= h < grants.grants@.len() && devices[d].group == Some(
            (#[trigger] grants.grants@[h]).device_group,
        ) && grants.members@.contains(
            Membership { group: grants.grants@[h].user_group, user },
        ) implies {
        ||| role == Role::Full
        ||| role == grants.grants@[h].role
        ||| grants.grants@[h].role == Role::View
    } by {
        assert(gives(grants.members@, grants.grants@, user, group, grants.grants@[h].role));
    }
    assert(devices[d].id == listed[i].id && devices[d].group == Some(
        grants.grants@[g].device_group,
    ));
}

/// Whoever is granted a device may reach it: a user who is not disabled and is
/// in a group that has a grant on a device's group finds the device listed,
/// with a role that is no lower.
pub proof fn lemma_what_is_granted_is_reachable(
    grants: Grants,
    user: i64,
    users: Seq<Record>,
    devices: Seq<DeviceRecord>,
    listed: Seq<Reachable>,
    u: int,
    d: int,
    g: int,
)
    requires
        grants.reached(user, users, devices, listed),
        numbered(users),
        0 <= u < users.len() && users[u].id == user && !users[u].disabled,
        0 <= d < devices.len() && 0 <= g < grants.grants@.len(),
        devices[d].group == Some(grants.grants@[g].device_group),
        grants.members@.contains(Membership { group: grants.grants@[g].user_group, user }),
    ensures
        exists|i: int|
            {
                &&& 0 <= i < listed.len()
                &&& (#[trigger] listed[i]).id == devices[d].id
                &&& listed[i].fingerprint@ == devices[d].fingerprint@
                &&& listed[i].number == devices[d].number
                &&& {
                    ||| listed[i].role == Role::Full
                    ||| listed[i].role == grants.grants@[g].role
                    ||| grants.grants@[g].role == Role::View
                }
            },
{
    let which = may_reach(grants.members@, grants.grants@, users, user);
    let records = devices.filter(which);
    let (found, order) = choose|found: Seq<Reachable>, order: Seq<usize>|
        {
            &&& #[trigger] places(found, order)
            &&& found.len() == records.len()
            &&& forall|i: int|
                0 <= i < found.len() ==> {
                    &&& (#[trigger] found[i]).id == records[i].id
                    &&& found[i].fingerprint@ == records[i].fingerprint@
                    &&& found[i].number == records[i].number
                    &&& role_on(grants.members@, grants.grants@, users, user, records[i]) == Some(
                        found[i].role,
                    )
                }
            &&& listed.len() == found.len()
            &&& forall|i: int|
                0 <= i < listed.len() ==> #[trigger] listed[i] == found[order[i] as int]
        };
    let grant = grants.grants@[g];
    lemma_at_own(users, u);
    lemma_the_highest_role_wins(grants.members@, grants.grants@, user, grant.device_group);
    assert(gives(grants.members@, grants.grants@, user, grant.device_group, grant.role));
    assert(which(devices[d]));
    lemma_kept(devices, which);
    assert(records.contains(devices[d]));
    let k = choose|k: int| 0 <= k < records.len() && records[k] == devices[d];
    lemma_places_all(found, order, k);
    let i = choose|i: int| 0 <= i < order.len() && order[i] == k;
    assert(listed[i] == found[order[i] as int]);
}

/// What may be reached is listed once, by the devices' numbers.
pub proof fn lemma_what_is_reachable_is_in_order(
    grants: Grants,
    user: i64,
    users: Seq<Record>,
    devices: Seq<DeviceRecord>,
    listed: Seq<Reachable>,
    i: int,
    j: int,
)
    requires
        grants.reached(user, users, devices, listed),
        numbered(devices),
        0 <= i < j < listed.len(),
    ensures
        listed[i].id < listed[j].id,
{
    let which = may_reach(grants.members@, grants.grants@, users, user);
    let records = devices.filter(which);
    let (found, order) = choose|found: Seq<Reachable>, order: Seq<usize>|
        {
            &&& #[trigger] places(found, order)
            &&& found.len() == records.len()
            &&& forall|i: int|
                0 <= i < found.len() ==> {
                    &&& (#[trigger] found[i]).id == records[i].id
                    &&& found[i].fingerprint@ == records[i].fingerprint@
                    &&& found[i].number == records[i].number
                    &&& role_on(grants.members@, grants.grants@, users, user, records[i]) == Some(
                        found[i].role,
                    )
                }
            &&& listed.len() == found.len()
            &&& forall|i: int|
                0 <= i < listed.len() ==> #[trigger] listed[i] == found[order[i] as int]
        };
    lemma_numbered_kept(devices, which);
    lemma_places_within(found, order, i);
    lemma_places_within(found, order, j);
    lemma_places_sorted(found, order, i, j);
    let (a, b) = (order[i] as int, order[j] as int);
    assert(listed[i] == found[a] && listed[j] == found[b]);
    assert(found[a].ranks(&found[b]));
    if a < b {
        assert(records[a].key() != records[b].key());
    } else {
        assert(records[b].key() != records[a].key());
    }
}

/// A grant between two groups gives the role it was set to, and no other grant
/// between them is there; those between other groups are as they were.
pub proof fn lemma_setting_a_grant_sets_it(
    before: Grants,
    after: Grants,
    user_group: i64,
    device_group: i64,
    role: Role,
    devices: Seq<GroupRecord>,
    now: i64,
    rule: GrantRule,
    users: i64,
    others: i64,
    other: Role,
)
    requires
        Grants::set_grant_does(
            &before,
            &after,
            user_group,
            device_group,
            role,
            devices,
            now,
            Ok(rule),
        ),
        one_grant_each(before.grants@),
    ensures
        one_grant_each(after.grants@),
        lets(after.grants@, user_group, device_group, other) <==> other == role,
        users != user_group || others != device_group ==> (lets(after.grants@, users, others, other)
            <==> lets(before.grants@, users, others, other)),
        rule.user_group_id == user_group && rule.device_group_id == device_group && rule.role@
            == role.name(),
{
    let i = grant_between(before.grants@, user_group, device_group);
    lemma_grant_between(before.grants@, user_group, device_group);
    let (a, b) = (before.grants@, after.grants@);
    if i >= 0 {
        assert forall|k: int| 0 <= k < b.len() implies (#[trigger] b[k]).user_group
            == a[k].user_group && b[k].device_group == a[k].device_group && (k != i ==> b[k]
            == a[k]) by {}
        assert(b[i].role == role);
    } else {
        assert(b.len() == a.len() + 1);
        assert(forall|k: int| 0 <= k < a.len() ==> b[k] == #[trigger] a[k]);
        assert(b[a.len() as int].role == role);
    }
    if lets(b, users, others, other) {
        let k = choose|k: int|
            0 <= k < b.len() && (#[trigger] b[k]).user_group == users && b[k].device_group == others
                && b[k].role == other;
        if users != user_group || others != device_group {
            assert(k < a.len());
            assert(a[k] == b[k]);
        }
    }
    if lets(a, users, others, other) && (users != user_group || others != device_group) {
        let k = choose|k: int|
            0 <= k < a.len() && (#[trigger] a[k]).user_group == users && a[k].device_group == others
                && a[k].role == other;
        assert(b[k] == a[k]);
    }
    let at = if i >= 0 {
        i
    } else {
        a.len() as int
    };
    assert(b[at].user_group == user_group && b[at].device_group == device_group);
    if lets(b, user_group, device_group, other) {
        let k = choose|k: int|
            0 <= k < b.len() && (#[trigger] b[k]).user_group == user_group && b[k].device_group
                == device_group && b[k].role == other;
        if i >= 0 {
            assert(a[k].user_group == user_group && a[k].device_group == device_group);
        }
        assert(k == at);
    }
}

/// No two grants are between the same groups.
pub open spec fn one_grant_each(grants: Seq<GrantRecord>) -> bool {
    forall|i: int, j: int|
        0 <= i < j < grants.len() ==> (#[trigger] grants[i]).user_group != (
        #[trigger] grants[j]).user_group || grants[i].device_group != grants[j].device_group
}

/// A grant lets a user group at a device group with this role.
pub open spec fn lets(grants: Seq<GrantRecord>, users: i64, devices: i64, role: Role) -> bool {
    exists|i: int|
        0 <= i < grants.len() && (#[trigger] grants[i]).user_group == users
            && grants[i].device_group == devices && grants[i].role == role
}

proof fn lemma_grant_between(grants: Seq<GrantRecord>, users: i64, devices: i64)
    ensures
        ({
            let i = grant_between(grants, users, devices);
            &&& -1 <= i < grants.len()
            &&& i >= 0 ==> grants[i].user_group == users && grants[i].device_group == devices
            &&& i < 0 ==> forall|j: int|
                0 <= j < grants.len() ==> (#[trigger] grants[j]).user_group != users
                    || grants[j].device_group != devices
        }),
    decreases grants.len(),
{
    if grants.len() > 0 && !(grants.last().user_group == users && grants.last().device_group
        == devices) {
        let less = grants.drop_last();
        lemma_grant_between(less, users, devices);
        if grant_between(less, users, devices) < 0 {
            assert forall|j: int| 0 <= j < grants.len() implies (#[trigger] grants[j]).user_group
                != users || grants[j].device_group != devices by {
                if j < less.len() {
                    assert(less[j] == grants[j]);
                }
            }
        }
    }
}

/// Deleting a grant deletes that one and no other.
pub proof fn lemma_a_deleted_grant_is_gone(before: Grants, after: Grants, id: i64, grant: GrantRecord)
    requires
        Grants::delete_grant_does(&before, &after, id, Ok(())),
    ensures
        after.grants@.contains(grant) <==> before.grants@.contains(grant) && grant.id != id,
        after.members@ == before.members@,
        after.groups@ == before.groups@,
{
    lemma_left(before.grants@, grants_but(id), grant);
}

/// Deleting a user group deletes who is in it and what it was granted, and
/// nothing of another.
pub proof fn lemma_a_deleted_user_group_is_gone(
    before: Grants,
    after: Grants,
    id: i64,
    group: UserGroupRecord,
    member: Membership,
    grant: GrantRecord,
)
    requires
        Grants::delete_user_group_does(&before, &after, id, Ok(())),
    ensures
        after.groups@.contains(group) <==> before.groups@.contains(group) && group.id != id,
        after.members@.contains(member) <==> before.members@.contains(member) && member.group != id,
        after.grants@.contains(grant) <==> before.grants@.contains(grant) && grant.user_group != id,
{
    lemma_left(before.groups@, groups_but(id), group);
    lemma_left(before.members@, members_elsewhere(id), member);
    lemma_left(before.grants@, grants_elsewhere(id), grant);
}

/// Whoever is put in a group is in it, and whoever is taken out is not; nobody
/// else's place changes. A user who is gone is in no group, and a device group
/// that is gone has no grants on it.
pub proof fn lemma_members_come_and_go(
    before: Grants,
    after: Grants,
    group: i64,
    user: i64,
    users: Seq<Record>,
    shown: UserGroup,
    member: Membership,
    grant: GrantRecord,
)
    ensures
        Grants::add_member_does(&before, &after, group, user, users, Ok(shown)) ==> (
        after.members@.contains(member) <==> before.members@.contains(member) || member == (
        Membership { group, user })),
        Grants::remove_member_does(&before, &after, group, user, users, Ok(shown)) ==> (
        after.members@.contains(member) <==> before.members@.contains(member) && member != (
        Membership { group, user })),
        Grants::forget_user_does(&before, &after, user) ==> (after.members@.contains(member)
            <==> before.members@.contains(member) && member.user != user),
        Grants::forget_device_group_does(&before, &after, group) ==> (after.grants@.contains(grant)
            <==> before.grants@.contains(grant) && grant.device_group != group),
{
    let one = Membership { group, user };
    lemma_left(before.members@, members_but(group, user), member);
    lemma_left(before.members@, other_members(user), member);
    lemma_left(before.grants@, grants_on_others(group), grant);
    let more = before.members@.push(one);
    assert(more[more.len() - 1] == one);
    if before.members@.contains(member) {
        let i = choose|i: int| 0 <= i < before.members@.len() && before.members@[i] == member;
        assert(more[i] == member);
    }
}

}
