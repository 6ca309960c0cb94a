//! What the API does: each request that does what it asks for leaves an entry
//! in the audit log, with who made it and from where; one that is refused
//! leaves none, but for failed sign-ins and sessions refused for want of a
//! grant.

use super::accounts::{
    fits, hash_of, other_logins, token_end, Accounts, ApiToken, Refused, User, LOGIN_LIFETIME,
};
use super::api::{
    all_seen, between, cookie_in, device_grant, device_granted, get_device, list_devices, login, logout,
    reachable_at, release_name, release_words, role_in, session_cookie_name,
    set_cookie, short, Act, Admin, ApiError, Caller, Headers, ServerInfo, WebGrant,
    COOKIE_LIFETIME,
};
use super::audit::{copy_words, words, Audit, Entry, Event};
use super::devices::{Device, DeviceRecord, Devices, EnrollToken, Group, MAX_ENROLL_DAYS};
use super::grants::{joined, GrantRule, Grants, Reachable, UserGroup};
use super::releases::{Listed, Releases, Signed};
use super::rendezvous::Registry;
use super::rows::{at, find, lemma_at, lemma_at_same, next_id};
use crate::crypto::hashable;
use crate::net::Ip;
use crate::protocol::Role;
use vstd::prelude::*;

verus! {

impl Entry {
    /// The entry is of what `who` did, to what, and what there is to say of
    /// it.
    pub open spec fn tells(
        &self,
        who: Caller,
        action: Seq<char>,
        target: Seq<char>,
        detail: Option<Seq<char>>,
    ) -> bool {
        &&& words(self.actor) == Some(who.user.name@)
        &&& words(self.address) == (match who.from {
            Some(ip) => Some(ip.canonical().written()),
            None => None,
        })
        &&& self.action@ == action
        &&& words(self.target) == Some(target)
        &&& words(self.detail) == detail
    }
}

/// One more entry, made now; a log that is out of numbers takes none.
pub open spec fn one_more(before: &Audit, after: &Audit, now: i64) -> bool {
    match next_id(before.entries@) {
        Some(id) => {
            &&& after.entries@.len() == before.entries@.len() + 1
            &&& after.entries@.drop_last() == before.entries@
            &&& after.entries@.last().id == id
            &&& after.entries@.last().at == now
        },
        None => after.entries@ == before.entries@,
    }
}

/// It went in the log that `who` did this.
pub open spec fn told(
    before: &Audit,
    after: &Audit,
    who: Caller,
    action: Seq<char>,
    target: Seq<char>,
    detail: Option<Seq<char>>,
    now: i64,
) -> bool {
    &&& one_more(before, after, now)
    &&& next_id(before.entries@) is Some ==> after.entries@.last().tells(
        who,
        action,
        target,
        detail,
    )
}

/// What `who` did went in the log.
pub open spec fn logged(before: &Audit, after: &Audit, act: Act, who: Caller, now: i64) -> bool {
    told(before, after, who, act.action(), act.target(who.user.name@), act.detail(), now)
}

/// Every change goes in the audit log, with who made it and from where: what
/// is logged stands there under who did it, and all that stood there before
/// still does.
pub proof fn lemma_changes_go_in_the_log(
    before: Audit,
    after: Audit,
    act: Act,
    who: Caller,
    now: i64,
)
    requires
        next_id(before.entries@) is Some,
        logged(&before, &after, act, who, now),
    ensures
        forall|i: int|
            0 <= i < before.entries@.len() ==> #[trigger] after.entries@[i] == before.entries@[i],
        exists|i: int|
            {
                &&& before.entries@.len() <= i < after.entries@.len()
                &&& (#[trigger] after.entries@[i]).at == now
                &&& words(after.entries@[i].actor) == Some(who.user.name@)
                &&& words(after.entries@[i].address) == (match who.from {
                    Some(ip) => Some(ip.canonical().written()),
                    None => None,
                })
                &&& after.entries@[i].action@ == act.action()
            },
{
    assert(after.entries@[before.entries@.len() as int] == after.entries@.last());
    assert forall|i: int| 0 <= i < before.entries@.len() implies #[trigger] after.entries@[i]
        == before.entries@[i] by {
        assert(after.entries@.drop_last()[i] == after.entries@[i]);
    }
}

/// A failed sign-in went in the log.
pub open spec fn failure_logged(
    before: &Audit,
    after: &Audit,
    name: Seq<char>,
    from: Ip,
    why: Seq<char>,
    now: i64,
) -> bool {
    let entry = after.entries@.last();
    &&& one_more(before, after, now)
    &&& next_id(before.entries@) is Some ==> {
        &&& entry.actor is None
        &&& words(entry.address) == Some(from.canonical().written())
        &&& entry.action@ == "login.fail"@
        &&& words(entry.target) == Some(name)
        &&& words(entry.detail) == Some(why)
    }
}

/// The server's tables, as the API works on them.
#[derive(Debug)]
pub struct AppState {
    pub accounts: Accounts,
    pub devices: Devices,
    pub grants: Grants,
    pub audit: Audit,
    /// Which devices are connected.
    pub registry: Registry,
    /// Agent releases, and which one agents are offered.
    pub releases: Releases,
    pub server: ServerInfo,
}

/// A role by its name.
pub fn role_named(name: &str) -> (role: Result<Role, Refused>)
    ensures
        match role {
            Ok(role) => role.name() == name@,
            Err(refused) => {
                &&& forall|role: Role| #[trigger] role.name() != name@
                &&& refused matches Refused::Invalid(why) && why@ == "no such role: "@ + name@
            },
        },
{
    match Role::named(name) {
        Some(role) => Ok(role),
        None => {
            let mut why = "no such role: ".to_owned();
            why.append(name);
            Err(Refused::Invalid(why))
        },
    }
}

impl AppState {
    pub open spec fn wf(&self) -> bool {
        &&& self.accounts.wf()
        &&& self.audit.wf()
        &&& self.registry.wf()
    }

    /// At most the accounts and the log changed.
    pub open spec fn only_accounts(before: &AppState, after: &AppState) -> bool {
        &&& after.devices == before.devices
        &&& after.grants == before.grants
        &&& after.releases == before.releases
        &&& after.registry == before.registry
        &&& after.server == before.server
    }

    /// At most the devices and the log changed.
    pub open spec fn only_devices(before: &AppState, after: &AppState) -> bool {
        &&& after.accounts == before.accounts
        &&& after.grants == before.grants
        &&& after.releases == before.releases
        &&& after.registry == before.registry
        &&& after.server == before.server
    }

    /// At most the grants and the log changed.
    pub open spec fn only_grants(before: &AppState, after: &AppState) -> bool {
        &&& after.accounts == before.accounts
        &&& after.devices == before.devices
        &&& after.releases == before.releases
        &&& after.registry == before.registry
        &&& after.server == before.server
    }

    /// At most the releases and the log changed.
    pub open spec fn only_releases(before: &AppState, after: &AppState) -> bool {
        &&& after.accounts == before.accounts
        &&& after.devices == before.devices
        &&& after.grants == before.grants
        &&& after.registry == before.registry
        &&& after.server == before.server
    }

    /// Put an event in the audit log.
    pub(crate) fn write(&mut self, event: &Event, now: i64)
        requires
            old(self).wf(),
        ensures
            final(self).wf(),
            AppState::only_accounts(old(self), final(self)),
            final(self).accounts == old(self).accounts,
            one_more(&old(self).audit, &final(self).audit, now),
            next_id(old(self).audit.entries@) is Some
                ==> final(self).audit.entries@.last().records(event),
    {
        let _ = self.audit.record(event, now);
    }

    /// Put what `who` did in the audit log.
    fn record(&mut self, who: &Caller, act: &Act, now: i64)
        requires
            old(self).wf(),
        ensures
            final(self).wf(),
            AppState::only_accounts(old(self), final(self)),
            final(self).accounts == old(self).accounts,
            logged(&old(self).audit, &final(self).audit, *act, *who, now),
    {
        let event = act.event(who);
        self.write(&event, now);
    }

    // --- Accounts ---------------------------------------------------------------------------

    /// What `setup` does.
    pub open spec fn setup_does(
        before: &AppState,
        after: &AppState,
        token: &str,
        name: &str,
        password: &str,
        from: Ip,
        now: i64,
        made: Result<User, Refused>,
    ) -> bool {
        &&& AppState::only_accounts(before, after)
        &&& Accounts::setup_does(
            &before.accounts,
            &after.accounts,
            token,
            name,
            password,
            now,
            made,
        )
        &&& match made {
            Ok(user) => logged(
                &before.audit,
                &after.audit,
                Act::Setup,
                Caller { user, from: Some(from.canonical()) },
                now,
            ),
            Err(_) => after.audit == before.audit,
        }
    }

    /// Make the first administrator.
    pub fn setup(&mut self, token: &str, name: &str, password: &str, from: Ip, now: i64) -> (made:
        Result<User, Refused>)
        requires
            old(self).wf(),
            fits(token@),
        ensures
            final(self).wf(),
            AppState::setup_does(
                old(self),
                final(self),
                token,
                name,
                password,
                from,
                now,
                made,
            ),
    {
        match self.accounts.setup(token, name, password, now) {
            Ok(user) => {
                let who = Caller { user, from: Some(from.to_canonical()) };
                self.record(&who, &Act::Setup, now);
                Ok(who.user)
            },
            Err(refused) => Err(refused),
        }
    }

    /// What `login` does.
    pub open spec fn login_does(
        before: &AppState,
        after: &AppState,
        name: &str,
        password: &str,
        code: Option<&str>,
        from: Ip,
        now: i64,
        clock: u64,
        answer: Result<(Caller, String), ApiError>,
    ) -> bool {
        &&& AppState::only_accounts(before, after)
        &&& match answer {
            Ok((caller, cookie)) => {
                &&& exists|token: String|
                    {
                        &&& #[trigger] Accounts::sign_in_does(
                            &before.accounts,
                            &after.accounts,
                            name,
                            password,
                            code,
                            from.canonical(),
                            now,
                            clock,
                            Ok((token, caller.user)),
                        )
                        &&& cookie@ == set_cookie(token@, COOKIE_LIFETIME as int)
                    }
                &&& caller.from == Some(from.canonical())
                &&& logged(&before.audit, &after.audit, Act::Login, caller, now)
            },
            Err(error) => {
                &&& error matches ApiError::Refused(refused)
                &&& Accounts::sign_in_does(
                    &before.accounts,
                    &after.accounts,
                    name,
                    password,
                    code,
                    from.canonical(),
                    now,
                    clock,
                    Err(refused),
                )
                &&& if refused is TotpNeeded {
                    after.audit == before.audit
                } else {
                    failure_logged(
                        &before.audit,
                        &after.audit,
                        name@,
                        from.canonical(),
                        refused.says(),
                        now,
                    )
                }
            },
        }
    }

    /// Sign in to the console: who signed in, and the cookie for it.
    pub fn login(
        &mut self,
        name: &str,
        password: &str,
        code: Option<&str>,
        from: Ip,
        now: i64,
        clock: u64,
    ) -> (answer: Result<(Caller, String), ApiError>)
        requires
            old(self).wf(),
            0 <= now <= i64::MAX - LOGIN_LIFETIME,
        ensures
            final(self).wf(),
            AppState::login_does(
                old(self),
                final(self),
                name,
                password,
                code,
                from,
                now,
                clock,
                answer,
            ),
    {
        let from: Ip = from.to_canonical();
        let signed_in = self.accounts.sign_in(name, password, code, from, now, clock);
        let ghost outcome = signed_in;
        let done = login(signed_in, name, from);
        if let Some(event) = &done.event {
            self.write(event, now);
        }
        proof {
            if let Ok((token, user)) = outcome {
                assert(done.answer->Ok_0.0.user == user);
            }
        }
        done.answer
    }

    /// What `logout` does.
    pub open spec fn logout_does(
        before: &AppState,
        after: &AppState,
        headers: &Headers,
        cookie: String,
    ) -> bool {
        &&& AppState::only_accounts(before, after)
        &&& after.audit == before.audit
        &&& cookie@ == set_cookie(Seq::empty(), 0)
        &&& after.accounts.users == before.accounts.users
        &&& after.accounts.same_rest(&before.accounts)
        &&& after.accounts.logins@ == (match cookie_in(
            headers.cookies@,
            session_cookie_name(),
            0,
        ) {
            Some(token) => before.accounts.logins@.filter(other_logins(hash_of(token))),
            None => before.accounts.logins@,
        })
    }

    /// Sign out whoever is signed in; the cookie that clears theirs.
    pub fn logout(&mut self, headers: &Headers) -> (cookie: String)
        requires
            old(self).wf(),
            short(headers),
        ensures
            final(self).wf(),
            AppState::logout_does(
                old(self),
                final(self),
                headers,
                cookie,
            ),
    {
        logout(&mut self.accounts, headers)
    }

    /// What `change_password` does.
    pub open spec fn change_password_does(
        before: &AppState,
        after: &AppState,
        who: &Caller,
        current: &str,
        new: &str,
        now: i64,
        changed: Result<(), Refused>,
    ) -> bool {
        &&& AppState::only_accounts(before, after)
        &&& Accounts::change_password_does(
            &before.accounts,
            &after.accounts,
            &who.user,
            current,
            new,
            changed,
        )
        &&& match changed {
            Ok(()) => logged(
                &before.audit,
                &after.audit,
                Act::PasswordChange,
                *who,
                now,
            ),
            Err(_) => after.audit == before.audit,
        }
    }

    /// Change one's own password, which ends one's sessions.
    pub fn change_password(
        &mut self,
        who: &Caller,
        current: &str,
        new: &str,
        now: i64,
    ) -> (changed: Result<(), Refused>)
        requires
            old(self).wf(),
        ensures
            final(self).wf(),
            AppState::change_password_does(
                old(self),
                final(self),
                who,
                current,
                new,
                now,
                changed,
            ),
    {
        let changed = self.accounts.change_password(&who.user, current, new);
        if let Ok(()) = &changed {
            let act = Act::PasswordChange;
            self.record(who, &act, now);
        }
        changed
    }

    /// Begin to use codes: a secret, which is not in force yet.
    pub fn totp_begin(&mut self, who: &Caller) -> (begun: Result<(String, String), Refused>)
        requires
            old(self).wf(),
        ensures
            final(self).wf(),
            AppState::only_accounts(old(self), final(self)),
            final(self).audit == old(self).audit,
            Accounts::totp_begin_does(
                &old(self).accounts,
                &final(self).accounts,
                &who.user,
                begun,
            ),
    {
        self.accounts.totp_begin(&who.user)
    }

    /// What `totp_confirm` does.
    pub open spec fn totp_confirm_does(
        before: &AppState,
        after: &AppState,
        who: &Caller,
        code: &str,
        now: i64,
        confirmed: Result<(), Refused>,
    ) -> bool {
        &&& AppState::only_accounts(before, after)
        &&& Accounts::totp_confirm_does(
            &before.accounts,
            &after.accounts,
            &who.user,
            code,
            now,
            confirmed,
        )
        &&& match confirmed {
            Ok(()) => logged(
                &before.audit,
                &after.audit,
                Act::TotpEnable,
                *who,
                now,
            ),
            Err(_) => after.audit == before.audit,
        }
    }

    /// Put the secret in force, with a code that it makes.
    pub fn totp_confirm(
        &mut self,
        who: &Caller,
        code: &str,
        now: i64,
    ) -> (confirmed: Result<(), Refused>)
        requires
            old(self).wf(),
            now >= 0,
        ensures
            final(self).wf(),
            AppState::totp_confirm_does(
                old(self),
                final(self),
                who,
                code,
                now,
                confirmed,
            ),
    {
        let confirmed = self.accounts.totp_confirm(&who.user, code, now);
        if let Ok(()) = &confirmed {
            let act = Act::TotpEnable;
            self.record(who, &act, now);
        }
        confirmed
    }

    /// What `totp_disable` does.
    pub open spec fn totp_disable_does(
        before: &AppState,
        after: &AppState,
        who: &Caller,
        code: &str,
        now: i64,
        disabled: Result<(), Refused>,
    ) -> bool {
        &&& AppState::only_accounts(before, after)
        &&& Accounts::totp_disable_does(
            &before.accounts,
            &after.accounts,
            &who.user,
            code,
            now,
            disabled,
        )
        &&& match disabled {
            Ok(()) => logged(
                &before.audit,
                &after.audit,
                Act::TotpDisable,
                *who,
                now,
            ),
            Err(_) => after.audit == before.audit,
        }
    }

    /// Stop using codes, with one that is good.
    pub fn totp_disable(
        &mut self,
        who: &Caller,
        code: &str,
        now: i64,
    ) -> (disabled: Result<(), Refused>)
        requires
            old(self).wf(),
            now >= 0,
        ensures
            final(self).wf(),
            AppState::totp_disable_does(
                old(self),
                final(self),
                who,
                code,
                now,
                disabled,
            ),
    {
        let disabled = self.accounts.totp_disable(&who.user, code, now);
        if let Ok(()) = &disabled {
            let act = Act::TotpDisable;
            self.record(who, &act, now);
        }
        disabled
    }

    /// What `new_token` does.
    pub open spec fn new_token_does(
        before: &AppState,
        after: &AppState,
        who: &Caller,
        name: &str,
        expires_in_days: Option<u32>,
        now: i64,
        added: Result<(ApiToken, String), Refused>,
    ) -> bool {
        &&& AppState::only_accounts(before, after)
        &&& Accounts::new_api_token_does(
            &before.accounts,
            &after.accounts,
            &who.user,
            name,
            expires_in_days,
            now,
            added,
        )
        &&& match added {
            Ok(made) => logged(
                &before.audit,
                &after.audit,
                Act::TokenCreate { name: made.0.name },
                *who,
                now,
            ),
            Err(_) => after.audit == before.audit,
        }
    }

    /// A new API token of one's own, shown this once.
    pub fn new_token(
        &mut self,
        who: &Caller,
        name: &str,
        expires_in_days: Option<u32>,
        now: i64,
    ) -> (added: Result<(ApiToken, String), Refused>)
        requires
            old(self).wf(),
            token_end(expires_in_days, now) matches Some(end) ==> end <= i64::MAX,
        ensures
            final(self).wf(),
            AppState::new_token_does(
                old(self),
                final(self),
                who,
                name,
                expires_in_days,
                now,
                added,
            ),
    {
        let added = self.accounts.new_api_token(&who.user, name, expires_in_days, now);
        if let Ok(made) = &added {
            let act = Act::TokenCreate { name: made.0.name.as_str().to_owned() };
            self.record(who, &act, now);
        }
        added
    }

    /// What `delete_token` does.
    pub open spec fn delete_token_does(
        before: &AppState,
        after: &AppState,
        who: &Caller,
        id: i64,
        now: i64,
        deleted: Result<(), Refused>,
    ) -> bool {
        &&& AppState::only_accounts(before, after)
        &&& Accounts::delete_api_token_does(
            &before.accounts,
            &after.accounts,
            &who.user,
            id,
            deleted,
        )
        &&& match deleted {
            Ok(()) => logged(
                &before.audit,
                &after.audit,
                Act::TokenDelete { id },
                *who,
                now,
            ),
            Err(_) => after.audit == before.audit,
        }
    }

    /// Delete an API token of one's own.
    pub fn delete_token(
        &mut self,
        who: &Caller,
        id: i64,
        now: i64,
    ) -> (deleted: Result<(), Refused>)
        requires
            old(self).wf(),
        ensures
            final(self).wf(),
            AppState::delete_token_does(
                old(self),
                final(self),
                who,
                id,
                now,
                deleted,
            ),
    {
        let deleted = self.accounts.delete_api_token(&who.user, id);
        if let Ok(()) = &deleted {
            let act = Act::TokenDelete { id };
            self.record(who, &act, now);
        }
        deleted
    }

    /// What `create_user` does.
    pub open spec fn create_user_does(
        before: &AppState,
        after: &AppState,
        admin: &Admin,
        name: &str,
        password: &str,
        as_admin: bool,
        now: i64,
        made: Result<User, Refused>,
    ) -> bool {
        &&& AppState::only_accounts(before, after)
        &&& Accounts::create_user_does(
            &before.accounts,
            &after.accounts,
            name,
            password,
            as_admin,
            now,
            made,
        )
        &&& match made {
            Ok(user) => logged(
                &before.audit,
                &after.audit,
                Act::UserCreate { name: user.name, admin: user.admin },
                admin.0,
                now,
            ),
            Err(_) => after.audit == before.audit,
        }
    }

    /// A new account.
    pub fn create_user(
        &mut self,
        admin: &Admin,
        name: &str,
        password: &str,
        as_admin: bool,
        now: i64,
    ) -> (made: Result<User, Refused>)
        requires
            old(self).wf(),
        ensures
            final(self).wf(),
            AppState::create_user_does(
                old(self),
                final(self),
                admin,
                name,
                password,
                as_admin,
                now,
                made,
            ),
    {
        let made = self.accounts.create_user(name, password, as_admin, now);
        if let Ok(user) = &made {
            let act = Act::UserCreate { name: user.name.as_str().to_owned(), admin: user.admin };
            self.record(&admin.0, &act, now);
        }
        made
    }

    /// What `update_user` does.
    pub open spec fn update_user_does(
        before: &AppState,
        after: &AppState,
        admin: &Admin,
        id: i64,
        as_admin: Option<bool>,
        disabled: Option<bool>,
        now: i64,
        changed: Result<User, Refused>,
    ) -> bool {
        &&& AppState::only_accounts(before, after)
        &&& Accounts::update_user_does(
            &before.accounts,
            &after.accounts,
            id,
            as_admin,
            disabled,
            changed,
        )
        &&& match changed {
            Ok(user) => logged(
                &before.audit,
                &after.audit,
                Act::UserUpdate { name: user.name, admin: user.admin, disabled: user.disabled },
                admin.0,
                now,
            ),
            Err(_) => after.audit == before.audit,
        }
    }

    /// Make someone an administrator, or not; let them in, or not.
    pub fn update_user(
        &mut self,
        admin: &Admin,
        id: i64,
        as_admin: Option<bool>,
        disabled: Option<bool>,
        now: i64,
    ) -> (changed: Result<User, Refused>)
        requires
            old(self).wf(),
        ensures
            final(self).wf(),
            AppState::update_user_does(
                old(self),
                final(self),
                admin,
                id,
                as_admin,
                disabled,
                now,
                changed,
            ),
    {
        let changed = self.accounts.update_user(id, as_admin, disabled);
        if let Ok(user) = &changed {
            let act = Act::UserUpdate {
                name: user.name.as_str().to_owned(),
                admin: user.admin,
                disabled: user.disabled,
            };
            self.record(&admin.0, &act, now);
        }
        changed
    }

    /// What `delete_user` does.
    pub open spec fn delete_user_does(
        before: &AppState,
        after: &AppState,
        admin: &Admin,
        id: i64,
        now: i64,
        deleted: Result<(), Refused>,
    ) -> bool {
        &&& after.devices == before.devices
        &&& after.releases == before.releases
        &&& after.registry == before.registry
        &&& after.server == before.server
        &&& Accounts::delete_user_does(&before.accounts, &after.accounts, id, deleted)
        &&& match deleted {
            Ok(()) => {
                let i = at(before.accounts.users@, id);
                &&& 0 <= i < before.accounts.users@.len()
                &&& Grants::forget_user_does(&before.grants, &after.grants, id)
                &&& logged(
                    &before.audit,
                    &after.audit,
                    Act::UserDelete { id, was: Some(before.accounts.users@[i].name) },
                    admin.0,
                    now,
                )
            },
            Err(_) => after.grants == before.grants && after.audit == before.audit,
        }
    }

    /// Delete an account, with what is theirs and their place in groups.
    pub fn delete_user(&mut self, admin: &Admin, id: i64, now: i64) -> (deleted: Result<
        (),
        Refused,
    >)
        requires
            old(self).wf(),
        ensures
            final(self).wf(),
            AppState::delete_user_does(
                old(self),
                final(self),
                admin,
                id,
                now,
                deleted,
            ),
    {
        let was = match self.accounts.user(id) {
            Some(user) => Some(user.name),
            None => None,
        };
        proof {
            lemma_at(self.accounts.users@, id);
        }
        let deleted = self.accounts.delete_user(id);
        if deleted.is_ok() {
            self.grants.forget_user(id);
            let act = Act::UserDelete { id, was };
            self.record(&admin.0, &act, now);
        }
        deleted
    }

    // --- Devices ----------------------------------------------------------------------------

    /// Whether a device is connected.
    pub open spec fn connected(&self, record: &DeviceRecord) -> bool {
        &&& self.registry.agents().contains_key(record.number)
        &&& self.registry.agents()[record.number].fingerprint@ == record.fingerprint@
    }

    /// Whether the device with this number is connected.
    pub open spec fn present(&self, id: i64) -> bool {
        let i = at(self.devices.devices@, id);
        i >= 0 && self.connected(&self.devices.devices@[i])
    }

    fn with_presence(&self, id: i64) -> (online: bool)
        ensures
            online == self.present(id),
    {
        match find(&self.devices.devices, id) {
            Some(i) => {
                let record = &self.devices.devices[i];
                self.registry.online(record.number, &record.fingerprint).is_some()
            },
            None => false,
        }
    }

    /// Rename a device, or move it to a group or out of one. A device that is
    /// renamed but cannot be moved, since there is no such group, has changed:
    /// that goes in the log too.
    pub fn update_device(
        &mut self,
        admin: &Admin,
        id: i64,
        name: Option<&str>,
        group: Option<Option<i64>>,
        now: i64,
    ) -> (changed: Result<Device, Refused>)
        requires
            old(self).wf(),
        ensures
            final(self).wf(),
            AppState::only_devices(old(self), final(self)),
            match changed {
                Ok(device) => {
                    &&& Devices::update_device_does(
                        &old(self).devices,
                        &final(self).devices,
                        id,
                        name,
                        group,
                        Ok((Device { online: false, ..device })),
                    )
                    &&& device.online == final(self).present(id)
                    &&& logged(
                        &old(self).audit,
                        &final(self).audit,
                        Act::DeviceUpdate { name: device.name, group: device.group },
                        admin.0,
                        now,
                    )
                },
                Err(refused) => {
                    &&& Devices::update_device_does(
                        &old(self).devices,
                        &final(self).devices,
                        id,
                        name,
                        group,
                        Err(refused),
                    )
                    &&& if name is Some && at(old(self).devices.devices@, id) >= 0
                        && refused is NotFound {
                        exists|device: Device|
                            {
                                &&& #[trigger] device.shows(
                                    &final(self).devices.devices@[at(
                                        old(self).devices.devices@,
                                        id,
                                    )],
                                    final(self).devices.groups@,
                                )
                                &&& logged(
                                    &old(self).audit,
                                    &final(self).audit,
                                    Act::DeviceUpdate { name: device.name, group: device.group },
                                    admin.0,
                                    now,
                                )
                            }
                    } else {
                        final(self).audit == old(self).audit
                    }
                },
            },
    {
        let ghost i = at(self.devices.devices@, id);
        proof {
            lemma_at(self.devices.devices@, id);
        }
        match self.devices.update_device(id, name, group) {
            Ok(device) => {
                let act = Act::DeviceUpdate {
                    name: device.name.as_str().to_owned(),
                    group: copy_words(&device.group),
                };
                self.record(&admin.0, &act, now);
                let mut device = device;
                let ghost plain = device;
                device.online = self.with_presence(id);
                assert((Device { online: false, ..device }) == plain);
                Ok(device)
            },
            Err(refused) => {
                let not_found = match &refused {
                    Refused::NotFound => true,
                    _ => false,
                };
                if name.is_some() && not_found {
                    proof {
                        if i >= 0 {
                            lemma_at_same(old(self).devices.devices@, self.devices.devices@, id);
                        }
                    }
                    match self.devices.device(id) {
                        Ok(device) => {
                            let act = Act::DeviceUpdate { name: device.name, group: device.group };
                            self.record(&admin.0, &act, now);
                            assert(device.shows(
                                &self.devices.devices@[i],
                                self.devices.groups@,
                            ));
                        },
                        Err(_) => {},
                    }
                }
                Err(refused)
            },
        }
    }

    /// What `delete_device` does.
    pub open spec fn delete_device_does(
        before: &AppState,
        after: &AppState,
        admin: &Admin,
        id: i64,
        now: i64,
        deleted: Result<(), Refused>,
    ) -> bool {
        &&& AppState::only_devices(before, after)
        &&& Devices::delete_device_does(&before.devices, &after.devices, id, deleted)
        &&& match deleted {
            Ok(()) => {
                let i = at(before.devices.devices@, id);
                &&& 0 <= i < before.devices.devices@.len()
                &&& told(
                    &before.audit,
                    &after.audit,
                    admin.0,
                    "device.delete"@,
                    before.devices.devices@[i].name@,
                    Some(before.devices.devices@[i].number.written()),
                    now,
                )
            },
            Err(_) => after.audit == before.audit,
        }
    }

    /// Forget a device.
    pub fn delete_device(&mut self, admin: &Admin, id: i64, now: i64) -> (deleted: Result<
        (),
        Refused,
    >)
        requires
            old(self).wf(),
        ensures
            final(self).wf(),
            AppState::delete_device_does(
                old(self),
                final(self),
                admin,
                id,
                now,
                deleted,
            ),
    {
        let device = match self.devices.device(id) {
            Ok(device) => device,
            Err(refused) => {
                proof {
                    lemma_at(self.devices.devices@, id);
                }
                return Err(refused);
            },
        };
        proof {
            lemma_at(self.devices.devices@, id);
        }
        let deleted = self.devices.delete_device(id);
        if deleted.is_ok() {
            let act = Act::DeviceDelete { name: device.name, device_id: device.device_id };
            self.record(&admin.0, &act, now);
        }
        deleted
    }

    /// What `create_group` does.
    pub open spec fn create_group_does(
        before: &AppState,
        after: &AppState,
        admin: &Admin,
        name: &str,
        now: i64,
        made: Result<Group, Refused>,
    ) -> bool {
        &&& AppState::only_devices(before, after)
        &&& Devices::create_group_does(
            &before.devices,
            &after.devices,
            name,
            now,
            made,
        )
        &&& match made {
            Ok(group) => logged(
                &before.audit,
                &after.audit,
                Act::DeviceGroupCreate { name: group.name },
                admin.0,
                now,
            ),
            Err(_) => after.audit == before.audit,
        }
    }

    /// A new group of devices.
    pub fn create_group(
        &mut self,
        admin: &Admin,
        name: &str,
        now: i64,
    ) -> (made: Result<Group, Refused>)
        requires
            old(self).wf(),
            old(self).devices.devices@.len() <= i64::MAX,
        ensures
            final(self).wf(),
            AppState::create_group_does(
                old(self),
                final(self),
                admin,
                name,
                now,
                made,
            ),
    {
        let made = self.devices.create_group(name, now);
        if let Ok(group) = &made {
            let act = Act::DeviceGroupCreate { name: group.name.as_str().to_owned() };
            self.record(&admin.0, &act, now);
        }
        made
    }

    /// What `rename_group` does.
    pub open spec fn rename_group_does(
        before: &AppState,
        after: &AppState,
        admin: &Admin,
        id: i64,
        name: &str,
        now: i64,
        renamed: Result<Group, Refused>,
    ) -> bool {
        &&& AppState::only_devices(before, after)
        &&& at(before.devices.groups@, id) < 0 ==> (renamed matches Err(
            Refused::NotFound,
        ) && after.devices == before.devices)
        &&& at(before.devices.groups@, id) >= 0 ==> Devices::rename_group_does(
            &before.devices,
            &after.devices,
            id,
            name,
            renamed,
        )
        &&& match renamed {
            Ok(group) => {
                let i = at(before.devices.groups@, id);
                &&& 0 <= i < before.devices.groups@.len()
                &&& logged(
                    &before.audit,
                    &after.audit,
                    Act::DeviceGroupRename {
                        before: before.devices.groups@[i].name,
                        name: group.name,
                    },
                    admin.0,
                    now,
                )
            },
            Err(_) => after.audit == before.audit,
        }
    }

    /// Rename a group of devices.
    pub fn rename_group(&mut self, admin: &Admin, id: i64, name: &str, now: i64) -> (renamed: Result<
        Group,
        Refused,
    >)
        requires
            old(self).wf(),
            old(self).devices.devices@.len() <= i64::MAX,
        ensures
            final(self).wf(),
            AppState::rename_group_does(
                old(self),
                final(self),
                admin,
                id,
                name,
                now,
                renamed,
            ),
    {
        proof {
            lemma_at(self.devices.groups@, id);
        }
        let before = match find(&self.devices.groups, id) {
            Some(i) => self.devices.groups[i].name.as_str().to_owned(),
            None => {
                return Err(Refused::NotFound);
            },
        };
        let renamed = self.devices.rename_group(id, name);
        if let Ok(group) = &renamed {
            let act = Act::DeviceGroupRename { before, name: group.name.as_str().to_owned() };
            self.record(&admin.0, &act, now);
        }
        renamed
    }

    /// What `delete_group` does.
    pub open spec fn delete_group_does(
        before: &AppState,
        after: &AppState,
        admin: &Admin,
        id: i64,
        now: i64,
        deleted: Result<(), Refused>,
    ) -> bool {
        &&& after.accounts == before.accounts
        &&& after.releases == before.releases
        &&& after.registry == before.registry
        &&& after.server == before.server
        &&& Devices::delete_group_does(&before.devices, &after.devices, id, deleted)
        &&& match deleted {
            Ok(()) => {
                let i = at(before.devices.groups@, id);
                &&& 0 <= i < before.devices.groups@.len()
                &&& Grants::forget_device_group_does(&before.grants, &after.grants, id)
                &&& logged(
                    &before.audit,
                    &after.audit,
                    Act::DeviceGroupDelete { name: before.devices.groups@[i].name },
                    admin.0,
                    now,
                )
            },
            Err(_) => after.grants == before.grants && after.audit == before.audit,
        }
    }

    /// Delete a group of devices, with the grants on it. The devices stay.
    pub fn delete_group(&mut self, admin: &Admin, id: i64, now: i64) -> (deleted: Result<
        (),
        Refused,
    >)
        requires
            old(self).wf(),
        ensures
            final(self).wf(),
            AppState::delete_group_does(
                old(self),
                final(self),
                admin,
                id,
                now,
                deleted,
            ),
    {
        proof {
            lemma_at(self.devices.groups@, id);
        }
        let name = match find(&self.devices.groups, id) {
            Some(i) => self.devices.groups[i].name.as_str().to_owned(),
            None => String::new(),
        };
        let deleted = self.devices.delete_group(id);
        if deleted.is_ok() {
            self.grants.forget_device_group(id);
            let act = Act::DeviceGroupDelete { name };
            self.record(&admin.0, &act, now);
        }
        deleted
    }

    /// What `new_enroll_token` does.
    pub open spec fn new_enroll_token_does(
        before: &AppState,
        after: &AppState,
        admin: &Admin,
        name: &str,
        group_id: Option<i64>,
        uses: Option<u32>,
        expires_in_days: u32,
        now: i64,
        added: Result<(EnrollToken, String), Refused>,
    ) -> bool {
        &&& AppState::only_devices(before, after)
        &&& Devices::new_enroll_token_does(
            &before.devices,
            &after.devices,
            &admin.0.user,
            name,
            group_id,
            uses,
            expires_in_days,
            now,
            added,
        )
        &&& match added {
            Ok(made) => logged(
                &before.audit,
                &after.audit,
                Act::EnrollTokenCreate {
                    name: made.0.name,
                    uses: made.0.uses_left,
                    days: expires_in_days,
                    group_id,
                },
                admin.0,
                now,
            ),
            Err(_) => after.audit == before.audit,
        }
    }

    /// A new enrollment token, shown this once.
    pub fn new_enroll_token(
        &mut self,
        admin: &Admin,
        name: &str,
        group_id: Option<i64>,
        uses: Option<u32>,
        expires_in_days: u32,
        now: i64,
    ) -> (added: Result<(EnrollToken, String), Refused>)
        requires
            old(self).wf(),
            now + MAX_ENROLL_DAYS * 86_400 <= i64::MAX,
        ensures
            final(self).wf(),
            AppState::new_enroll_token_does(
                old(self),
                final(self),
                admin,
                name,
                group_id,
                uses,
                expires_in_days,
                now,
                added,
            ),
    {
        let added = self.devices.new_enroll_token(
            &admin.0.user,
            name,
            group_id,
            uses,
            expires_in_days,
            now,
        );
        if let Ok(made) = &added {
            let act = Act::EnrollTokenCreate {
                name: made.0.name.as_str().to_owned(),
                uses: made.0.uses_left,
                days: expires_in_days,
                group_id,
            };
            self.record(&admin.0, &act, now);
        }
        added
    }

    /// Delete an enrollment token; those that no longer work are gone already.
    pub fn delete_enroll_token(&mut self, admin: &Admin, id: i64, now: i64) -> (deleted: Result<
        (),
        Refused,
    >)
        requires
            old(self).wf(),
        ensures
            final(self).wf(),
            AppState::only_devices(old(self), final(self)),
            exists|swept: Devices, listed: Vec<EnrollToken>|
                {
                    &&& #[trigger] Devices::enroll_tokens_does(
                        &old(self).devices,
                        &swept,
                        now,
                        listed,
                    )
                    &&& Devices::delete_enroll_token_does(
                        &swept,
                        &final(self).devices,
                        id,
                        deleted,
                    )
                    &&& match deleted {
                        Ok(()) => {
                            let i = at(swept.tokens@, id);
                            &&& 0 <= i < swept.tokens@.len()
                            &&& logged(
                                &old(self).audit,
                                &final(self).audit,
                                Act::EnrollTokenDelete { id, was: Some(swept.tokens@[i].name) },
                                admin.0,
                                now,
                            )
                        },
                        Err(_) => final(self).audit == old(self).audit,
                    }
                },
    {
        let listed = self.devices.enroll_tokens(now);
        let ghost swept = self.devices;
        proof {
            lemma_at(swept.tokens@, id);
        }
        let was = match find(&self.devices.tokens, id) {
            Some(i) => Some(self.devices.tokens[i].name.as_str().to_owned()),
            None => None,
        };
        let deleted = self.devices.delete_enroll_token(id);
        if deleted.is_ok() {
            let act = Act::EnrollTokenDelete { id, was };
            self.record(&admin.0, &act, now);
        }
        assert(Devices::enroll_tokens_does(&old(self).devices, &swept, now, listed));
        deleted
    }

    /// These are the devices that someone sees.
    pub open spec fn lists(&self, who: &Caller, seen: Seq<Device>) -> bool {
        exists|roles: Seq<Reachable>, devices: Seq<Device>|
            {
                let online = Seq::new(devices.len(), |i: int| self.present(devices[i].id));
                &&& #[trigger] self.grants.reached(
                    who.user.id,
                    self.accounts.users@,
                    self.devices.devices@,
                    roles,
                )
                &&& #[trigger] self.devices.all_listed(devices)
                &&& all_seen(who.user.admin, roles, devices, online, seen)
            }
    }

    /// The devices that someone sees.
    pub fn list_devices(&self, who: &Caller) -> (seen: Vec<Device>)
        ensures
            self.lists(who, seen@),
    {
        let roles = self.grants.reachable(
            who.user.id,
            &self.accounts.users,
            &self.devices.devices,
        );
        let devices = self.devices.devices();
        let mut online: Vec<bool> = Vec::new();
        let mut i: usize = 0;
        while i < devices.len()
            invariant
                i <= devices@.len(),
                online@.len() == i,
                forall|j: int| 0 <= j < i ==> online@[j] == self.present(devices@[j].id),
            decreases devices.len() - i,
        {
            online.push(self.with_presence(devices[i].id));
            i = i + 1;
        }
        assert(online@ =~= Seq::new(
            devices@.len(),
            |j: int| self.present(devices@[j].id),
        ));
        list_devices(&who.user, &roles, &devices, &online)
    }

    /// This is what someone who asks for a device gets.
    pub open spec fn gets(&self, who: &Caller, id: i64, seen: &Result<Device, ApiError>) -> bool {
        exists|roles: Seq<Reachable>|
            {
                let i = at(self.devices.devices@, id);
                &&& #[trigger] self.grants.reached(
                    who.user.id,
                    self.accounts.users@,
                    self.devices.devices@,
                    roles,
                )
                &&& if i < 0 || !(who.user.admin || role_in(roles, id) is Some) {
                    seen matches Err(error) && error == ApiError::Refused(Refused::NotFound)
                } else {
                    seen matches Ok(device) && device.shows(
                        &self.devices.devices@[i],
                        self.devices.groups@,
                    ) && device.online == self.present(id) && words(device.role) == (
                    match role_in(roles, id) {
                        Some(role) => Some(role.name()),
                        None => None,
                    })
                }
            }
    }

    /// One device, for someone who may see it.
    pub fn get_device(&self, who: &Caller, id: i64) -> (seen: Result<Device, ApiError>)
        ensures
            self.gets(who, id, &seen),
    {
        let roles = self.grants.reachable(
            who.user.id,
            &self.accounts.users,
            &self.devices.devices,
        );
        proof {
            lemma_at(self.devices.devices@, id);
        }
        get_device(&who.user, &roles, self.devices.device(id), self.with_presence(id))
    }

    // --- User groups and grants ------------------------------------------------------------

    /// What `create_user_group` does.
    pub open spec fn create_user_group_does(
        before: &AppState,
        after: &AppState,
        admin: &Admin,
        name: &str,
        now: i64,
        made: Result<UserGroup, Refused>,
    ) -> bool {
        &&& AppState::only_grants(before, after)
        &&& Grants::create_user_group_does(
            &before.grants,
            &after.grants,
            name,
            before.accounts.users@,
            now,
            made,
        )
        &&& match made {
            Ok(group) => logged(
                &before.audit,
                &after.audit,
                Act::UserGroupCreate { name: group.name },
                admin.0,
                now,
            ),
            Err(_) => after.audit == before.audit,
        }
    }

    /// A new group of users.
    pub fn create_user_group(
        &mut self,
        admin: &Admin,
        name: &str,
        now: i64,
    ) -> (made: Result<UserGroup, Refused>)
        requires
            old(self).wf(),
        ensures
            final(self).wf(),
            AppState::create_user_group_does(
                old(self),
                final(self),
                admin,
                name,
                now,
                made,
            ),
    {
        let made = self.grants.create_user_group(name, &self.accounts.users, now);
        if let Ok(group) = &made {
            let act = Act::UserGroupCreate { name: group.name.as_str().to_owned() };
            self.record(&admin.0, &act, now);
        }
        made
    }

    /// What `rename_user_group` does.
    pub open spec fn rename_user_group_does(
        before: &AppState,
        after: &AppState,
        admin: &Admin,
        id: i64,
        name: &str,
        now: i64,
        renamed: Result<UserGroup, Refused>,
    ) -> bool {
        &&& AppState::only_grants(before, after)
        &&& at(before.grants.groups@, id) < 0 ==> (renamed matches Err(
            Refused::NotFound,
        ) && after.grants == before.grants)
        &&& at(before.grants.groups@, id) >= 0 ==> Grants::rename_user_group_does(
            &before.grants,
            &after.grants,
            id,
            name,
            before.accounts.users@,
            renamed,
        )
        &&& match renamed {
            Ok(group) => {
                let i = at(before.grants.groups@, id);
                &&& 0 <= i < before.grants.groups@.len()
                &&& logged(
                    &before.audit,
                    &after.audit,
                    Act::UserGroupRename {
                        before: before.grants.groups@[i].name,
                        name: group.name,
                    },
                    admin.0,
                    now,
                )
            },
            Err(_) => after.audit == before.audit,
        }
    }

    /// Rename a group of users.
    pub fn rename_user_group(&mut self, admin: &Admin, id: i64, name: &str, now: i64) -> (renamed:
        Result<UserGroup, Refused>)
        requires
            old(self).wf(),
        ensures
            final(self).wf(),
            AppState::rename_user_group_does(
                old(self),
                final(self),
                admin,
                id,
                name,
                now,
                renamed,
            ),
    {
        proof {
            lemma_at(self.grants.groups@, id);
        }
        let before = match find(&self.grants.groups, id) {
            Some(i) => self.grants.groups[i].name.as_str().to_owned(),
            None => {
                return Err(Refused::NotFound);
            },
        };
        let renamed = self.grants.rename_user_group(id, name, &self.accounts.users);
        if let Ok(group) = &renamed {
            let act = Act::UserGroupRename { before, name: group.name.as_str().to_owned() };
            self.record(&admin.0, &act, now);
        }
        renamed
    }

    /// What `delete_user_group` does.
    pub open spec fn delete_user_group_does(
        before: &AppState,
        after: &AppState,
        admin: &Admin,
        id: i64,
        now: i64,
        deleted: Result<(), Refused>,
    ) -> bool {
        &&& AppState::only_grants(before, after)
        &&& Grants::delete_user_group_does(&before.grants, &after.grants, id, deleted)
        &&& match deleted {
            Ok(()) => {
                let i = at(before.grants.groups@, id);
                &&& 0 <= i < before.grants.groups@.len()
                &&& logged(
                    &before.audit,
                    &after.audit,
                    Act::UserGroupDelete { name: before.grants.groups@[i].name },
                    admin.0,
                    now,
                )
            },
            Err(_) => after.audit == before.audit,
        }
    }

    /// Delete a group of users, with its grants.
    pub fn delete_user_group(&mut self, admin: &Admin, id: i64, now: i64) -> (deleted: Result<
        (),
        Refused,
    >)
        requires
            old(self).wf(),
        ensures
            final(self).wf(),
            AppState::delete_user_group_does(
                old(self),
                final(self),
                admin,
                id,
                now,
                deleted,
            ),
    {
        proof {
            lemma_at(self.grants.groups@, id);
        }
        let name = match find(&self.grants.groups, id) {
            Some(i) => self.grants.groups[i].name.as_str().to_owned(),
            None => String::new(),
        };
        let deleted = self.grants.delete_user_group(id);
        if deleted.is_ok() {
            let act = Act::UserGroupDelete { name };
            self.record(&admin.0, &act, now);
        }
        deleted
    }

    /// What someone is called; their number if they are gone.
    pub open spec fn known_as(&self, user: i64) -> Option<String> {
        let i = at(self.accounts.users@, user);
        if i >= 0 {
            Some(self.accounts.users@[i].name)
        } else {
            None
        }
    }

    fn user_name(&self, user: i64) -> (name: Option<String>)
        ensures
            words(name) == words(self.known_as(user)),
    {
        proof {
            lemma_at(self.accounts.users@, user);
        }
        match self.accounts.user(user) {
            Some(user) => Some(user.name),
            None => None,
        }
    }

    /// What `add_member` does.
    pub open spec fn add_member_does(
        before: &AppState,
        after: &AppState,
        admin: &Admin,
        id: i64,
        user: i64,
        now: i64,
        done: Result<UserGroup, Refused>,
    ) -> bool {
        &&& AppState::only_grants(before, after)
        &&& Grants::add_member_does(
            &before.grants,
            &after.grants,
            id,
            user,
            before.accounts.users@,
            done,
        )
        &&& match done {
            Ok(group) => logged(
                &before.audit,
                &after.audit,
                Act::UserGroupAdd {
                    user_group: group.name,
                    user,
                    was: before.known_as(user),
                },
                admin.0,
                now,
            ),
            Err(_) => after.audit == before.audit,
        }
    }

    /// Put someone in a group.
    pub fn add_member(&mut self, admin: &Admin, id: i64, user: i64, now: i64) -> (done: Result<
        UserGroup,
        Refused,
    >)
        requires
            old(self).wf(),
        ensures
            final(self).wf(),
            AppState::add_member_does(
                old(self),
                final(self),
                admin,
                id,
                user,
                now,
                done,
            ),
    {
        let done = self.grants.add_member(id, user, &self.accounts.users);
        if let Ok(group) = &done {
            let was = self.user_name(user);
            let act = Act::UserGroupAdd {
                user_group: group.name.as_str().to_owned(),
                user,
                was,
            };
            self.record(&admin.0, &act, now);
        }
        done
    }

    /// What `remove_member` does.
    pub open spec fn remove_member_does(
        before: &AppState,
        after: &AppState,
        admin: &Admin,
        id: i64,
        user: i64,
        now: i64,
        done: Result<UserGroup, Refused>,
    ) -> bool {
        &&& AppState::only_grants(before, after)
        &&& Grants::remove_member_does(
            &before.grants,
            &after.grants,
            id,
            user,
            before.accounts.users@,
            done,
        )
        &&& match done {
            Ok(group) => logged(
                &before.audit,
                &after.audit,
                Act::UserGroupRemove {
                    user_group: group.name,
                    user,
                    was: before.known_as(user),
                },
                admin.0,
                now,
            ),
            Err(_) => after.audit == before.audit,
        }
    }

    /// Take someone out of a group.
    pub fn remove_member(&mut self, admin: &Admin, id: i64, user: i64, now: i64) -> (done: Result<
        UserGroup,
        Refused,
    >)
        requires
            old(self).wf(),
        ensures
            final(self).wf(),
            AppState::remove_member_does(
                old(self),
                final(self),
                admin,
                id,
                user,
                now,
                done,
            ),
    {
        let done = self.grants.remove_member(id, user, &self.accounts.users);
        if let Ok(group) = &done {
            let was = self.user_name(user);
            let act = Act::UserGroupRemove {
                user_group: group.name.as_str().to_owned(),
                user,
                was,
            };
            self.record(&admin.0, &act, now);
        }
        done
    }

    /// What `set_grant` does.
    pub open spec fn set_grant_does(
        before: &AppState,
        after: &AppState,
        admin: &Admin,
        user_group: i64,
        device_group: i64,
        role: Role,
        now: i64,
        set: Result<GrantRule, Refused>,
    ) -> bool {
        &&& AppState::only_grants(before, after)
        &&& Grants::set_grant_does(
            &before.grants,
            &after.grants,
            user_group,
            device_group,
            role,
            before.devices.groups@,
            now,
            set,
        )
        &&& match set {
            Ok(rule) => logged(
                &before.audit,
                &after.audit,
                Act::GrantSet {
                    user_group: rule.user_group,
                    device_group: rule.device_group,
                    role: rule.role,
                },
                admin.0,
                now,
            ),
            Err(_) => after.audit == before.audit,
        }
    }

    /// Let a group of users at a group of devices.
    pub fn set_grant(
        &mut self,
        admin: &Admin,
        user_group: i64,
        device_group: i64,
        role: Role,
        now: i64,
    ) -> (set: Result<GrantRule, Refused>)
        requires
            old(self).wf(),
        ensures
            final(self).wf(),
            AppState::set_grant_does(
                old(self),
                final(self),
                admin,
                user_group,
                device_group,
                role,
                now,
                set,
            ),
    {
        let set = self.grants.set_grant(user_group, device_group, role, &self.devices.groups, now);
        if let Ok(rule) = &set {
            let act = Act::GrantSet {
                user_group: rule.user_group.as_str().to_owned(),
                device_group: rule.device_group.as_str().to_owned(),
                role: rule.role.as_str().to_owned(),
            };
            self.record(&admin.0, &act, now);
        }
        set
    }

    /// What `delete_grant` does.
    pub open spec fn delete_grant_does(
        before: &AppState,
        after: &AppState,
        admin: &Admin,
        id: i64,
        now: i64,
        deleted: Result<(), Refused>,
    ) -> bool {
        &&& AppState::only_grants(before, after)
        &&& ({
            let i = at(before.grants.grants@, id);
            let record = before.grants.grants@[i];
            let users = before.grants.groups@;
            let devices = before.devices.groups@;
            if i < 0 || !joined(users, devices)(record) {
                &&& deleted matches Err(Refused::NotFound)
                &&& after.grants == before.grants
                &&& after.audit == before.audit
            } else {
                &&& Grants::delete_grant_does(
                    &before.grants,
                    &after.grants,
                    id,
                    deleted,
                )
                &&& deleted is Ok
                &&& told(
                    &before.audit,
                    &after.audit,
                    admin.0,
                    "grant.delete"@,
                    between(
                        users[at(users, record.user_group)].name@,
                        devices[at(devices, record.device_group)].name@,
                    ),
                    Some(record.role.name()),
                    now,
                )
            }
        })
    }

    /// Take back a grant. One whose groups are gone is as good as gone too.
    pub fn delete_grant(&mut self, admin: &Admin, id: i64, now: i64) -> (deleted: Result<
        (),
        Refused,
    >)
        requires
            old(self).wf(),
        ensures
            final(self).wf(),
            AppState::delete_grant_does(
                old(self),
                final(self),
                admin,
                id,
                now,
                deleted,
            ),
    {
        let rule = match self.grants.rule(id, &self.devices.groups) {
            Some(rule) => rule,
            None => {
                return Err(Refused::NotFound);
            },
        };
        let deleted = self.grants.delete_grant(id);
        if deleted.is_ok() {
            let act = Act::GrantDelete {
                user_group: rule.user_group,
                device_group: rule.device_group,
                role: rule.role,
            };
            self.record(&admin.0, &act, now);
        }
        deleted
    }

    /// What `device_grant` does.
    pub open spec fn device_grant_does(
        before: &AppState,
        after: &AppState,
        who: &Caller,
        id: i64,
        now: i64,
        granted: Result<Reachable, ApiError>,
    ) -> bool {
        &&& AppState::only_accounts(before, after)
        &&& after.accounts == before.accounts
        &&& (exists|roles: Seq<Reachable>|
            {
                let i = reachable_at(roles, id, 0);
                &&& #[trigger] before.grants.reached(
                    who.user.id,
                    before.accounts.users@,
                    before.devices.devices@,
                    roles,
                )
                &&& if 0 <= i < roles.len() {
                    &&& granted matches Ok(device) && device == roles[i]
                    &&& after.audit == before.audit
                } else {
                    &&& granted matches Err(error) && error == ApiError::Refused(
                        Refused::NotFound,
                    )
                    &&& logged(
                        &before.audit,
                        &after.audit,
                        Act::SessionRefuse { id },
                        *who,
                        now,
                    )
                }
            })
    }

    /// The device that someone may have a grant for, for the web viewer. That
    /// there is none goes in the log.
    pub fn device_grant(&mut self, who: &Caller, id: i64, now: i64) -> (granted: Result<
        Reachable,
        ApiError,
    >)
        requires
            old(self).wf(),
        ensures
            final(self).wf(),
            AppState::device_grant_does(
                old(self),
                final(self),
                who,
                id,
                now,
                granted,
            ),
    {
        let roles = self.grants.reachable(
            who.user.id,
            &self.accounts.users,
            &self.devices.devices,
        );
        match device_grant(&roles, id, who) {
            Ok(device) => Ok(device),
            Err((error, event)) => {
                self.write(&event, now);
                Err(error)
            },
        }
    }

    /// What `device_granted` does.
    pub open spec fn device_granted_does(
        before: &AppState,
        after: &AppState,
        who: &Caller,
        device: &Reachable,
        signed: Option<&[u8]>,
        now: i64,
        granted: Result<WebGrant, ApiError>,
    ) -> bool {
        &&& AppState::only_accounts(before, after)
        &&& after.accounts == before.accounts
        &&& match signed {
            Some(signed) => {
                &&& granted matches Ok(grant) && grant.shows(device, signed@)
                &&& logged(
                    &before.audit,
                    &after.audit,
                    Act::SessionGrant { device: device.number, level: device.role },
                    *who,
                    now,
                )
            },
            None => {
                &&& granted matches Err(ApiError::Refused(refused)) && refused.is_internal()
                &&& after.audit == before.audit
            },
        }
    }

    /// The grant, once it is signed and encoded.
    pub fn device_granted(
        &mut self,
        who: &Caller,
        device: &Reachable,
        signed: Option<&[u8]>,
        now: i64,
    ) -> (granted: Result<WebGrant, ApiError>)
        requires
            old(self).wf(),
        ensures
            final(self).wf(),
            AppState::device_granted_does(
                old(self),
                final(self),
                who,
                device,
                signed,
                now,
                granted,
            ),
    {
        match device_granted(device, signed, who) {
            Ok((grant, event)) => {
                self.write(&event, now);
                Ok(grant)
            },
            Err(error) => Err(error),
        }
    }

    // --- Releases ---------------------------------------------------------------------------

    /// What `upload_release` does.
    pub open spec fn upload_release_does(
        before: &AppState,
        after: &AppState,
        admin: &Admin,
        package: &[u8],
        signature: Result<Signed, String>,
        context: &[u8],
        now: i64,
        added: Result<Listed, Refused>,
    ) -> bool {
        &&& AppState::only_releases(before, after)
        &&& Releases::add_does(
            &before.releases,
            &after.releases,
            package,
            signature,
            context,
            now,
            added,
        )
        &&& match added {
            Ok(release) => told(
                &before.audit,
                &after.audit,
                admin.0,
                "release.upload"@,
                release_words(release),
                Some(release.sha256@),
                now,
            ),
            Err(_) => after.audit == before.audit,
        }
    }

    /// Take a package, if the signature file that came with it is the release
    /// key's signature over it.
    pub fn upload_release(
        &mut self,
        admin: &Admin,
        package: &[u8],
        signature: Result<Signed, String>,
        context: &[u8],
        now: i64,
    ) -> (added: Result<Listed, Refused>)
        requires
            old(self).wf(),
            hashable(package@.len()),
            signature matches Ok(signed) ==> hashable((context@ + signed.release.release@).len()),
        ensures
            final(self).wf(),
            AppState::upload_release_does(
                old(self),
                final(self),
                admin,
                package,
                signature,
                context,
                now,
                added,
            ),
    {
        let added = self.releases.add(package, signature, context, now);
        if let Ok(release) = &added {
            let act = Act::ReleaseUpload {
                release: release_name(release),
                sha256: release.sha256.as_str().to_owned(),
            };
            self.record(&admin.0, &act, now);
        }
        added
    }

    /// What `offer_release` does.
    pub open spec fn offer_release_does(
        before: &AppState,
        after: &AppState,
        admin: &Admin,
        id: i64,
        now: i64,
        done: Result<Listed, Refused>,
    ) -> bool {
        &&& AppState::only_releases(before, after)
        &&& Releases::offer_does(&before.releases, &after.releases, id, done)
        &&& match done {
            Ok(release) => told(
                &before.audit,
                &after.audit,
                admin.0,
                "release.offer"@,
                release_words(release),
                None,
                now,
            ),
            Err(_) => after.audit == before.audit,
        }
    }

    /// Offer a release to its product and platform's agents.
    pub fn offer_release(&mut self, admin: &Admin, id: i64, now: i64) -> (done: Result<
        Listed,
        Refused,
    >)
        requires
            old(self).wf(),
        ensures
            final(self).wf(),
            AppState::offer_release_does(
                old(self),
                final(self),
                admin,
                id,
                now,
                done,
            ),
    {
        let done = self.releases.offer(id);
        if let Ok(release) = &done {
            let act = Act::ReleaseOffer { release: release_name(release) };
            self.record(&admin.0, &act, now);
        }
        done
    }

    /// What `withdraw_release` does.
    pub open spec fn withdraw_release_does(
        before: &AppState,
        after: &AppState,
        admin: &Admin,
        id: i64,
        now: i64,
        done: Result<Listed, Refused>,
    ) -> bool {
        &&& AppState::only_releases(before, after)
        &&& Releases::withdraw_does(&before.releases, &after.releases, id, done)
        &&& match done {
            Ok(release) => told(
                &before.audit,
                &after.audit,
                admin.0,
                "release.withdraw"@,
                release_words(release),
                None,
                now,
            ),
            Err(_) => after.audit == before.audit,
        }
    }

    /// Stop offering a release.
    pub fn withdraw_release(&mut self, admin: &Admin, id: i64, now: i64) -> (done: Result<
        Listed,
        Refused,
    >)
        requires
            old(self).wf(),
        ensures
            final(self).wf(),
            AppState::withdraw_release_does(
                old(self),
                final(self),
                admin,
                id,
                now,
                done,
            ),
    {
        let done = self.releases.withdraw(id);
        if let Ok(release) = &done {
            let act = Act::ReleaseWithdraw { release: release_name(release) };
            self.record(&admin.0, &act, now);
        }
        done
    }

    /// What `delete_release` does.
    pub open spec fn delete_release_does(
        before: &AppState,
        after: &AppState,
        admin: &Admin,
        id: i64,
        now: i64,
        done: Result<Listed, Refused>,
    ) -> bool {
        &&& AppState::only_releases(before, after)
        &&& Releases::delete_does(&before.releases, &after.releases, id, done)
        &&& match done {
            Ok(release) => told(
                &before.audit,
                &after.audit,
                admin.0,
                "release.delete"@,
                release_words(release),
                None,
                now,
            ),
            Err(_) => after.audit == before.audit,
        }
    }

    /// Forget a release that is not on offer.
    pub fn delete_release(&mut self, admin: &Admin, id: i64, now: i64) -> (done: Result<
        Listed,
        Refused,
    >)
        requires
            old(self).wf(),
        ensures
            final(self).wf(),
            AppState::delete_release_does(
                old(self),
                final(self),
                admin,
                id,
                now,
                done,
            ),
    {
        let done = self.releases.delete(id);
        if let Ok(release) = &done {
            let act = Act::ReleaseDelete { release: release_name(release) };
            self.record(&admin.0, &act, now);
        }
        done
    }
}

// --- What requests come to ---------------------------------------------------------------------

/// Changing one's password goes in the log as that, under who did it; what is refused
/// leaves no entry.
pub proof fn lemma_change_password_is_logged(
    before: &AppState,
    after: &AppState,
    who: &Caller,
    current: &str,
    new: &str,
    now: i64,
    changed: Result<(), Refused>,
)
    requires
        AppState::change_password_does(
            before,
            after,
            who,
            current,
            new,
            now,
            changed,
        ),
        next_id(before.audit.entries@) is Some,
    ensures
        changed is Ok ==> {
            &&& after.audit.entries@.len() == before.audit.entries@.len() + 1
            &&& after.audit.entries@.last().action@ == "password.change"@
            &&& words(after.audit.entries@.last().actor) == Some(who.user.name@)
            &&& after.audit.entries@.last().at == now
            &&& after.audit.entries@.take(before.audit.entries@.len() as int)
                == before.audit.entries@
        },
        changed is Err ==> after.audit == before.audit,
{
    if changed is Ok {
        let (old_log, new_log) = (before.audit.entries@, after.audit.entries@);
        assert(new_log.take(old_log.len() as int) =~= new_log.drop_last());
    }
}

/// Putting a secret in force goes in the log as that, under who did it; what is refused
/// leaves no entry.
pub proof fn lemma_totp_confirm_is_logged(
    before: &AppState,
    after: &AppState,
    who: &Caller,
    code: &str,
    now: i64,
    confirmed: Result<(), Refused>,
)
    requires
        AppState::totp_confirm_does(
            before,
            after,
            who,
            code,
            now,
            confirmed,
        ),
        next_id(before.audit.entries@) is Some,
    ensures
        confirmed is Ok ==> {
            &&& after.audit.entries@.len() == before.audit.entries@.len() + 1
            &&& after.audit.entries@.last().action@ == "totp.enable"@
            &&& words(after.audit.entries@.last().actor) == Some(who.user.name@)
            &&& after.audit.entries@.last().at == now
            &&& after.audit.entries@.take(before.audit.entries@.len() as int)
                == before.audit.entries@
        },
        confirmed is Err ==> after.audit == before.audit,
{
    if confirmed is Ok {
        let (old_log, new_log) = (before.audit.entries@, after.audit.entries@);
        assert(new_log.take(old_log.len() as int) =~= new_log.drop_last());
    }
}

/// Giving up codes goes in the log as that, under who did it; what is refused
/// leaves no entry.
pub proof fn lemma_totp_disable_is_logged(
    before: &AppState,
    after: &AppState,
    who: &Caller,
    code: &str,
    now: i64,
    disabled: Result<(), Refused>,
)
    requires
        AppState::totp_disable_does(
            before,
            after,
            who,
            code,
            now,
            disabled,
        ),
        next_id(before.audit.entries@) is Some,
    ensures
        disabled is Ok ==> {
            &&& after.audit.entries@.len() == before.audit.entries@.len() + 1
            &&& after.audit.entries@.last().action@ == "totp.disable"@
            &&& words(after.audit.entries@.last().actor) == Some(who.user.name@)
            &&& after.audit.entries@.last().at == now
            &&& after.audit.entries@.take(before.audit.entries@.len() as int)
                == before.audit.entries@
        },
        disabled is Err ==> after.audit == before.audit,
{
    if disabled is Ok {
        let (old_log, new_log) = (before.audit.entries@, after.audit.entries@);
        assert(new_log.take(old_log.len() as int) =~= new_log.drop_last());
    }
}

/// Making an API token goes in the log as that, under who did it; what is refused
/// leaves no entry.
pub proof fn lemma_new_token_is_logged(
    before: &AppState,
    after: &AppState,
    who: &Caller,
    name: &str,
    expires_in_days: Option<u32>,
    now: i64,
    added: Result<(ApiToken, String), Refused>,
)
    requires
        AppState::new_token_does(
            before,
            after,
            who,
            name,
            expires_in_days,
            now,
            added,
        ),
        next_id(before.audit.entries@) is Some,
    ensures
        added is Ok ==> {
            &&& after.audit.entries@.len() == before.audit.entries@.len() + 1
            &&& after.audit.entries@.last().action@ == "token.create"@
            &&& words(after.audit.entries@.last().actor) == Some(who.user.name@)
            &&& after.audit.entries@.last().at == now
            &&& after.audit.entries@.take(before.audit.entries@.len() as int)
                == before.audit.entries@
        },
        added is Err ==> after.audit == before.audit,
{
    if added is Ok {
        let (old_log, new_log) = (before.audit.entries@, after.audit.entries@);
        assert(new_log.take(old_log.len() as int) =~= new_log.drop_last());
    }
}

/// Deleting an API token goes in the log as that, under who did it; what is refused
/// leaves no entry.
pub proof fn lemma_delete_token_is_logged(
    before: &AppState,
    after: &AppState,
    who: &Caller,
    id: i64,
    now: i64,
    deleted: Result<(), Refused>,
)
    requires
        AppState::delete_token_does(
            before,
            after,
            who,
            id,
            now,
            deleted,
        ),
        next_id(before.audit.entries@) is Some,
    ensures
        deleted is Ok ==> {
            &&& after.audit.entries@.len() == before.audit.entries@.len() + 1
            &&& after.audit.entries@.last().action@ == "token.delete"@
            &&& words(after.audit.entries@.last().actor) == Some(who.user.name@)
            &&& after.audit.entries@.last().at == now
            &&& after.audit.entries@.take(before.audit.entries@.len() as int)
                == before.audit.entries@
        },
        deleted is Err ==> after.audit == before.audit,
{
    if deleted is Ok {
        let (old_log, new_log) = (before.audit.entries@, after.audit.entries@);
        assert(new_log.take(old_log.len() as int) =~= new_log.drop_last());
    }
}

/// Making an account goes in the log as that, under who did it; what is refused
/// leaves no entry.
pub proof fn lemma_create_user_is_logged(
    before: &AppState,
    after: &AppState,
    admin: &Admin,
    name: &str,
    password: &str,
    as_admin: bool,
    now: i64,
    made: Result<User, Refused>,
)
    requires
        AppState::create_user_does(
            before,
            after,
            admin,
            name,
            password,
            as_admin,
            now,
            made,
        ),
        next_id(before.audit.entries@) is Some,
    ensures
        made is Ok ==> {
            &&& after.audit.entries@.len() == before.audit.entries@.len() + 1
            &&& after.audit.entries@.last().action@ == "user.create"@
            &&& words(after.audit.entries@.last().actor) == Some(admin.0.user.name@)
            &&& after.audit.entries@.last().at == now
            &&& after.audit.entries@.take(before.audit.entries@.len() as int)
                == before.audit.entries@
        },
        made is Err ==> after.audit == before.audit,
{
    if made is Ok {
        let (old_log, new_log) = (before.audit.entries@, after.audit.entries@);
        assert(new_log.take(old_log.len() as int) =~= new_log.drop_last());
    }
}

/// Changing an account's standing goes in the log as that, under who did it; what is refused
/// leaves no entry.
pub proof fn lemma_update_user_is_logged(
    before: &AppState,
    after: &AppState,
    admin: &Admin,
    id: i64,
    as_admin: Option<bool>,
    disabled: Option<bool>,
    now: i64,
    changed: Result<User, Refused>,
)
    requires
        AppState::update_user_does(
            before,
            after,
            admin,
            id,
            as_admin,
            disabled,
            now,
            changed,
        ),
        next_id(before.audit.entries@) is Some,
    ensures
        changed is Ok ==> {
            &&& after.audit.entries@.len() == before.audit.entries@.len() + 1
            &&& after.audit.entries@.last().action@ == "user.update"@
            &&& words(after.audit.entries@.last().actor) == Some(admin.0.user.name@)
            &&& after.audit.entries@.last().at == now
            &&& after.audit.entries@.take(before.audit.entries@.len() as int)
                == before.audit.entries@
        },
        changed is Err ==> after.audit == before.audit,
{
    if changed is Ok {
        let (old_log, new_log) = (before.audit.entries@, after.audit.entries@);
        assert(new_log.take(old_log.len() as int) =~= new_log.drop_last());
    }
}

/// Deleting an account goes in the log as that, under who did it; what is refused
/// leaves no entry.
pub proof fn lemma_delete_user_is_logged(
    before: &AppState,
    after: &AppState,
    admin: &Admin,
    id: i64,
    now: i64,
    deleted: Result<(), Refused>,
)
    requires
        AppState::delete_user_does(
            before,
            after,
            admin,
            id,
            now,
            deleted,
        ),
        next_id(before.audit.entries@) is Some,
    ensures
        deleted is Ok ==> {
            &&& after.audit.entries@.len() == before.audit.entries@.len() + 1
            &&& after.audit.entries@.last().action@ == "user.delete"@
            &&& words(after.audit.entries@.last().actor) == Some(admin.0.user.name@)
            &&& after.audit.entries@.last().at == now
            &&& after.audit.entries@.take(before.audit.entries@.len() as int)
                == before.audit.entries@
        },
        deleted is Err ==> after.audit == before.audit,
{
    if deleted is Ok {
        let (old_log, new_log) = (before.audit.entries@, after.audit.entries@);
        assert(new_log.take(old_log.len() as int) =~= new_log.drop_last());
    }
}

/// Forgetting a device goes in the log as that, under who did it; what is refused
/// leaves no entry.
pub proof fn lemma_delete_device_is_logged(
    before: &AppState,
    after: &AppState,
    admin: &Admin,
    id: i64,
    now: i64,
    deleted: Result<(), Refused>,
)
    requires
        AppState::delete_device_does(
            before,
            after,
            admin,
            id,
            now,
            deleted,
        ),
        next_id(before.audit.entries@) is Some,
    ensures
        deleted is Ok ==> {
            &&& after.audit.entries@.len() == before.audit.entries@.len() + 1
            &&& after.audit.entries@.last().action@ == "device.delete"@
            &&& words(after.audit.entries@.last().actor) == Some(admin.0.user.name@)
            &&& after.audit.entries@.last().at == now
            &&& after.audit.entries@.take(before.audit.entries@.len() as int)
                == before.audit.entries@
        },
        deleted is Err ==> after.audit == before.audit,
{
    if deleted is Ok {
        let (old_log, new_log) = (before.audit.entries@, after.audit.entries@);
        assert(new_log.take(old_log.len() as int) =~= new_log.drop_last());
    }
}

/// Making a group of devices goes in the log as that, under who did it; what is refused
/// leaves no entry.
pub proof fn lemma_create_group_is_logged(
    before: &AppState,
    after: &AppState,
    admin: &Admin,
    name: &str,
    now: i64,
    made: Result<Group, Refused>,
)
    requires
        AppState::create_group_does(
            before,
            after,
            admin,
            name,
            now,
            made,
        ),
        next_id(before.audit.entries@) is Some,
    ensures
        made is Ok ==> {
            &&& after.audit.entries@.len() == before.audit.entries@.len() + 1
            &&& after.audit.entries@.last().action@ == "device_group.create"@
            &&& words(after.audit.entries@.last().actor) == Some(admin.0.user.name@)
            &&& after.audit.entries@.last().at == now
            &&& after.audit.entries@.take(before.audit.entries@.len() as int)
                == before.audit.entries@
        },
        made is Err ==> after.audit == before.audit,
{
    if made is Ok {
        let (old_log, new_log) = (before.audit.entries@, after.audit.entries@);
        assert(new_log.take(old_log.len() as int) =~= new_log.drop_last());
    }
}

/// Renaming a group of devices goes in the log as that, under who did it; what is refused
/// leaves no entry.
pub proof fn lemma_rename_group_is_logged(
    before: &AppState,
    after: &AppState,
    admin: &Admin,
    id: i64,
    name: &str,
    now: i64,
    renamed: Result<Group, Refused>,
)
    requires
        AppState::rename_group_does(
            before,
            after,
            admin,
            id,
            name,
            now,
            renamed,
        ),
        next_id(before.audit.entries@) is Some,
    ensures
        renamed is Ok ==> {
            &&& after.audit.entries@.len() == before.audit.entries@.len() + 1
            &&& after.audit.entries@.last().action@ == "device_group.rename"@
            &&& words(after.audit.entries@.last().actor) == Some(admin.0.user.name@)
            &&& after.audit.entries@.last().at == now
            &&& after.audit.entries@.take(before.audit.entries@.len() as int)
                == before.audit.entries@
        },
        renamed is Err ==> after.audit == before.audit,
{
    if renamed is Ok {
        let (old_log, new_log) = (before.audit.entries@, after.audit.entries@);
        assert(new_log.take(old_log.len() as int) =~= new_log.drop_last());
    }
}

/// Deleting a group of devices goes in the log as that, under who did it; what is refused
/// leaves no entry.
pub proof fn lemma_delete_group_is_logged(
    before: &AppState,
    after: &AppState,
    admin: &Admin,
    id: i64,
    now: i64,
    deleted: Result<(), Refused>,
)
    requires
        AppState::delete_group_does(
            before,
            after,
            admin,
            id,
            now,
            deleted,
        ),
        next_id(before.audit.entries@) is Some,
    ensures
        deleted is Ok ==> {
            &&& after.audit.entries@.len() == before.audit.entries@.len() + 1
            &&& after.audit.entries@.last().action@ == "device_group.delete"@
            &&& words(after.audit.entries@.last().actor) == Some(admin.0.user.name@)
            &&& after.audit.entries@.last().at == now
            &&& after.audit.entries@.take(before.audit.entries@.len() as int)
                == before.audit.entries@
        },
        deleted is Err ==> after.audit == before.audit,
{
    if deleted is Ok {
        let (old_log, new_log) = (before.audit.entries@, after.audit.entries@);
        assert(new_log.take(old_log.len() as int) =~= new_log.drop_last());
    }
}

/// Making an enrollment token goes in the log as that, under who did it; what is refused
/// leaves no entry.
pub proof fn lemma_new_enroll_token_is_logged(
    before: &AppState,
    after: &AppState,
    admin: &Admin,
    name: &str,
    group_id: Option<i64>,
    uses: Option<u32>,
    expires_in_days: u32,
    now: i64,
    added: Result<(EnrollToken, String), Refused>,
)
    requires
        AppState::new_enroll_token_does(
            before,
            after,
            admin,
            name,
            group_id,
            uses,
            expires_in_days,
            now,
            added,
        ),
        next_id(before.audit.entries@) is Some,
    ensures
        added is Ok ==> {
            &&& after.audit.entries@.len() == before.audit.entries@.len() + 1
            &&& after.audit.entries@.last().action@ == "enroll_token.create"@
            &&& words(after.audit.entries@.last().actor) == Some(admin.0.user.name@)
            &&& after.audit.entries@.last().at == now
            &&& after.audit.entries@.take(before.audit.entries@.len() as int)
                == before.audit.entries@
        },
        added is Err ==> after.audit == before.audit,
{
    if added is Ok {
        let (old_log, new_log) = (before.audit.entries@, after.audit.entries@);
        assert(new_log.take(old_log.len() as int) =~= new_log.drop_last());
    }
}

/// Making a group of users goes in the log as that, under who did it; what is refused
/// leaves no entry.
pub proof fn lemma_create_user_group_is_logged(
    before: &AppState,
    after: &AppState,
    admin: &Admin,
    name: &str,
    now: i64,
    made: Result<UserGroup, Refused>,
)
    requires
        AppState::create_user_group_does(
            before,
            after,
            admin,
            name,
            now,
            made,
        ),
        next_id(before.audit.entries@) is Some,
    ensures
        made is Ok ==> {
            &&& after.audit.entries@.len() == before.audit.entries@.len() + 1
            &&& after.audit.entries@.last().action@ == "user_group.create"@
            &&& words(after.audit.entries@.last().actor) == Some(admin.0.user.name@)
            &&& after.audit.entries@.last().at == now
            &&& after.audit.entries@.take(before.audit.entries@.len() as int)
                == before.audit.entries@
        },
        made is Err ==> after.audit == before.audit,
{
    if made is Ok {
        let (old_log, new_log) = (before.audit.entries@, after.audit.entries@);
        assert(new_log.take(old_log.len() as int) =~= new_log.drop_last());
    }
}

/// Renaming a group of users goes in the log as that, under who did it; what is refused
/// leaves no entry.
pub proof fn lemma_rename_user_group_is_logged(
    before: &AppState,
    after: &AppState,
    admin: &Admin,
    id: i64,
    name: &str,
    now: i64,
    renamed: Result<UserGroup, Refused>,
)
    requires
        AppState::rename_user_group_does(
            before,
            after,
            admin,
            id,
            name,
            now,
            renamed,
        ),
        next_id(before.audit.entries@) is Some,
    ensures
        renamed is Ok ==> {
            &&& after.audit.entries@.len() == before.audit.entries@.len() + 1
            &&& after.audit.entries@.last().action@ == "user_group.rename"@
            &&& words(after.audit.entries@.last().actor) == Some(admin.0.user.name@)
            &&& after.audit.entries@.last().at == now
            &&& after.audit.entries@.take(before.audit.entries@.len() as int)
                == before.audit.entries@
        },
        renamed is Err ==> after.audit == before.audit,
{
    if renamed is Ok {
        let (old_log, new_log) = (before.audit.entries@, after.audit.entries@);
        assert(new_log.take(old_log.len() as int) =~= new_log.drop_last());
    }
}

/// Deleting a group of users goes in the log as that, under who did it; what is refused
/// leaves no entry.
pub proof fn lemma_delete_user_group_is_logged(
    before: &AppState,
    after: &AppState,
    admin: &Admin,
    id: i64,
    now: i64,
    deleted: Result<(), Refused>,
)
    requires
        AppState::delete_user_group_does(
            before,
            after,
            admin,
            id,
            now,
            deleted,
        ),
        next_id(before.audit.entries@) is Some,
    ensures
        deleted is Ok ==> {
            &&& after.audit.entries@.len() == before.audit.entries@.len() + 1
            &&& after.audit.entries@.last().action@ == "user_group.delete"@
            &&& words(after.audit.entries@.last().actor) == Some(admin.0.user.name@)
            &&& after.audit.entries@.last().at == now
            &&& after.audit.entries@.take(before.audit.entries@.len() as int)
                == before.audit.entries@
        },
        deleted is Err ==> after.audit == before.audit,
{
    if deleted is Ok {
        let (old_log, new_log) = (before.audit.entries@, after.audit.entries@);
        assert(new_log.take(old_log.len() as int) =~= new_log.drop_last());
    }
}

/// Putting someone in a group goes in the log as that, under who did it; what is refused
/// leaves no entry.
pub proof fn lemma_add_member_is_logged(
    before: &AppState,
    after: &AppState,
    admin: &Admin,
    id: i64,
    user: i64,
    now: i64,
    done: Result<UserGroup, Refused>,
)
    requires
        AppState::add_member_does(
            before,
            after,
            admin,
            id,
            user,
            now,
            done,
        ),
        next_id(before.audit.entries@) is Some,
    ensures
        done is Ok ==> {
            &&& after.audit.entries@.len() == before.audit.entries@.len() + 1
            &&& after.audit.entries@.last().action@ == "user_group.add"@
            &&& words(after.audit.entries@.last().actor) == Some(admin.0.user.name@)
            &&& after.audit.entries@.last().at == now
            &&& after.audit.entries@.take(before.audit.entries@.len() as int)
                == before.audit.entries@
        },
        done is Err ==> after.audit == before.audit,
{
    if done is Ok {
        let (old_log, new_log) = (before.audit.entries@, after.audit.entries@);
        assert(new_log.take(old_log.len() as int) =~= new_log.drop_last());
    }
}

/// Taking someone out of a group goes in the log as that, under who did it; what is refused
/// leaves no entry.
pub proof fn lemma_remove_member_is_logged(
    before: &AppState,
    after: &AppState,
    admin: &Admin,
    id: i64,
    user: i64,
    now: i64,
    done: Result<UserGroup, Refused>,
)
    requires
        AppState::remove_member_does(
            before,
            after,
            admin,
            id,
            user,
            now,
            done,
        ),
        next_id(before.audit.entries@) is Some,
    ensures
        done is Ok ==> {
            &&& after.audit.entries@.len() == before.audit.entries@.len() + 1
            &&& after.audit.entries@.last().action@ == "user_group.remove"@
            &&& words(after.audit.entries@.last().actor) == Some(admin.0.user.name@)
            &&& after.audit.entries@.last().at == now
            &&& after.audit.entries@.take(before.audit.entries@.len() as int)
                == before.audit.entries@
        },
        done is Err ==> after.audit == before.audit,
{
    if done is Ok {
        let (old_log, new_log) = (before.audit.entries@, after.audit.entries@);
        assert(new_log.take(old_log.len() as int) =~= new_log.drop_last());
    }
}

/// Setting a grant goes in the log as that, under who did it; what is refused
/// leaves no entry.
pub proof fn lemma_set_grant_is_logged(
    before: &AppState,
    after: &AppState,
    admin: &Admin,
    user_group: i64,
    device_group: i64,
    role: Role,
    now: i64,
    set: Result<GrantRule, Refused>,
)
    requires
        AppState::set_grant_does(
            before,
            after,
            admin,
            user_group,
            device_group,
            role,
            now,
            set,
        ),
        next_id(before.audit.entries@) is Some,
    ensures
        set is Ok ==> {
            &&& after.audit.entries@.len() == before.audit.entries@.len() + 1
            &&& after.audit.entries@.last().action@ == "grant.set"@
            &&& words(after.audit.entries@.last().actor) == Some(admin.0.user.name@)
            &&& after.audit.entries@.last().at == now
            &&& after.audit.entries@.take(before.audit.entries@.len() as int)
                == before.audit.entries@
        },
        set is Err ==> after.audit == before.audit,
{
    if set is Ok {
        let (old_log, new_log) = (before.audit.entries@, after.audit.entries@);
        assert(new_log.take(old_log.len() as int) =~= new_log.drop_last());
    }
}

/// Taking back a grant goes in the log as that, under who did it; what is refused
/// leaves no entry.
pub proof fn lemma_delete_grant_is_logged(
    before: &AppState,
    after: &AppState,
    admin: &Admin,
    id: i64,
    now: i64,
    deleted: Result<(), Refused>,
)
    requires
        AppState::delete_grant_does(
            before,
            after,
            admin,
            id,
            now,
            deleted,
        ),
        next_id(before.audit.entries@) is Some,
    ensures
        deleted is Ok ==> {
            &&& after.audit.entries@.len() == before.audit.entries@.len() + 1
            &&& after.audit.entries@.last().action@ == "grant.delete"@
            &&& words(after.audit.entries@.last().actor) == Some(admin.0.user.name@)
            &&& after.audit.entries@.last().at == now
            &&& after.audit.entries@.take(before.audit.entries@.len() as int)
                == before.audit.entries@
        },
        deleted is Err ==> after.audit == before.audit,
{
    if deleted is Ok {
        let (old_log, new_log) = (before.audit.entries@, after.audit.entries@);
        assert(new_log.take(old_log.len() as int) =~= new_log.drop_last());
    }
}

/// Taking a release goes in the log as that, under who did it; what is refused
/// leaves no entry.
pub proof fn lemma_upload_release_is_logged(
    before: &AppState,
    after: &AppState,
    admin: &Admin,
    package: &[u8],
    signature: Result<Signed, String>,
    context: &[u8],
    now: i64,
    added: Result<Listed, Refused>,
)
    requires
        AppState::upload_release_does(
            before,
            after,
            admin,
            package,
            signature,
            context,
            now,
            added,
        ),
        next_id(before.audit.entries@) is Some,
    ensures
        added is Ok ==> {
            &&& after.audit.entries@.len() == before.audit.entries@.len() + 1
            &&& after.audit.entries@.last().action@ == "release.upload"@
            &&& words(after.audit.entries@.last().actor) == Some(admin.0.user.name@)
            &&& after.audit.entries@.last().at == now
            &&& after.audit.entries@.take(before.audit.entries@.len() as int)
                == before.audit.entries@
        },
        added is Err ==> after.audit == before.audit,
{
    if added is Ok {
        let (old_log, new_log) = (before.audit.entries@, after.audit.entries@);
        assert(new_log.take(old_log.len() as int) =~= new_log.drop_last());
    }
}

/// Offering a release goes in the log as that, under who did it; what is refused
/// leaves no entry.
pub proof fn lemma_offer_release_is_logged(
    before: &AppState,
    after: &AppState,
    admin: &Admin,
    id: i64,
    now: i64,
    done: Result<Listed, Refused>,
)
    requires
        AppState::offer_release_does(
            before,
            after,
            admin,
            id,
            now,
            done,
        ),
        next_id(before.audit.entries@) is Some,
    ensures
        done is Ok ==> {
            &&& after.audit.entries@.len() == before.audit.entries@.len() + 1
            &&& after.audit.entries@.last().action@ == "release.offer"@
            &&& words(after.audit.entries@.last().actor) == Some(admin.0.user.name@)
            &&& after.audit.entries@.last().at == now
            &&& after.audit.entries@.take(before.audit.entries@.len() as int)
                == before.audit.entries@
        },
        done is Err ==> after.audit == before.audit,
{
    if done is Ok {
        let (old_log, new_log) = (before.audit.entries@, after.audit.entries@);
        assert(new_log.take(old_log.len() as int) =~= new_log.drop_last());
    }
}

/// Withdrawing a release goes in the log as that, under who did it; what is refused
/// leaves no entry.
pub proof fn lemma_withdraw_release_is_logged(
    before: &AppState,
    after: &AppState,
    admin: &Admin,
    id: i64,
    now: i64,
    done: Result<Listed, Refused>,
)
    requires
        AppState::withdraw_release_does(
            before,
            after,
            admin,
            id,
            now,
            done,
        ),
        next_id(before.audit.entries@) is Some,
    ensures
        done is Ok ==> {
            &&& after.audit.entries@.len() == before.audit.entries@.len() + 1
            &&& after.audit.entries@.last().action@ == "release.withdraw"@
            &&& words(after.audit.entries@.last().actor) == Some(admin.0.user.name@)
            &&& after.audit.entries@.last().at == now
            &&& after.audit.entries@.take(before.audit.entries@.len() as int)
                == before.audit.entries@
        },
        done is Err ==> after.audit == before.audit,
{
    if done is Ok {
        let (old_log, new_log) = (before.audit.entries@, after.audit.entries@);
        assert(new_log.take(old_log.len() as int) =~= new_log.drop_last());
    }
}

/// Forgetting a release goes in the log as that, under who did it; what is refused
/// leaves no entry.
pub proof fn lemma_delete_release_is_logged(
    before: &AppState,
    after: &AppState,
    admin: &Admin,
    id: i64,
    now: i64,
    done: Result<Listed, Refused>,
)
    requires
        AppState::delete_release_does(
            before,
            after,
            admin,
            id,
            now,
            done,
        ),
        next_id(before.audit.entries@) is Some,
    ensures
        done is Ok ==> {
            &&& after.audit.entries@.len() == before.audit.entries@.len() + 1
            &&& after.audit.entries@.last().action@ == "release.delete"@
            &&& words(after.audit.entries@.last().actor) == Some(admin.0.user.name@)
            &&& after.audit.entries@.last().at == now
            &&& after.audit.entries@.take(before.audit.entries@.len() as int)
                == before.audit.entries@
        },
        done is Err ==> after.audit == before.audit,
{
    if done is Ok {
        let (old_log, new_log) = (before.audit.entries@, after.audit.entries@);
        assert(new_log.take(old_log.len() as int) =~= new_log.drop_last());
    }
}

/// Whoever asks for a device gets it only if they are an administrator or have a
/// role on it, and is told that role; to anyone else it is not there.
pub proof fn lemma_only_who_may_see_a_device_gets_it(
    state: &AppState,
    who: &Caller,
    id: i64,
    seen: Result<Device, ApiError>,
)
    requires
        state.gets(who, id, &seen),
    ensures
        seen is Ok && !who.user.admin ==> exists|roles: Seq<Reachable>, k: int|
            {
                &&& #[trigger] state.grants.reached(
                    who.user.id,
                    state.accounts.users@,
                    state.devices.devices@,
                    roles,
                )
                &&& 0 <= k < roles.len() && (#[trigger] roles[k]).id == id
            },
        at(state.devices.devices@, id) < 0 ==> seen is Err,
        who.user.admin && at(state.devices.devices@, id) >= 0 ==> seen is Ok,
        seen matches Err(error) ==> error.status() == 404,
        seen matches Ok(device) ==> device.online == state.present(id),
{
    let roles = choose|roles: Seq<Reachable>|
        {
            let i = at(state.devices.devices@, id);
            &&& #[trigger] state.grants.reached(
                who.user.id,
                state.accounts.users@,
                state.devices.devices@,
                roles,
            )
            &&& if i < 0 || !(who.user.admin || role_in(roles, id) is Some) {
                seen matches Err(error) && error == ApiError::Refused(Refused::NotFound)
            } else {
                seen matches Ok(device) && device.shows(
                    &state.devices.devices@[i],
                    state.devices.groups@,
                ) && device.online == state.present(id) && words(device.role) == (match role_in(
                    roles,
                    id,
                ) {
                    Some(role) => Some(role.name()),
                    None => None,
                })
            }
        };
    super::api::lemma_roles_are_as_granted(roles, 0, id);
}

/// Signing out ends the session that the cookie is of, and no other; it clears
/// the cookie, and is not in the log.
pub proof fn lemma_signing_out_ends_the_session(
    before: &AppState,
    after: &AppState,
    headers: &Headers,
    cookie: String,
    login: super::accounts::Login,
)
    requires
        AppState::logout_does(before, after, headers, cookie),
    ensures
        cookie_in(headers.cookies@, "nearhand_session"@, 0) matches Some(token) ==> (
        after.accounts.logins@.contains(login) <==> before.accounts.logins@.contains(login)
            && login.token_hash@ != hash_of(token)),
        cookie_in(headers.cookies@, "nearhand_session"@, 0) is None ==> after.accounts.logins@
            == before.accounts.logins@,
        after.audit == before.audit && after.accounts.users == before.accounts.users,
{
    if let Some(token) = cookie_in(headers.cookies@, session_cookie_name(), 0) {
        super::rows::lemma_left(
            before.accounts.logins@,
            other_logins(hash_of(token)),
            login,
        );
    }
}

/// Signing in is in the log, and so is every failed try but the question for a
/// code; the cookie is good for twelve hours.
pub proof fn lemma_sign_ins_are_logged(
    before: &AppState,
    after: &AppState,
    name: &str,
    password: &str,
    code: Option<&str>,
    from: Ip,
    now: i64,
    clock: u64,
    answer: Result<(Caller, String), ApiError>,
)
    requires
        AppState::login_does(before, after, name, password, code, from, now, clock, answer),
        next_id(before.audit.entries@) is Some,
    ensures
        answer matches Ok((caller, cookie)) ==> {
            &&& after.audit.entries@.last().action@ == "login"@
            &&& words(after.audit.entries@.last().actor) == Some(caller.user.name@)
            &&& exists|token: String| cookie@ == #[trigger] set_cookie(token@, 43_200)
        },
        answer matches Err(ApiError::Refused(why)) ==> (why !is TotpNeeded ==> {
            &&& after.audit.entries@.len() == before.audit.entries@.len() + 1
            &&& after.audit.entries@.last().action@ == "login.fail"@
            &&& after.audit.entries@.last().actor is None
            &&& words(after.audit.entries@.last().target) == Some(name@)
        }),
        answer matches Err(ApiError::Refused(why)) ==> (why is TotpNeeded ==> after.audit
            == before.audit),
        after.devices == before.devices && after.grants == before.grants && after.releases
            == before.releases,
{
    if let Ok((caller, cookie)) = answer {
        let token = choose|token: String|
            {
                &&& #[trigger] Accounts::sign_in_does(
                    &before.accounts,
                    &after.accounts,
                    name,
                    password,
                    code,
                    from.canonical(),
                    now,
                    clock,
                    Ok((token, caller.user)),
                )
                &&& cookie@ == set_cookie(token@, COOKIE_LIFETIME as int)
            };
        assert(cookie@ == set_cookie(token@, 43_200));
    }
}

/// A web viewer gets a grant only for a device that its user reaches, as they
/// reach it; a refusal is in the log.
pub proof fn lemma_web_grants_are_as_reached(
    before: &AppState,
    after: &AppState,
    who: &Caller,
    id: i64,
    now: i64,
    granted: Result<Reachable, ApiError>,
)
    requires
        AppState::device_grant_does(before, after, who, id, now, granted),
        next_id(before.audit.entries@) is Some,
    ensures
        granted matches Ok(device) ==> device.id == id && after.audit == before.audit && exists|
            roles: Seq<Reachable>,
        |
            #[trigger] before.grants.reached(
                who.user.id,
                before.accounts.users@,
                before.devices.devices@,
                roles,
            ) && roles.contains(device),
        granted matches Err(error) ==> error.status() == 404
            && after.audit.entries@.last().action@ == "session.refuse"@ && words(
            after.audit.entries@.last().actor,
        ) == Some(who.user.name@),
{
    let roles = choose|roles: Seq<Reachable>|
        {
            let i = reachable_at(roles, id, 0);
            &&& #[trigger] before.grants.reached(
                who.user.id,
                before.accounts.users@,
                before.devices.devices@,
                roles,
            )
            &&& if 0 <= i < roles.len() {
                &&& granted matches Ok(device) && device == roles[i]
                &&& after.audit == before.audit
            } else {
                &&& granted matches Err(error) && error == ApiError::Refused(Refused::NotFound)
                &&& logged(&before.audit, &after.audit, Act::SessionRefuse { id }, *who, now)
            }
        };
    super::api::lemma_reachable_at(roles, id, 0);
}

}
