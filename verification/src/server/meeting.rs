//! The QUIC side: agents that register, leave and enroll, and viewers that ask
//! for a device, over the server's tables.

use super::accounts::{fits, Accounts, Refused, User};
use super::api::Caller;
use super::attempts::attempted;
use super::audit::Event;
use super::devices::{at_certificate, Device, Devices};
use super::grants::Reachable;
use super::rendezvous::{
    authorization, granted, lemma_reached, reached, Authorization, Authorized, Registered, Registry, ATTEMPTS,
    ATTEMPT_WINDOW,
};
use super::rows::next_id;
use super::service::{one_more, told, AppState};
use crate::net::{Address, Ip};
use crate::protocol::{DeviceId, Enrollment, FromServer, Refusal};
use crate::transport::fingerprint::Fingerprint;
use crate::transport::grant::SignedGrant;
use vstd::prelude::*;

verus! {

/// At most the registry and the devices changed.
pub open spec fn only_presence(before: &AppState, after: &AppState) -> bool {
    &&& after.accounts == before.accounts
    &&& after.grants == before.grants
    &&& after.audit == before.audit
    &&& after.releases == before.releases
    &&& after.server == before.server
}

impl AppState {
    /// Whether the device with this key is a managed one.
    pub open spec fn manages(&self, key: Option<Fingerprint>) -> bool {
        &&& self.registry.managed()
        &&& key matches Some(key) && at_certificate(self.devices.devices@, key@) >= 0
    }

    /// An agent registers. A managed device is seen as it comes.
    pub fn register(
        &mut self,
        key: Option<Fingerprint>,
        id: DeviceId,
        addresses: Vec<Address>,
        observed: Address,
        now: i64,
    ) -> (outcome: Result<Registered, Refusal>)
        requires
            old(self).wf(),
            old(self).registry.next() < u64::MAX,
        ensures
            final(self).wf(),
            only_presence(old(self), final(self)),
            Registry::register_does(
                &old(self).registry,
                &final(self).registry,
                key,
                id,
                addresses,
                observed,
                old(self).manages(key),
                outcome,
            ),
            if outcome is Ok && old(self).registry.managed() {
                key is Some && Devices::seen_does(
                    &old(self).devices,
                    &final(self).devices,
                    &key->Some_0,
                    observed,
                    now,
                )
            } else {
                final(self).devices == old(self).devices
            },
    {
        let managed = self.registry.is_managed();
        let enrolled = match &key {
            Some(key) => managed && self.devices.is_enrolled(key),
            None => false,
        };
        let outcome = self.registry.register(key, id, addresses, observed, enrolled);
        if let Some(key) = &key {
            if outcome.is_ok() && managed {
                self.devices.seen(key, observed, now);
            }
        }
        outcome
    }

    /// An agent's connection is gone. If it was still the one registered, it
    /// is last seen as it goes.
    pub fn leave(
        &mut self,
        id: DeviceId,
        key: &Fingerprint,
        registration: u64,
        observed: Address,
        now: i64,
    ) -> (removed: bool)
        requires
            old(self).wf(),
        ensures
            final(self).wf(),
            only_presence(old(self), final(self)),
            Registry::remove_does(
                &old(self).registry,
                &final(self).registry,
                id,
                registration,
                removed,
            ),
            if removed && old(self).registry.managed() {
                Devices::seen_does(&old(self).devices, &final(self).devices, key, observed, now)
            } else {
                final(self).devices == old(self).devices
            },
    {
        let removed = self.registry.remove(id, registration);
        if removed && self.registry.is_managed() {
            self.devices.seen(key, observed, now);
        }
        removed
    }

    /// What comes of a token that a viewer brings: `user` is whose it is.
    pub open spec fn brought_token(
        before: &AppState,
        after: &AppState,
        id: DeviceId,
        observed: Ip,
        user: User,
        now: i64,
        lifetime: u64,
        outcome: Result<Option<Authorized>, Refusal>,
    ) -> bool {
        exists|roles: Seq<Reachable>|
            {
                &&& #[trigger] before.grants.reached(
                    user.id,
                    before.accounts.users@,
                    before.devices.devices@,
                    roles,
                )
                &&& match authorization(
                    true,
                    true,
                    Some(roles),
                    id,
                    before.registry.key_at(id),
                    true,
                ) {
                    Authorization::Refuse(refusal) => outcome == Err::<Option<Authorized>, Refusal>(
                        refusal,
                    ) && after.audit == before.audit,
                    Authorization::NoGrant => outcome == Err::<Option<Authorized>, Refusal>(
                        Refusal::NotAllowed,
                    ) && told(
                        &before.audit,
                        &after.audit,
                        (Caller { user, from: Some(observed) }),
                        "session.refuse"@,
                        id.written(),
                        Some("no grant"@),
                        now,
                    ),
                    Authorization::Allow(i) => after.audit == before.audit && match outcome {
                        Ok(allowed) => {
                            &&& allowed matches Some(authorized)
                            &&& authorized.user@ == user.name@
                            &&& authorized.grant.user@ == user.name@
                            &&& authorized.grant.device@ == roles[i].fingerprint@
                            &&& authorized.grant.role == roles[i].role
                            &&& authorized.grant.issued_at == (if now > 0 {
                                now as int
                            } else {
                                0
                            })
                            &&& authorized.grant.expires_at == authorized.grant.issued_at
                                + lifetime
                        },
                        Err(refusal) => refusal == Refusal::NotAllowed,
                    },
                }
            }
    }

    /// What `arrange` does.
    pub open spec fn arrange_does(
        before: &AppState,
        after: &AppState,
        id: DeviceId,
        observed: Ip,
        token: Option<&str>,
        now: i64,
        clock: u64,
        lifetime: u64,
        outcome: Result<Option<Authorized>, Refusal>,
    ) -> bool {
        let allowed = attempted(
            before.registry.tries(observed),
            ATTEMPTS,
            ATTEMPT_WINDOW,
            clock,
        ).1;
        &&& after.devices == before.devices
        &&& after.grants == before.grants
        &&& after.releases == before.releases
        &&& after.server == before.server
        &&& Registry::attempt_does(&before.registry, &after.registry, observed, clock, allowed)
        &&& match token {
            Some(token) if allowed && before.registry.access() => exists|user: Option<User>|
                {
                    &&& #[trigger] Accounts::api_user_does(
                        &before.accounts,
                        &after.accounts,
                        token,
                        now,
                        user,
                    )
                    &&& match user {
                        Some(user) => AppState::brought_token(
                            before,
                            after,
                            id,
                            observed,
                            user,
                            now,
                            lifetime,
                            outcome,
                        ),
                        None => outcome == Err::<Option<Authorized>, Refusal>(Refusal::NotSignedIn)
                            && after.audit == before.audit,
                    }
                },
            _ => {
                &&& after.accounts == before.accounts
                &&& after.audit == before.audit
                &&& if !allowed {
                    outcome == Err::<Option<Authorized>, Refusal>(Refusal::TooManyAttempts)
                } else if token is Some {
                    outcome == Err::<Option<Authorized>, Refusal>(Refusal::NotAllowed)
                } else if before.registry.agents().contains_key(id) {
                    outcome == Ok::<Option<Authorized>, Refusal>(None)
                } else {
                    outcome == Err::<Option<Authorized>, Refusal>(Refusal::Offline)
                }
            },
        }
    }

    /// Whether a viewer that asks for device `id`, seen at `observed`, may be
    /// introduced to its agent; one that brings an API token only to a device
    /// that its user has a grant for, which is to be signed then.
    pub fn arrange(
        &mut self,
        id: DeviceId,
        observed: Ip,
        token: Option<&str>,
        now: i64,
        clock: u64,
        lifetime: u64,
    ) -> (outcome: Result<Option<Authorized>, Refusal>)
        requires
            old(self).wf(),
            token matches Some(token) ==> fits(token@),
            lifetime <= i64::MAX,
        ensures
            final(self).wf(),
            AppState::arrange_does(
                old(self),
                final(self),
                id,
                observed,
                token,
                now,
                clock,
                lifetime,
                outcome,
            ),
    {
        if !self.registry.attempt(observed, clock) {
            return Err(Refusal::TooManyAttempts);
        }
        let token = match token {
            Some(token) => token,
            None => {
                return if self.registry.agent(id).is_some() {
                    Ok(None)
                } else {
                    Err(Refusal::Offline)
                };
            },
        };
        if !self.registry.has_access() {
            return Err(Refusal::NotAllowed);
        }
        let user = match self.accounts.api_user(token, now) {
            Some(user) => user,
            None => {
                return Err(Refusal::NotSignedIn);
            },
        };
        let roles = self.grants.reachable(user.id, &self.accounts.users, &self.devices.devices);
        match self.registry.authorize(Some(&user), Some(&roles), id, observed, now, lifetime) {
            Ok(authorized) => Ok(Some(authorized)),
            Err(refused) => {
                if let Some(event) = &refused.event {
                    self.write(event, now);
                }
                Err(refused.refusal)
            },
        }
    }

    /// A viewer's grant was signed, or could not be: what was granted goes in
    /// the log.
    pub fn session_granted(
        &mut self,
        authorized: &Authorized,
        signed: Option<SignedGrant>,
        id: DeviceId,
        observed: Ip,
        now: i64,
    ) -> (outcome: Result<SignedGrant, Refusal>)
        requires
            old(self).wf(),
        ensures
            final(self).wf(),
            AppState::only_accounts(old(self), final(self)),
            final(self).accounts == old(self).accounts,
            match signed {
                Some(signed) => {
                    &&& outcome == Ok::<SignedGrant, Refusal>(signed)
                    &&& one_more(&old(self).audit, &final(self).audit, now)
                    &&& next_id(old(self).audit.entries@) is Some ==> exists|event: Event|
                        {
                            &&& #[trigger] final(self).audit.entries@.last().records(&event)
                            &&& event.is(
                                Some(authorized.user@),
                                observed,
                                "session.grant"@,
                                id.written(),
                                authorized.grant.role.name(),
                            )
                        }
                },
                None => {
                    &&& outcome == Err::<SignedGrant, Refusal>(Refusal::NotAllowed)
                    &&& final(self).audit == old(self).audit
                },
            },
    {
        match granted(authorized, signed, id, observed) {
            Ok((grant, event)) => {
                self.write(&event, now);
                Ok(grant)
            },
            Err(refusal) => Err(refusal),
        }
    }

    /// What `enroll` does once an agent may try, with `checked` as the registry
    /// that counted the try.
    pub open spec fn tried_to_enroll(
        before: &AppState,
        after: &AppState,
        checked: &Registry,
        key: &Fingerprint,
        id: DeviceId,
        enrollment: &Enrollment,
        from: Address,
        now: i64,
        answer: FromServer,
    ) -> bool {
        exists|enrolled: Result<Device, Refused>, event: Option<Event>|
            {
                &&& #[trigger] Devices::enroll_does(
                    &before.devices,
                    &after.devices,
                    key,
                    id,
                    enrollment,
                    from,
                    now,
                    enrolled,
                )
                &&& #[trigger] Registry::enrolled_does(
                    checked,
                    &after.registry,
                    id,
                    key,
                    &enrolled,
                    enrollment.name@,
                    from.ip,
                    (answer, event),
                )
                &&& match event {
                    Some(event) => {
                        &&& one_more(&before.audit, &after.audit, now)
                        &&& next_id(before.audit.entries@) is Some
                            ==> after.audit.entries@.last().records(&event)
                    },
                    None => after.audit == before.audit,
                }
            }
    }

    /// An agent with a token joins the managed devices: what it is answered.
    pub fn enroll(
        &mut self,
        key: Option<&Fingerprint>,
        id: DeviceId,
        enrollment: &Enrollment,
        from: Address,
        now: i64,
        clock: u64,
    ) -> (answer: FromServer)
        requires
            old(self).wf(),
            fits(enrollment.token@),
        ensures
            final(self).wf(),
            final(self).accounts == old(self).accounts,
            final(self).grants == old(self).grants,
            final(self).releases == old(self).releases,
            final(self).server == old(self).server,
            exists|counted: Registry, checked: Result<(), Refusal>|
                {
                    &&& #[trigger] Registry::may_enroll_does(
                        &old(self).registry,
                        &counted,
                        key,
                        from.ip,
                        clock,
                        checked,
                    )
                    &&& match checked {
                        Ok(()) => key is Some && AppState::tried_to_enroll(
                            old(self),
                            final(self),
                            &counted,
                            key->Some_0,
                            id,
                            enrollment,
                            from,
                            now,
                            answer,
                        ),
                        Err(refusal) => {
                            &&& answer == FromServer::Refused(refusal)
                            &&& final(self).registry == counted
                            &&& final(self).devices == old(self).devices
                            &&& final(self).audit == old(self).audit
                        },
                    }
                },
    {
        let checked = self.registry.may_enroll(key, from.ip, clock);
        let ghost counted = self.registry;
        assert(Registry::may_enroll_does(
            &old(self).registry,
            &counted,
            key,
            from.ip,
            clock,
            checked,
        ));
        let key = match (checked, key) {
            (Ok(()), Some(key)) => key,
            (Err(refusal), _) => {
                return FromServer::Refused(refusal);
            },
            (Ok(()), None) => {
                return FromServer::Refused(Refusal::NoCertificate);
            },
        };
        let enrolled = self.devices.enroll(key, id, enrollment, from, now);
        let (answer, event) = self.registry.enrolled(
            id,
            key,
            &enrolled,
            &enrollment.name,
            from.ip,
        );
        assert(Registry::enrolled_does(
            &counted,
            &self.registry,
            id,
            key,
            &enrolled,
            enrollment.name@,
            from.ip,
            (answer, event),
        ));
        if let Some(event) = &event {
            self.write(event, now);
        }
        assert(Devices::enroll_does(
            &old(self).devices,
            &self.devices,
            key,
            id,
            enrollment,
            from,
            now,
            enrolled,
        ));
        assert(AppState::tried_to_enroll(
            old(self),
            self,
            &counted,
            key,
            id,
            enrollment,
            from,
            now,
            answer,
        ));
        answer
    }
}

/// A viewer that brings a token is introduced only as the user whose token it
/// is, only to a device that they reach with a grant, while that device is
/// there, and with no other role than the grant gives.
pub proof fn lemma_tokens_open_granted_devices(
    before: &AppState,
    after: &AppState,
    id: DeviceId,
    observed: Ip,
    token: &str,
    now: i64,
    clock: u64,
    lifetime: u64,
    authorized: Option<Authorized>,
)
    requires
        AppState::arrange_does(
            before,
            after,
            id,
            observed,
            Some(token),
            now,
            clock,
            lifetime,
            Ok::<Option<Authorized>, Refusal>(authorized),
        ),
    ensures
        authorized is Some,
        before.registry.access(),
        before.registry.agents().contains_key(id),
        authorized->Some_0.grant.device@ == before.registry.agents()[id].fingerprint@,
        authorized->Some_0.grant.expires_at == authorized->Some_0.grant.issued_at + lifetime,
        exists|user: User, roles: Seq<Reachable>, i: int|
            {
                &&& #[trigger] Accounts::api_user_does(
                    &before.accounts,
                    &after.accounts,
                    token,
                    now,
                    Some(user),
                )
                &&& #[trigger] before.grants.reached(
                    user.id,
                    before.accounts.users@,
                    before.devices.devices@,
                    roles,
                )
                &&& 0 <= i < roles.len() && (#[trigger] roles[i]).number == id
                &&& authorized->Some_0.grant.user@ == user.name@
                &&& authorized->Some_0.grant.role == roles[i].role
                &&& authorized->Some_0.grant.device@ == roles[i].fingerprint@
            },
{
    let user = choose|user: Option<User>|
        {
            &&& #[trigger] Accounts::api_user_does(
                &before.accounts,
                &after.accounts,
                token,
                now,
                user,
            )
            &&& match user {
                Some(user) => AppState::brought_token(
                    before,
                    after,
                    id,
                    observed,
                    user,
                    now,
                    lifetime,
                    Ok::<Option<Authorized>, Refusal>(authorized),
                ),
                None => false,
            }
        };
    let user = user->Some_0;
    let roles = choose|roles: Seq<Reachable>|
        {
            &&& #[trigger] before.grants.reached(
                user.id,
                before.accounts.users@,
                before.devices.devices@,
                roles,
            )
            &&& authorization(
                true,
                true,
                Some(roles),
                id,
                before.registry.key_at(id),
                true,
            ) matches Authorization::Allow(i) && authorized matches Some(authorized)
                && authorized.user@ == user.name@ && authorized.grant.user@ == user.name@
                && authorized.grant.device@ == roles[i].fingerprint@ && authorized.grant.role
                == roles[i].role && authorized.grant.expires_at == authorized.grant.issued_at
                + lifetime
        };
    lemma_reached(roles, id, 0);
    let i = reached(roles, id, 0);
    assert(roles[i].number == id);
}

/// A viewer without a token is introduced to whatever is there, and to nothing
/// that is not; either way it gets no grant.
pub proof fn lemma_without_a_token_there_is_no_grant(
    before: &AppState,
    after: &AppState,
    id: DeviceId,
    observed: Ip,
    now: i64,
    clock: u64,
    lifetime: u64,
    outcome: Result<Option<Authorized>, Refusal>,
)
    requires
        AppState::arrange_does(
            before,
            after,
            id,
            observed,
            None,
            now,
            clock,
            lifetime,
            outcome,
        ),
    ensures
        outcome matches Ok(authorized) ==> authorized is None
            && before.registry.agents().contains_key(id),
        !before.registry.agents().contains_key(id) && before.registry.tries(observed).len() < 10
            && super::attempts::in_order(before.registry.tries(observed), clock) ==> outcome == Err::<
            Option<Authorized>,
            Refusal,
        >(Refusal::Offline),
        before.registry.agents().contains_key(id) && before.registry.tries(observed).len() < 10
            && super::attempts::in_order(before.registry.tries(observed), clock) ==> outcome is Ok,
        after.accounts == before.accounts && after.audit == before.audit,
{
    if super::attempts::in_order(before.registry.tries(observed), clock) {
        super::attempts::lemma_few_attempts_are_allowed(
            before.registry.tries(observed),
            ATTEMPTS,
            ATTEMPT_WINDOW,
            clock,
        );
    }
}

}
