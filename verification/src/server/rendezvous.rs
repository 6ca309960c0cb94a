//! Introductions: agents register and wait, viewers ask for a device by ID,
//! and the server puts them in touch.
//!
//! Introduced, the viewer's connection stays open as the relay's tunnel: the
//! server forwards datagrams between it and the agent's connection, tagging
//! them with the session on the agent's side. The session inside is
//! end-to-end encrypted to the agent's key, so the server passes on packets
//! it cannot read. Only the two connections it paired can use a tunnel, and
//! only once the agent has said it is ready: the relay is no open proxy.
//!
//! A viewer that brings an API token is introduced only to a device its user
//! has a grant for, and gets that grant signed with the server's key to
//! present to the agent. Without a grant, the viewer is told nothing, not
//! even whether the device is online.
//!
//! An enrolled device also outranks a stranger for its ID. Ten digits are
//! easily matched on purpose, so someone could register a key with a managed
//! device's ID first, to keep the device from being found; the device, when
//! it comes, takes the ID over.

use super::accounts::{Refused, User};
use super::attempts::{attempted, kept, Attempts, Key as Counted, Who};
use super::audit::{words, Event};
use super::devices::Device;
use super::grants::{claims, Reachable};
use crate::crypto::random_bytes;
use crate::net::{contains_address, Address, Ip};
use crate::protocol::{DeviceId, Enrollment, FromServer, Refusal, ToServer};
use crate::table::Table;
use crate::transport::fingerprint::Fingerprint;
use crate::transport::grant::{Grant, SignedGrant};
use crate::transport::relay::{number_of, tagged, untag, SESSION_LEN};
use vstd::prelude::*;

verus! {

/// How long a client has to say what it wants, in seconds.
pub const FIRST_MESSAGE: u64 = 10;

/// How long a viewer waits for the agent to open its way, in seconds.
pub const AGENT_ANSWER: u64 = 10;

/// Addresses taken from any one client. A few interfaces' worth; more would
/// let a client aim the other side's connection attempts at a list of
/// strangers.
pub const MAX_ADDRESSES: usize = 8;

/// Connection attempts a viewer's address may make per window.
pub const ATTEMPTS: usize = 10;

/// A minute, in microseconds.
pub const ATTEMPT_WINDOW: u64 = 60_000_000;

// --- Who may have an ID -------------------------------------------------------------------------

#[derive(Debug, Clone, Copy, PartialEq, Eq, Structural)]
pub enum Claim {
    /// The ID is free, or held by this same key: a reconnect.
    Take,
    /// A managed device takes its ID from a stranger's key.
    Displace,
    /// Another key holds it, and this one does not outrank it.
    Refuse,
}

pub open spec fn claim_of(holder: Option<(Seq<u8>, bool)>, key: Seq<u8>, enrolled: bool) -> Claim {
    match holder {
        None => Claim::Take,
        Some((held, managed)) => if held == key {
            Claim::Take
        } else if !managed && enrolled {
            Claim::Displace
        } else {
            Claim::Refuse
        },
    }
}

/// Whether a key may register under an ID that `holder` (its key, and whether
/// it is enrolled) may hold now.
pub fn claim(holder: Option<(&Fingerprint, bool)>, key: &Fingerprint, enrolled: bool) -> (claim:
    Claim)
    ensures
        claim == claim_of(
            match holder {
                Some((held, managed)) => Some((held@, managed)),
                None => None,
            },
            key@,
            enrolled,
        ),
{
    match holder {
        None => Claim::Take,
        Some((held, managed)) => if *held == *key {
            Claim::Take
        } else if !managed && enrolled {
            Claim::Displace
        } else {
            Claim::Refuse
        },
    }
}

/// A managed device is never displaced, by a stranger or by another managed
/// one: only its own key takes its ID again.
pub proof fn lemma_managed_devices_keep_their_id(held: Seq<u8>, key: Seq<u8>, enrolled: bool)
    requires
        held != key,
    ensures
        claim_of(Some((held, true)), key, enrolled) == Claim::Refuse,
{
}

/// And a managed device always gets its ID, unless another one has it.
pub proof fn lemma_managed_devices_outrank_strangers(held: Seq<u8>, key: Seq<u8>)
    ensures
        claim_of(Some((held, false)), key, true) != Claim::Refuse,
        claim_of(None, key, true) == Claim::Take,
{
}

// --- Where a client may be reached -----------------------------------------------------------------

/// An address that can be connected to.
pub open spec fn sensible(address: Address) -> bool {
    !address.ip.unspecified() && address.port != 0
}

/// The sensible addresses, each once, in order.
pub open spec fn sensible_once(addresses: Seq<Address>) -> Seq<Address>
    decreases addresses.len(),
{
    if addresses.len() == 0 {
        Seq::empty()
    } else {
        let rest = sensible_once(addresses.drop_last());
        if sensible(addresses.last()) && !rest.contains(addresses.last()) {
            rest.push(addresses.last())
        } else {
            rest
        }
    }
}

/// The first few of what a client reports, and where it is seen.
pub open spec fn considered(reported: Seq<Address>, observed: Address) -> Seq<Address> {
    (if reported.len() > MAX_ADDRESSES {
        reported.take(MAX_ADDRESSES as int)
    } else {
        reported
    }).push(observed)
}

/// What a client says about where it can be reached, plus where the server
/// sees it, with nonsense and repeats removed.
pub fn candidates(reported: &[Address], observed: Address) -> (out: Vec<Address>)
    ensures
        out@ == sensible_once(considered(reported@, observed)),
{
    let ghost all = considered(reported@, observed);
    let most: usize = if reported.len() > MAX_ADDRESSES {
        MAX_ADDRESSES
    } else {
        reported.len()
    };
    let mut out: Vec<Address> = Vec::new();
    let mut i: usize = 0;
    while i <= most
        invariant
            all == considered(reported@, observed),
            most + 1 == all.len(),
            most <= reported@.len(),
            i <= most + 1,
            most <= MAX_ADDRESSES,
            out@ == sensible_once(all.take(i as int)),
        decreases most + 1 - i,
    {
        let address = if i < most {
            reported[i]
        } else {
            observed
        };
        assert(address == all[i as int]);
        assert(all.take(i + 1).drop_last() =~= all.take(i as int));
        if !address.ip.is_unspecified() && address.port != 0 && !contains_address(&out, address) {
            out.push(address);
        }
        i = i + 1;
    }
    assert(all.take(i as int) =~= all);
    out
}

proof fn lemma_sensible_once(addresses: Seq<Address>)
    ensures
        sensible_once(addresses).len() <= addresses.len(),
        sensible_once(addresses).no_duplicates(),
        forall|i: int|
            0 <= i < sensible_once(addresses).len() ==> sensible(
                #[trigger] sensible_once(addresses)[i],
            ) && addresses.contains(sensible_once(addresses)[i]),
        forall|i: int|
            0 <= i < addresses.len() && sensible(#[trigger] addresses[i]) ==> sensible_once(
                addresses,
            ).contains(addresses[i]),
    decreases addresses.len(),
{
    if addresses.len() > 0 {
        let less = addresses.drop_last();
        let rest = sensible_once(less);
        let all = sensible_once(addresses);
        lemma_sensible_once(less);
        assert forall|i: int| 0 <= i < all.len() implies sensible(#[trigger] all[i])
            && addresses.contains(all[i]) by {
            if i < rest.len() {
                assert(all[i] == rest[i]);
                let j = choose|j: int| 0 <= j < less.len() && less[j] == rest[i];
                assert(addresses[j] == rest[i]);
            } else {
                assert(addresses[addresses.len() - 1] == all[i]);
            }
        }
        assert forall|i: int| 0 <= i < addresses.len() && sensible(
            #[trigger] addresses[i],
        ) implies all.contains(addresses[i]) by {
            if i < less.len() {
                assert(less[i] == addresses[i]);
                let j = choose|j: int| 0 <= j < rest.len() && rest[j] == addresses[i];
                assert(all[j] == addresses[i]);
            } else if rest.contains(addresses[i]) {
                let j = choose|j: int| 0 <= j < rest.len() && rest[j] == addresses[i];
                assert(all[j] == addresses[i]);
            } else {
                assert(all[rest.len() as int] == addresses[i]);
            }
        }
    }
}

/// However many addresses a client reports, the other side is sent to a few:
/// each sensible, none twice; and to where the client is seen, whenever that
/// is sensible itself.
pub proof fn lemma_candidates_are_few_and_sensible(reported: Seq<Address>, observed: Address)
    ensures
        ({
            let out = sensible_once(considered(reported, observed));
            &&& out.len() <= MAX_ADDRESSES + 1
            &&& out.no_duplicates()
            &&& forall|i: int| 0 <= i < out.len() ==> sensible(#[trigger] out[i])
            &&& sensible(observed) ==> out.contains(observed)
        }),
{
    let all = considered(reported, observed);
    lemma_sensible_once(all);
    assert(all[all.len() - 1] == observed);
}

// --- What clients ask for --------------------------------------------------------------------------

/// What a client's first message asks for.
#[derive(Debug)]
pub enum Asked {
    Register { addresses: Vec<Address> },
    /// Introduced to a device; as the user with this token, if there is one.
    Introduce { id: DeviceId, addresses: Vec<Address>, token: Option<String> },
    Enroll(Enrollment),
    /// Nothing that comes first.
    Refuse(Refusal),
}

pub fn first_message(message: Option<ToServer>) -> (asked: Asked)
    ensures
        asked == (match message {
            Some(ToServer::Register { addresses }) => Asked::Register { addresses },
            Some(ToServer::Connect { id, addresses }) => Asked::Introduce {
                id,
                addresses,
                token: None,
            },
            Some(ToServer::ConnectAs { id, addresses, token }) => Asked::Introduce {
                id,
                addresses,
                token: Some(token),
            },
            Some(ToServer::Enroll(enrollment)) => Asked::Enroll(enrollment),
            _ => Asked::Refuse(Refusal::Protocol),
        }),
{
    match message {
        Some(ToServer::Register { addresses }) => Asked::Register { addresses },
        Some(ToServer::Connect { id, addresses }) => Asked::Introduce { id, addresses, token: None },
        Some(ToServer::ConnectAs { id, addresses, token }) => Asked::Introduce {
            id,
            addresses,
            token: Some(token),
        },
        Some(ToServer::Enroll(enrollment)) => Asked::Enroll(enrollment),
        _ => Asked::Refuse(Refusal::Protocol),
    }
}

// --- The registry -----------------------------------------------------------------------------------

/// An agent that waits to be found.
#[derive(Debug)]
pub struct Agent {
    pub fingerprint: Fingerprint,
    /// Where the agent says it can be reached on its own network.
    pub reported: Vec<Address>,
    /// Where it is seen from now: a network may have moved it since it
    /// registered.
    pub seen: Address,
    /// Which registration this is, so a stale connection going away does not
    /// remove the one that replaced it.
    pub registration: u64,
    /// Whether it is a managed device, which may take its ID from a stranger.
    pub enrolled: bool,
}

/// An agent that was taken in.
#[derive(Debug, Clone, Copy, PartialEq, Eq, Structural)]
pub struct Registered {
    pub registration: u64,
    /// The stranger's registration that it took the ID from: to be closed.
    pub displaced: Option<u64>,
}

/// A viewer about to be introduced: what to tell the agent, and under which
/// session its answer is awaited.
#[derive(Debug)]
pub struct Invitation {
    pub session: u64,
    pub registration: u64,
    pub message: FromServer,
}

/// What an agent's message comes to.
#[derive(Debug, Clone, Copy, PartialEq, Eq, Structural)]
pub enum AgentSays {
    /// The viewer who waits for this session is to be told.
    Tell { session: u64, ready: bool },
    /// Nobody waits for it.
    Nobody,
    /// Not something an agent says.
    Unexpected,
}

/// Who is registered, who waits for whom, and which sessions are relayed.
#[derive(Debug)]
pub struct Registry {
    agents: Table<DeviceId, Agent>,
    attempts: Attempts,
    next: u64,
    /// Viewers waiting for an agent to answer: the agent's registration, by
    /// session.
    waiting: Table<u64, u64>,
    /// Sessions to relay: the agent's registration, by session.
    relays: Table<u64, u64>,
    /// Whether there are managed devices; without them, agents can only
    /// register.
    managed: bool,
    /// Whether it is known who may connect to what; without that, viewers
    /// with an account are refused.
    access: bool,
}

/// What `answered` does to who waits and to what is relayed.
pub open spec fn answered_does(
    before: (Map<u64, u64>, Map<u64, u64>),
    after: (Map<u64, u64>, Map<u64, u64>),
    invitation: &Invitation,
    answer: Option<bool>,
    outcome: Result<(), Refusal>,
) -> bool {
    &&& after.0 == before.0.remove(invitation.session)
    &&& if answer == Some(true) {
        &&& outcome == Ok::<(), Refusal>(())
        &&& after.1 == before.1.insert(invitation.session, invitation.registration)
    } else {
        &&& outcome == Err::<(), Refusal>(Refusal::Declined)
        &&& after.1 == before.1
    }
}

/// What `agent_says` does to who waits.
pub open spec fn agent_says_does(
    before: Map<u64, u64>,
    after: Map<u64, u64>,
    registration: u64,
    message: &ToServer,
    says: AgentSays,
) -> bool {
    let answer = match message {
        ToServer::Ready { session } => Some((*session, true)),
        ToServer::Decline { session } => Some((*session, false)),
        _ => None,
    };
    match answer {
        None => says == AgentSays::Unexpected && after == before,
        Some((session, ready)) => if before.contains_key(session) && before[session]
            == registration {
            &&& says == AgentSays::Tell { session, ready }
            &&& after == before.remove(session)
        } else {
            says == AgentSays::Nobody && after == before
        },
    }
}

/// Whom an agent's datagram goes to, and what of it.
pub open spec fn goes_to(
    relays: Map<u64, u64>,
    registration: u64,
    datagram: Seq<u8>,
    packet: Option<(u64, Vec<u8>)>,
) -> bool {
    match packet {
        Some((session, packet)) => {
            &&& datagram.len() >= SESSION_LEN
            &&& session == number_of(datagram.take(8))
            &&& packet@ == datagram.skip(8)
            &&& relays.contains_key(session)
            &&& relays[session] == registration
        },
        None => datagram.len() < SESSION_LEN || {
            let session = number_of(datagram.take(8)) as u64;
            !relays.contains_key(session) || relays[session] != registration
        },
    }
}

impl Registry {
    pub closed spec fn agents(&self) -> Map<DeviceId, Agent> {
        self.agents@
    }

    /// The attempts counted for an address.
    pub closed spec fn tries(&self, ip: Ip) -> Seq<u64> {
        self.attempts.recorded(Counted::Address(ip))
    }

    /// The next number for a registration or a session.
    pub closed spec fn next(&self) -> u64 {
        self.next
    }

    pub closed spec fn waiting(&self) -> Map<u64, u64> {
        self.waiting@
    }

    pub closed spec fn relays(&self) -> Map<u64, u64> {
        self.relays@
    }

    pub closed spec fn managed(&self) -> bool {
        self.managed
    }

    pub closed spec fn access(&self) -> bool {
        self.access
    }

    /// Numbers were all given out below the next one, and attempts are
    /// limited as they should be.
    pub closed spec fn wf(&self) -> bool {
        &&& self.attempts.limit() == ATTEMPTS && self.attempts.window() == ATTEMPT_WINDOW
        &&& forall|session: u64| #[trigger]
            self.waiting@.contains_key(session) ==> session < self.next
        &&& forall|session: u64| #[trigger]
            self.relays@.contains_key(session) ==> session < self.next
        &&& forall|id: DeviceId| #[trigger]
            self.agents@.contains_key(id) ==> self.agents@[id].registration < self.next
    }

    /// What stays as it is while agents come and go.
    pub open spec fn same_service(&self, other: &Registry) -> bool {
        &&& self.managed() == other.managed()
        &&& self.access() == other.access()
        &&& forall|ip: Ip| #[trigger] self.tries(ip) == other.tries(ip)
    }

    pub open spec fn same_sessions(&self, other: &Registry) -> bool {
        self.waiting() == other.waiting() && self.relays() == other.relays()
    }

    /// An empty registry: `managed` says whether it enrolls devices and
    /// keeps their presence, `access` whether it introduces users to the
    /// devices they have grants for.
    pub fn new(managed: bool, access: bool) -> (registry: Registry)
        ensures
            registry.wf(),
            registry.agents() == Map::<DeviceId, Agent>::empty(),
            registry.waiting() == Map::<u64, u64>::empty(),
            registry.relays() == Map::<u64, u64>::empty(),
            registry.next() == 0,
            registry.managed() == managed,
            registry.access() == access,
            forall|ip: Ip| #[trigger] registry.tries(ip).len() == 0,
    {
        Registry {
            agents: Table::new(),
            attempts: Attempts::new(ATTEMPTS, ATTEMPT_WINDOW),
            next: 0,
            waiting: Table::new(),
            relays: Table::new(),
            managed,
            access,
        }
    }

    /// What `attempt` does.
    pub open spec fn attempt_does(
        before: &Registry,
        after: &Registry,
        ip: Ip,
        clock: u64,
        allowed: bool,
    ) -> bool {
        &&& after.wf()
        &&& after.agents() == before.agents()
        &&& after.same_sessions(before)
        &&& after.next() == before.next()
        &&& after.managed() == before.managed()
        &&& after.access() == before.access()
        &&& {
            let (times, ok) = attempted(
                before.tries(ip),
                ATTEMPTS,
                ATTEMPT_WINDOW,
                clock,
            );
            allowed == ok && after.tries(ip) == times
        }
        &&& forall|other: Ip|
            other != ip ==> #[trigger] after.tries(other) == kept(
                before.tries(other),
                ATTEMPT_WINDOW,
                clock,
            )
    }

    /// Whether there are managed devices.
    pub fn is_managed(&self) -> (yes: bool)
        ensures
            yes == self.managed(),
    {
        self.managed
    }

    /// Whether it is known who may connect to what.
    pub fn has_access(&self) -> (yes: bool)
        ensures
            yes == self.access(),
    {
        self.access
    }

    /// Count an attempt from `ip`; false if it has made too many lately.
    pub fn attempt(&mut self, ip: Ip, clock: u64) -> (allowed: bool)
        requires
            old(self).wf(),
        ensures
            Registry::attempt_does(old(self), final(self), ip, clock, allowed),
    {
        self.attempts.attempt(&Who::Address(ip), clock)
    }

    /// The key that holds an ID, and whether it is enrolled.
    pub open spec fn holder(&self, id: DeviceId) -> Option<(Seq<u8>, bool)> {
        if self.agents().contains_key(id) {
            Some((self.agents()[id].fingerprint@, self.agents()[id].enrolled))
        } else {
            None
        }
    }

    /// What `register` does.
    pub open spec fn register_does(
        before: &Registry,
        after: &Registry,
        key: Option<Fingerprint>,
        id: DeviceId,
        addresses: Vec<Address>,
        observed: Address,
        enrolled: bool,
        outcome: Result<Registered, Refusal>,
    ) -> bool {
        &&& after.wf()
        &&& after.same_service(before)
        &&& after.same_sessions(before)
        &&& match key {
            None => {
                &&& outcome == Err::<Registered, Refusal>(Refusal::NoCertificate)
                &&& after.agents() == before.agents()
                &&& after.next() == before.next()
            },
            Some(key) => {
                let claim = claim_of(before.holder(id), key@, enrolled);
                &&& after.next() == before.next() + 1
                &&& if claim == Claim::Refuse {
                    &&& outcome == Err::<Registered, Refusal>(Refusal::IdTaken)
                    &&& after.agents() == before.agents()
                } else {
                    &&& outcome == Ok::<Registered, Refusal>(
                        Registered {
                            registration: before.next(),
                            displaced: if claim == Claim::Displace {
                                Some(before.agents()[id].registration)
                            } else {
                                None
                            },
                        },
                    )
                    &&& after.agents() == before.agents().insert(
                        id,
                        Agent {
                            fingerprint: key,
                            reported: addresses,
                            seen: observed,
                            registration: before.next(),
                            enrolled,
                        },
                    )
                }
            },
        }
    }

    /// An agent registers: `key` is the fingerprint of its certificate, `id`
    /// the number that goes with it, and `enrolled` whether it is a managed
    /// device.
    pub fn register(
        &mut self,
        key: Option<Fingerprint>,
        id: DeviceId,
        addresses: Vec<Address>,
        observed: Address,
        enrolled: bool,
    ) -> (outcome: Result<Registered, Refusal>)
        requires
            old(self).wf(),
            old(self).next() < u64::MAX,
        ensures
            Registry::register_does(
                old(self),
                final(self),
                key,
                id,
                addresses,
                observed,
                enrolled,
                outcome,
            ),
    {
        let key = match key {
            Some(key) => key,
            None => {
                return Err(Refusal::NoCertificate);
            },
        };
        let registration: u64 = self.next;
        self.next = registration + 1;
        let (claimed, held) = match self.agents.get(&id) {
            Some(agent) => (
                claim(Some((&agent.fingerprint, agent.enrolled)), &key, enrolled),
                Some(agent.registration),
            ),
            None => (claim(None, &key, enrolled), None),
        };
        if claimed == Claim::Refuse {
            return Err(Refusal::IdTaken);
        }
        let displaced = if claimed == Claim::Displace {
            held
        } else {
            None
        };
        self.agents.insert(
            id,
            Agent { fingerprint: key, reported: addresses, seen: observed, registration, enrolled },
        );
        proof {
            assert forall|other: DeviceId| #[trigger]
                self.agents@.contains_key(other) implies self.agents@[other].registration
                < self.next by {
                if other != id {
                    assert(old(self).agents@.contains_key(other));
                }
            }
        }
        Ok(Registered { registration, displaced })
    }

    /// What `remove` does.
    pub open spec fn remove_does(
        before: &Registry,
        after: &Registry,
        id: DeviceId,
        registration: u64,
        removed: bool,
    ) -> bool {
        &&& after.wf()
        &&& after.same_service(before)
        &&& after.same_sessions(before)
        &&& after.next() == before.next()
        &&& removed == (before.agents().contains_key(id) && before.agents()[id].registration == registration)
        &&& after.agents() == (if removed {
            before.agents().remove(id)
        } else {
            before.agents()
        })
    }

    /// An agent's connection is gone. Whether it was still the one registered
    /// under that ID: then it is forgotten, and was last seen as it goes.
    pub fn remove(&mut self, id: DeviceId, registration: u64) -> (removed: bool)
        requires
            old(self).wf(),
        ensures
            Registry::remove_does(old(self), final(self), id, registration, removed),
    {
        let current = match self.agents.get(&id) {
            Some(agent) => agent.registration == registration,
            None => false,
        };
        if current {
            let _ = self.agents.remove(&id);
            proof {
                assert forall|other: DeviceId| #[trigger]
                    self.agents@.contains_key(other) implies self.agents@[other].registration
                    < self.next by {
                    assert(old(self).agents@.contains_key(other));
                }
            }
        }
        current
    }

    /// An agent is seen from another address now.
    pub fn moved(&mut self, id: DeviceId, registration: u64, address: Address)
        requires
            old(self).wf(),
        ensures
            final(self).wf(),
            final(self).same_service(old(self)),
            final(self).same_sessions(old(self)),
            final(self).next() == old(self).next(),
            final(self).agents() == (if old(self).agents().contains_key(id) && old(
                self).agents()[id].registration == registration {
                old(self).agents().insert(id, Agent { seen: address, ..old(self).agents()[id] })
            } else {
                old(self).agents()
            }),
    {
        match self.agents.remove(&id) {
            Some(agent) => {
                let seen = if agent.registration == registration {
                    address
                } else {
                    agent.seen
                };
                let ghost before = agent;
                self.agents.insert(
                    id,
                    Agent {
                        fingerprint: agent.fingerprint,
                        reported: agent.reported,
                        seen,
                        registration: agent.registration,
                        enrolled: agent.enrolled,
                    },
                );
                proof {
                    assert(self.agents@ =~= old(self).agents@.insert(id, Agent { seen, ..before }));
                    if before.registration != registration {
                        assert(self.agents@ =~= old(self).agents@);
                    }
                    assert forall|other: DeviceId| #[trigger]
                        self.agents@.contains_key(other) implies self.agents@[other].registration
                        < self.next by {
                        assert(old(self).agents@.contains_key(other));
                    }
                }
            },
            None => {
                assert(self.agents@ =~= old(self).agents@);
            },
        }
    }

    /// Where the device with this key is connected from, if it is.
    pub fn online(&self, id: DeviceId, fingerprint: &Fingerprint) -> (from: Option<Address>)
        ensures
            from == (if self.agents().contains_key(id) && self.agents()[id].fingerprint@
                == fingerprint@ {
                Some(self.agents()[id].seen)
            } else {
                None::<Address>
            }),
    {
        match self.agents.get(&id) {
            Some(agent) => if agent.fingerprint == *fingerprint {
                Some(agent.seen)
            } else {
                None
            },
            None => None,
        }
    }

    /// A device has enrolled: if it is registered already, under this key, it
    /// is managed from now on.
    pub fn now_managed(&mut self, id: DeviceId, fingerprint: &Fingerprint)
        requires
            old(self).wf(),
        ensures
            final(self).wf(),
            final(self).same_service(old(self)),
            final(self).same_sessions(old(self)),
            final(self).next() == old(self).next(),
            final(self).agents() == (if old(self).agents().contains_key(id) && old(
                self).agents()[id].fingerprint@ == fingerprint@ {
                old(self).agents().insert(id, Agent { enrolled: true, ..old(self).agents()[id] })
            } else {
                old(self).agents()
            }),
    {
        match self.agents.remove(&id) {
            Some(agent) => {
                let enrolled = agent.enrolled || agent.fingerprint == *fingerprint;
                let ghost before = agent;
                self.agents.insert(
                    id,
                    Agent {
                        fingerprint: agent.fingerprint,
                        reported: agent.reported,
                        seen: agent.seen,
                        registration: agent.registration,
                        enrolled,
                    },
                );
                proof {
                    assert(self.agents@ =~= old(self).agents@.insert(
                        id,
                        Agent { enrolled, ..before },
                    ));
                    if before.fingerprint@ != fingerprint@ {
                        assert(self.agents@ =~= old(self).agents@);
                    }
                    assert forall|other: DeviceId| #[trigger]
                        self.agents@.contains_key(other) implies self.agents@[other].registration
                        < self.next by {
                        assert(old(self).agents@.contains_key(other));
                    }
                }
            },
            None => {
                assert(self.agents@ =~= old(self).agents@);
            },
        }
    }

    // --- Introducing a viewer -------------------------------------------------------------------

    /// What `invite` does.
    pub open spec fn invite_does(
        before: &Registry,
        after: &Registry,
        id: DeviceId,
        addresses: &[Address],
        observed: Address,
        outcome: Result<Invitation, Refusal>,
    ) -> bool {
        &&& after.wf()
        &&& after.same_service(before)
        &&& after.agents() == before.agents()
        &&& after.relays() == before.relays()
        &&& match outcome {
            Ok(invitation) => {
                &&& before.agents().contains_key(id)
                &&& invitation.session == before.next()
                &&& invitation.registration == before.agents()[id].registration
                &&& invitation.message matches FromServer::Incoming {
                    session,
                    addresses: sent,
                } && session == invitation.session && sent@ == sensible_once(
                    considered(addresses@, observed),
                )
                &&& after.next() == before.next() + 1
                &&& after.waiting() == before.waiting().insert(
                    invitation.session,
                    invitation.registration,
                )
            },
            Err(refusal) => {
                &&& refusal == Refusal::Offline
                &&& !before.agents().contains_key(id)
                &&& after.next() == before.next()
                &&& after.waiting() == before.waiting()
            },
        }
    }

    /// Ask a device's agent to open its way to a viewer who reports these
    /// addresses and is seen at `observed`.
    pub fn invite(&mut self, id: DeviceId, addresses: &[Address], observed: Address) -> (outcome:
        Result<Invitation, Refusal>)
        requires
            old(self).wf(),
            old(self).next() < u64::MAX,
        ensures
            Registry::invite_does(old(self), final(self), id, addresses, observed, outcome),
    {
        let registration: u64 = match self.agents.get(&id) {
            Some(agent) => agent.registration,
            None => {
                return Err(Refusal::Offline);
            },
        };
        let session: u64 = self.next;
        self.next = session + 1;
        self.waiting.insert(session, registration);
        let message = FromServer::Incoming { session, addresses: candidates(addresses, observed) };
        proof {
            assert forall|other: u64| #[trigger] self.waiting@.contains_key(other) implies other
                < self.next by {
                if other != session {
                    assert(old(self).waiting@.contains_key(other));
                }
            }
        }
        Ok(Invitation { session, registration, message })
    }

    /// An agent says something.
    pub fn agent_says(&mut self, registration: u64, message: &ToServer) -> (says: AgentSays)
        requires
            old(self).wf(),
        ensures
            final(self).wf(),
            final(self).same_service(old(self)),
            final(self).agents() == old(self).agents(),
            final(self).relays() == old(self).relays(),
            final(self).next() == old(self).next(),
            agent_says_does(
                old(self).waiting(),
                final(self).waiting(),
                registration,
                message,
                says,
            ),
    {
        let (session, ready) = match message {
            ToServer::Ready { session } => (*session, true),
            ToServer::Decline { session } => (*session, false),
            _ => {
                return AgentSays::Unexpected;
            },
        };
        let own = match self.waiting.get(&session) {
            Some(asked) => *asked == registration,
            None => false,
        };
        if !own {
            return AgentSays::Nobody;
        }
        let _ = self.waiting.remove(&session);
        proof {
            assert forall|other: u64| #[trigger] self.waiting@.contains_key(other) implies other
                < self.next by {
                assert(old(self).waiting@.contains_key(other));
            }
        }
        AgentSays::Tell { session, ready }
    }

    /// The wait for an agent is over: `answer` is what it said in time. A
    /// session the agent is ready for is relayed from now on; a viewer it is
    /// not ready for is refused.
    pub fn answered(&mut self, invitation: &Invitation, answer: Option<bool>) -> (outcome: Result<
        (),
        Refusal,
    >)
        requires
            old(self).wf(),
            invitation.session < old(self).next(),
        ensures
            final(self).wf(),
            final(self).same_service(old(self)),
            final(self).agents() == old(self).agents(),
            final(self).next() == old(self).next(),
            answered_does(
                (old(self).waiting(), old(self).relays()),
                (final(self).waiting(), final(self).relays()),
                invitation,
                answer,
                outcome,
            ),
    {
        let _ = self.waiting.remove(&invitation.session);
        let ready = match answer {
            Some(ready) => ready,
            None => false,
        };
        if ready {
            self.relays.insert(invitation.session, invitation.registration);
        }
        proof {
            assert forall|other: u64| #[trigger] self.waiting@.contains_key(other) implies other
                < self.next by {
                assert(old(self).waiting@.contains_key(other));
            }
            assert forall|other: u64| #[trigger] self.relays@.contains_key(other) implies other
                < self.next by {
                if other != invitation.session {
                    assert(old(self).relays@.contains_key(other));
                }
            }
        }
        if ready {
            Ok(())
        } else {
            Err(Refusal::Declined)
        }
    }

    /// Whom an agent's datagram is for: the session's viewer, and the packet
    /// in it. Only the sessions this agent was introduced for are its own.
    pub fn relayed(&self, registration: u64, datagram: &[u8]) -> (packet: Option<(u64, Vec<u8>)>)
        ensures
            goes_to(self.relays(), registration, datagram@, packet),
    {
        match untag(datagram) {
            None => None,
            Some((session, packet)) => match self.relays.get(&session) {
                Some(agent) => if *agent == registration {
                    Some((session, packet))
                } else {
                    None
                },
                None => None,
            },
        }
    }

    /// The viewer closed its connection: its session is relayed no more.
    pub fn relay_ended(&mut self, session: u64)
        requires
            old(self).wf(),
        ensures
            final(self).wf(),
            final(self).same_service(old(self)),
            final(self).agents() == old(self).agents(),
            final(self).next() == old(self).next(),
            final(self).waiting() == old(self).waiting(),
            final(self).relays() == old(self).relays().remove(session),
    {
        let _ = self.relays.remove(&session);
        proof {
            assert forall|other: u64| #[trigger] self.relays@.contains_key(other) implies other
                < self.next by {
                assert(old(self).relays@.contains_key(other));
            }
        }
    }
}

/// A session that is just begun is relayed to nobody: only an agent's answer
/// makes it so.
pub proof fn lemma_a_new_session_is_not_relayed(registry: Registry)
    requires
        registry.wf(),
    ensures
        !registry.relays().contains_key(registry.next()),
        !registry.waiting().contains_key(registry.next()),
{
}

// --- Who is told what --------------------------------------------------------------------------

/// This is what a viewer is sent that is introduced to an agent.
pub open spec fn introduces(
    agent: &Agent,
    grant: Option<SignedGrant>,
    messages: Seq<FromServer>,
) -> bool {
    let peer = messages.last();
    &&& messages.len() == (if grant is Some {
        2int
    } else {
        1int
    })
    &&& grant matches Some(grant) ==> messages[0] == FromServer::Granted(grant)
    &&& peer matches FromServer::Peer { fingerprint, addresses } && fingerprint@
        == agent.fingerprint@ && addresses@ == sensible_once(
        considered(agent.reported@, agent.seen),
    )
}

/// What a viewer is sent that is introduced to an agent: the grant first, if
/// there is one, then the agent's key and where it may be reached.
pub fn introduction(agent: &Agent, grant: Option<SignedGrant>) -> (messages: Vec<FromServer>)
    ensures
        introduces(agent, grant, messages@),
{
    let mut messages: Vec<FromServer> = Vec::new();
    match grant {
        Some(grant) => {
            messages.push(FromServer::Granted(grant));
        },
        None => {},
    }
    messages.push(
        FromServer::Peer {
            fingerprint: agent.fingerprint,
            addresses: candidates(&agent.reported, agent.seen),
        },
    );
    messages
}

impl Event {
    /// The event says this, and nothing else.
    pub open spec fn is(
        &self,
        actor: Option<Seq<char>>,
        address: Ip,
        action: Seq<char>,
        target: Seq<char>,
        detail: Seq<char>,
    ) -> bool {
        &&& words(self.actor) == actor
        &&& self.address == Some(address)
        &&& self.action@ == action
        &&& words(self.target) == Some(target)
        &&& words(self.detail) == Some(detail)
    }
}

/// A user may reach the device they asked for.
#[derive(Debug)]
pub struct Authorized {
    pub user: String,
    /// For the server's key to sign.
    pub grant: Grant,
}

/// They may not; with what there is to record of it.
#[derive(Debug)]
pub struct Unauthorized {
    pub refusal: Refusal,
    pub event: Option<Event>,
}

/// Whether a user gets a grant.
pub enum Authorization {
    Refuse(Refusal),
    /// No grant gives them the device.
    NoGrant,
    /// This is the device, and their role on it.
    Allow(int),
}

/// The first of the devices with a number; -1 if there is none.
pub open spec fn reached(reachable: Seq<Reachable>, id: DeviceId, from: int) -> int
    decreases reachable.len() - from,
{
    if from < 0 || from >= reachable.len() {
        -1
    } else if reachable[from].number == id {
        from
    } else {
        reached(reachable, id, from + 1)
    }
}

/// Whether someone who asks for device `id` gets a grant: `online` is the key
/// registered under that number now.
pub open spec fn authorization(
    access: bool,
    signed_in: bool,
    reachable: Option<Seq<Reachable>>,
    id: DeviceId,
    online: Option<Seq<u8>>,
    drawn: bool,
) -> Authorization {
    if !access {
        Authorization::Refuse(Refusal::NotAllowed)
    } else if !signed_in {
        Authorization::Refuse(Refusal::NotSignedIn)
    } else {
        match reachable {
            None => Authorization::Refuse(Refusal::NotAllowed),
            Some(reachable) => {
                let i = reached(reachable, id, 0);
                if i < 0 {
                    Authorization::NoGrant
                } else if online != Some(reachable[i].fingerprint@) {
                    Authorization::Refuse(Refusal::Offline)
                } else if !drawn {
                    Authorization::Refuse(Refusal::NotAllowed)
                } else {
                    Authorization::Allow(i)
                }
            },
        }
    }
}

/// Without a grant, a viewer is told nothing, not even whether the device is
/// online: the answer is the same whoever is registered under its number.
pub proof fn lemma_without_a_grant_nothing_is_told(
    access: bool,
    signed_in: bool,
    reachable: Option<Seq<Reachable>>,
    id: DeviceId,
    online: Option<Seq<u8>>,
    otherwise: Option<Seq<u8>>,
    drawn: bool,
)
    requires
        reachable matches Some(devices) ==> reached(devices, id, 0) < 0,
    ensures
        authorization(access, signed_in, reachable, id, online, drawn) == authorization(
            access,
            signed_in,
            reachable,
            id,
            otherwise,
            drawn,
        ),
        authorization(access, signed_in, reachable, id, online, drawn) !is Allow,
{
}

/// This is what someone who asks for device `id` gets: `key` is what is
/// registered under that number, `nonce` what was drawn.
pub open spec fn authorizes(
    access: bool,
    key: Option<Seq<u8>>,
    user: Option<Seq<char>>,
    devices: Option<Seq<Reachable>>,
    id: DeviceId,
    from: Ip,
    nonce: Option<Seq<u8>>,
    now: i64,
    lifetime: u64,
    outcome: &Result<Authorized, Unauthorized>,
) -> bool {
    match authorization(access, user is Some, devices, id, key, nonce is Some) {
        Authorization::Refuse(refusal) => outcome matches Err(refused) && refused.refusal == refusal
            && refused.event is None,
        Authorization::NoGrant => {
            &&& outcome matches Err(refused)
            &&& refused.refusal == Refusal::NotAllowed
            &&& refused.event matches Some(event) && event.is(
                user,
                from,
                "session.refuse"@,
                id.written(),
                "no grant"@,
            )
        },
        Authorization::Allow(i) => {
            &&& outcome matches Ok(authorized)
            &&& Some(authorized.user@) == user
            &&& Some(authorized.grant.user@) == user
            &&& authorized.grant.device@ == devices->Some_0[i].fingerprint@
            &&& authorized.grant.role == devices->Some_0[i].role
            &&& authorized.grant.issued_at == (if now > 0 {
                now as int
            } else {
                0
            })
            &&& authorized.grant.expires_at == authorized.grant.issued_at + lifetime
            &&& Some(authorized.grant.nonce@) == nonce
        },
    }
}

impl Registry {
    /// The key registered under a number.
    pub open spec fn key_at(&self, id: DeviceId) -> Option<Seq<u8>> {
        if self.agents().contains_key(id) {
            Some(self.agents()[id].fingerprint@)
        } else {
            None
        }
    }

    /// The agent registered under a number.
    pub fn agent(&self, id: DeviceId) -> (agent: Option<&Agent>)
        ensures
            match agent {
                Some(agent) => self.agents().contains_key(id) && self.agents()[id] == *agent,
                None => !self.agents().contains_key(id),
            },
    {
        self.agents.get(&id)
    }

    /// Whether `user` (whose API token it is, if it is anyone's) may be
    /// introduced to the device with ID `id`, and the grant to sign for it.
    /// `reachable` is what they may reach, if that could be looked up, and
    /// `nonce` what was drawn for the grant.
    pub fn authorize_with(
        &self,
        user: Option<&User>,
        reachable: Option<&[Reachable]>,
        id: DeviceId,
        from: Ip,
        nonce: Option<Vec<u8>>,
        now: i64,
        lifetime: u64,
    ) -> (outcome: Result<Authorized, Unauthorized>)
        requires
            nonce matches Some(bytes) ==> bytes@.len() == 16,
            lifetime <= i64::MAX,
        ensures
            authorizes(
                self.access(),
                self.key_at(id),
                match user {
                    Some(user) => Some(user.name@),
                    None => None,
                },
                match reachable {
                    Some(devices) => Some(devices@),
                    None => None,
                },
                id,
                from,
                match nonce {
                    Some(bytes) => Some(bytes@),
                    None => None,
                },
                now,
                lifetime,
                &outcome,
            ),
    {
        if !self.access {
            return Err(Unauthorized { refusal: Refusal::NotAllowed, event: None });
        }
        let user = match user {
            Some(user) => user,
            None => {
                return Err(Unauthorized { refusal: Refusal::NotSignedIn, event: None });
            },
        };
        let devices = match reachable {
            Some(devices) => devices,
            None => {
                return Err(Unauthorized { refusal: Refusal::NotAllowed, event: None });
            },
        };
        let mut i: usize = 0;
        while i < devices.len() && devices[i].number != id
            invariant
                i <= devices@.len(),
                reached(devices@, id, 0) == reached(devices@, id, i as int),
            decreases devices.len() - i,
        {
            i = i + 1;
        }
        if i == devices.len() {
            let event = Event {
                actor: Some(user.name.as_str().to_owned()),
                address: Some(from),
                action: "session.refuse".to_owned(),
                target: Some(id.text()),
                detail: Some("no grant".to_owned()),
            };
            return Err(Unauthorized { refusal: Refusal::NotAllowed, event: Some(event) });
        }
        let device = &devices[i];
        if self.online(id, &device.fingerprint).is_none() {
            return Err(Unauthorized { refusal: Refusal::Offline, event: None });
        }
        match claims(device, &user.name, nonce, now, lifetime) {
            Ok(grant) => Ok(Authorized { user: user.name.as_str().to_owned(), grant }),
            Err(_) => Err(Unauthorized { refusal: Refusal::NotAllowed, event: None }),
        }
    }

    /// Whether a user may be introduced to a device, with a grant drawn for
    /// it.
    pub fn authorize(
        &self,
        user: Option<&User>,
        reachable: Option<&[Reachable]>,
        id: DeviceId,
        from: Ip,
        now: i64,
        lifetime: u64,
    ) -> (outcome: Result<Authorized, Unauthorized>)
        requires
            lifetime <= i64::MAX,
        ensures
            ({
                let devices = match reachable {
                    Some(devices) => Some(devices@),
                    None => None,
                };
                match authorization(
                    self.access(),
                    user is Some,
                    devices,
                    id,
                    self.key_at(id),
                    true,
                ) {
                    Authorization::Refuse(refusal) => outcome matches Err(refused)
                        && refused.refusal == refusal && refused.event is None,
                    Authorization::NoGrant => {
                        &&& outcome matches Err(refused)
                        &&& refused.refusal == Refusal::NotAllowed
                        &&& refused.event matches Some(event) && event.is(
                            Some(user->Some_0.name@),
                            from,
                            "session.refuse"@,
                            id.written(),
                            "no grant"@,
                        )
                    },
                    Authorization::Allow(i) => match outcome {
                        Ok(authorized) => {
                            &&& authorized.user@ == user->Some_0.name@
                            &&& authorized.grant.user@ == user->Some_0.name@
                            &&& authorized.grant.device@ == devices->Some_0[i].fingerprint@
                            &&& authorized.grant.role == devices->Some_0[i].role
                            &&& authorized.grant.issued_at == (if now > 0 {
                                now as int
                            } else {
                                0
                            })
                            &&& authorized.grant.expires_at == authorized.grant.issued_at
                                + lifetime
                        },
                        Err(refused) => refused.refusal == Refusal::NotAllowed && refused.event
                            is None,
                    },
                }
            }),
    {
        self.authorize_with(user, reachable, id, from, random_bytes(16), now, lifetime)
    }

    /// What `may_enroll` does.
    pub open spec fn may_enroll_does(
        before: &Registry,
        after: &Registry,
        key: Option<&Fingerprint>,
        from: Ip,
        clock: u64,
        checked: Result<(), Refusal>,
    ) -> bool {
        &&& after.wf()
        &&& after.agents() == before.agents()
        &&& after.same_sessions(before)
        &&& after.next() == before.next()
        &&& after.managed() == before.managed()
        &&& after.access() == before.access()
        &&& match key {
            None => {
                &&& checked == Err::<(), Refusal>(Refusal::NoCertificate)
                &&& forall|ip: Ip| #[trigger] after.tries(ip) == before.tries(ip)
            },
            Some(_) => {
                let (times, ok) = attempted(
                    before.tries(from),
                    ATTEMPTS,
                    ATTEMPT_WINDOW,
                    clock,
                );
                &&& after.tries(from) == times
                &&& forall|other: Ip|
                    other != from ==> #[trigger] after.tries(other) == kept(
                        before.tries(other),
                        ATTEMPT_WINDOW,
                        clock,
                    )
                &&& checked == (if !ok {
                    Err::<(), Refusal>(Refusal::TooManyAttempts)
                } else if !before.managed() {
                    Err(Refusal::Enrollment)
                } else {
                    Ok(())
                })
            },
        }
    }

    /// Whether an agent may try to enroll: it needs a certificate, tries
    /// left (tokens cannot be guessed, but each try costs a write), and a
    /// server that manages devices.
    pub fn may_enroll(&mut self, key: Option<&Fingerprint>, from: Ip, clock: u64) -> (checked:
        Result<(), Refusal>)
        requires
            old(self).wf(),
        ensures
            Registry::may_enroll_does(old(self), final(self), key, from, clock, checked),
    {
        if key.is_none() {
            return Err(Refusal::NoCertificate);
        }
        if !self.attempt(from, clock) {
            return Err(Refusal::TooManyAttempts);
        }
        if !self.managed {
            return Err(Refusal::Enrollment);
        }
        Ok(())
    }

    /// What `enrolled` does.
    pub open spec fn enrolled_does(
        before: &Registry,
        after: &Registry,
        id: DeviceId,
        fingerprint: &Fingerprint,
        outcome: &Result<Device, Refused>,
        reported: Seq<char>,
        from: Ip,
        answer: (FromServer, Option<Event>),
    ) -> bool {
        &&& after.wf()
        &&& after.same_service(before)
        &&& after.same_sessions(before)
        &&& after.next() == before.next()
        &&& answer.1 is Some == before.access()
        &&& match outcome {
            Ok(device) => {
                &&& answer.0 == FromServer::Enrolled { id }
                &&& answer.1 matches Some(event) ==> event.is(
                    None,
                    from.canonical(),
                    "device.enroll"@,
                    device.name@,
                    id.written(),
                )
                &&& after.agents() == (if before.agents().contains_key(id) && before.agents()[id].fingerprint@ == fingerprint@ {
                    before.agents().insert(
                        id,
                        Agent { enrolled: true, ..before.agents()[id] },
                    )
                } else {
                    before.agents()
                })
            },
            Err(refused) => {
                &&& answer.0 == FromServer::Refused(Refusal::Enrollment)
                &&& answer.1 matches Some(event) ==> event.is(
                    None,
                    from.canonical(),
                    "device.enroll_fail"@,
                    reported,
                    refused.says(),
                )
                &&& after.agents() == before.agents()
            },
        }
    }

    /// What an agent that tried to enroll is told, and what is recorded of
    /// it.
    pub fn enrolled(
        &mut self,
        id: DeviceId,
        fingerprint: &Fingerprint,
        outcome: &Result<Device, Refused>,
        reported: &str,
        from: Ip,
    ) -> (answer: (FromServer, Option<Event>))
        requires
            old(self).wf(),
        ensures
            Registry::enrolled_does(
                old(self),
                final(self),
                id,
                fingerprint,
                outcome,
                reported@,
                from,
                answer,
            ),
    {
        let recorded = self.access;
        match outcome {
            Ok(device) => {
                self.now_managed(id, fingerprint);
                let event = if recorded {
                    Some(
                        Event {
                            actor: None,
                            address: Some(from.to_canonical()),
                            action: "device.enroll".to_owned(),
                            target: Some(device.name.as_str().to_owned()),
                            detail: Some(id.text()),
                        },
                    )
                } else {
                    None
                };
                (FromServer::Enrolled { id }, event)
            },
            Err(refused) => {
                let event = if recorded {
                    Some(
                        Event {
                            actor: None,
                            address: Some(from.to_canonical()),
                            action: "device.enroll_fail".to_owned(),
                            target: Some(reported.to_owned()),
                            detail: Some(refused.message()),
                        },
                    )
                } else {
                    None
                };
                (FromServer::Refused(Refusal::Enrollment), event)
            },
        }
    }
}

/// The grant of an authorized user, once it is signed, and what is recorded
/// of it. A grant that could not be signed is none.
pub fn granted(
    authorized: &Authorized,
    signed: Option<SignedGrant>,
    id: DeviceId,
    from: Ip,
) -> (outcome: Result<(SignedGrant, Event), Refusal>)
    ensures
        match (signed, outcome) {
            (Some(signed), Ok((grant, event))) => grant == signed && event.is(
                Some(authorized.user@),
                from,
                "session.grant"@,
                id.written(),
                authorized.grant.role.name(),
            ),
            (None, Err(refusal)) => refusal == Refusal::NotAllowed,
            _ => false,
        },
{
    match signed {
        None => Err(Refusal::NotAllowed),
        Some(signed) => {
            let event = Event {
                actor: Some(authorized.user.as_str().to_owned()),
                address: Some(from),
                action: "session.grant".to_owned(),
                target: Some(id.text()),
                detail: Some(authorized.grant.role.as_str().to_owned()),
            };
            Ok((signed, event))
        },
    }
}

// --- What introductions come to ------------------------------------------------------------------

/// An ID that is free, or whose key comes back, is taken. One that a stranger
/// has is taken over by a managed device, and by nobody else. One that a
/// managed device has is refused to every other key.
pub proof fn lemma_claims(holder: Option<(Seq<u8>, bool)>, key: Seq<u8>, enrolled: bool)
    ensures
        claim_of(holder, key, enrolled) == Claim::Take <==> (holder matches Some((held, _)) ==> held
            == key),
        claim_of(holder, key, enrolled) == Claim::Displace <==> (holder matches Some((held, managed))
            && held != key && !managed && enrolled),
        claim_of(holder, key, enrolled) == Claim::Refuse <==> (holder matches Some((held, managed))
            && held != key && (managed || !enrolled)),
{
}

/// An agent that is taken in is found under its ID from then on, by its own
/// key, at the addresses that it reported and where it is seen; nobody else is
/// found elsewhere than before. One without a certificate is not taken in, nor
/// one whose ID another key has and keeps.
pub proof fn lemma_registered_agents_are_found(
    before: Registry,
    after: Registry,
    key: Option<Fingerprint>,
    id: DeviceId,
    addresses: Vec<Address>,
    observed: Address,
    enrolled: bool,
    outcome: Result<Registered, Refusal>,
    other: DeviceId,
)
    requires
        Registry::register_does(
            &before,
            &after,
            key,
            id,
            addresses,
            observed,
            enrolled,
            outcome,
        ),
    ensures
        key is None ==> outcome is Err,
        outcome is Ok ==> {
            &&& key matches Some(key)
            &&& after.agents().contains_key(id)
            &&& after.agents()[id].fingerprint@ == key@
            &&& after.agents()[id].reported == addresses && after.agents()[id].seen == observed
            &&& after.agents()[id].enrolled == enrolled
            &&& after.agents()[id].registration == outcome->Ok_0.registration
        },
        outcome is Err ==> after.agents() == before.agents(),
        other != id ==> (after.agents().contains_key(other) <==> before.agents().contains_key(other))
            && after.agents()[other] == before.agents()[other],
        key matches Some(key) && before.agents().contains_key(id)
            && before.agents()[id].fingerprint@ != key@ && (before.agents()[id].enrolled
            || !enrolled) ==> outcome is Err,
        key matches Some(key) && (!before.agents().contains_key(id)
            || before.agents()[id].fingerprint@ == key@) ==> outcome is Ok,
        key matches Some(key) && before.agents().contains_key(id) && !before.agents()[id].enrolled
            && enrolled ==> outcome is Ok,
        outcome matches Ok(taken) ==> (taken.displaced matches Some(gone) ==> key is Some
            && before.agents().contains_key(id) && before.agents()[id].registration == gone
            && before.agents()[id].fingerprint@ != key->Some_0@),
        outcome matches Ok(taken) ==> (key is Some && before.agents().contains_key(id)
            && before.agents()[id].fingerprint@ != key->Some_0@ ==> taken.displaced == Some(
            before.agents()[id].registration,
        )),
{
}

/// Where the other side is sent: the first eight addresses that a client
/// reports and where it is seen, those that can be connected to and nothing
/// else. What cannot be is any that has no port, or is of no host.
pub proof fn lemma_candidates_are_what_was_said(
    reported: Seq<Address>,
    observed: Address,
    address: Address,
)
    ensures
        sensible_once(considered(reported, observed)).contains(address) <==> (address == observed
            || exists|i: int| 0 <= i < 8 && i < reported.len() && #[trigger] reported[i] == address)
            && address.port != 0 && address.ip != Ip::V4(0) && address.ip != Ip::V6(0),
        sensible_once(considered(reported, observed)).len() <= 9,
{
    let all = considered(reported, observed);
    let out = sensible_once(all);
    lemma_sensible_once(all);
    if out.contains(address) {
        let k = choose|k: int| 0 <= k < out.len() && out[k] == address;
        assert(sensible(out[k]) && all.contains(out[k]));
        let i = choose|i: int| 0 <= i < all.len() && all[i] == address;
        if i < all.len() - 1 {
            assert(reported[i] == address);
        }
    }
    if sensible(address) {
        if address == observed {
            assert(all[all.len() - 1] == address);
        } else if exists|i: int|
            0 <= i < 8 && i < reported.len() && #[trigger] reported[i] == address {
            let i = choose|i: int|
                0 <= i < 8 && i < reported.len() && #[trigger] reported[i] == address;
            assert(all[i] == address);
        }
    }
}

/// Whoever is introduced has a grant: someone is signed in, among what they
/// may reach is a device with that number, and it is that device's key that is
/// registered under it now. The grant names them, that key and the role that
/// they have there, and ends when it should.
pub proof fn lemma_only_who_is_granted_is_introduced(
    access: bool,
    key: Option<Seq<u8>>,
    user: Option<Seq<char>>,
    devices: Option<Seq<Reachable>>,
    id: DeviceId,
    from: Ip,
    nonce: Option<Seq<u8>>,
    now: i64,
    lifetime: u64,
    authorized: Authorized,
)
    requires
        authorizes(
            access,
            key,
            user,
            devices,
            id,
            from,
            nonce,
            now,
            lifetime,
            &Ok::<Authorized, Unauthorized>(authorized),
        ),
    ensures
        access,
        user == Some(authorized.grant.user@),
        key == Some(authorized.grant.device@),
        authorized.grant.expires_at - authorized.grant.issued_at == lifetime,
        now > 0 ==> authorized.grant.issued_at == now,
        devices matches Some(devices) && exists|i: int|
            {
                &&& 0 <= i < devices.len()
                &&& (#[trigger] devices[i]).number == id
                &&& devices[i].fingerprint@ == authorized.grant.device@
                &&& devices[i].role == authorized.grant.role
            },
{
    let reachable = devices->Some_0;
    lemma_reached(reachable, id, 0);
    let i = reached(reachable, id, 0);
    assert(reachable[i].number == id);
}

/// And whoever has one is introduced, while the device is there and a nonce
/// can be drawn; a device that is not there is offline to them, and one that
/// they have no grant for is not theirs to know of.
pub proof fn lemma_who_is_granted_is_introduced(
    key: Option<Seq<u8>>,
    user: Option<Seq<char>>,
    devices: Seq<Reachable>,
    id: DeviceId,
    from: Ip,
    nonce: Option<Seq<u8>>,
    now: i64,
    lifetime: u64,
    outcome: Result<Authorized, Unauthorized>,
    i: int,
)
    requires
        authorizes(true, key, user, Some(devices), id, from, nonce, now, lifetime, &outcome),
        0 <= i < devices.len() && devices[i].number == id,
        forall|j: int| 0 <= j < devices.len() && j != i ==> (#[trigger] devices[j]).number != id,
    ensures
        user is None ==> (outcome matches Err(refused) && refused.refusal == Refusal::NotSignedIn),
        user is Some && key == Some(devices[i].fingerprint@) && nonce is Some ==> outcome is Ok,
        user is Some && key != Some(devices[i].fingerprint@) ==> (outcome matches Err(refused)
            && refused.refusal == Refusal::Offline),
{
    lemma_reached(devices, id, 0);
    let k = reached(devices, id, 0);
    if k >= 0 {
        assert(devices[k].number == id);
    } else {
        assert(devices[i].number != id);
    }
}

/// The first device that goes by a number, if there is one.
pub proof fn lemma_reached(reachable: Seq<Reachable>, id: DeviceId, from: int)
    requires
        0 <= from,
    ensures
        ({
            let i = reached(reachable, id, from);
            &&& i >= 0 ==> from <= i < reachable.len() && reachable[i].number == id
            &&& i < 0 ==> forall|j: int|
                from <= j < reachable.len() ==> (#[trigger] reachable[j]).number != id
        }),
    decreases reachable.len() - from,
{
    if from < reachable.len() && reachable[from].number != id {
        lemma_reached(reachable, id, from + 1);
    }
}

/// A session is relayed once its agent has said that it is ready, and to that
/// agent; no other session's standing changes by that, and whoever declines or
/// does not answer is not relayed to.
pub proof fn lemma_only_the_ready_are_relayed(
    before: (Map<u64, u64>, Map<u64, u64>),
    after: (Map<u64, u64>, Map<u64, u64>),
    invitation: Invitation,
    answer: Option<bool>,
    outcome: Result<(), Refusal>,
    session: u64,
)
    requires
        answered_does(before, after, &invitation, answer, outcome),
    ensures
        outcome is Ok <==> answer == Some(true),
        !after.0.contains_key(invitation.session),
        answer == Some(true) ==> after.1.contains_key(invitation.session)
            && after.1[invitation.session] == invitation.registration,
        answer != Some(true) ==> after.1 == before.1 && outcome == Err::<(), Refusal>(
            Refusal::Declined,
        ),
        session != invitation.session ==> (after.1.contains_key(session)
            <==> before.1.contains_key(session)) && (after.1.contains_key(session)
            ==> after.1[session] == before.1[session]) && (after.0.contains_key(session)
            <==> before.0.contains_key(session)),
{
}

/// Only the agent that a viewer waits for answers them, and once.
pub proof fn lemma_only_the_invited_agent_answers(
    before: Map<u64, u64>,
    after: Map<u64, u64>,
    registration: u64,
    message: ToServer,
    says: AgentSays,
)
    requires
        agent_says_does(before, after, registration, &message, says),
    ensures
        says matches AgentSays::Tell { session, ready } ==> {
            &&& before.contains_key(session) && before[session] == registration
            &&& !after.contains_key(session)
            &&& ready <==> (message matches ToServer::Ready { session: named } && named == session)
            &&& !ready <==> (message matches ToServer::Decline { session: named } && named == session)
        },
        message matches ToServer::Ready { session } ==> (before.contains_key(session)
            && before[session] == registration ==> says == (AgentSays::Tell {
            session,
            ready: true,
        })),
        message matches ToServer::Decline { session } ==> (before.contains_key(session)
            && before[session] == registration ==> says == (AgentSays::Tell {
            session,
            ready: false,
        })),
        says !is Tell ==> after == before,
{
}

/// What an agent tags with a session goes to that session's viewer as it was,
/// if the session is relayed to that agent, and nowhere if it is not: the
/// relay is no open proxy.
pub proof fn lemma_tagged_packets_go_to_their_viewer(
    relays: Map<u64, u64>,
    registration: u64,
    session: u64,
    packet: Seq<u8>,
    forwarded: Option<(u64, Vec<u8>)>,
)
    requires
        goes_to(relays, registration, tagged(session, packet), forwarded),
    ensures
        relays.contains_key(session) && relays[session] == registration ==> (forwarded matches Some(
            (to, sent),
        ) && to == session && sent@ == packet),
        !(relays.contains_key(session) && relays[session] == registration) ==> forwarded is None,
{
    crate::transport::relay::lemma_tags_come_off(session, packet);
}

/// A viewer that is introduced learns the agent's key, and where it may be
/// reached; first of all it gets its grant, if it has one.
pub proof fn lemma_an_introduction_names_the_agent(
    agent: Agent,
    grant: Option<SignedGrant>,
    messages: Seq<FromServer>,
)
    requires
        introduces(&agent, grant, messages),
    ensures
        grant is None ==> messages.len() == 1,
        grant matches Some(grant) ==> messages.len() == 2 && messages[0] == FromServer::Granted(grant),
        messages[messages.len() - 1] matches FromServer::Peer { fingerprint, addresses }
            && fingerprint@ == agent.fingerprint@ && addresses@.len() <= 9 && (agent.seen.port != 0
            && agent.seen.ip != Ip::V4(0) && agent.seen.ip != Ip::V6(0) ==> addresses@.contains(
            agent.seen,
        )),
{
    lemma_candidates_are_what_was_said(agent.reported@, agent.seen, agent.seen);
}

/// Inviting asks the agent that is registered under the ID, in a session of
/// its own, to open its way to where the viewer may be; nobody is asked where
/// none is registered.
pub proof fn lemma_the_registered_agent_is_invited(
    before: Registry,
    after: Registry,
    id: DeviceId,
    addresses: &[Address],
    observed: Address,
    outcome: Result<Invitation, Refusal>,
)
    requires
        before.wf(),
        Registry::invite_does(&before, &after, id, addresses, observed, outcome),
    ensures
        outcome is Ok <==> before.agents().contains_key(id),
        outcome matches Ok(invitation) ==> {
            &&& invitation.registration == before.agents()[id].registration
            &&& after.waiting().contains_key(invitation.session)
            &&& after.waiting()[invitation.session] == invitation.registration
            &&& !before.waiting().contains_key(invitation.session)
            &&& !before.relays().contains_key(invitation.session)
            &&& invitation.message matches FromServer::Incoming { session, addresses: sent }
            &&& session == invitation.session
            &&& observed.port != 0 && observed.ip != Ip::V4(0) && observed.ip != Ip::V6(0)
                ==> sent@.contains(observed)
        },
        after.relays() == before.relays(),
{
    lemma_a_new_session_is_not_relayed(before);
    lemma_candidates_are_what_was_said(addresses@, observed, observed);
}

/// An agent whose connection is gone is forgotten, unless another took its
/// place; nobody else is.
pub proof fn lemma_only_the_gone_are_forgotten(
    before: Registry,
    after: Registry,
    id: DeviceId,
    registration: u64,
    removed: bool,
    other: DeviceId,
)
    requires
        Registry::remove_does(&before, &after, id, registration, removed),
    ensures
        before.agents().contains_key(id) && before.agents()[id].registration == registration
            ==> removed && !after.agents().contains_key(id),
        before.agents().contains_key(id) && before.agents()[id].registration != registration
            ==> !removed && after.agents().contains_key(id),
        other != id ==> (after.agents().contains_key(other) <==> before.agents().contains_key(
            other,
        )),
{
}

/// Ten tries a minute: whoever has made ten within the last is refused, and
/// whoever has made fewer is not.
pub proof fn lemma_ten_tries_a_minute(
    before: Registry,
    after: Registry,
    ip: Ip,
    clock: u64,
    allowed: bool,
)
    requires
        Registry::attempt_does(&before, &after, ip, clock, allowed),
        super::attempts::in_order(before.tries(ip), clock),
    ensures
        before.tries(ip).len() < 10 ==> allowed,
        !allowed ==> before.tries(ip).len() >= 10 && forall|i: int|
            before.tries(ip).len() - 10 <= i < before.tries(ip).len() ==> clock
                - #[trigger] before.tries(ip)[i] < 60_000_000,
        allowed ==> 1 <= after.tries(ip).len() <= 10 && after.tries(ip).last() == clock,
{
    super::attempts::lemma_few_attempts_are_allowed(before.tries(ip), ATTEMPTS, ATTEMPT_WINDOW, clock);
}

}
