//! The clients' side of an introduction: an agent staying registered, and a
//! viewer finding a device and choosing between the ways there.
//!
//! Alongside its direct attempts a viewer connects through the server's
//! relay, which gets through anything that lets the two reach the server. A
//! direct connection is preferred, so the relayed one is taken only if no
//! direct one is made within a grace, or every direct attempt has failed.
//! Times are microseconds.

use super::fingerprint::Fingerprint;
use super::grant::SignedGrant;
use super::relay::{is_relayed, session_at};
use super::release::SignedRelease;
use crate::net::{Address, Ip};
use crate::protocol::{DeviceId, FromServer, Refusal};
use vstd::prelude::*;

verus! {

/// How long the connection attempts that open the way are kept up: QUIC
/// resends them meanwhile, in case the first packet is lost.
pub const PUNCH_HOLD: u64 = 5_000_000;

/// Time for the punches to leave before the viewer is told to come.
pub const PUNCH_HEAD_START: u64 = 20_000;

/// Retrying a lost server connection: from this, doubling, up to the max.
pub const RECONNECT_FIRST: u64 = 1_000_000;

pub const RECONNECT_MAX: u64 = 30_000_000;

/// How long each of a device's addresses gets to answer a viewer.
pub const PEER_CONNECT_TIMEOUT: u64 = 5_000_000;

/// How long a direct connection gets to beat a relayed one that is ready.
pub const DIRECT_GRACE: u64 = 1_000_000;

// --- Staying registered ------------------------------------------------------------------

/// The wait before an agent tries its server again.
#[derive(Debug)]
pub struct Backoff {
    wait: u64,
}

/// Twice the wait, up to the longest.
pub open spec fn doubled(wait: u64) -> int {
    if wait * 2 > RECONNECT_MAX {
        RECONNECT_MAX as int
    } else {
        wait * 2
    }
}

impl Backoff {
    pub closed spec fn wait(&self) -> u64 {
        self.wait
    }

    pub open spec fn wf(&self) -> bool {
        RECONNECT_FIRST <= self.wait() <= RECONNECT_MAX
    }

    pub fn new() -> (backoff: Backoff)
        ensures
            backoff.wf(),
            backoff.wait() == RECONNECT_FIRST,
    {
        Backoff { wait: RECONNECT_FIRST }
    }

    /// What `lost` does.
    pub open spec fn loses(before: u64, after: u64, was_registered: bool, retry_in: u64) -> bool {
        &&& retry_in == (if was_registered {
            RECONNECT_FIRST
        } else {
            before
        })
        &&& after == doubled(retry_in)
    }

    /// The connection is gone: how long to wait. One that was registered for
    /// a while and then lost is tried again promptly.
    pub fn lost(&mut self, was_registered: bool) -> (retry_in: u64)
        requires
            old(self).wf(),
        ensures
            final(self).wf(),
            Backoff::loses(old(self).wait(), final(self).wait(), was_registered, retry_in),
    {
        if was_registered {
            self.wait = RECONNECT_FIRST;
        }
        let retry_in: u64 = self.wait;
        let twice: u64 = retry_in * 2;
        self.wait = if twice > RECONNECT_MAX {
            RECONNECT_MAX
        } else {
            twice
        };
        retry_in
    }
}

/// Why a server's answer was of no use.
#[derive(Debug, Clone, Copy, PartialEq, Eq, Structural)]
pub enum Failure {
    Refused(Refusal),
    /// Not what this was about, or nothing at all.
    Unexpected,
}

/// What the answer to a registration comes to.
pub open spec fn registers(answer: Option<FromServer>) -> Result<(DeviceId, Address), Failure> {
    match answer {
        Some(FromServer::Registered { id, observed }) => Ok((id, observed)),
        Some(FromServer::Refused(refusal)) => Err(Failure::Refused(refusal)),
        _ => Err(Failure::Unexpected),
    }
}

/// The answer to a registration: the device's number, and where the server
/// sees it.
pub fn registered(answer: Option<FromServer>) -> (outcome: Result<(DeviceId, Address), Failure>)
    ensures
        outcome == registers(answer),
{
    match answer {
        Some(FromServer::Registered { id, observed }) => Ok((id, observed)),
        Some(FromServer::Refused(refusal)) => Err(Failure::Refused(refusal)),
        _ => Err(Failure::Unexpected),
    }
}

/// A message to a registered agent: the viewer to open the way to, if it is
/// about one. Anything else is of no concern.
pub fn viewer_coming(message: FromServer) -> (viewer: Option<(u64, Vec<Address>)>)
    ensures
        viewer == (match message {
            FromServer::Incoming { session, addresses } => Some((session, addresses)),
            _ => None,
        }),
{
    match message {
        FromServer::Incoming { session, addresses } => Some((session, addresses)),
        _ => None,
    }
}

/// What the answer to an enrollment comes to.
pub open spec fn enrolls(answer: Option<FromServer>) -> Result<DeviceId, Failure> {
    match answer {
        Some(FromServer::Enrolled { id }) => Ok(id),
        Some(FromServer::Refused(refusal)) => Err(Failure::Refused(refusal)),
        _ => Err(Failure::Unexpected),
    }
}

/// The answer to an enrollment.
pub fn enrolled(answer: Option<FromServer>) -> (outcome: Result<DeviceId, Failure>)
    ensures
        outcome == enrolls(answer),
{
    match answer {
        Some(FromServer::Enrolled { id }) => Ok(id),
        Some(FromServer::Refused(refusal)) => Err(Failure::Refused(refusal)),
        _ => Err(Failure::Unexpected),
    }
}

/// What the answer to a question for something newer comes to.
pub open spec fn offers(answer: Option<FromServer>) -> Result<Option<SignedRelease>, Failure> {
    match answer {
        Some(FromServer::Offered(release)) => Ok(release),
        Some(FromServer::Refused(refusal)) => Err(Failure::Refused(refusal)),
        _ => Err(Failure::Unexpected),
    }
}

/// The answer to a question for something newer. What is offered is
/// unchecked: the caller verifies it before fetching, and the package after.
pub fn offered(answer: Option<FromServer>) -> (outcome: Result<Option<SignedRelease>, Failure>)
    ensures
        outcome == offers(answer),
{
    match answer {
        Some(FromServer::Offered(release)) => Ok(release),
        Some(FromServer::Refused(refusal)) => Err(Failure::Refused(refusal)),
        _ => Err(Failure::Unexpected),
    }
}

/// The most bytes of a package to take: the size its verified release gives.
/// A server sending more is cut off.
pub fn fetch_limit(size: u64) -> (limit: usize)
    ensures
        limit == (if size <= usize::MAX {
            size as int
        } else {
            usize::MAX as int
        }),
{
    if size <= usize::MAX as u64 {
        size as usize
    } else {
        usize::MAX
    }
}

// --- Being introduced ----------------------------------------------------------------------

/// A viewer's introduction to a device.
#[derive(Debug)]
pub struct Introduction {
    id: DeviceId,
    grant: Option<SignedGrant>,
}

/// What an answer to the introduction comes to.
#[derive(Debug)]
pub enum Met {
    /// A grant: the rest of the answer follows.
    ReadOn,
    /// The device's key, to pin, and where to reach it.
    Peer { fingerprint: Fingerprint, addresses: Vec<Address> },
    Refused(Refusal),
    Unexpected,
    /// The server answered with another device's key.
    WrongKey,
}

impl Introduction {
    pub closed spec fn device(&self) -> DeviceId {
        self.id
    }

    pub closed spec fn grant(&self) -> Option<SignedGrant> {
        self.grant
    }

    pub fn new(id: DeviceId) -> (introduction: Introduction)
        ensures
            introduction.device() == id,
            introduction.grant() is None,
    {
        Introduction { id, grant: None }
    }

    /// What `next` does.
    pub open spec fn goes_on(
        before: (DeviceId, Option<SignedGrant>),
        after: Option<SignedGrant>,
        answer: Option<FromServer>,
        keys_id: DeviceId,
        met: Met,
    ) -> bool {
        match answer {
            Some(FromServer::Granted(grant)) => if before.1 is None {
                met is ReadOn && after == Some(grant)
            } else {
                met is Unexpected && after == before.1
            },
            Some(FromServer::Peer { fingerprint, addresses }) => {
                &&& after == before.1
                &&& met == (if keys_id == before.0 {
                    Met::Peer { fingerprint, addresses }
                } else {
                    Met::WrongKey
                })
            },
            Some(FromServer::Refused(refusal)) => met == Met::Refused(refusal) && after == before.1,
            _ => met is Unexpected && after == before.1,
        }
    }

    /// Take the server's next answer; `keys_id` is the device number that
    /// goes with the key in it. A grant may come first, once. Matching the
    /// number is no security check, but it catches a server that mixes up its
    /// devices.
    pub fn next(&mut self, answer: Option<FromServer>, keys_id: DeviceId) -> (met: Met)
        ensures
            final(self).device() == old(self).device(),
            Introduction::goes_on(
                (old(self).device(), old(self).grant()),
                final(self).grant(),
                answer,
                keys_id,
                met,
            ),
    {
        match answer {
            Some(FromServer::Granted(grant)) => {
                if self.grant.is_none() {
                    self.grant = Some(grant);
                    Met::ReadOn
                } else {
                    Met::Unexpected
                }
            },
            Some(FromServer::Peer { fingerprint, addresses }) => if keys_id == self.id {
                Met::Peer { fingerprint, addresses }
            } else {
                Met::WrongKey
            },
            Some(FromServer::Refused(refusal)) => Met::Refused(refusal),
            _ => Met::Unexpected,
        }
    }

    /// The grant that came with the introduction. A viewer that asked as a
    /// user cannot do without.
    pub fn granted(self) -> (grant: Result<SignedGrant, String>)
        ensures
            match grant {
                Ok(grant) => self.grant() == Some(grant),
                Err(why) => self.grant() is None && why@ == "the server sent no grant"@,
            },
    {
        match self.grant {
            Some(grant) => Ok(grant),
            None => Err("the server sent no grant".to_owned()),
        }
    }
}

// --- Choosing between the ways -----------------------------------------------------------------

/// Which ways a viewer may try.
#[derive(Debug, Clone, Copy, PartialEq, Eq, Structural)]
pub enum Route {
    /// Direct if possible, else relayed.
    Best,
    /// Relayed only: for testing the relay, and measuring what it costs.
    RelayOnly,
}

impl Default for Route {
    fn default() -> (route: Route)
        ensures
            route == Route::Best,
    {
        Route::Best
    }
}

/// What may happen while a viewer connects.
#[derive(Debug, Clone, Copy, PartialEq, Eq, Structural)]
pub enum Attempt {
    DirectMade,
    DirectFailed,
    RelayMade,
    RelayFailed,
    /// The grace for a direct connection is over.
    GraceOver,
}

/// What to do about it.
#[derive(Debug, Clone, Copy, PartialEq, Eq, Structural)]
pub enum Choice {
    Wait,
    /// Wait, and no longer than the grace from now on.
    StartGrace,
    /// Take the direct connection; close the relayed one if there is one.
    TakeDirect { close_relayed: bool },
    TakeRelayed,
    /// There is no way there.
    Fail,
}

/// The ways to a device, as far as they have been tried.
#[derive(Debug, Clone, Copy, PartialEq, Eq, Structural)]
pub struct Ways {
    pub direct_failed: bool,
    pub relay_failed: bool,
    /// A relayed connection stands ready.
    pub relay_ready: bool,
}

impl Ways {
    pub fn new() -> (ways: Ways)
        ensures
            ways == (Ways { direct_failed: false, relay_failed: false, relay_ready: false }),
            ways.wf(),
    {
        Ways { direct_failed: false, relay_failed: false, relay_ready: false }
    }

    /// Still undecided: a relay that is ready has not failed, and would have
    /// been taken had the direct way failed.
    pub open spec fn wf(&self) -> bool {
        &&& !(self.relay_ready && self.relay_failed)
        &&& !(self.relay_ready && self.direct_failed)
        &&& !(self.direct_failed && self.relay_failed)
    }

    /// Whether this can still happen.
    pub open spec fn awaits(&self, attempt: Attempt) -> bool {
        match attempt {
            Attempt::DirectMade | Attempt::DirectFailed => !self.direct_failed,
            Attempt::RelayMade | Attempt::RelayFailed => !self.relay_ready && !self.relay_failed,
            Attempt::GraceOver => self.relay_ready,
        }
    }

    /// What `prefer_direct` does.
    pub open spec fn prefers(before: Ways, after: Ways, attempt: Attempt, choice: Choice) -> bool {
        &&& choice == (match attempt {
            Attempt::DirectMade => Choice::TakeDirect { close_relayed: before.relay_ready },
            Attempt::DirectFailed => if before.relay_ready {
                Choice::TakeRelayed
            } else if before.relay_failed {
                Choice::Fail
            } else {
                Choice::Wait
            },
            Attempt::RelayMade => if before.direct_failed {
                Choice::TakeRelayed
            } else {
                Choice::StartGrace
            },
            Attempt::RelayFailed => if before.direct_failed {
                Choice::Fail
            } else {
                Choice::Wait
            },
            Attempt::GraceOver => Choice::TakeRelayed,
        })
        &&& after == (Ways {
            direct_failed: before.direct_failed || (attempt == Attempt::DirectFailed && choice
                != Choice::TakeRelayed),
            relay_failed: before.relay_failed || attempt == Attempt::RelayFailed,
            relay_ready: before.relay_ready || choice == Choice::StartGrace,
        })
    }

    /// The direct connection if it is made within the grace of the relayed
    /// one being ready (or at all, while the relay is not), else the relayed
    /// one.
    pub fn prefer_direct(&mut self, attempt: Attempt) -> (choice: Choice)
        requires
            old(self).wf(),
            old(self).awaits(attempt),
        ensures
            Ways::prefers(*old(self), *final(self), attempt, choice),
            choice == Choice::Wait || choice == Choice::StartGrace ==> final(self).wf() && final(self).left() < old(self).left(),
    {
        match attempt {
            Attempt::DirectMade => Choice::TakeDirect { close_relayed: self.relay_ready },
            Attempt::DirectFailed => {
                if self.relay_ready {
                    return Choice::TakeRelayed;
                }
                self.direct_failed = true;
                if self.relay_failed {
                    Choice::Fail
                } else {
                    Choice::Wait
                }
            },
            Attempt::RelayMade => {
                if self.direct_failed {
                    Choice::TakeRelayed
                } else {
                    self.relay_ready = true;
                    Choice::StartGrace
                }
            },
            Attempt::RelayFailed => {
                self.relay_failed = true;
                if self.direct_failed {
                    Choice::Fail
                } else {
                    Choice::Wait
                }
            },
            Attempt::GraceOver => Choice::TakeRelayed,
        }
    }

    /// How many ways are still open: each thing that leaves the choice
    /// undecided closes one or settles one.
    pub open spec fn left(&self) -> int {
        (if self.direct_failed {
            0int
        } else {
            1int
        }) + (if self.relay_failed || self.relay_ready {
            0int
        } else {
            1int
        })
    }
}

/// Something can still happen as long as nothing is decided: a viewer never
/// waits for nothing.
pub proof fn lemma_something_is_awaited(ways: Ways)
    requires
        ways.wf(),
    ensures
        exists|attempt: Attempt| #[trigger] ways.awaits(attempt),
{
    if ways.direct_failed {
        assert(ways.awaits(Attempt::RelayMade));
    } else {
        assert(ways.awaits(Attempt::DirectMade));
    }
}

/// What is said when there is no way there.
pub fn no_way(direct: &str, relay: &str) -> (text: String)
    ensures
        text@ == "no direct path to the device ("@ + direct@ + "; relay: "@ + relay@ + ")"@,
{
    let mut text = "no direct path to the device (".to_owned();
    text.append(direct);
    text.append("; relay: ");
    text.append(relay);
    text.append(")");
    text
}

/// The failures of a race, one after the other.
pub open spec fn listed(failures: Seq<String>, n: int) -> Seq<char>
    decreases n,
{
    if n <= 0 {
        Seq::empty()
    } else if n == 1 {
        failures[0]@
    } else {
        listed(failures, n - 1) + "; "@ + failures[n - 1]@
    }
}

/// What is said when every address was tried in vain.
pub fn race_lost(failures: &[String]) -> (text: String)
    ensures
        text@ == "direct: "@ + listed(failures@, failures@.len() as int),
{
    let mut text = "direct: ".to_owned();
    let ghost start = text@;
    let mut i: usize = 0;
    assert(text@ =~= start + listed(failures@, 0));
    while i < failures.len()
        invariant
            i <= failures@.len(),
            text@ == start + listed(failures@, i as int),
        decreases failures.len() - i,
    {
        if i > 0 {
            text.append("; ");
        }
        text.append(&failures[i]);
        assert(text@ =~= start + listed(failures@, i + 1));
        i = i + 1;
    }
    text
}

/// Where a socket is reached on this machine's own network.
pub open spec fn own_of(local: Option<Address>, outward: Option<Ip>) -> Option<Address> {
    match local {
        None => None,
        Some(bound) => if bound.ip.unspecified() {
            match outward {
                Some(ip) => Some(Address { ip, port: bound.port }),
                None => None,
            }
        } else {
            Some(bound)
        },
    }
}

/// Where others on this machine's own network can reach a socket bound to
/// `local`: `outward` is the address this machine would use toward its
/// server. The server adds the address it sees.
pub fn own_address(local: Option<Address>, outward: Option<Ip>) -> (own: Option<Address>)
    ensures
        own == own_of(local, outward),
{
    match local {
        None => None,
        Some(bound) => if bound.ip.is_unspecified() {
            match outward {
                Some(ip) => Some(Address { ip, port: bound.port }),
                None => None,
            }
        } else {
            Some(bound)
        },
    }
}

/// Which way a connection went.
#[derive(Debug, Clone, Copy, PartialEq, Eq, Structural)]
pub enum Path {
    /// Direct, within a private network.
    Local,
    /// Direct, across the internet.
    Internet,
    /// Through the server's relay.
    Relayed,
}

impl Path {
    pub open spec fn says(&self) -> Seq<char> {
        match self {
            Path::Local => "on the local network"@,
            Path::Internet => "across the internet"@,
            Path::Relayed => "through the server's relay"@,
        }
    }

    pub fn text(&self) -> (text: &'static str)
        ensures
            text@ == self.says(),
    {
        match self {
            Path::Local => "on the local network",
            Path::Internet => "across the internet",
            Path::Relayed => "through the server's relay",
        }
    }
}

/// Which way leads to `remote`.
pub open spec fn way_to(remote: Address) -> Path {
    if session_at(remote) is Some {
        Path::Relayed
    } else if remote.ip.local() {
        Path::Local
    } else {
        Path::Internet
    }
}

/// Which way a connection to `remote` went.
pub fn path_of(remote: Address) -> (path: Path)
    ensures
        path == way_to(remote),
{
    if is_relayed(remote) {
        Path::Relayed
    } else if remote.ip.is_local() {
        Path::Local
    } else {
        Path::Internet
    }
}

/// No relayed peer has a local address, nor a real one: `100::/64` is neither
/// private nor this machine.
pub proof fn lemma_relayed_is_nowhere(session: u64)
    ensures
        !super::relay::address_of(session).ip.local(),
        !super::relay::address_of(session).ip.unspecified(),
{
}

/// A lost connection is tried again after a second, then after twice as long
/// each time, and never after more than half a minute; one that had stood is
/// tried after a second again.
pub proof fn lemma_waits_double(
    before: u64,
    after: u64,
    was_registered: bool,
    retry_in: u64,
)
    requires
        1_000_000 <= before <= 30_000_000,
        Backoff::loses(before, after, was_registered, retry_in),
    ensures
        was_registered ==> retry_in == 1_000_000,
        !was_registered ==> retry_in == before,
        retry_in <= 15_000_000 ==> after == 2 * retry_in,
        retry_in > 15_000_000 ==> after == 30_000_000,
        1_000_000 <= after <= 30_000_000,
{
}

/// A viewer is given a key only for the device it asked for, and one grant at
/// most.
pub proof fn lemma_introductions_are_to_the_device(
    before: (DeviceId, Option<SignedGrant>),
    after: Option<SignedGrant>,
    answer: Option<FromServer>,
    keys_id: DeviceId,
    met: Met,
)
    requires
        Introduction::goes_on(before, after, answer, keys_id, met),
    ensures
        met matches Met::Peer { fingerprint, addresses } ==> keys_id == before.0 && answer == Some(
            FromServer::Peer { fingerprint, addresses },
        ),
        met is WrongKey <==> (answer matches Some(said) && said is Peer && keys_id != before.0),
        met is ReadOn <==> before.1 is None && after is Some,
        before.1 is Some ==> after == before.1,
        after is Some && before.1 is None ==> answer == Some(FromServer::Granted(after->Some_0)),
        met matches Met::Refused(refusal) ==> answer == Some(FromServer::Refused(refusal)),
        answer is None ==> met is Unexpected,
{
}

/// A direct connection is taken as soon as it is made; a relayed one only once
/// it is ready and the direct one has failed or had its time; and only when
/// both have failed is there no way.
pub proof fn lemma_direct_is_preferred(
    before: Ways,
    after: Ways,
    attempt: Attempt,
    choice: Choice,
)
    requires
        before.wf(),
        before.awaits(attempt),
        Ways::prefers(before, after, attempt, choice),
    ensures
        choice is TakeDirect <==> attempt == Attempt::DirectMade,
        choice matches Choice::TakeDirect { close_relayed } ==> close_relayed == before.relay_ready,
        choice == Choice::TakeRelayed ==> (before.relay_ready || attempt == Attempt::RelayMade) && (
        before.direct_failed || attempt == Attempt::DirectFailed || attempt == Attempt::GraceOver),
        choice == Choice::Fail <==> (before.direct_failed || attempt == Attempt::DirectFailed) && (
        before.relay_failed || attempt == Attempt::RelayFailed),
        choice == Choice::StartGrace <==> attempt == Attempt::RelayMade && !before.direct_failed,
        choice == Choice::Wait ==> (after.direct_failed <==> before.direct_failed || attempt
            == Attempt::DirectFailed) && (after.relay_failed <==> before.relay_failed || attempt
            == Attempt::RelayFailed) && after.relay_ready == before.relay_ready,
        choice == Choice::StartGrace ==> after.relay_ready,
{
}

/// A way through the relay is never taken for a direct one; a direct one is on
/// the local network if the peer's address is private.
pub proof fn lemma_ways_are_told_apart(session: u64, a: u8, b: u8, c: u8, d: u8, port: u16)
    ensures
        way_to(super::relay::address_of(session)) == Path::Relayed,
        ({
            let ip = Ip::V4((a * 0x100_0000 + b * 0x1_0000 + c * 0x100 + d) as u32);
            let way = way_to(Address { ip, port });
            &&& way == Path::Local <==> a == 10 || (a == 172 && 16 <= b <= 31) || (a == 192 && b
                == 168) || a == 127 || (a == 169 && b == 254)
            &&& way == Path::Local || way == Path::Internet
        }),
{
    super::relay::lemma_sessions_have_addresses(session);
    crate::net::lemma_private_ipv4(a, b, c, d);
}

/// A socket that is bound to one address is reached there; one that is bound
/// to any is reached where this machine is, on the same port.
pub proof fn lemma_own_addresses_have_hosts(bound: Address, outward: Option<Ip>)
    ensures
        own_of(None, outward) is None,
        bound.ip != Ip::V4(0) && bound.ip != Ip::V6(0) ==> own_of(Some(bound), outward) == Some(bound),
        bound.ip == Ip::V4(0) || bound.ip == Ip::V6(0) ==> match outward {
            Some(ip) => own_of(Some(bound), outward) == Some(Address { ip, port: bound.port }),
            None => own_of(Some(bound), outward) is None,
        },
{
}

/// An answer is taken only for what was asked: a registration, an enrollment or
/// an offer. A refusal is told as what it is, and anything else, or nothing, is
/// unexpected.
pub proof fn lemma_answers_are_to_what_was_asked(answer: Option<FromServer>)
    ensures
        registers(answer) matches Ok((id, observed)) ==> answer == Some(
            FromServer::Registered { id, observed },
        ),
        enrolls(answer) matches Ok(id) ==> answer == Some(FromServer::Enrolled { id }),
        offers(answer) matches Ok(release) ==> answer == Some(FromServer::Offered(release)),
        registers(answer) is Ok <==> (answer matches Some(said) && said is Registered),
        enrolls(answer) is Ok <==> (answer matches Some(said) && said is Enrolled),
        offers(answer) is Ok <==> (answer matches Some(said) && said is Offered),
        answer matches Some(FromServer::Refused(refusal)) ==> {
            &&& registers(answer) == Err::<(DeviceId, Address), Failure>(Failure::Refused(refusal))
            &&& enrolls(answer) == Err::<DeviceId, Failure>(Failure::Refused(refusal))
            &&& offers(answer) == Err::<Option<SignedRelease>, Failure>(Failure::Refused(refusal))
        },
        answer is None ==> registers(answer) == Err::<(DeviceId, Address), Failure>(
            Failure::Unexpected,
        ) && enrolls(answer) == Err::<DeviceId, Failure>(Failure::Unexpected),
{
}

}
