//! A simulated internet: hosts with public addresses, and hosts behind NATs
//! of the kinds found in the wild, to show which NATs a connection gets
//! through without two machines and two routers.
//!
//! Each NAT has a public IP and a private network behind it. Hosts on the
//! same private network reach each other directly; everything else goes
//! through the NAT, which rewrites the source to its public IP and a port of
//! its choosing, and lets packets back in according to its kind. Packets from
//! inside to the NAT's own public address are dropped ("no hairpinning"), as
//! on many cheap routers. Delivery is instant and lossless.

use crate::net::{contains_address, Address, Ip};
use crate::table::Table;
use vstd::prelude::*;

verus! {

/// How a NAT maps sockets inside to ports outside, and whom it lets back in.
#[derive(Debug, Clone, Copy, PartialEq, Eq, Structural)]
pub enum NatKind {
    /// One port per socket; anyone may send to it.
    FullCone,
    /// One port per socket; only IPs the socket has sent to may reply.
    AddressRestricted,
    /// One port per socket; only address and port pairs it has sent to may
    /// reply. The most common home router behaviour.
    PortRestricted,
    /// A new port for each destination, which only that destination may use.
    Symmetric,
}

/// The first port a NAT gives out.
pub const FIRST_PORT: u16 = 40_000;

/// A port a NAT has given out.
#[derive(Debug)]
pub struct Mapping {
    pub inside: Address,
    /// The one destination it is for; any, unless the NAT is symmetric.
    pub only: Option<Address>,
    /// Everyone the inside socket has sent to through it, each once.
    pub sent_to: Vec<Address>,
}

/// Whether a NAT of `kind` lets `from` in to a port through which `sent_to`
/// were sent to.
pub open spec fn lets_in(kind: NatKind, sent_to: Seq<Address>, from: Address) -> bool {
    match kind {
        NatKind::FullCone => true,
        NatKind::AddressRestricted => exists|i: int|
            0 <= i < sent_to.len() && (#[trigger] sent_to[i]).ip == from.ip,
        NatKind::PortRestricted | NatKind::Symmetric => sent_to.contains(from),
    }
}

/// The destination a port is for.
pub open spec fn only_for(kind: NatKind, to: Address) -> Option<Address> {
    if kind == NatKind::Symmetric {
        Some(to)
    } else {
        None
    }
}

/// Those who were sent to, once `to` is.
pub open spec fn also_sent_to(sent_to: Seq<Address>, to: Address) -> Seq<Address> {
    if sent_to.contains(to) {
        sent_to
    } else {
        sent_to.push(to)
    }
}

#[derive(Debug)]
pub struct Nat {
    kind: NatKind,
    next_port: u16,
    ports: Vec<u16>,
    mappings: Table<u16, Mapping>,
}

impl Nat {
    pub closed spec fn kind(&self) -> NatKind {
        self.kind
    }

    /// The next port to give out.
    pub closed spec fn next_port(&self) -> u16 {
        self.next_port
    }

    /// The ports given out.
    pub closed spec fn mappings(&self) -> Map<u16, Mapping> {
        self.mappings@
    }

    /// The port is the inside socket's, for that destination.
    pub open spec fn is_port(&self, port: u16, inside: Address, only: Option<Address>) -> bool {
        self.mappings().contains_key(port) && self.mappings()[port].inside == inside
            && self.mappings()[port].only == only
    }

    /// The inside socket has a port for that destination.
    pub open spec fn has_port(&self, inside: Address, to: Address) -> bool {
        exists|port: u16| #[trigger] self.is_port(port, inside, only_for(self.kind(), to))
    }

    /// What `outbound` does.
    pub open spec fn outbound_does(
        before: &Nat,
        after: &Nat,
        inside: Address,
        to: Address,
        port: u16,
    ) -> bool {
        &&& after.kind() == before.kind()
        &&& after.is_port(port, inside, only_for(before.kind(), to))
        &&& if before.has_port(inside, to) {
            &&& before.is_port(port, inside, only_for(before.kind(), to))
            &&& after.next_port() == before.next_port()
            &&& after.mappings()[port].sent_to@ == also_sent_to(
                before.mappings()[port].sent_to@,
                to,
            )
        } else {
            &&& port == before.next_port()
            &&& after.next_port() == before.next_port() + 1
            &&& after.mappings()[port].sent_to@ == seq![to]
        }
        &&& after.mappings() == before.mappings().insert(port, after.mappings()[port])
    }

    /// Ports were all given out below the next one, each socket and
    /// destination have one of their own, and nobody is sent to twice.
    pub closed spec fn wf(&self) -> bool {
        &&& forall|port: u16| #[trigger]
            self.mappings@.contains_key(port) <==> self.ports@.contains(port)
        &&& forall|port: u16| #[trigger]
            self.mappings@.contains_key(port) ==> port < self.next_port
        &&& forall|p: u16, q: u16|
            #![trigger self.mappings@[p], self.mappings@[q]]
            self.mappings@.contains_key(p) && self.mappings@.contains_key(q)
                && self.mappings@[p].inside == self.mappings@[q].inside && self.mappings@[p].only
                == self.mappings@[q].only ==> p == q
        &&& forall|port: u16| #[trigger]
            self.mappings@.contains_key(port) ==> self.mappings@[port].sent_to@.no_duplicates()
    }

    pub fn new(kind: NatKind) -> (gateway: Nat)
        ensures
            gateway.wf(),
            gateway.kind() == kind,
            gateway.next_port() == FIRST_PORT,
            gateway.mappings() == Map::<u16, Mapping>::empty(),
    {
        Nat { kind, next_port: FIRST_PORT, ports: Vec::new(), mappings: Table::new() }
    }

    /// Forget every mapping, as a router does when it restarts or times them
    /// out: sockets behind it get new ports.
    pub fn forget(&mut self)
        requires
            old(self).wf(),
        ensures
            final(self).wf(),
            final(self).kind() == old(self).kind(),
            final(self).next_port() == old(self).next_port(),
            final(self).mappings() == Map::<u16, Mapping>::empty(),
    {
        self.ports = Vec::new();
        self.mappings.clear();
    }

    /// The port already given out to a socket, for a destination.
    fn port_of(&self, inside: Address, only: Option<Address>) -> (found: Option<u16>)
        requires
            self.wf(),
        ensures
            match found {
                Some(port) => self.is_port(port, inside, only),
                None => forall|port: u16| !#[trigger] self.is_port(port, inside, only),
            },
    {
        let mut i: usize = 0;
        while i < self.ports.len()
            invariant
                i <= self.ports@.len(),
                self.wf(),
                forall|j: int| 0 <= j < i ==> !self.is_port(#[trigger] self.ports@[j], inside, only),
            decreases self.ports.len() - i,
        {
            let port: u16 = self.ports[i];
            assert(self.ports@.contains(port));
            match self.mappings.get(&port) {
                Some(mapping) => {
                    let same = match (mapping.only, only) {
                        (Some(a), Some(b)) => a == b,
                        (None, None) => true,
                        _ => false,
                    };
                    if mapping.inside == inside && same {
                        return Some(port);
                    }
                },
                None => {},
            }
            i = i + 1;
        }
        assert forall|port: u16| !#[trigger] self.is_port(port, inside, only) by {
            if self.is_port(port, inside, only) {
                assert(self.ports@.contains(port));
                let j = choose|j: int| 0 <= j < self.ports@.len() && self.ports@[j] == port;
                assert(!self.is_port(self.ports@[j], inside, only));
            }
        }
        None
    }

    /// The public port a packet from `inside` to `to` leaves by: the one the
    /// socket has, or a new one.
    pub fn outbound(&mut self, inside: Address, to: Address) -> (port: u16)
        requires
            old(self).wf(),
            old(self).has_port(inside, to) || old(self).next_port() < u16::MAX,
        ensures
            final(self).wf(),
            Nat::outbound_does(old(self), final(self), inside, to, port),
    {
        let only = if self.kind == NatKind::Symmetric {
            Some(to)
        } else {
            None
        };
        let ghost before = self.mappings@;
        match self.port_of(inside, only) {
            Some(port) => {
                match self.mappings.remove(&port) {
                    Some(mapping) => {
                        let mut sent_to = mapping.sent_to;
                        if !contains_address(&sent_to, to) {
                            sent_to.push(to);
                        }
                        self.mappings.insert(
                            port,
                            Mapping { inside: mapping.inside, only: mapping.only, sent_to },
                        );
                        assert(self.mappings@ =~= before.insert(port, self.mappings@[port]));
                        assert(self.wf());
                    },
                    None => {},
                }
                port
            },
            None => {
                let port: u16 = self.next_port;
                assert(!before.contains_key(port));
                self.next_port = port + 1;
                let mut sent_to: Vec<Address> = Vec::new();
                sent_to.push(to);
                self.mappings.insert(port, Mapping { inside, only, sent_to });
                let ghost ports = self.ports@;
                self.ports.push(port);
                assert forall|p: u16| #[trigger]
                    self.mappings@.contains_key(p) <==> self.ports@.contains(p) by {
                    if ports.contains(p) {
                        let j = choose|j: int| 0 <= j < ports.len() && ports[j] == p;
                        assert(self.ports@[j] == p);
                    }
                    assert(self.ports@[ports.len() as int] == port);
                    if self.ports@.contains(p) && p != port {
                        let j = choose|j: int| 0 <= j < self.ports@.len() && self.ports@[j] == p;
                        assert(ports[j] == p);
                    }
                }
                assert forall|p: u16, q: u16|
                    #![trigger self.mappings@[p], self.mappings@[q]]
                    self.mappings@.contains_key(p) && self.mappings@.contains_key(q)
                        && self.mappings@[p].inside == self.mappings@[q].inside
                        && self.mappings@[p].only == self.mappings@[q].only implies p == q by {
                    assert(!old(self).is_port(p, inside, only));
                    assert(!old(self).is_port(q, inside, only));
                    if p != port && q != port {
                        assert(before[p] == self.mappings@[p]);
                        assert(before[q] == self.mappings@[q]);
                    }
                }
                port
            },
        }
    }

    /// The inside socket a packet from `from` to public `port` goes to, if
    /// the NAT lets it in.
    pub fn inbound(&self, port: u16, from: Address) -> (inside: Option<Address>)
        ensures
            inside == (if self.mappings().contains_key(port) && lets_in(
                self.kind(),
                self.mappings()[port].sent_to@,
                from,
            ) {
                Some(self.mappings()[port].inside)
            } else {
                None::<Address>
            }),
    {
        match self.mappings.get(&port) {
            None => None,
            Some(mapping) => {
                let allowed = match self.kind {
                    NatKind::FullCone => true,
                    NatKind::AddressRestricted => {
                        let mut i: usize = 0;
                        let mut known = false;
                        while i < mapping.sent_to.len()
                            invariant
                                i <= mapping.sent_to@.len(),
                                known == (exists|j: int|
                                    0 <= j < i && (#[trigger] mapping.sent_to@[j]).ip == from.ip),
                            decreases mapping.sent_to.len() - i,
                        {
                            if mapping.sent_to[i].ip == from.ip {
                                known = true;
                            }
                            i = i + 1;
                        }
                        known
                    },
                    NatKind::PortRestricted | NatKind::Symmetric => contains_address(
                        &mapping.sent_to,
                        from,
                    ),
                };
                if allowed {
                    Some(mapping.inside)
                } else {
                    None
                }
            },
        }
    }
}

/// A packet as it arrives: whom it seems to come from, and what is in it.
#[derive(Debug)]
pub struct Packet {
    pub from: Address,
    pub bytes: Vec<u8>,
}

/// The internet.
#[derive(Debug)]
pub struct Net {
    /// Every socket's packets, by its own address: public, or private behind
    /// a NAT.
    sockets: Table<Address, Vec<Packet>>,
    /// The NAT each private IP sits behind.
    realm: Table<Ip, Ip>,
    /// NATs by public IP.
    nats: Table<Ip, Nat>,
}

/// Where a packet goes: whom it seems to come from there, and the socket.
pub struct Delivery {
    pub source: Address,
    pub socket: Address,
}

impl Net {
    pub closed spec fn sockets(&self) -> Map<Address, Vec<Packet>> {
        self.sockets@
    }

    pub closed spec fn realm(&self) -> Map<Ip, Ip> {
        self.realm@
    }

    pub closed spec fn nats(&self) -> Map<Ip, Nat> {
        self.nats@
    }

    pub open spec fn wf(&self) -> bool {
        forall|ip: Ip| #[trigger] self.nats().contains_key(ip) ==> self.nats()[ip].wf()
    }

    pub fn new() -> (net: Net)
        ensures
            net.wf(),
            net.sockets() == Map::<Address, Vec<Packet>>::empty(),
            net.realm() == Map::<Ip, Ip>::empty(),
            net.nats() == Map::<Ip, Nat>::empty(),
    {
        Net { sockets: Table::new(), realm: Table::new(), nats: Table::new() }
    }

    /// Put a NAT of `kind` on the internet at `public`, with its private
    /// network behind it.
    pub fn add_nat(&mut self, public: Ip, kind: NatKind)
        requires
            old(self).wf(),
        ensures
            final(self).wf(),
            final(self).sockets() == old(self).sockets(),
            final(self).realm() == old(self).realm(),
            exists|gateway: Nat|
                {
                    &&& #[trigger] gateway.mappings() == Map::<u16, Mapping>::empty()
                    &&& gateway.kind() == kind
                    &&& gateway.next_port() == FIRST_PORT
                    &&& final(self).nats() == old(self).nats().insert(public, gateway)
                },
    {
        let gateway = Nat::new(kind);
        self.nats.insert(public, gateway);
        assert forall|ip: Ip| #[trigger] self.nats().contains_key(ip) implies self.nats()[ip].wf() by {
            if ip != public {
                assert(old(self).nats().contains_key(ip));
            }
        }
    }

    /// Make the NAT at `public` forget every mapping.
    pub fn forget_mappings(&mut self, public: Ip)
        requires
            old(self).wf(),
        ensures
            final(self).wf(),
            final(self).sockets() == old(self).sockets(),
            final(self).realm() == old(self).realm(),
            final(self).nats().dom() == old(self).nats().dom(),
            forall|ip: Ip|
                ip != public && old(self).nats().contains_key(ip) ==> #[trigger] final(self).nats()[ip]
                    == old(self).nats()[ip],
            old(self).nats().contains_key(public) ==> {
                &&& final(self).nats()[public].mappings() == Map::<u16, Mapping>::empty()
                &&& final(self).nats()[public].kind() == old(self).nats()[public].kind()
                &&& final(self).nats()[public].next_port() == old(self).nats()[public].next_port()
            },
    {
        match self.nats.remove(&public) {
            Some(gateway) => {
                let mut gateway = gateway;
                gateway.forget();
                self.nats.insert(public, gateway);
                assert(self.nats().dom() =~= old(self).nats().dom());
            },
            None => {
                assert(self.nats() =~= old(self).nats());
            },
        }
    }

    /// A socket at `address`, which is on the internet unless `behind` names
    /// a NAT's public IP, in which case `address` is private, behind it.
    pub fn socket(&mut self, address: Address, behind: Option<Ip>)
        requires
            old(self).wf(),
        ensures
            final(self).wf(),
            final(self).nats() == old(self).nats(),
            final(self).realm() == (match behind {
                Some(gateway) => old(self).realm().insert(address.ip, gateway),
                None => old(self).realm(),
            }),
            final(self).sockets().dom() == old(self).sockets().dom().insert(address),
            final(self).sockets()[address]@.len() == 0,
            forall|other: Address|
                other != address && old(self).sockets().contains_key(other) ==> #[trigger] final(self).sockets()[other]
                    == old(self).sockets()[other],
    {
        let empty: Vec<Packet> = Vec::new();
        self.sockets.insert(address, empty);
        match behind {
            Some(gateway) => {
                self.realm.insert(address.ip, gateway);
            },
            None => {},
        }
        assert(self.nats() == old(self).nats());
        assert(self.sockets().dom() =~= old(self).sockets().dom().insert(address));
    }

    /// Where a packet from public `from` to public `to` arrives.
    pub open spec fn arrival(&self, from: Address, to: Address) -> Option<Delivery> {
        if self.realm().contains_key(to.ip) {
            None
        } else if self.nats().contains_key(to.ip) {
            let gateway = self.nats()[to.ip];
            if gateway.mappings().contains_key(to.port) && lets_in(
                gateway.kind(),
                gateway.mappings()[to.port].sent_to@,
                from,
            ) {
                Some(Delivery { source: from, socket: gateway.mappings()[to.port].inside })
            } else {
                None
            }
        } else {
            Some(Delivery { source: from, socket: to })
        }
    }

    /// A packet from public `from` reaching public `to`: where it is
    /// delivered, if anywhere. Private addresses are not routed on the
    /// internet.
    pub fn arrive(&self, from: Address, to: Address) -> (delivery: Option<Delivery>)
        ensures
            delivery == self.arrival(from, to),
    {
        if self.realm.contains(&to.ip) {
            return None;
        }
        match self.nats.get(&to.ip) {
            Some(gateway) => match gateway.inbound(to.port, from) {
                Some(inside) => Some(Delivery { source: from, socket: inside }),
                None => None,
            },
            None => Some(Delivery { source: from, socket: to }),
        }
    }

    /// Both on one private network.
    pub open spec fn neighbours(&self, from: Ip, to: Ip) -> bool {
        self.realm().contains_key(from) && self.realm().contains_key(to) && self.realm()[from]
            == self.realm()[to]
    }

    /// The way from `from` to `to` leads out through this NAT.
    pub open spec fn way_out(&self, from: Ip, to: Ip) -> Option<Ip> {
        if self.realm().contains_key(from) && !self.neighbours(from, to) && to
            != self.realm()[from] {
            Some(self.realm()[from])
        } else {
            None
        }
    }

    /// The NAT that a packet goes out through, if it does, is there, and has a
    /// port for it or one left.
    pub open spec fn can_send(&self, from: Address, to: Address) -> bool {
        self.way_out(from.ip, to.ip) matches Some(gateway) ==> {
            &&& self.nats().contains_key(gateway)
            &&& self.nats()[gateway].has_port(from, to) || self.nats()[gateway].next_port()
                < u16::MAX
        }
    }

    /// What finding a packet's way does to the NATs, and where it leads.
    pub open spec fn routed(
        before: &Net,
        after: &Net,
        from: Address,
        to: Address,
        delivery: Option<Delivery>,
    ) -> bool {
        &&& after.realm() == before.realm()
        &&& match before.way_out(from.ip, to.ip) {
            Some(gateway) => {
                &&& after.nats().dom() == before.nats().dom()
                &&& forall|ip: Ip|
                    ip != gateway && before.nats().contains_key(ip) ==> #[trigger] after.nats()[ip]
                        == before.nats()[ip]
                &&& exists|port: u16| #[trigger]
                    Nat::outbound_does(
                        &before.nats()[gateway],
                        &after.nats()[gateway],
                        from,
                        to,
                        port,
                    ) && delivery == after.arrival(Address { ip: gateway, port }, to)
            },
            None => {
                &&& after.nats() == before.nats()
                &&& delivery == (if before.neighbours(from.ip, to.ip) {
                    Some(Delivery { source: from, socket: to })
                } else if before.realm().contains_key(from.ip) {
                    None::<Delivery>
                } else {
                    before.arrival(from, to)
                })
            },
        }
    }

    /// Find a packet's way, opening a port in the sender's NAT where it goes
    /// out through one. The NAT must be there, and have a port left.
    pub fn route(&mut self, from: Address, to: Address) -> (delivery: Option<Delivery>)
        requires
            old(self).wf(),
            old(self).can_send(from, to),
        ensures
            final(self).wf(),
            final(self).sockets() == old(self).sockets(),
            Net::routed(old(self), final(self), from, to, delivery),
    {
        let mine = match self.realm.get(&from.ip) {
            Some(gateway) => Some(*gateway),
            None => None,
        };
        match mine {
            Some(gateway) => {
                let theirs = match self.realm.get(&to.ip) {
                    Some(gateway) => Some(*gateway),
                    None => None,
                };
                let same = match theirs {
                    Some(other) => other == gateway,
                    None => false,
                };
                if same {
                    return Some(Delivery { source: from, socket: to });
                }
                if to.ip == gateway {
                    return None;
                }
                match self.nats.remove(&gateway) {
                    Some(router) => {
                        let mut router = router;
                        let port: u16 = router.outbound(from, to);
                        self.nats.insert(gateway, router);
                        assert(self.nats().dom() =~= old(self).nats().dom());
                        let delivery = self.arrive(Address { ip: gateway, port }, to);
                        proof {
                            assert(Nat::outbound_does(
                                &old(self).nats()[gateway],
                                &self.nats()[gateway],
                                from,
                                to,
                                port,
                            ));
                        }
                        delivery
                    },
                    None => None,
                }
            },
            None => self.arrive(from, to),
        }
    }

    /// Send a packet: it lies in the inbox of the socket it gets to, if it
    /// gets to one.
    pub fn send(&mut self, from: Address, to: Address, packet: &[u8]) -> (delivery: Option<Delivery>)
        requires
            old(self).wf(),
            old(self).can_send(from, to),
        ensures
            final(self).wf(),
            Net::routed(old(self), final(self), from, to, delivery),
            final(self).sockets().dom() == old(self).sockets().dom(),
            forall|socket: Address| #[trigger]
                old(self).sockets().contains_key(socket) ==> (if delivery matches Some(d)
                    && d.socket == socket {
                    let before = old(self).sockets()[socket]@;
                    let after = final(self).sockets()[socket]@;
                    &&& after.len() == before.len() + 1
                    &&& after.drop_last() == before
                    &&& after.last().from == delivery.unwrap().source
                    &&& after.last().bytes@ == packet@
                } else {
                    final(self).sockets()[socket] == old(self).sockets()[socket]
                }),
    {
        let delivery = self.route(from, to);
        let ghost routed = *self;
        match &delivery {
            Some(d) => match self.sockets.remove(&d.socket) {
                Some(inbox) => {
                    let mut inbox = inbox;
                    let ghost before = inbox@;
                    let mut bytes: Vec<u8> = Vec::new();
                    bytes.extend_from_slice(packet);
                    assert(bytes@ =~= packet@);
                    inbox.push(Packet { from: d.source, bytes });
                    assert(inbox@.drop_last() =~= before);
                    self.sockets.insert(d.socket, inbox);
                    assert(self.sockets().dom() =~= old(self).sockets().dom());
                },
                None => {
                    assert(self.sockets() =~= old(self).sockets());
                },
            },
            None => {},
        }
        proof {
            assert(self.nats() == routed.nats());
            assert(self.realm() == routed.realm());
            if let Some(gateway) = old(self).way_out(from.ip, to.ip) {
                let port = choose|port: u16| #[trigger]
                    Nat::outbound_does(
                        &old(self).nats()[gateway],
                        &routed.nats()[gateway],
                        from,
                        to,
                        port,
                    ) && delivery == routed.arrival(Address { ip: gateway, port }, to);
                assert(Nat::outbound_does(
                    &old(self).nats()[gateway],
                    &self.nats()[gateway],
                    from,
                    to,
                    port,
                ));
                assert(self.arrival(Address { ip: gateway, port }, to) == routed.arrival(
                    Address { ip: gateway, port },
                    to,
                ));
            }
        }
        delivery
    }

    /// Take the packets that have arrived at a socket.
    pub fn received(&mut self, at: Address) -> (packets: Vec<Packet>)
        requires
            old(self).wf(),
        ensures
            final(self).wf(),
            final(self).nats() == old(self).nats(),
            final(self).realm() == old(self).realm(),
            packets@ == (if old(self).sockets().contains_key(at) {
                old(self).sockets()[at]@
            } else {
                Seq::<Packet>::empty()
            }),
            final(self).sockets().dom() == old(self).sockets().dom(),
            old(self).sockets().contains_key(at) ==> final(self).sockets()[at]@.len() == 0,
            forall|other: Address|
                other != at && old(self).sockets().contains_key(other) ==> #[trigger] final(self).sockets()[other]
                    == old(self).sockets()[other],
    {
        match self.sockets.remove(&at) {
            Some(packets) => {
                let empty: Vec<Packet> = Vec::new();
                self.sockets.insert(at, empty);
                assert(self.nats() == old(self).nats());
                assert(self.sockets().dom() =~= old(self).sockets().dom());
                packets
            },
            None => {
                assert(self.nats() == old(self).nats());
                assert(self.sockets() =~= old(self).sockets());
                Vec::new()
            },
        }
    }
}

/// An address on the simulated internet.
pub fn public(last: u8, port: u16) -> (address: Address)
    ensures
        address == (Address { ip: Ip::V4((0xcb00_7100 + last) as u32), port }),
{
    Address { ip: Ip::v4(203, 0, 113, last), port }
}

/// A private address, on network `network`.
pub fn private(network: u8, last: u8, port: u16) -> (address: Address)
    ensures
        address == (Address { ip: Ip::V4((0x0a00_0000 + network * 0x100 + last) as u32), port }),
        address.ip.local(),
{
    Address { ip: Ip::v4(10, 0, network, last), port }
}

/// A socket has one port for each destination it sends to, or, unless its
/// NAT is symmetric, one for all of them.
pub proof fn lemma_one_port(gateway: Nat, p: u16, q: u16, inside: Address, a: Address, b: Address)
    requires
        gateway.wf(),
        gateway.is_port(p, inside, only_for(gateway.kind(), a)),
        gateway.is_port(q, inside, only_for(gateway.kind(), b)),
    ensures
        gateway.kind() != NatKind::Symmetric || a == b ==> p == q,
        gateway.kind() == NatKind::Symmetric && a != b ==> p != q,
{
    assert(gateway.mappings@[p].inside == inside);
    assert(gateway.mappings@[q].inside == inside);
}

/// Whoever a socket has sent to through a port can answer through it, past
/// any kind of NAT.
pub proof fn lemma_answers_get_in(kind: NatKind, sent_to: Seq<Address>, to: Address)
    requires
        sent_to.contains(to),
    ensures
        lets_in(kind, sent_to, to),
{
    let i = choose|i: int| 0 <= i < sent_to.len() && sent_to[i] == to;
    assert(sent_to[i].ip == to.ip);
}

/// A stranger, whose IP was never sent to, gets in to a full cone only.
pub proof fn lemma_strangers_stay_out(kind: NatKind, sent_to: Seq<Address>, stranger: Address)
    requires
        forall|i: int| 0 <= i < sent_to.len() ==> (#[trigger] sent_to[i]).ip != stranger.ip,
    ensures
        lets_in(kind, sent_to, stranger) <==> kind == NatKind::FullCone,
{
    if sent_to.contains(stranger) {
        let i = choose|i: int| 0 <= i < sent_to.len() && sent_to[i] == stranger;
        assert(sent_to[i].ip == stranger.ip);
    }
}

/// Whom each kind lets in to a port: anyone; whoever has an IP that was sent
/// to; or only the very addresses that were.
pub proof fn lemma_kinds_of_nat(sent_to: Seq<Address>, sent: Address, port: u16, from: Address)
    requires
        sent_to == seq![sent],
    ensures
        lets_in(NatKind::FullCone, sent_to, from),
        lets_in(NatKind::AddressRestricted, sent_to, from) <==> from.ip == sent.ip,
        lets_in(NatKind::PortRestricted, sent_to, from) <==> from == sent,
        lets_in(NatKind::Symmetric, sent_to, from) <==> from == sent,
        lets_in(NatKind::AddressRestricted, sent_to, Address { ip: sent.ip, port }),
        port != sent.port ==> !lets_in(
            NatKind::PortRestricted,
            sent_to,
            Address { ip: sent.ip, port },
        ),
{
    assert(sent_to[0] == sent);
    assert(sent_to.contains(sent));
}

/// A packet out of a private network seems to come from its NAT; one within it
/// from its sender; none from inside gets back in by the NAT's own address, and
/// none from outside to a private address.
pub proof fn lemma_where_packets_get_to(
    before: Net,
    after: Net,
    from: Address,
    to: Address,
    delivery: Option<Delivery>,
)
    requires
        Net::routed(&before, &after, from, to, delivery),
    ensures
        before.neighbours(from.ip, to.ip) ==> delivery == Some(
            Delivery { source: from, socket: to },
        ),
        before.realm().contains_key(from.ip) && !before.neighbours(from.ip, to.ip)
            && before.realm()[from.ip] == to.ip ==> delivery is None,
        before.realm().contains_key(to.ip) && !before.neighbours(from.ip, to.ip) ==> delivery is None,
        before.realm().contains_key(from.ip) && !before.neighbours(from.ip, to.ip) ==> (
        delivery matches Some(found) ==> found.source.ip == before.realm()[from.ip]),
        !before.realm().contains_key(from.ip) ==> (delivery matches Some(found) ==> found.source
            == from),
        !before.realm().contains_key(to.ip) && !before.nats().contains_key(to.ip) ==> (
        delivery matches Some(found) ==> found.socket == to),
        !before.realm().contains_key(from.ip) && !before.realm().contains_key(to.ip)
            && !before.nats().contains_key(to.ip) ==> delivery is Some,
        after.realm() == before.realm(),
{
    if let Some(gateway) = before.way_out(from.ip, to.ip) {
        assert(after.nats().contains_key(to.ip) <==> after.nats().dom().contains(to.ip));
        assert(before.nats().contains_key(to.ip) <==> before.nats().dom().contains(to.ip));
    }
}

/// Whoever was sent to can answer: what they send to the port that the packet
/// left by gets to the socket that sent it, past any NAT.
pub proof fn lemma_answers_come_back(
    before: Nat,
    after: Nat,
    inside: Address,
    to: Address,
    port: u16,
)
    requires
        Nat::outbound_does(&before, &after, inside, to, port),
    ensures
        after.mappings().contains_key(port),
        after.mappings()[port].inside == inside,
        lets_in(after.kind(), after.mappings()[port].sent_to@, to),
        !before.has_port(inside, to) ==> port == before.next_port() && after.next_port() == port + 1,
        before.has_port(inside, to) ==> after.next_port() == before.next_port(),
{
    let sent = after.mappings()[port].sent_to@;
    if before.has_port(inside, to) {
        let earlier = before.mappings()[port].sent_to@;
        if !earlier.contains(to) {
            assert(sent[sent.len() - 1] == to);
        }
    } else {
        assert(sent[0] == to);
    }
    assert(sent.contains(to));
    lemma_answers_get_in(after.kind(), sent, to);
}

}
