//! The relay, from the clients' side: packets that travel as datagrams on a
//! connection to the server.
//!
//! On the agent's side one tunnel carries every relayed viewer, so its
//! datagrams begin with the session's number, big-endian; the server adds it
//! on the way to the agent and strips it on the way to the viewer, whose
//! tunnel carries one session only. To QUIC, each relayed peer is an address
//! in `100::/64`, a range reserved for discarding traffic, so it can never be
//! a real host, with the session in the low 64 bits.

use crate::net::{Address, Ip};
use std::collections::VecDeque;
use vstd::prelude::*;
use vstd::slice::slice_subrange;

verus! {

/// The first 64 bits of every relayed peer's address: `100::/64`.
pub const PREFIX: u128 = 0x0100_0000_0000_0000;

/// 2 to the power of 64.
pub const HALF: u128 = 0x1_0000_0000_0000_0000;

/// Bytes of session number before each datagram on an agent's tunnel.
pub const SESSION_LEN: usize = 8;

/// Packets waiting to be read, at most. Past this the tunnel is being fed
/// faster than QUIC reads, and dropping is what a UDP socket would do.
pub const INBOX_LIMIT: usize = 4096;

pub open spec fn address_of(session: u64) -> Address {
    Address { ip: Ip::V6((PREFIX * HALF + session) as u128), port: 443 }
}

/// The address QUIC sees for the peer of relayed `session`.
pub fn relayed_address(session: u64) -> (address: Address)
    ensures
        address == address_of(session),
{
    Address { ip: Ip::V6(PREFIX * HALF + session as u128), port: 443 }
}

pub open spec fn session_at(address: Address) -> Option<u64> {
    match address.ip {
        Ip::V6(bits) => if bits / HALF == PREFIX {
            Some((bits % HALF) as u64)
        } else {
            None
        },
        Ip::V4(_) => None,
    }
}

/// The session whose relayed peer `address` is, if it is one.
pub fn session_of(address: Address) -> (session: Option<u64>)
    ensures
        session == session_at(address),
{
    match address.ip {
        Ip::V6(bits) => if bits / HALF == PREFIX {
            Some((bits % HALF) as u64)
        } else {
            None
        },
        Ip::V4(_) => None,
    }
}

/// Whether `address` is a peer reached through the relay.
pub fn is_relayed(address: Address) -> (yes: bool)
    ensures
        yes == session_at(address) is Some,
{
    session_of(address).is_some()
}

/// A session's address is the session's, and no other's.
pub proof fn lemma_sessions_have_addresses(session: u64)
    ensures
        session_at(address_of(session)) == Some(session),
{
}

/// Eight bytes, the high ones first.
pub open spec fn big_endian(n: u64) -> Seq<u8> {
    Seq::new(8, |i: int| (n as int / byte_unit(i) % 256) as u8)
}

/// What a byte at place `i` of eight counts.
pub open spec fn byte_unit(i: int) -> int {
    if i == 0 {
        0x100_0000_0000_0000
    } else if i == 1 {
        0x1_0000_0000_0000
    } else if i == 2 {
        0x100_0000_0000
    } else if i == 3 {
        0x1_0000_0000
    } else if i == 4 {
        0x100_0000
    } else if i == 5 {
        0x1_0000
    } else if i == 6 {
        0x100
    } else {
        1
    }
}

/// The number that eight bytes write.
pub open spec fn number_of(bytes: Seq<u8>) -> int {
    bytes[0] * 0x100_0000_0000_0000 + bytes[1] * 0x1_0000_0000_0000 + bytes[2] * 0x100_0000_0000
        + bytes[3] * 0x1_0000_0000 + bytes[4] * 0x100_0000 + bytes[5] * 0x1_0000 + bytes[6] * 0x100
        + bytes[7]
}

/// Eight bytes write the number they were made from.
pub proof fn lemma_big_endian(n: u64)
    ensures
        number_of(big_endian(n)) == n,
{
    let b = big_endian(n);
    let q1 = n / 0x100;
    let q2 = n / 0x1_0000;
    let q3 = n / 0x100_0000;
    let q4 = n / 0x1_0000_0000;
    let q5 = n / 0x100_0000_0000;
    let q6 = n / 0x1_0000_0000_0000;
    let q7 = n / 0x100_0000_0000_0000;
    assert(b[7] == n % 256 && n == q1 * 256 + n % 256);
    assert(q2 == q1 / 256);
    assert(b[6] == q1 % 256 && q1 == q2 * 256 + q1 % 256);
    assert(q3 == q2 / 256);
    assert(b[5] == q2 % 256 && q2 == q3 * 256 + q2 % 256);
    assert(q4 == q3 / 256);
    assert(b[4] == q3 % 256 && q3 == q4 * 256 + q3 % 256);
    assert(q5 == q4 / 256);
    assert(b[3] == q4 % 256 && q4 == q5 * 256 + q4 % 256);
    assert(q6 == q5 / 256);
    assert(b[2] == q5 % 256 && q5 == q6 * 256 + q5 % 256);
    assert(q7 == q6 / 256);
    assert(b[1] == q6 % 256 && q6 == q7 * 256 + q6 % 256);
    assert(b[0] == q7 % 256 && q7 < 256);
}

pub open spec fn tagged(session: u64, packet: Seq<u8>) -> Seq<u8> {
    big_endian(session) + packet
}

/// A datagram for the agent of `session`: the session, then the packet.
pub fn tag(session: u64, packet: &[u8]) -> (datagram: Vec<u8>)
    ensures
        datagram@ == tagged(session, packet@),
{
    let mut out: Vec<u8> = Vec::new();
    out.push((session / 0x100_0000_0000_0000) as u8);
    out.push((session / 0x1_0000_0000_0000 % 256) as u8);
    out.push((session / 0x100_0000_0000 % 256) as u8);
    out.push((session / 0x1_0000_0000 % 256) as u8);
    out.push((session / 0x100_0000 % 256) as u8);
    out.push((session / 0x1_0000 % 256) as u8);
    out.push((session / 0x100 % 256) as u8);
    out.push((session % 256) as u8);
    assert(out@ =~= big_endian(session));
    out.extend_from_slice(packet);
    assert(out@ =~= tagged(session, packet@));
    out
}

/// The session and packet of a datagram from an agent.
pub fn untag(datagram: &[u8]) -> (parts: Option<(u64, Vec<u8>)>)
    ensures
        match parts {
            Some((session, packet)) => datagram@.len() >= SESSION_LEN && session == number_of(
                datagram@.take(8),
            ) && packet@ == datagram@.skip(8),
            None => datagram@.len() < SESSION_LEN,
        },
{
    if datagram.len() < SESSION_LEN {
        return None;
    }
    let session: u64 = datagram[0] as u64 * 0x100_0000_0000_0000 + datagram[1] as u64
        * 0x1_0000_0000_0000 + datagram[2] as u64 * 0x100_0000_0000 + datagram[3] as u64
        * 0x1_0000_0000 + datagram[4] as u64 * 0x100_0000 + datagram[5] as u64 * 0x1_0000
        + datagram[6] as u64 * 0x100 + datagram[7] as u64;
    let mut packet: Vec<u8> = Vec::new();
    packet.extend_from_slice(slice_subrange(datagram, 8, datagram.len()));
    assert(packet@ =~= datagram@.skip(8));
    Some((session, packet))
}

/// What is tagged comes apart again: the session and the packet it was made
/// of.
pub proof fn lemma_tags_come_off(session: u64, packet: Seq<u8>)
    ensures
        tagged(session, packet).len() >= SESSION_LEN,
        number_of(tagged(session, packet).take(8)) == session,
        tagged(session, packet).skip(8) == packet,
{
    assert(tagged(session, packet).take(8) =~= big_endian(session));
    lemma_big_endian(session);
    assert(tagged(session, packet).skip(8) =~= packet);
}

/// This is where a datagram is from, and what it carries.
pub open spec fn comes_from(
    many: bool,
    datagram: Seq<u8>,
    packet: Option<(Address, Vec<u8>)>,
) -> bool {
    match packet {
        Some((from, packet)) => if many {
            datagram.len() >= SESSION_LEN && from == address_of(
                number_of(datagram.take(8)) as u64,
            ) && packet@ == datagram.skip(8)
        } else {
            from == address_of(0) && packet@ == datagram
        },
        None => many && datagram.len() < SESSION_LEN,
    }
}

/// Where a datagram that came through the tunnel is from, and what it
/// carries: on the agent's side (`many`) it says so itself.
pub fn arrived(many: bool, datagram: &[u8]) -> (packet: Option<(Address, Vec<u8>)>)
    ensures
        comes_from(many, datagram@, packet),
{
    if many {
        match untag(datagram) {
            Some((session, packet)) => Some((relayed_address(session), packet)),
            None => None,
        }
    } else {
        let mut packet: Vec<u8> = Vec::new();
        packet.extend_from_slice(datagram);
        assert(packet@ =~= datagram@);
        Some((relayed_address(0), packet))
    }
}

/// Piece `i` of `contents` cut into pieces of `size`.
pub open spec fn piece(contents: Seq<u8>, size: int, i: int) -> Seq<u8> {
    contents.subrange(
        i * size,
        if (i + 1) * size <= contents.len() {
            (i + 1) * size
        } else {
            contents.len() as int
        },
    )
}

/// These are the datagrams that carry `contents`.
pub open spec fn cut(
    contents: Seq<u8>,
    segment: Option<usize>,
    destination: Address,
    many: bool,
    out: Seq<Vec<u8>>,
) -> bool {
    let size = match segment {
        Some(0) => 1,
        Some(n) => n as int,
        None => if contents.len() == 0 {
            1
        } else {
            contents.len() as int
        },
    };
    if many && session_at(destination) is None {
        out.len() == 0
    } else {
        &&& (out.len() - 1) * size < contents.len() || out.len() == 0
        &&& out.len() * size >= contents.len()
        &&& forall|i: int|
            0 <= i < out.len() ==> (#[trigger] out[i])@ == (if many {
                tagged(session_at(destination)->0, piece(contents, size, i))
            } else {
                piece(contents, size, i)
            })
    }
}

/// The datagrams that carry `contents` to `destination`, cut into segments of
/// `segment` bytes if it is given. On the agent's side (`many`) each is
/// tagged, and what is not for a relayed peer is not for this tunnel.
pub fn datagrams(
    contents: &[u8],
    segment: Option<usize>,
    destination: Address,
    many: bool,
) -> (out: Vec<Vec<u8>>)
    ensures
        cut(contents@, segment, destination, many, out@),
{
    let size: usize = match segment {
        Some(n) => if n == 0 {
            1
        } else {
            n
        },
        None => if contents.len() == 0 {
            1
        } else {
            contents.len()
        },
    };
    let mut out: Vec<Vec<u8>> = Vec::new();
    let session = session_of(destination);
    if many && session.is_none() {
        return out;
    }
    let mut from: usize = 0;
    assert(0 * size == 0) by (nonlinear_arith);
    while from < contents.len()
        invariant
            size >= 1,
            from <= contents@.len(),
            session == session_at(destination),
            many ==> session is Some,
            from == out@.len() * size || (from == contents@.len() && out@.len() * size
                >= contents@.len()),
            out@.len() == 0 || (out@.len() - 1) * size < contents@.len(),
            forall|i: int|
                0 <= i < out@.len() ==> (#[trigger] out@[i])@ == (if many {
                    tagged(session_at(destination)->0, piece(contents@, size as int, i))
                } else {
                    piece(contents@, size as int, i)
                }),
        decreases contents.len() - from,
    {
        let ghost n = out@.len() as int;
        let end: usize = if contents.len() - from > size {
            from + size
        } else {
            contents.len()
        };
        let packet = slice_subrange(contents, from, end);
        proof {
            assert((n + 1) * size == n * size + size) by (nonlinear_arith);
            assert(packet@ =~= piece(contents@, size as int, n));
        }
        let datagram = if many {
            tag(
                match session {
                    Some(session) => session,
                    None => 0,
                },
                packet,
            )
        } else {
            let mut copy: Vec<u8> = Vec::new();
            copy.extend_from_slice(packet);
            assert(copy@ =~= packet@);
            copy
        };
        out.push(datagram);
        from = end;
    }
    out
}

/// Packets that came through a tunnel and wait to be read.
#[derive(Debug)]
pub struct Inbox {
    packets: VecDeque<(Address, Vec<u8>)>,
}

impl Inbox {
    pub closed spec fn packets(&self) -> Seq<(Address, Vec<u8>)> {
        self.packets@
    }

    /// Never more than the limit.
    pub open spec fn wf(&self) -> bool {
        self.packets().len() <= INBOX_LIMIT
    }

    pub fn new() -> (inbox: Inbox)
        ensures
            inbox.wf(),
            inbox.packets() == Seq::<(Address, Vec<u8>)>::empty(),
    {
        Inbox { packets: VecDeque::new() }
    }

    /// Queue a packet, unless the queue is full; whether it was queued.
    pub fn push(&mut self, from: Address, packet: Vec<u8>) -> (queued: bool)
        requires
            old(self).wf(),
        ensures
            final(self).wf(),
            queued == (old(self).packets().len() < INBOX_LIMIT),
            final(self).packets() == (if queued {
                old(self).packets().push((from, packet))
            } else {
                old(self).packets()
            }),
    {
        if self.packets.len() >= INBOX_LIMIT {
            return false;
        }
        self.packets.push_back((from, packet));
        true
    }

    /// The packet that has waited longest, cut to the `room` there is for it.
    pub fn pop(&mut self, room: usize) -> (packet: Option<(Address, Vec<u8>)>)
        requires
            old(self).wf(),
        ensures
            final(self).wf(),
            match packet {
                Some((from, packet)) => {
                    &&& old(self).packets().len() > 0
                    &&& from == old(self).packets()[0].0
                    &&& packet@ == (if old(self).packets()[0].1@.len() <= room {
                        old(self).packets()[0].1@
                    } else {
                        old(self).packets()[0].1@.take(room as int)
                    })
                    &&& final(self).packets() == old(self).packets().skip(1)
                },
                None => old(self).packets().len() == 0 && final(self).packets() == old(
                    self,
                ).packets(),
            },
    {
        match self.packets.pop_front() {
            Some((from, packet)) => {
                assert(self.packets() =~= old(self).packets().skip(1));
                let mut packet = packet;
                if packet.len() > room {
                    packet.truncate(room);
                }
                Some((from, packet))
            },
            None => None,
        }
    }
}

/// The addresses of relayed peers are those of `100::/64`, with the session as
/// the rest, and no others are.
pub proof fn lemma_relayed_peers_are_nowhere_else(session: u64, address: Address)
    ensures
        address_of(session) == (Address {
            ip: Ip::V6((0x0100_0000_0000_0000_0000_0000_0000_0000int + session) as u128),
            port: 443,
        }),
        session_at(address) == Some(session) <==> address.ip == Ip::V6(
            (0x0100_0000_0000_0000_0000_0000_0000_0000int + session) as u128,
        ),
        session_at(address) is None <==> (address.ip matches Ip::V6(bits) ==> bits
            < 0x0100_0000_0000_0000_0000_0000_0000_0000int || bits
            >= 0x0100_0000_0000_0001_0000_0000_0000_0000int),
{
    assert(PREFIX * HALF == 0x0100_0000_0000_0000_0000_0000_0000_0000int);
}

/// The high bytes come first: the last counts the ones, and the others are
/// those of what it leaves.
pub proof fn lemma_high_bytes_come_first(n: u64, i: int)
    requires
        0 <= i < 7,
    ensures
        big_endian(n).len() == 8,
        big_endian(n)[7] == n % 256,
        big_endian(n)[i] == big_endian((n / 256) as u64)[i + 1],
        big_endian(0)[i] == 0,
{
}

/// What an agent is sent through its tunnel comes from the peer of the session
/// that it is tagged with, as it was; a viewer's tunnel has one peer.
pub proof fn lemma_packets_arrive_from_their_session(
    session: u64,
    packet: Seq<u8>,
    from_many: Option<(Address, Vec<u8>)>,
    from_one: Option<(Address, Vec<u8>)>,
)
    requires
        comes_from(true, tagged(session, packet), from_many),
        comes_from(false, packet, from_one),
    ensures
        from_many matches Some((from, arrived)) && session_at(from) == Some(session) && arrived@
            == packet,
        from_one matches Some((from, arrived)) && session_at(from) == Some(0u64) && arrived@ == packet,
{
    lemma_tags_come_off(session, packet);
    lemma_sessions_have_addresses(session);
    lemma_sessions_have_addresses(0);
}

/// Every byte goes out, once and in its place: what is cut fits together again.
pub proof fn lemma_what_is_cut_fits_together(
    contents: Seq<u8>,
    segment: usize,
    destination: Address,
    many: bool,
    out: Seq<Vec<u8>>,
    j: int,
)
    requires
        cut(contents, Some(segment), destination, many, out),
        segment > 0,
        many ==> session_at(destination) is Some,
        0 <= j < contents.len(),
    ensures
        j / (segment as int) < out.len(),
        !many ==> out[j / (segment as int)]@.len() <= segment && out[j / (segment as int)]@[j
            % (segment as int)] == contents[j],
        many ==> {
            let sent = out[j / (segment as int)]@;
            &&& sent.take(8) == big_endian(session_at(destination)->0)
            &&& sent.skip(8).len() <= segment
            &&& sent.skip(8)[j % (segment as int)] == contents[j]
        },
{
    let size = segment as int;
    let i = j / size;
    assert(i * size <= j < (i + 1) * size && j == i * size + j % size) by (nonlinear_arith)
        requires
            i == j / size,
            size > 0,
            j >= 0,
    ;
    let k = out.len() as int;
    assert(i < k) by (nonlinear_arith)
        requires
            i * size <= j,
            k * size > j,
            size > 0,
    ;
    assert((i + 1) * size == i * size + size) by (nonlinear_arith);
    assert(i >= 0) by (nonlinear_arith)
        requires
            i == j / size,
            size > 0,
            j >= 0,
    ;
    assert(0 <= i * size) by (nonlinear_arith)
        requires
            i >= 0,
            size > 0,
    ;
    let part = piece(contents, size, i);
    assert(part[j % size] == contents[j]);
    if many {
        let sent = out[i]@;
        let head = big_endian(session_at(destination)->0);
        assert(sent == head + part);
        assert(sent.take(8) =~= head);
        assert(sent.skip(8) =~= part);
    }
}

/// Whole contents go out whole, and nothing as nothing.
pub proof fn lemma_what_is_not_cut_goes_whole(
    contents: Seq<u8>,
    destination: Address,
    many: bool,
    out: Seq<Vec<u8>>,
)
    requires
        cut(contents, None, destination, many, out),
    ensures
        contents.len() == 0 || (many && session_at(destination) is None) ==> out.len() == 0,
        contents.len() > 0 && !many ==> out.len() == 1 && out[0]@ == contents,
        contents.len() > 0 && many && session_at(destination) is Some ==> out.len() == 1 && out[0]@
            == tagged(session_at(destination)->0, contents),
{
    if !(many && session_at(destination) is None) {
        let n = out.len() as int;
        if contents.len() > 0 {
            let size = contents.len() as int;
            assert(n == 1) by (nonlinear_arith)
                requires
                    (n - 1) * size < size || n == 0,
                    n * size >= size,
                    size > 0,
                    n >= 0,
            ;
            assert(piece(contents, size, 0) =~= contents);
        }
    }
}

/// No more than 4096 packets wait: one more is dropped.
pub proof fn lemma_waiting_packets_are_limited(inbox: Inbox)
    ensures
        inbox.wf() <==> inbox.packets().len() <= 4096,
{
}

}
