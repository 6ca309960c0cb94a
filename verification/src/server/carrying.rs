//! What the relay will carry for one session, both directions counted
//! together: so that a server open to accounts cannot be turned into a tunnel
//! without limit.

use super::config::Relay;
use vstd::prelude::*;

verus! {

/// What becomes of a packet.
#[derive(Debug, Clone, Copy, PartialEq, Eq, Structural)]
pub enum Carry {
    /// It is carried.
    On,
    /// It would be more than the session may have: the session is let go.
    LetGo,
    /// The session was let go before.
    Gone,
}

/// What one session has had.
#[derive(Debug)]
pub struct Meter {
    carried: u64,
    ceiling: u64,
    gone: bool,
}

impl Meter {
    /// Bytes carried so far.
    pub closed spec fn carried(&self) -> u64 {
        self.carried
    }

    /// Bytes it may have; 0 for any number.
    pub closed spec fn ceiling(&self) -> u64 {
        self.ceiling
    }

    /// The session was let go.
    pub closed spec fn gone(&self) -> bool {
        self.gone
    }

    /// Never more than it may have.
    pub open spec fn wf(&self) -> bool {
        self.ceiling() > 0 ==> self.carried() <= self.ceiling()
    }

    pub fn new(relay: &Relay) -> (meter: Meter)
        ensures
            meter.wf(),
            meter.carried() == 0,
            meter.ceiling() == relay.most(),
            !meter.gone(),
    {
        Meter { carried: 0, ceiling: relay.ceiling(), gone: false }
    }

    /// A packet of so many bytes is to be carried, either way.
    pub fn carry(&mut self, bytes: usize) -> (what: Carry)
        requires
            old(self).wf(),
        ensures
            final(self).wf(),
            final(self).ceiling() == old(self).ceiling(),
            carries(
                (old(self).carried(), old(self).gone()),
                (final(self).carried(), final(self).gone()),
                old(self).ceiling(),
                bytes,
                what,
            ),
    {
        if self.gone {
            return Carry::Gone;
        }
        if self.ceiling > 0 && bytes as u64 > self.ceiling - self.carried {
            self.gone = true;
            return Carry::LetGo;
        }
        self.carried = self.carried.saturating_add(bytes as u64);
        Carry::On
    }
}

/// What a session has had, and whether it was let go, once a packet of so many
/// bytes came. What is beyond counting is not counted.
pub open spec fn after(carried: int, gone: bool, ceiling: int, bytes: int) -> (int, bool) {
    if gone || (ceiling > 0 && carried + bytes > ceiling) {
        (carried, true)
    } else if carried + bytes > u64::MAX {
        (u64::MAX as int, false)
    } else {
        (carried + bytes, false)
    }
}

/// The same once all these came, in order.
pub open spec fn after_all(packets: Seq<usize>, ceiling: int) -> (int, bool)
    decreases packets.len(),
{
    if packets.len() == 0 {
        (0, false)
    } else {
        let before = after_all(packets.drop_last(), ceiling);
        after(before.0, before.1, ceiling, packets.last() as int)
    }
}

/// Whatever a session sends, it never has more than its ceiling; and without a
/// ceiling it is never let go.
pub proof fn lemma_no_session_has_more(packets: Seq<usize>, ceiling: int)
    ensures
        ceiling > 0 ==> after_all(packets, ceiling).0 <= ceiling,
        ceiling == 0 ==> !after_all(packets, ceiling).1,
    decreases packets.len(),
{
    if packets.len() > 0 {
        lemma_no_session_has_more(packets.drop_last(), ceiling);
    }
}

/// A session that was let go stays so: nothing more of it is carried.
pub proof fn lemma_let_go_is_final(packets: Seq<usize>, more: Seq<usize>, ceiling: int)
    requires
        after_all(packets, ceiling).1,
    ensures
        after_all(packets + more, ceiling) == after_all(packets, ceiling),
    decreases more.len(),
{
    if more.len() == 0 {
        assert(packets + more =~= packets);
    } else {
        lemma_let_go_is_final(packets, more.drop_last(), ceiling);
        assert((packets + more).drop_last() =~= packets + more.drop_last());
    }
}

/// What `carry` does.
pub open spec fn carries(
    before: (u64, bool),
    after_it: (u64, bool),
    ceiling: u64,
    bytes: usize,
    what: Carry,
) -> bool {
    &&& (after_it.0 as int, after_it.1) == after(
        before.0 as int,
        before.1,
        ceiling as int,
        bytes as int,
    )
    &&& what == (if before.1 {
        Carry::Gone
    } else if after_it.1 {
        Carry::LetGo
    } else {
        Carry::On
    })
}

/// A packet is carried as long as the session has not had its share, and
/// counted; the one that would be too much is not, and ends the session.
pub proof fn lemma_a_session_has_its_share(
    before: (u64, bool),
    after_it: (u64, bool),
    ceiling: u64,
    bytes: usize,
    what: Carry,
)
    requires
        carries(before, after_it, ceiling, bytes, what),
    ensures
        what == Carry::Gone <==> before.1,
        what == Carry::LetGo <==> !before.1 && ceiling > 0 && before.0 + bytes > ceiling,
        what == Carry::On && before.0 + bytes <= u64::MAX ==> after_it.0 == before.0 + bytes,
        what != Carry::On ==> after_it.0 == before.0 && after_it.1,
        what == Carry::On ==> !after_it.1,
{
}

/// How much these packets are together.
pub open spec fn together(packets: Seq<usize>) -> int
    decreases packets.len(),
{
    if packets.len() == 0 {
        0
    } else {
        together(packets.drop_last()) + packets.last()
    }
}

/// A session that asks for no more than its ceiling has all of it; one that was
/// not let go has had all that it asked for.
pub proof fn lemma_what_is_within_the_ceiling_is_carried(packets: Seq<usize>, ceiling: int)
    requires
        together(packets) <= u64::MAX,
    ensures
        ceiling == 0 || together(packets) <= ceiling ==> after_all(packets, ceiling) == (
            together(packets),
            false,
        ),
        !after_all(packets, ceiling).1 ==> after_all(packets, ceiling).0 == together(packets),
        ceiling > 0 && together(packets) > ceiling ==> after_all(packets, ceiling).1,
        0 <= together(packets),
    decreases packets.len(),
{
    if packets.len() > 0 {
        lemma_together_grows(packets);
        lemma_what_is_within_the_ceiling_is_carried(packets.drop_last(), ceiling);
    }
}

proof fn lemma_together_grows(packets: Seq<usize>)
    requires
        packets.len() > 0,
    ensures
        0 <= together(packets.drop_last()) <= together(packets),
    decreases packets.len(),
{
    if packets.len() > 1 {
        lemma_together_grows(packets.drop_last());
    }
}

}
