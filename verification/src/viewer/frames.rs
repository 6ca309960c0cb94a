//! Decoded frames on their way to the screen: which slot of the ring each
//! goes into, and which are never shown.
//!
//! Every frame is decoded, because each is the next one's reference. But when
//! several are waiting, only the newest is converted and shown, and none is
//! while the renderer still holds the slot it would go into.

use super::session::Monitor;
use crate::text::{decimal, push_decimal};
use vstd::prelude::*;

verus! {

/// Slots in the ring: one being drawn, one ready, one being written.
pub const SLOTS: usize = 3;

/// A frame converted into a slot and ready to draw once the decode fence
/// reaches `fence_value`.
#[derive(Debug, Clone, Copy)]
pub struct FrameReady {
    pub slot: usize,
    pub fence_value: u64,
    /// On the agent's clock.
    pub capture_ts_us: u64,
    /// On this machine's clock, like everything below.
    pub received_us: u64,
    pub decoded_us: u64,
    /// Frames decoded but never shown because a newer one was already queued.
    pub skipped: u32,
    /// The picture's size: the top-left corner of the slot it fills.
    pub size: (u32, u32),
}

/// What becomes of a batch of decoded frames.
#[derive(Debug, Clone, Copy, PartialEq, Eq, Structural)]
pub enum Plan {
    /// The decoder gave no picture.
    Nothing,
    /// The picture is larger than the slots; not shown.
    TooLarge,
    /// The renderer still holds the slot: showing the frame would mean
    /// waiting, and a newer one is coming.
    Behind,
    /// Convert the newest into `slot` and signal `value`; `skipped` frames
    /// were not shown since the last one that was.
    Show { slot: usize, value: u64, skipped: u32 },
}

/// The ring, as the decode side knows it.
#[derive(Debug)]
pub struct Ring {
    /// Fence value of the frame most recently written into each slot.
    values: [u64; 3],
    next_value: u64,
    /// Decoded frames not shown since the last one that was.
    unshown: u32,
}

/// The slot that fence value `value` goes into.
pub open spec fn slot_of(value: u64) -> int {
    (value - 1) % 3
}

impl Ring {
    pub closed spec fn values(&self) -> Seq<u64> {
        self.values@
    }

    pub closed spec fn next_value(&self) -> u64 {
        self.next_value
    }

    pub closed spec fn unshown(&self) -> u32 {
        self.unshown
    }

    /// Values only grow, and each slot holds one of its own, or none yet.
    pub open spec fn wf(&self) -> bool {
        &&& self.values().len() == 3
        &&& self.next_value() >= 1
        &&& forall|slot: int|
            0 <= slot < 3 ==> {
                &&& (#[trigger] self.values()[slot]) < self.next_value()
                &&& self.values()[slot] == 0 || slot_of(self.values()[slot]) == slot
            }
    }

    pub fn new() -> (ring: Ring)
        ensures
            ring.wf(),
            ring.values() == seq![0u64, 0, 0],
            ring.next_value() == 1,
            ring.unshown() == 0,
    {
        let ring = Ring { values: [0, 0, 0], next_value: 1, unshown: 0 };
        assert(ring.values() =~= seq![0u64, 0, 0]);
        ring
    }

    /// What `place` does.
    pub open spec fn places(
        before: Ring,
        after: Ring,
        frames: u32,
        newest: Option<(u32, u32)>,
        slot_size: (u32, u32),
        drawn: u64,
        plan: Plan,
    ) -> bool {
        &&& plan == (match newest {
            None => Plan::Nothing,
            Some(size) => if size.0 > slot_size.0 || size.1 > slot_size.1 {
                Plan::TooLarge
            } else if drawn < before.values()[slot_of(before.next_value())] {
                Plan::Behind
            } else {
                Plan::Show {
                    slot: slot_of(before.next_value()) as usize,
                    value: before.next_value(),
                    skipped: (before.unshown() + frames - 1) as u32,
                }
            },
        })
        &&& match plan {
            Plan::Nothing => after == before,
            Plan::TooLarge | Plan::Behind => {
                &&& after.unshown() == before.unshown() + frames
                &&& after.values() == before.values()
                &&& after.next_value() == before.next_value()
            },
            Plan::Show { slot, value, skipped } => {
                &&& after.unshown() == 0
                &&& after.values() == before.values().update(slot as int, value)
                &&& after.next_value() == value + 1
            },
        }
    }

    /// A batch of `frames` was decoded; `newest` is the size of the last
    /// picture among them, if there was one. `drawn` is the value up to which
    /// the renderer is done.
    pub fn place(
        &mut self,
        frames: u32,
        newest: Option<(u32, u32)>,
        slot_size: (u32, u32),
        drawn: u64,
    ) -> (plan: Plan)
        requires
            old(self).wf(),
            frames >= 1,
            old(self).unshown() + frames <= u32::MAX,
            old(self).next_value() < u64::MAX,
        ensures
            final(self).wf(),
            Ring::places(*old(self), *final(self), frames, newest, slot_size, drawn, plan),
    {
        let (width, height) = match newest {
            None => return Plan::Nothing,
            Some(size) => size,
        };
        if width > slot_size.0 || height > slot_size.1 {
            self.unshown = self.unshown + frames;
            return Plan::TooLarge;
        }
        let value: u64 = self.next_value;
        let slot: usize = ((value - 1) % 3) as usize;
        if drawn < self.values[slot] {
            self.unshown = self.unshown + frames;
            return Plan::Behind;
        }
        let skipped: u32 = self.unshown + (frames - 1);
        self.next_value = value + 1;
        self.values[slot] = value;
        self.unshown = 0;
        Plan::Show { slot, value, skipped }
    }
}

/// A slot is written again only when the renderer is done with what was in
/// it: whatever is still being drawn stays as it is.
pub proof fn lemma_no_slot_is_overwritten(before: Ring, after: Ring, drawn: u64, slot: int)
    requires
        before.wf(),
        0 <= slot < 3,
        after.values() == before.values() || (drawn >= before.values()[slot_of(
            before.next_value(),
        )] && after.values() == before.values().update(
            slot_of(before.next_value()),
            before.next_value(),
        )),
        before.values()[slot] > drawn,
    ensures
        after.values()[slot] == before.values()[slot],
{
}

/// The size of slots that fit the first picture and every monitor, so
/// switching between them never has to rebuild what is shared with the
/// decoder.
pub fn slot_size(first: (u32, u32), monitors: &[Monitor]) -> (size: (u32, u32))
    ensures
        size.0 == widest(first.0 as int, monitors@),
        size.1 == highest(first.1 as int, monitors@),
        size.0 >= first.0,
        size.1 >= first.1,
        forall|i: int|
            0 <= i < monitors@.len() ==> size.0 >= (#[trigger] monitors@[i]).width && size.1
                >= monitors@[i].height,
{
    let mut size = first;
    let mut i: usize = 0;
    assert(monitors@.take(0) =~= Seq::<Monitor>::empty());
    while i < monitors.len()
        invariant
            i <= monitors@.len(),
            size.0 == widest(first.0 as int, monitors@.take(i as int)),
            size.1 == highest(first.1 as int, monitors@.take(i as int)),
            size.0 >= first.0,
            size.1 >= first.1,
            forall|j: int|
                0 <= j < i ==> size.0 >= (#[trigger] monitors@[j]).width && size.1
                    >= monitors@[j].height,
        decreases monitors.len() - i,
    {
        proof {
            assert(monitors@.take(i + 1).drop_last() =~= monitors@.take(i as int));
            assert(monitors@.take(i + 1).last() == monitors@[i as int]);
        }
        let width: u32 = monitors[i].width as u32;
        let height: u32 = monitors[i].height as u32;
        size = (
            if width > size.0 {
                width
            } else {
                size.0
            },
            if height > size.1 {
                height
            } else {
                size.1
            },
        );
        i = i + 1;
    }
    assert(monitors@.take(i as int) =~= monitors@);
    size
}

/// The largest of `first` and the monitors' widths.
pub open spec fn widest(first: int, monitors: Seq<Monitor>) -> int
    decreases monitors.len(),
{
    if monitors.len() == 0 {
        first
    } else {
        let before = widest(first, monitors.drop_last());
        if monitors.last().width > before {
            monitors.last().width as int
        } else {
            before
        }
    }
}

/// The largest of `first` and the monitors' heights.
pub open spec fn highest(first: int, monitors: Seq<Monitor>) -> int
    decreases monitors.len(),
{
    if monitors.len() == 0 {
        first
    } else {
        let before = highest(first, monitors.drop_last());
        if monitors.last().height > before {
            monitors.last().height as int
        } else {
            before
        }
    }
}

pub open spec fn too_big(size: (u32, u32), limit: u32) -> Seq<char> {
    "the host's screen is "@ + decimal(size.0 as nat) + "x"@ + decimal(size.1 as nat)
        + ", more than this GPU can show ("@ + decimal(limit as nat) + " pixels a side)"@
}

/// Whether slots of this size can be built on a GPU whose textures have at
/// most `limit` pixels a side.
pub fn can_grow(size: (u32, u32), limit: u32) -> (verdict: Result<(), String>)
    ensures
        match verdict {
            Ok(()) => size.0 <= limit && size.1 <= limit,
            Err(why) => (size.0 > limit || size.1 > limit) && why@ == too_big(size, limit),
        },
{
    if size.0 <= limit && size.1 <= limit {
        return Ok(());
    }
    let mut why = "the host's screen is ".to_owned();
    push_decimal(&mut why, size.0 as u64);
    why.append("x");
    push_decimal(&mut why, size.1 as u64);
    why.append(", more than this GPU can show (");
    push_decimal(&mut why, limit as u64);
    why.append(" pixels a side)");
    Err(why)
}

/// The newest picture is shown if there is one, it fits, and the renderer is
/// done with the slot that is next; the slots are taken in turn. Whatever is
/// decoded and not shown is counted with the next that is.
pub proof fn lemma_the_newest_picture_is_shown(
    before: Ring,
    after: Ring,
    frames: u32,
    newest: Option<(u32, u32)>,
    slot_size: (u32, u32),
    drawn: u64,
    plan: Plan,
)
    requires
        before.wf(),
        frames >= 1,
        before.unshown() + frames <= u32::MAX,
        before.next_value() < u64::MAX,
        Ring::places(before, after, frames, newest, slot_size, drawn, plan),
    ensures
        plan is Nothing <==> newest is None,
        plan is TooLarge <==> (newest matches Some(size) && (size.0 > slot_size.0 || size.1
            > slot_size.1)),
        plan matches Plan::Show { slot, value, skipped } ==> {
            &&& newest matches Some(size) && size.0 <= slot_size.0 && size.1 <= slot_size.1
            &&& slot < 3 && (value - 1) % 3 == slot && value == before.next_value()
            &&& before.values()[slot as int] <= drawn
            &&& after.values()[slot as int] == value && after.next_value() == value + 1
            &&& skipped + 1 == before.unshown() + frames && after.unshown() == 0
        },
        plan is Behind ==> before.values()[(before.next_value() - 1) % 3] > drawn,
        plan is Behind || plan is TooLarge ==> after.unshown() == before.unshown() + frames
            && after.values() == before.values() && after.next_value() == before.next_value(),
        plan is Nothing ==> after == before,
        newest matches Some(size) && size.0 <= slot_size.0 && size.1 <= slot_size.1
            && before.values()[(before.next_value() - 1) % 3] <= drawn ==> plan is Show,
{
}

/// Slots are as large as the largest side there is, and no larger.
pub proof fn lemma_slots_are_as_large_as_needed(first: int, monitors: Seq<Monitor>)
    ensures
        widest(first, monitors) == first || exists|i: int|
            0 <= i < monitors.len() && (#[trigger] monitors[i]).width == widest(first, monitors),
        highest(first, monitors) == first || exists|i: int|
            0 <= i < monitors.len() && (#[trigger] monitors[i]).height == highest(first, monitors),
        widest(first, monitors) >= first && highest(first, monitors) >= first,
        forall|i: int|
            0 <= i < monitors.len() ==> (#[trigger] monitors[i]).width <= widest(first, monitors)
                && monitors[i].height <= highest(first, monitors),
    decreases monitors.len(),
{
    if monitors.len() > 0 {
        let less = monitors.drop_last();
        lemma_slots_are_as_large_as_needed(first, less);
        assert(monitors[monitors.len() - 1] == monitors.last());
        assert(forall|i: int| 0 <= i < less.len() ==> less[i] == #[trigger] monitors[i]);
        if widest(first, less) != first {
            let i = choose|i: int|
                0 <= i < less.len() && (#[trigger] less[i]).width == widest(first, less);
            assert(monitors[i].width == widest(first, less));
        }
        if highest(first, less) != first {
            let i = choose|i: int|
                0 <= i < less.len() && (#[trigger] less[i]).height == highest(first, less);
            assert(monitors[i].height == highest(first, less));
        }
    }
}

}
