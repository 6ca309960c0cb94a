//! What is on the screen, and giving frame slots back to the decoder.
//!
//! A frame lies in a slot that the decode side may not write into until the
//! frame's fence value comes back. It comes back for every frame that is taken
//! up, drawn or not.

use super::frames::{FrameReady, Ring};
use vstd::prelude::*;

verus! {

/// A frame, and which ring of slots it was written into: rings are replaced
/// when the picture outgrows them.
#[derive(Debug, Clone, Copy)]
pub struct Fresh {
    pub frame: FrameReady,
    pub ring: u64,
}

/// What to do for one drawing, in this order.
#[derive(Debug, Clone, Copy, PartialEq, Eq, Structural)]
pub struct Drawing {
    /// Wait until the decode side reaches this value, and take over its
    /// picture's size.
    pub wait: Option<u64>,
    /// Draw what is in this slot.
    pub slot: Option<usize>,
    /// Give slots back up to this value.
    pub release: Option<u64>,
    /// Measure how long the frame took.
    pub measure: bool,
}

#[derive(Debug)]
pub struct Screen {
    /// The newest frame that has not been taken up yet.
    pub latest: Option<Fresh>,
    /// The frame that is shown.
    pub shown: Option<FrameReady>,
    /// The ring that slots are drawn from.
    pub ring: u64,
    /// The picture's size.
    pub size: (u32, u32),
}

/// The frame, if it lies in the ring that is drawn from.
pub open spec fn current(fresh: Option<Fresh>, ring: u64) -> Option<FrameReady> {
    match fresh {
        Some(fresh) => if fresh.ring == ring {
            Some(fresh.frame)
        } else {
            None
        },
        None => None,
    }
}

impl Screen {
    pub fn new(size: (u32, u32)) -> (screen: Screen)
        ensures
            screen == (Screen { latest: None, shown: None, ring: 0, size }),
    {
        Screen { latest: None, shown: None, ring: 0, size }
    }

    /// A frame came. Only the newest is kept, so a burst costs one drawing.
    pub fn came(&mut self, fresh: Fresh)
        ensures
            *final(self) == (Screen { latest: Some(fresh), ..*old(self) }),
    {
        self.latest = Some(fresh);
    }

    /// Take up the newest frame, if one came.
    pub fn take_up(&mut self) -> (fresh: Option<Fresh>)
        ensures
            fresh == old(self).latest,
            *final(self) == (Screen { latest: None, ..*old(self) }),
    {
        let fresh = self.latest;
        self.latest = None;
        fresh
    }

    /// What `draw` does.
    pub open spec fn draws(
        before: Screen,
        after: Screen,
        fresh: Option<Fresh>,
        surface: bool,
        drawing: Drawing,
    ) -> bool {
        let frame = current(fresh, before.ring);
        &&& after.latest == before.latest
        &&& after.ring == before.ring
        &&& after.shown == (if frame is Some {
            frame
        } else {
            before.shown
        })
        &&& after.size == (match frame {
            Some(frame) if surface => frame.size,
            _ => before.size,
        })
        &&& drawing.wait == (match frame {
            Some(frame) if surface => Some(frame.fence_value),
            _ => None,
        })
        &&& drawing.slot == (match after.shown {
            Some(shown) if surface => Some(shown.slot),
            _ => None,
        })
        &&& drawing.release == (match fresh {
            Some(fresh) => Some(fresh.frame.fence_value),
            None => None,
        })
        &&& drawing.measure == (frame is Some && surface)
    }

    /// Draw `fresh` if given, otherwise what is shown again. `surface` says
    /// whether there is anything to draw into. A frame out of a ring that was
    /// replaced is not for drawing; its value is still owed to the decode
    /// side.
    pub fn draw(&mut self, fresh: Option<Fresh>, surface: bool) -> (drawing: Drawing)
        ensures
            Screen::draws(*old(self), *final(self), fresh, surface, drawing),
    {
        let release = match fresh {
            Some(fresh) => Some(fresh.frame.fence_value),
            None => None,
        };
        let frame = match fresh {
            Some(fresh) => if fresh.ring == self.ring {
                Some(fresh.frame)
            } else {
                None
            },
            None => None,
        };
        let mut wait = None;
        let mut measure = false;
        if let Some(frame) = frame {
            if surface {
                wait = Some(frame.fence_value);
                self.size = frame.size;
                measure = true;
            }
            self.shown = Some(frame);
        }
        let slot = match &self.shown {
            Some(shown) => if surface {
                Some(shown.slot)
            } else {
                None
            },
            None => None,
        };
        Drawing { wait, slot, release, measure }
    }

    /// The slots were built anew, in a new ring. What was shown was in the old
    /// one, so nothing is until the first frame in the new one.
    pub fn grew(&mut self)
        requires
            old(self).ring < u64::MAX,
        ensures
            *final(self) == (Screen {
                ring: (old(self).ring + 1) as u64,
                shown: None,
                ..*old(self)
            }),
    {
        self.ring = self.ring + 1;
        self.shown = None;
    }
}

/// A frame that a newer one took the place of is never drawn, but its slot
/// still comes back: fence values only grow, so the value of the newest frame
/// releases every slot there is.
pub proof fn lemma_newer_frames_release_older_slots(ring: Ring, newest: u64)
    requires
        ring.wf(),
        newest + 1 >= ring.next_value(),
    ensures
        forall|slot: int| 0 <= slot < 3 ==> (#[trigger] ring.values()[slot]) <= newest,
{
}

/// Every frame that is taken up gives its slot back, drawn or not; only one of
/// the ring at hand is drawn, into a surface that is there; and what was shown
/// stays until another is.
pub proof fn lemma_frames_are_drawn_and_given_back(
    before: Screen,
    after: Screen,
    fresh: Option<Fresh>,
    surface: bool,
    drawing: Drawing,
)
    requires
        Screen::draws(before, after, fresh, surface, drawing),
    ensures
        fresh matches Some(taken) ==> drawing.release == Some(taken.frame.fence_value),
        fresh is None ==> drawing.release is None && drawing.wait is None && after.shown
            == before.shown,
        !surface ==> drawing.slot is None && drawing.wait is None && !drawing.measure && after.size
            == before.size,
        fresh matches Some(taken) ==> (taken.ring != before.ring ==> after.shown == before.shown
            && drawing.wait is None && !drawing.measure && after.size == before.size),
        fresh matches Some(taken) ==> (taken.ring == before.ring ==> after.shown == Some(taken.frame)),
        fresh matches Some(taken) ==> (taken.ring == before.ring && surface ==> drawing.slot == Some(
            taken.frame.slot,
        ) && drawing.wait == Some(taken.frame.fence_value) && drawing.measure && after.size
            == taken.frame.size),
        surface && fresh is None ==> drawing.slot == (match before.shown {
            Some(shown) => Some(shown.slot),
            None => None,
        }),
        after.ring == before.ring && after.latest == before.latest,
{
}

}
