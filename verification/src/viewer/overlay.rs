//! What the panel over the picture says in whole numbers: which monitor is
//! watched, and what became of lost packets.

use super::devices::joined;
use super::session::Monitor;
use crate::text::{decimal, push_decimal};
use vstd::prelude::*;

verus! {

/// A monitor's number, marked where it is the one watched.
pub open spec fn marked(monitor: Monitor, watching: u8) -> Seq<char> {
    (if monitor.id == watching {
        "▶"@
    } else {
        Seq::<char>::empty()
    }) + decimal(monitor.id as nat)
}

pub open spec fn all_marked(monitors: Seq<Monitor>, watching: u8) -> Seq<Seq<char>> {
    Seq::new(monitors.len(), |i: int| marked(monitors[i], watching))
}

/// The host's monitors, where there are several to choose from: `monitor ▶0 1`.
pub fn monitors_text(monitors: &[Monitor], watching: u8) -> (text: Option<String>)
    ensures
        match text {
            Some(text) => monitors@.len() > 1 && text@ == "monitor "@ + joined(
                all_marked(monitors@, watching),
                " "@,
            ) + "   Ctrl+Shift+F2 next"@,
            None => monitors@.len() <= 1,
        },
{
    if monitors.len() <= 1 {
        return None;
    }
    let mut text = "monitor ".to_owned();
    let ghost all = all_marked(monitors@, watching);
    let mut i: usize = 0;
    assert(all.take(0) =~= Seq::<Seq<char>>::empty());
    assert("monitor "@ + joined(all.take(0), " "@) =~= "monitor "@);
    while i < monitors.len()
        invariant
            i <= monitors@.len(),
            all == all_marked(monitors@, watching),
            text@ == "monitor "@ + joined(all.take(i as int), " "@),
        decreases monitors.len() - i,
    {
        let ghost head = all.take(i + 1);
        assert(head.drop_last() =~= all.take(i as int));
        assert(head.last() == marked(monitors@[i as int], watching));
        if i > 0 {
            text.append(" ");
        }
        if monitors[i].id == watching {
            text.append("▶");
        }
        push_decimal(&mut text, monitors[i].id as u64);
        assert(text@ =~= "monitor "@ + joined(head, " "@));
        i = i + 1;
    }
    assert(all.take(i as int) =~= all);
    text.append("   Ctrl+Shift+F2 next");
    Some(text)
}

/// What became of frames that came with pieces missing.
#[derive(Debug, Clone, Copy, PartialEq, Eq, Structural)]
pub struct Losses {
    pub repaired: u64,
    pub incomplete: u64,
    pub dropped_waiting_for_keyframe: u64,
    pub keyframe_requests: u64,
}

pub fn losses_text(losses: Losses) -> (text: String)
    ensures
        text@ == "loss: "@ + decimal(losses.repaired as nat) + " repaired  "@ + decimal(
            losses.incomplete as nat,
        ) + " incomplete  "@ + decimal(losses.dropped_waiting_for_keyframe as nat)
            + " awaiting keyframe  "@ + decimal(losses.keyframe_requests as nat)
            + " kf requests"@,
{
    let mut text = "loss: ".to_owned();
    push_decimal(&mut text, losses.repaired);
    text.append(" repaired  ");
    push_decimal(&mut text, losses.incomplete);
    text.append(" incomplete  ");
    push_decimal(&mut text, losses.dropped_waiting_for_keyframe);
    text.append(" awaiting keyframe  ");
    push_decimal(&mut text, losses.keyframe_requests);
    text.append(" kf requests");
    text
}

/// The monitor that is watched is marked, and no other.
pub proof fn lemma_the_watched_monitor_is_marked(monitor: Monitor, watching: u8)
    ensures
        monitor.id == watching ==> marked(monitor, watching) == seq!['▶'] + decimal(
            monitor.id as nat,
        ),
        monitor.id != watching ==> marked(monitor, watching) == decimal(monitor.id as nat),
{
    reveal_strlit("▶");
    assert("▶"@ =~= seq!['▶']);
    assert(Seq::<char>::empty() + decimal(monitor.id as nat) =~= decimal(monitor.id as nat));
}

}
