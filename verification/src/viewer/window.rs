//! The viewer's window: which keys are its own, and when it draws.
//!
//! Times are microseconds on one clock.

use super::pace::{elapsed, elapsed_of};
use vstd::prelude::*;

verus! {

/// How long the window goes without drawing, in case the numbers it shows
/// have changed.
pub const IDLE_REFRESH: u64 = 500_000;

/// How often it reports the latency.
pub const REPORT_EVERY: u64 = 2_000_000;

/// How long to wait for the agent's monitor list before giving up.
pub const CONNECT_TIMEOUT: u64 = 10_000_000;

/// The keys that the window may want for itself.
#[derive(Debug, Clone, Copy, PartialEq, Eq, Structural)]
pub enum Key {
    F1,
    F2,
    F3,
    End,
    Other,
}

#[derive(Debug, Clone, Copy, PartialEq, Eq, Structural)]
pub struct Modifiers {
    pub control: bool,
    pub shift: bool,
    pub alt: bool,
    pub logo: bool,
}

/// What a key does.
#[derive(Debug, Clone, Copy, PartialEq, Eq, Structural)]
pub enum Shortcut {
    /// Show or hide the numbers.
    Overlay,
    NextMonitor,
    TypeClipboard,
    /// Ctrl+Alt+Del on the host.
    SecureAttention,
    /// It is the host's.
    Forward,
    /// The system made it up.
    Ignore,
}

pub open spec fn control_shift(modifiers: Modifiers) -> bool {
    modifiers.control && modifiers.shift && !modifiers.alt && !modifiers.logo
}

pub open spec fn control_alt(modifiers: Modifiers) -> bool {
    modifiers.control && modifiers.alt && !modifiers.shift && !modifiers.logo
}

/// What a key does, when it goes down for the first time or otherwise.
pub open spec fn meaning(
    key: Key,
    pressed: bool,
    repeat: bool,
    synthetic: bool,
    modifiers: Modifiers,
) -> Shortcut {
    let first = pressed && !repeat;
    if first && control_shift(modifiers) && key == Key::F1 {
        Shortcut::Overlay
    } else if first && control_shift(modifiers) && key == Key::F2 {
        Shortcut::NextMonitor
    } else if first && control_shift(modifiers) && key == Key::F3 {
        Shortcut::TypeClipboard
    } else if first && control_alt(modifiers) && key == Key::End {
        Shortcut::SecureAttention
    } else if synthetic {
        Shortcut::Ignore
    } else {
        Shortcut::Forward
    }
}

pub fn shortcut(key: Key, pressed: bool, repeat: bool, synthetic: bool, modifiers: Modifiers) -> (
does: Shortcut)
    ensures
        does == meaning(key, pressed, repeat, synthetic, modifiers),
{
    let first = pressed && !repeat;
    let control_shift = modifiers.control && modifiers.shift && !modifiers.alt && !modifiers.logo;
    let control_alt = modifiers.control && modifiers.alt && !modifiers.shift && !modifiers.logo;
    match key {
        Key::F1 if first && control_shift => Shortcut::Overlay,
        Key::F2 if first && control_shift => Shortcut::NextMonitor,
        Key::F3 if first && control_shift => Shortcut::TypeClipboard,
        Key::End if first && control_alt => Shortcut::SecureAttention,
        _ => if synthetic {
            Shortcut::Ignore
        } else {
            Shortcut::Forward
        },
    }
}

/// What the window keeps for itself is not sent: of a key that does something
/// here, nothing goes to the host.
pub proof fn lemma_shortcuts_stay_here(
    key: Key,
    pressed: bool,
    repeat: bool,
    synthetic: bool,
    modifiers: Modifiers,
)
    ensures
        meaning(key, pressed, repeat, synthetic, modifiers) == Shortcut::Forward ==> !synthetic
            && !(pressed && !repeat && control_shift(modifiers) && (key == Key::F1 || key
            == Key::F2 || key == Key::F3)) && !(pressed && !repeat && control_alt(modifiers) && key
            == Key::End),
        key == Key::Other && !synthetic ==> meaning(key, pressed, repeat, synthetic, modifiers)
            == Shortcut::Forward,
{
}

/// What to draw.
#[derive(Debug, Clone, Copy, PartialEq, Eq, Structural)]
pub enum Draw {
    /// The frame that came.
    Fresh,
    /// What is shown already.
    Again,
    Nothing,
}

/// What the window does before it waits for the next event.
#[derive(Debug, Clone, Copy, PartialEq, Eq, Structural)]
pub struct Turn {
    pub draw: Draw,
    pub report: bool,
    /// The time is up.
    pub exit: bool,
}

/// When the window last did what it does now and then.
#[derive(Debug, Clone, Copy, PartialEq, Eq, Structural)]
pub struct Clock {
    pub last_draw: u64,
    pub last_report: u64,
    pub deadline: Option<u64>,
}

impl Clock {
    pub fn new(now: u64, deadline: Option<u64>) -> (clock: Clock)
        ensures
            clock == (Clock { last_draw: now, last_report: now, deadline }),
    {
        Clock { last_draw: now, last_report: now, deadline }
    }

    /// What `turn` does.
    pub open spec fn turns(before: Clock, after: Clock, now: u64, fresh: bool, turn: Turn) -> bool {
        &&& after.last_draw == before.last_draw
        &&& after.deadline == before.deadline
        &&& after.last_report == (if turn.report {
            now
        } else {
            before.last_report
        })
        &&& turn.draw == (if fresh {
            Draw::Fresh
        } else if elapsed_of(before.last_draw, now) >= IDLE_REFRESH {
            Draw::Again
        } else {
            Draw::Nothing
        })
        &&& turn.report == (elapsed_of(before.last_report, now) >= REPORT_EVERY)
        &&& turn.exit == (before.deadline matches Some(deadline) && now >= deadline)
    }

    /// Before waiting; `fresh` says whether a frame has come.
    pub fn turn(&mut self, now: u64, fresh: bool) -> (turn: Turn)
        ensures
            Clock::turns(*old(self), *final(self), now, fresh, turn),
    {
        let draw = if fresh {
            Draw::Fresh
        } else if elapsed(self.last_draw, now) >= IDLE_REFRESH {
            Draw::Again
        } else {
            Draw::Nothing
        };
        let report = elapsed(self.last_report, now) >= REPORT_EVERY;
        if report {
            self.last_report = now;
        }
        let exit = match self.deadline {
            Some(deadline) => now >= deadline,
            None => false,
        };
        Turn { draw, report, exit }
    }

    /// Something was drawn.
    pub fn drawn(&mut self, now: u64)
        ensures
            *final(self) == (Clock { last_draw: now, ..*old(self) }),
    {
        self.last_draw = now;
    }
}

/// What the window does before there is a picture.
#[derive(Debug, Clone, Copy, PartialEq, Eq, Structural)]
pub enum Waiting {
    /// Open, for a picture of this size.
    Open(u32, u32),
    /// The session ended before it began.
    Ended,
    TimedOut,
    Wait,
}

/// What the window does before there is a picture.
pub open spec fn waits_for(size: Option<(u32, u32)>, ended: bool, waited: u64) -> Waiting {
    match size {
        Some(size) => Waiting::Open(size.0, size.1),
        None => if ended {
            Waiting::Ended
        } else if waited > CONNECT_TIMEOUT {
            Waiting::TimedOut
        } else {
            Waiting::Wait
        },
    }
}

/// The window needs the size of the picture before anything can be made: wait
/// for it, but not for ever.
pub fn waiting(size: Option<(u32, u32)>, ended: bool, waited: u64) -> (what: Waiting)
    ensures
        what == waits_for(size, ended, waited),
{
    match size {
        Some(size) => Waiting::Open(size.0, size.1),
        None => if ended {
            Waiting::Ended
        } else if waited > CONNECT_TIMEOUT {
            Waiting::TimedOut
        } else {
            Waiting::Wait
        },
    }
}

/// Ctrl+Shift with F1, F2 or F3, and Ctrl+Alt+End, are the window's own, once
/// for each time they go down; every other key goes to the host, unless the
/// system made it up.
pub proof fn lemma_shortcuts(
    key: Key,
    pressed: bool,
    repeat: bool,
    synthetic: bool,
    control: bool,
    shift: bool,
    alt: bool,
    logo: bool,
)
    ensures
        ({
            let does = meaning(
                key,
                pressed,
                repeat,
                synthetic,
                Modifiers { control, shift, alt, logo },
            );
            let (both, other) = (control && shift && !alt && !logo, control && alt && !shift && !logo);
            let down = pressed && !repeat;
            &&& does is Overlay <==> down && both && key == Key::F1
            &&& does is NextMonitor <==> down && both && key == Key::F2
            &&& does is TypeClipboard <==> down && both && key == Key::F3
            &&& does is SecureAttention <==> down && other && key == Key::End
            &&& does is Ignore ==> synthetic
            &&& does is Forward ==> !synthetic
            &&& !down ==> does is Ignore || does is Forward
        }),
{
}

/// A frame that came is drawn at once; without one the window draws again
/// after half a second. It reports every two seconds, and closes when its time
/// is up.
pub proof fn lemma_the_window_keeps_up(
    before: Clock,
    after: Clock,
    now: u64,
    fresh: bool,
    turn: Turn,
)
    requires
        Clock::turns(before, after, now, fresh, turn),
    ensures
        turn.draw is Fresh <==> fresh,
        turn.draw is Again <==> !fresh && now - before.last_draw >= 500_000,
        turn.report <==> now - before.last_report >= 2_000_000,
        turn.report ==> after.last_report == now,
        !turn.report ==> after.last_report == before.last_report,
        turn.exit <==> (before.deadline matches Some(at) && at <= now),
        after.last_draw == before.last_draw && after.deadline == before.deadline,
{
}

/// The window opens for the picture's size as soon as it is known, and waits
/// ten seconds for it at most.
pub proof fn lemma_the_window_opens(size: Option<(u32, u32)>, ended: bool, waited: u64)
    ensures
        size matches Some((width, height)) ==> waits_for(size, ended, waited) == Waiting::Open(
            width,
            height,
        ),
        size is None && ended ==> waits_for(size, ended, waited) is Ended,
        size is None && !ended ==> (waits_for(size, ended, waited) is TimedOut <==> waited
            > 10_000_000) && (waits_for(size, ended, waited) is Wait <==> waited <= 10_000_000),
{
}

}
