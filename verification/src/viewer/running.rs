//! One session while the picture runs: what happens, and what the viewer does
//! about it.

use super::pace::{
    due, elapsed_of, xorshift, LossSimulator, Pace, Stats, KEYFRAME_REQUEST_INTERVAL, REPORT_EVERY,
};
use super::session::{has_monitor, known_monitor, Monitor};
use vstd::prelude::*;

verus! {

/// What happens while the picture runs.
#[derive(Debug)]
pub enum Happening {
    /// A datagram came, of this many bytes; `decodes` if it is a piece of a
    /// frame.
    Datagram { bytes: u64, decodes: bool },
    /// The agent's answer to a clock probe.
    Pong,
    /// The host's monitors changed.
    Monitors(Vec<Monitor>),
    /// Any other control message.
    Message,
    /// The agent closed its side of the control stream.
    Closed,
    /// The connection failed.
    Lost,
    /// A repair has fallen due.
    RepairDue,
    /// A tick of the session's clock; `decoder_lost` if the decoder could not
    /// use a frame since the last.
    Tick { decoder_lost: bool },
    /// The person, or the window, wants to stop.
    Stop,
    /// The window closed: nothing takes frames any more.
    WindowClosed,
    /// The person wants to watch another monitor.
    Switch(u8),
}

/// What to do about it.
#[derive(Debug, Clone, Copy, PartialEq, Eq, Structural)]
pub enum Reaction {
    /// Nothing at all.
    Drop,
    /// Nothing but what is left to ask for.
    Carry,
    /// Put the datagram with its frame, hand on the frames that are whole,
    /// and ask for what is missing.
    Reassemble,
    /// Take the reading of the agent's clock.
    Synchronize,
    /// Ask for what is missing, give up what is hopeless, and hand on the
    /// frames that are whole.
    Repair,
    /// Probe the agent's clock, print the last second, say goodbye: what of it
    /// is due, in this order.
    Beat { ping: bool, report: bool, finish: bool },
    /// Ask for this monitor's picture.
    Watch(u8),
    /// Say goodbye: all is well.
    Leave,
    /// Say goodbye: the connection is gone, and says why.
    LeaveLost,
}

/// A session that is under way.
#[derive(Debug)]
pub struct Running {
    pub pace: Pace,
    pub stats: Stats,
    pub loss: LossSimulator,
    /// The host's monitors, as it last said.
    pub monitors: Vec<Monitor>,
    pub watching: u8,
}

/// Whether a datagram is dropped on purpose.
pub open spec fn unlucky(loss: &LossSimulator) -> bool {
    loss.percent() != 0 && xorshift(loss.state()) % 100 < loss.percent()
}

impl Running {
    pub fn new(
        now: u64,
        deadline: Option<u64>,
        loss: LossSimulator,
        monitors: Vec<Monitor>,
        watching: u8,
    ) -> (running: Running)
        ensures
            running.wf(),
            running.pace.started == now,
            running.pace.deadline == deadline,
            running.pace.last_ping is None,
            running.pace.last_keyframe_request is None,
            !running.pace.keyframe_needed,
            running.pace.window_started == now,
            running.stats == (Stats {
                datagrams: 0,
                bytes: 0,
                frames: 0,
                keyframes: 0,
                keyframe_requests: 0,
                undecodable: 0,
                simulated_drops: 0,
                window_frames: 0,
                window_bytes: 0,
            }),
            running.loss == loss,
            running.monitors == monitors,
            running.watching == watching,
    {
        Running { pace: Pace::new(now, deadline), stats: Stats::new(), loss, monitors, watching }
    }

    pub open spec fn wf(&self) -> bool {
        self.stats.wf()
    }

    /// There is room left to count what happens.
    pub open spec fn counts(&self, what: &Happening) -> bool {
        &&& self.stats.datagrams < u64::MAX
        &&& *what matches Happening::Datagram { bytes, .. } ==> self.stats.bytes + bytes <= u64::MAX
    }

    /// Nothing changed but the counts and the loss that is made on purpose.
    pub open spec fn same_course(&self, other: &Running) -> bool {
        &&& self.pace == other.pace
        &&& self.monitors == other.monitors
        &&& self.watching == other.watching
    }

    /// What `on` does.
    pub open spec fn reacts(
        before: &Running,
        after: &Running,
        what: Happening,
        now: u64,
        reaction: Reaction,
    ) -> bool {
        match what {
            Happening::Datagram { bytes, decodes } => {
                let dropped = unlucky(&before.loss);
                &&& after.same_course(before)
                &&& after.loss.percent() == before.loss.percent()
                &&& after.loss.state() == (if before.loss.percent() == 0 {
                    before.loss.state()
                } else {
                    xorshift(before.loss.state())
                })
                &&& after.stats == (Stats {
                    datagrams: (before.stats.datagrams + 1) as u64,
                    bytes: (before.stats.bytes + bytes) as u64,
                    simulated_drops: (before.stats.simulated_drops + if dropped {
                        1int
                    } else {
                        0
                    }) as u64,
                    undecodable: (before.stats.undecodable + if !dropped && !decodes {
                        1int
                    } else {
                        0
                    }) as u64,
                    ..before.stats
                })
                &&& reaction == (if dropped || !decodes {
                    Reaction::Drop
                } else {
                    Reaction::Reassemble
                })
            },
            Happening::Tick { decoder_lost } => {
                let finish = before.pace.deadline matches Some(at) && now >= at;
                let ping = due(before.pace.last_ping, now, before.pace.ping_every(now));
                let report = elapsed_of(before.pace.window_started, now) >= REPORT_EVERY;
                &&& *after == (Running {
                    pace: Pace {
                        last_ping: if ping {
                            Some(now)
                        } else {
                            before.pace.last_ping
                        },
                        keyframe_needed: before.pace.keyframe_needed || decoder_lost,
                        window_started: if report {
                            now
                        } else {
                            before.pace.window_started
                        },
                        ..before.pace
                    },
                    ..*before
                })
                &&& reaction == (Reaction::Beat { ping, report, finish })
            },
            Happening::Monitors(monitors) => {
                &&& *after == (Running { monitors, ..*before })
                &&& reaction == Reaction::Carry
            },
            Happening::Switch(monitor) => if has_monitor(before.monitors@, monitor) {
                &&& *after == (Running { watching: monitor, ..*before })
                &&& reaction == Reaction::Watch(monitor)
            } else {
                &&& *after == *before
                &&& reaction == Reaction::Carry
            },
            Happening::Pong => *after == *before && reaction == Reaction::Synchronize,
            Happening::Message => *after == *before && reaction == Reaction::Carry,
            Happening::RepairDue => *after == *before && reaction == Reaction::Repair,
            Happening::Closed
            | Happening::Stop
            | Happening::WindowClosed => *after == *before && reaction == Reaction::Leave,
            Happening::Lost => *after == *before && reaction == Reaction::LeaveLost,
        }
    }

    /// What to do about what happened at `now`.
    pub fn on(&mut self, what: Happening, now: u64) -> (reaction: Reaction)
        requires
            old(self).wf(),
            old(self).counts(&what),
        ensures
            final(self).wf(),
            Running::reacts(old(self), final(self), what, now, reaction),
    {
        match what {
            Happening::Datagram { bytes, decodes } => {
                let dropped = self.loss.drop_this();
                if self.stats.datagram(bytes, dropped, decodes) {
                    Reaction::Reassemble
                } else {
                    Reaction::Drop
                }
            },
            Happening::Pong => Reaction::Synchronize,
            Happening::Monitors(monitors) => {
                self.monitors = monitors;
                Reaction::Carry
            },
            Happening::Message => Reaction::Carry,
            Happening::Closed | Happening::Stop | Happening::WindowClosed => Reaction::Leave,
            Happening::Lost => Reaction::LeaveLost,
            Happening::RepairDue => Reaction::Repair,
            Happening::Tick { decoder_lost } => {
                let tick = self.pace.tick(now, decoder_lost);
                Reaction::Beat { ping: tick.ping, report: tick.report, finish: tick.finish }
            },
            Happening::Switch(monitor) => {
                if known_monitor(&self.monitors, monitor) {
                    self.watching = monitor;
                    Reaction::Watch(monitor)
                } else {
                    Reaction::Carry
                }
            },
        }
    }

    /// A whole frame was handed on.
    pub fn delivered(&mut self, keyframe: bool)
        requires
            old(self).wf(),
            old(self).stats.frames < u64::MAX,
        ensures
            final(self).wf(),
            *final(self) == (Running {
                stats: Stats {
                    frames: (old(self).stats.frames + 1) as u64,
                    window_frames: (old(self).stats.window_frames + 1) as u64,
                    keyframes: (old(self).stats.keyframes + if keyframe {
                        1int
                    } else {
                        0
                    }) as u64,
                    ..old(self).stats
                },
                ..*old(self)
            }),
    {
        self.stats.frame(keyframe);
    }

    /// Once something was done about what happened, and the session goes on:
    /// whether to ask for a keyframe now. `wanted` if frames cannot be put
    /// together without one.
    pub fn asks(&mut self, wanted: bool, now: u64) -> (ask: bool)
        requires
            old(self).wf(),
            old(self).stats.keyframe_requests < u64::MAX,
        ensures
            final(self).wf(),
            ask == ((old(self).pace.keyframe_needed || wanted) && due(
                old(self).pace.last_keyframe_request,
                now,
                KEYFRAME_REQUEST_INTERVAL,
            )),
            *final(self) == (Running {
                pace: Pace {
                    keyframe_needed: (old(self).pace.keyframe_needed || wanted) && !ask,
                    last_keyframe_request: if ask {
                        Some(now)
                    } else {
                        old(self).pace.last_keyframe_request
                    },
                    ..old(self).pace
                },
                stats: Stats {
                    keyframe_requests: (old(self).stats.keyframe_requests + if ask {
                        1int
                    } else {
                        0
                    }) as u64,
                    ..old(self).stats
                },
                ..*old(self)
            }),
    {
        let ask = self.pace.keyframe(now, wanted);
        if ask {
            self.stats.keyframe_requests = self.stats.keyframe_requests + 1;
        }
        ask
    }
}

/// What cannot be read, or is dropped on purpose, is not put with a frame, and
/// every datagram is counted; where none is to be lost on purpose none is.
pub proof fn lemma_datagrams_are_put_together(
    before: Running,
    after: Running,
    bytes: u64,
    decodes: bool,
    now: u64,
    reaction: Reaction,
)
    requires
        Running::reacts(
            &before,
            &after,
            Happening::Datagram { bytes, decodes },
            now,
            reaction,
        ),
        before.counts(&(Happening::Datagram { bytes, decodes })),
        before.wf(),
    ensures
        reaction is Reassemble || reaction is Drop,
        !decodes ==> reaction is Drop,
        before.loss.percent() == 0 ==> (reaction is Reassemble <==> decodes),
        before.loss.percent() == 100 ==> reaction is Drop,
        after.stats.datagrams == before.stats.datagrams + 1,
        after.stats.bytes == before.stats.bytes + bytes,
        reaction is Drop <==> after.stats.simulated_drops + after.stats.undecodable
            == before.stats.simulated_drops + before.stats.undecodable + 1,
        after.stats.frames == before.stats.frames,
        after.watching == before.watching && after.monitors == before.monitors && after.pace
            == before.pace,
{
}

/// A session goes on until the agent or the person ends it, the connection
/// fails, or its time is up; only a monitor that the host has is watched.
pub proof fn lemma_sessions_go_on_until_they_end(
    before: Running,
    after: Running,
    what: Happening,
    now: u64,
    reaction: Reaction,
)
    requires
        Running::reacts(&before, &after, what, now, reaction),
    ensures
        reaction is Leave <==> what is Closed || what is Stop || what is WindowClosed,
        reaction is LeaveLost <==> what is Lost,
        reaction matches Reaction::Watch(id) ==> what == Happening::Switch(id) && after.watching
            == id && has_monitor(before.monitors@, id),
        reaction !is Watch ==> after.watching == before.watching,
        what matches Happening::Switch(id) && has_monitor(before.monitors@, id) ==> reaction is Watch,
        what matches Happening::Monitors(monitors) ==> after.monitors == monitors,
        what !is Monitors ==> after.monitors == before.monitors,
        reaction is Synchronize <==> what is Pong,
        reaction is Repair <==> what is RepairDue,
        reaction is Beat <==> what is Tick,
        what matches Happening::Tick { decoder_lost } ==> (reaction matches Reaction::Beat {
            ping,
            report,
            finish,
        } && Pace::ticks(
            before.pace,
            after.pace,
            now,
            decoder_lost,
            crate::viewer::pace::Tick { ping, report, finish },
        )),
{
}

}
