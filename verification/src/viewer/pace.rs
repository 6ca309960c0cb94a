//! While the picture runs: when to probe the clock, to ask for a keyframe or
//! a repair, to report, to stop; what was counted; and what leaves the
//! keyboard and mouse.
//!
//! Times are microseconds on one clock that does not run backwards.

use crate::input::Input;
use vstd::prelude::*;

verus! {

/// Keyframes are expensive; ask at most this often. A keyframe takes a round
/// trip plus an encode to arrive, and asking again sooner only produces two.
pub const KEYFRAME_REQUEST_INTERVAL: u64 = 250_000;

/// Clock probes: quickly at first so latency figures appear within a second,
/// then gently.
pub const PING_FAST: u64 = 100_000;

pub const PING_FAST_FOR: u64 = 2_000_000;

pub const PING_SLOW: u64 = 1_000_000;

pub const REPORT_EVERY: u64 = 1_000_000;

/// At least this far away is the next look at what needs repair, so a
/// deadline that turns out to need nothing done can never spin the loop.
pub const REPAIR_WAIT_MIN: u64 = 1_000;

/// The time from `since` to `now`; none if the clock says otherwise.
pub open spec fn elapsed_of(since: u64, now: u64) -> int {
    if now >= since {
        now - since
    } else {
        0
    }
}

pub fn elapsed(since: u64, now: u64) -> (time: u64)
    ensures
        time == elapsed_of(since, now),
{
    if now >= since {
        now - since
    } else {
        0
    }
}

/// `every` has gone by since `last`, or there was no last time.
pub open spec fn due(last: Option<u64>, now: u64, every: u64) -> bool {
    match last {
        None => true,
        Some(at) => elapsed_of(at, now) >= every,
    }
}

fn is_due(last: Option<u64>, now: u64, every: u64) -> (yes: bool)
    ensures
        yes == due(last, now, every),
{
    match last {
        None => true,
        Some(at) => elapsed(at, now) >= every,
    }
}

/// What a tick of the session's clock asks for.
#[derive(Debug, Clone, Copy, PartialEq, Eq, Structural)]
pub struct Tick {
    /// Probe the agent's clock.
    pub ping: bool,
    /// Print the last second, and start the next.
    pub report: bool,
    /// The time given for watching is over.
    pub finish: bool,
}

/// The pace of one session.
#[derive(Debug)]
pub struct Pace {
    pub started: u64,
    /// When watching ends, if it is to end by itself.
    pub deadline: Option<u64>,
    pub last_ping: Option<u64>,
    pub last_keyframe_request: Option<u64>,
    /// A keyframe is needed and has not been asked for.
    pub keyframe_needed: bool,
    pub window_started: u64,
}

impl Pace {
    pub fn new(now: u64, deadline: Option<u64>) -> (pace: Pace)
        ensures
            pace.started == now,
            pace.deadline == deadline,
            pace.last_ping is None,
            pace.last_keyframe_request is None,
            !pace.keyframe_needed,
            pace.window_started == now,
    {
        Pace {
            started: now,
            deadline,
            last_ping: None,
            last_keyframe_request: None,
            keyframe_needed: false,
            window_started: now,
        }
    }

    /// How long between clock probes at `now`.
    pub open spec fn ping_every(&self, now: u64) -> u64 {
        if elapsed_of(self.started, now) < PING_FAST_FOR {
            PING_FAST
        } else {
            PING_SLOW
        }
    }

    /// What `tick` does.
    pub open spec fn ticks(
        before: Pace,
        after: Pace,
        now: u64,
        decoder_lost: bool,
        tick: Tick,
    ) -> bool {
        &&& tick.ping == due(before.last_ping, now, before.ping_every(now))
        &&& tick.report == (elapsed_of(before.window_started, now) >= REPORT_EVERY)
        &&& tick.finish == (before.deadline matches Some(at) && now >= at)
        &&& after == (Pace {
            last_ping: if tick.ping {
                Some(now)
            } else {
                before.last_ping
            },
            keyframe_needed: before.keyframe_needed || decoder_lost,
            window_started: if tick.report {
                now
            } else {
                before.window_started
            },
            ..before
        })
    }

    /// One tick. `decoder_lost` says that the decoder could not use a frame.
    pub fn tick(&mut self, now: u64, decoder_lost: bool) -> (tick: Tick)
        ensures
            Pace::ticks(*old(self), *final(self), now, decoder_lost, tick),
    {
        if decoder_lost {
            self.keyframe_needed = true;
        }
        let every: u64 = if elapsed(self.started, now) < PING_FAST_FOR {
            PING_FAST
        } else {
            PING_SLOW
        };
        let ping = is_due(self.last_ping, now, every);
        if ping {
            self.last_ping = Some(now);
        }
        let report = elapsed(self.window_started, now) >= REPORT_EVERY;
        if report {
            self.window_started = now;
        }
        let finish = match self.deadline {
            Some(at) => now >= at,
            None => false,
        };
        Tick { ping, report, finish }
    }

    /// What `keyframe` does.
    pub open spec fn asks(before: Pace, after: Pace, now: u64, wanted: bool, ask: bool) -> bool {
        &&& ask == ((before.keyframe_needed || wanted) && due(
            before.last_keyframe_request,
            now,
            KEYFRAME_REQUEST_INTERVAL,
        ))
        &&& after == (Pace {
            keyframe_needed: (before.keyframe_needed || wanted) && !ask,
            last_keyframe_request: if ask {
                Some(now)
            } else {
                before.last_keyframe_request
            },
            ..before
        })
    }

    /// After anything happened: whether to ask for a keyframe now. A need
    /// that cannot be met yet is kept for later.
    pub fn keyframe(&mut self, now: u64, wanted: bool) -> (ask: bool)
        ensures
            Pace::asks(*old(self), *final(self), now, wanted, ask),
    {
        if wanted {
            self.keyframe_needed = true;
        }
        let may_ask = is_due(self.last_keyframe_request, now, KEYFRAME_REQUEST_INTERVAL);
        if self.keyframe_needed && may_ask {
            self.last_keyframe_request = Some(now);
            self.keyframe_needed = false;
            true
        } else {
            false
        }
    }
}

/// Two requests for a keyframe are never closer than the interval: after one
/// at `first`, none goes out at a `now` before it has passed.
pub proof fn lemma_keyframe_requests_apart(first: u64, now: u64)
    requires
        elapsed_of(first, now) < KEYFRAME_REQUEST_INTERVAL,
    ensures
        !due(Some(first), now, KEYFRAME_REQUEST_INTERVAL),
{
}

/// When repairs fall due, for one round trip.
#[derive(Debug, Clone, Copy, PartialEq, Eq, Structural)]
pub struct Timing {
    /// How long a frame may be quiet before what it misses is asked for.
    pub quiet_us: u64,
    /// How long until it is asked for again.
    pub retry_us: u64,
    /// How long until it is given up.
    pub give_up_us: u64,
}

/// These are the repair timings for a round trip.
pub open spec fn timed_for(rtt_us: u64, timing: Timing) -> bool {
    &&& timing.quiet_us == rtt_us + 5_000
    &&& timing.retry_us == rtt_us * 3 / 2 + 10_000
    &&& timing.give_up_us == rtt_us * 3 + 60_000
}

/// Repair timings for the current round trip. A repair takes one round trip
/// plus the agent's turnaround; giving up allows for the request or the
/// repair itself being lost once.
pub fn repair_timing(rtt_us: u64) -> (timing: Timing)
    requires
        rtt_us * 3 + 60_000 <= u64::MAX,
    ensures
        timed_for(rtt_us, timing),
        timing.quiet_us == rtt_us + 5_000,
        timing.retry_us == rtt_us * 3 / 2 + 10_000,
        timing.give_up_us == rtt_us * 3 + 60_000,
        timing.quiet_us < timing.retry_us < timing.give_up_us,
{
    Timing {
        quiet_us: rtt_us + 5_000,
        retry_us: rtt_us * 3 / 2 + 10_000,
        give_up_us: rtt_us * 3 + 60_000,
    }
}

/// How long a repair that falls due at `at` is waited for.
pub open spec fn wait_until(at: u64, now: u64) -> int {
    if elapsed_of(now, at) < REPAIR_WAIT_MIN {
        REPAIR_WAIT_MIN as int
    } else {
        elapsed_of(now, at)
    }
}

/// How long to wait for a repair that falls due at `at`.
pub fn repair_wait(at: u64, now: u64) -> (wait: u64)
    ensures
        wait == wait_until(at, now),
{
    let wait: u64 = elapsed(now, at);
    if wait < REPAIR_WAIT_MIN {
        REPAIR_WAIT_MIN
    } else {
        wait
    }
}

// --- What was counted ------------------------------------------------------------

/// What a session has received so far.
#[derive(Debug, Clone, Copy, PartialEq, Eq, Structural)]
pub struct Stats {
    pub datagrams: u64,
    pub bytes: u64,
    pub frames: u64,
    pub keyframes: u64,
    pub keyframe_requests: u64,
    pub undecodable: u64,
    pub simulated_drops: u64,
    pub window_frames: u64,
    pub window_bytes: u64,
}

impl Stats {
    pub fn new() -> (stats: Stats)
        ensures
            stats == (Stats {
                datagrams: 0,
                bytes: 0,
                frames: 0,
                keyframes: 0,
                keyframe_requests: 0,
                undecodable: 0,
                simulated_drops: 0,
                window_frames: 0,
                window_bytes: 0,
            }),
            stats.wf(),
    {
        Stats {
            datagrams: 0,
            bytes: 0,
            frames: 0,
            keyframes: 0,
            keyframe_requests: 0,
            undecodable: 0,
            simulated_drops: 0,
            window_frames: 0,
            window_bytes: 0,
        }
    }

    /// The parts never exceed the whole.
    pub open spec fn wf(&self) -> bool {
        &&& self.simulated_drops + self.undecodable <= self.datagrams
        &&& self.keyframes <= self.frames
        &&& self.window_frames <= self.frames
        &&& self.window_bytes <= self.bytes
    }

    /// A datagram came: whether it is to be reassembled. One dropped on
    /// purpose is not looked at.
    pub fn datagram(&mut self, bytes: u64, dropped: bool, decodes: bool) -> (use_it: bool)
        requires
            old(self).wf(),
            old(self).datagrams < u64::MAX,
            old(self).bytes + bytes <= u64::MAX,
        ensures
            final(self).wf(),
            use_it == (!dropped && decodes),
            *final(self) == (Stats {
                datagrams: (old(self).datagrams + 1) as u64,
                bytes: (old(self).bytes + bytes) as u64,
                simulated_drops: (old(self).simulated_drops + if dropped {
                    1int
                } else {
                    0
                }) as u64,
                undecodable: (old(self).undecodable + if !dropped && !decodes {
                    1int
                } else {
                    0
                }) as u64,
                ..*old(self)
            }),
    {
        self.datagrams = self.datagrams + 1;
        self.bytes = self.bytes + bytes;
        if dropped {
            self.simulated_drops = self.simulated_drops + 1;
            return false;
        }
        if !decodes {
            self.undecodable = self.undecodable + 1;
            return false;
        }
        true
    }

    /// A whole frame was handed on.
    pub fn frame(&mut self, keyframe: bool)
        requires
            old(self).wf(),
            old(self).frames < u64::MAX,
        ensures
            final(self).wf(),
            *final(self) == (Stats {
                frames: (old(self).frames + 1) as u64,
                window_frames: (old(self).window_frames + 1) as u64,
                keyframes: (old(self).keyframes + if keyframe {
                    1int
                } else {
                    0
                }) as u64,
                ..*old(self)
            }),
    {
        self.frames = self.frames + 1;
        self.window_frames = self.window_frames + 1;
        if keyframe {
            self.keyframes = self.keyframes + 1;
        }
    }

    /// The frames and bytes since the last window, which ends here.
    pub fn window(&mut self) -> (counted: (u64, u64))
        requires
            old(self).wf(),
        ensures
            final(self).wf(),
            counted.0 == old(self).window_frames,
            counted.1 == old(self).bytes - old(self).window_bytes,
            *final(self) == (Stats {
                window_frames: 0,
                window_bytes: old(self).bytes,
                ..*old(self)
            }),
    {
        let counted = (self.window_frames, self.bytes - self.window_bytes);
        self.window_frames = 0;
        self.window_bytes = self.bytes;
        counted
    }
}

// --- Loss on purpose ---------------------------------------------------------------

/// Deterministic-enough random datagram loss, for testing recovery without a
/// lossy network: xorshift.
#[derive(Debug)]
pub struct LossSimulator {
    percent: u8,
    state: u64,
}

/// One round of xorshift.
pub open spec fn xorshift(state: u64) -> u64 {
    let a = state ^ (state << 13u64);
    let b = a ^ (a >> 7u64);
    b ^ (b << 17u64)
}

impl LossSimulator {
    pub closed spec fn percent(&self) -> u8 {
        self.percent
    }

    pub closed spec fn state(&self) -> u64 {
        self.state
    }

    /// Lose `percent` of what comes, but never more than all of it.
    pub fn new(percent: u8, seed: u64) -> (loss: LossSimulator)
        ensures
            loss.percent() == (if percent > 100 {
                100
            } else {
                percent
            }),
            loss.state() == seed | 1,
            loss.state() != 0,
    {
        assert(seed | 1 != 0) by (bit_vector);
        LossSimulator {
            percent: if percent > 100 {
                100
            } else {
                percent
            },
            state: seed | 1,
        }
    }

    pub fn drop_this(&mut self) -> (drop: bool)
        ensures
            final(self).percent() == old(self).percent(),
            if old(self).percent() == 0 {
                !drop && final(self).state() == old(self).state()
            } else {
                &&& final(self).state() == xorshift(old(self).state())
                &&& drop == (final(self).state() % 100 < old(self).percent())
            },
            old(self).percent() >= 100 ==> drop,
    {
        if self.percent == 0 {
            return false;
        }
        let a: u64 = self.state ^ (self.state << 13u64);
        let b: u64 = a ^ (a >> 7u64);
        self.state = b ^ (b << 17u64);
        (self.state % 100) < self.percent as u64
    }
}

/// A generator that started off zero never gets stuck there.
pub proof fn lemma_xorshift_never_stuck(state: u64)
    requires
        state != 0,
    ensures
        xorshift(state) != 0,
{
    let a = state ^ (state << 13u64);
    let b = a ^ (a >> 7u64);
    assert(a != 0) by (bit_vector)
        requires
            state != 0,
            a == state ^ (state << 13u64),
    ;
    assert(b != 0) by (bit_vector)
        requires
            a != 0,
            b == a ^ (a >> 7u64),
    ;
    assert(b ^ (b << 17u64) != 0) by (bit_vector)
        requires
            b != 0,
    ;
}

// --- The keyboard and mouse on their way out ------------------------------------------

/// The event at `i` is a mouse move that the next event moves on from.
pub open spec fn superseded(batch: Seq<Input>, i: int) -> bool {
    batch[i] is MouseMove && i + 1 < batch.len() && batch[i + 1] is MouseMove
}

/// The places of `batch`, up to `n`, whose events are sent.
pub open spec fn kept_places(batch: Seq<Input>, n: int) -> Seq<int>
    decreases n,
{
    if n <= 0 {
        Seq::empty()
    } else if superseded(batch, n - 1) {
        kept_places(batch, n - 1)
    } else {
        kept_places(batch, n - 1).push(n - 1)
    }
}

fn is_move(event: &Input) -> (yes: bool)
    ensures
        yes == event is MouseMove,
{
    match event {
        Input::MouseMove { .. } => true,
        _ => false,
    }
}

/// Which events of a batch are sent, by place: a mouse move followed by
/// another move is dropped. The pointer only needs to end up in the right
/// place, and a backlog of stale positions would only make it lag.
pub fn coalesce(batch: &[Input]) -> (places: Vec<usize>)
    ensures
        places@.map_values(|i: usize| i as int) == kept_places(batch@, batch@.len() as int),
{
    let mut places: Vec<usize> = Vec::new();
    let mut i: usize = 0;
    assert(places@.map_values(|i: usize| i as int) =~= kept_places(batch@, 0));
    while i < batch.len()
        invariant
            i <= batch@.len(),
            places@.map_values(|i: usize| i as int) == kept_places(batch@, i as int),
        decreases batch.len() - i,
    {
        let dropped = is_move(&batch[i]) && i < batch.len() - 1 && is_move(&batch[i + 1]);
        let ghost before = places@;
        if !dropped {
            places.push(i);
            assert(places@.map_values(|i: usize| i as int) =~= before.map_values(
                |i: usize| i as int,
            ).push(i as int));
        }
        i = i + 1;
    }
    places
}

/// What `coalesce` keeps is in order, and holds every event but the mouse
/// moves that the next event moves on from.
pub proof fn lemma_coalesce_keeps(batch: Seq<Input>, n: int)
    requires
        0 <= n <= batch.len(),
    ensures
        forall|i: int|
            0 <= i < n ==> (#[trigger] kept_places(batch, n).contains(i) <==> !superseded(batch, i)),
        forall|i: int|
            0 <= i < kept_places(batch, n).len() ==> 0 <= #[trigger] kept_places(batch, n)[i] < n,
        forall|i: int, j: int|
            0 <= i < j < kept_places(batch, n).len() ==> #[trigger] kept_places(batch, n)[i]
                < #[trigger] kept_places(batch, n)[j],
    decreases n,
{
    if n > 0 {
        lemma_coalesce_keeps(batch, n - 1);
        let before = kept_places(batch, n - 1);
        let after = kept_places(batch, n);
        assert forall|i: int| 0 <= i < n implies (#[trigger] after.contains(i) <==> !superseded(
            batch,
            i,
        )) by {
            if i < n - 1 {
                assert(before.contains(i) <==> !superseded(batch, i));
                if before.contains(i) {
                    let k = choose|k: int| 0 <= k < before.len() && before[k] == i;
                    assert(after[k] == i);
                }
                if after.contains(i) {
                    let k = choose|k: int| 0 <= k < after.len() && after[k] == i;
                    assert(before[k] == i);
                }
            } else if !superseded(batch, i) {
                assert(after[before.len() as int] == i);
            } else if after.contains(i) {
                let k = choose|k: int| 0 <= k < after.len() && after[k] == i;
                assert(before[k] == i);
            }
        }
    }
}

/// The last event of a batch is always sent: the pointer ends up where it
/// was last.
pub proof fn lemma_last_event_is_sent(batch: Seq<Input>)
    requires
        batch.len() > 0,
    ensures
        kept_places(batch, batch.len() as int).len() > 0,
        kept_places(batch, batch.len() as int).last() == batch.len() - 1,
{
}

/// What has gone by since a moment is what was added to it.
pub proof fn lemma_time_goes_by(since: u64, now: u64, every: u64)
    ensures
        now >= since ==> since + elapsed_of(since, now) == now,
        now < since ==> elapsed_of(since, now) == 0,
        due(None, now, every),
        every > 0 ==> (due(Some(since), now, every) <==> now >= since + every),
{
}

/// The clock is probed ten times a second for the first two seconds, and once
/// a second from then on; a report falls due once a second; and watching ends
/// at its deadline and not before. What is not due is left for later, and a
/// lost frame is remembered until a keyframe is asked for.
pub proof fn lemma_ticks_keep_the_pace(
    before: Pace,
    after: Pace,
    now: u64,
    decoder_lost: bool,
    tick: Tick,
)
    requires
        Pace::ticks(before, after, now, decoder_lost, tick),
        before.started <= now,
    ensures
        before.last_ping is None ==> tick.ping,
        before.last_ping matches Some(last) ==> (tick.ping <==> now - last >= (if now
            - before.started < 2_000_000 {
            100_000int
        } else {
            1_000_000int
        })),
        after.last_ping == (if tick.ping {
            Some(now)
        } else {
            before.last_ping
        }),
        tick.report <==> now - before.window_started >= 1_000_000,
        tick.report ==> after.window_started == now,
        !tick.report ==> after.window_started == before.window_started,
        before.deadline is None ==> !tick.finish,
        before.deadline matches Some(at) ==> (tick.finish <==> now >= at),
        decoder_lost ==> after.keyframe_needed,
        before.keyframe_needed ==> after.keyframe_needed,
        !decoder_lost && !before.keyframe_needed ==> !after.keyframe_needed,
        after.started == before.started && after.deadline == before.deadline,
        after.last_keyframe_request == before.last_keyframe_request,
{
}

/// A keyframe is asked for when one is needed, but not within a quarter of a
/// second of the last time; till then the need is kept.
pub proof fn lemma_keyframes_are_asked_for(
    before: Pace,
    after: Pace,
    now: u64,
    wanted: bool,
    ask: bool,
)
    requires
        Pace::asks(before, after, now, wanted, ask),
    ensures
        ask ==> (before.keyframe_needed || wanted) && !after.keyframe_needed
            && after.last_keyframe_request == Some(now),
        ask ==> (before.last_keyframe_request matches Some(last) ==> now - last >= 250_000),
        !ask && (before.keyframe_needed || wanted) ==> after.keyframe_needed
            && before.last_keyframe_request is Some && now - before.last_keyframe_request->0
            < 250_000,
        !ask ==> after.last_keyframe_request == before.last_keyframe_request,
        !before.keyframe_needed && !wanted ==> !ask && !after.keyframe_needed,
{
}

/// A frame may be quiet for a round trip and five milliseconds, is asked for
/// again after one and a half and ten, and given up after three and sixty.
pub proof fn lemma_repairs_follow_the_round_trip(rtt_us: u64, timing: Timing)
    requires
        timed_for(rtt_us, timing),
        rtt_us * 3 + 60_000 <= u64::MAX,
    ensures
        timing.quiet_us - rtt_us == 5_000,
        0 <= 2 * (timing.retry_us - 10_000) - 3 * rtt_us + 1 <= 1,
        timing.give_up_us - 3 * rtt_us == 60_000,
{
}

/// The only events that are not sent are mouse moves that the next event moves
/// on from.
pub proof fn lemma_only_stale_moves_are_dropped(batch: Seq<Input>, i: int)
    requires
        0 <= i < batch.len(),
    ensures
        !kept_places(batch, batch.len() as int).contains(i) <==> batch[i] is MouseMove && i + 1
            < batch.len() && batch[i + 1] is MouseMove,
{
    lemma_coalesce_keeps(batch, batch.len() as int);
}

/// Different states go on differently, so that a generator runs through all of
/// them; and it is linear, as xorshift generators are.
pub proof fn lemma_xorshift_loses_nothing(a: u64, b: u64)
    ensures
        xorshift(a) == xorshift(b) ==> a == b,
        xorshift(a ^ b) == xorshift(a) ^ xorshift(b),
{
    let (p, q) = (a ^ (a << 13u64), b ^ (b << 13u64));
    let (r, s) = (p ^ (p >> 7u64), q ^ (q >> 7u64));
    assert(a ^ (a << 13u64) == b ^ (b << 13u64) ==> a == b) by (bit_vector);
    assert(p ^ (p >> 7u64) == q ^ (q >> 7u64) ==> p == q) by (bit_vector);
    assert(r ^ (r << 17u64) == s ^ (s << 17u64) ==> r == s) by (bit_vector);
    let c = a ^ b;
    assert(((c ^ (c << 13u64)) ^ ((c ^ (c << 13u64)) >> 7u64)) ^ (((c ^ (c << 13u64)) ^ ((c ^ (c
        << 13u64)) >> 7u64)) << 17u64) == (((a ^ (a << 13u64)) ^ ((a ^ (a << 13u64)) >> 7u64)) ^ (((
    a ^ (a << 13u64)) ^ ((a ^ (a << 13u64)) >> 7u64)) << 17u64)) ^ (((b ^ (b << 13u64)) ^ ((b ^ (b
        << 13u64)) >> 7u64)) ^ (((b ^ (b << 13u64)) ^ ((b ^ (b << 13u64)) >> 7u64)) << 17u64)))
        by (bit_vector)
        requires
            c == a ^ b,
    ;
}

/// A repair is waited for until it falls due, but a millisecond at least.
pub proof fn lemma_repairs_are_waited_for(at: u64, now: u64)
    ensures
        wait_until(at, now) >= 1_000,
        now + wait_until(at, now) >= at,
        at >= now + 1_000 ==> now + wait_until(at, now) == at,
        at < now + 1_000 ==> wait_until(at, now) == 1_000,
{
}

}
