//! Attempts, limited: so many in a window of time, for an address or for a
//! name. Times are microseconds of a clock of the caller's.

use crate::net::Ip;
use crate::text::same_text;
use vstd::prelude::*;

verus! {

/// Who is trying.
#[derive(Debug)]
pub enum Who {
    Address(Ip),
    Name(String),
}

/// The same, as a value to reason about.
pub enum Key {
    Address(Ip),
    Name(Seq<char>),
}

impl View for Who {
    type V = Key;

    open spec fn view(&self) -> Key {
        match self {
            Who::Address(ip) => Key::Address(*ip),
            Who::Name(name) => Key::Name(name@),
        }
    }
}

impl Who {
    pub fn same(&self, other: &Who) -> (yes: bool)
        ensures
            yes == (self@ == other@),
    {
        match (self, other) {
            (Who::Address(a), Who::Address(b)) => *a == *b,
            (Who::Name(a), Who::Name(b)) => same_text(a, b),
            _ => false,
        }
    }

    pub fn copy(&self) -> (who: Who)
        ensures
            who@ == self@,
    {
        match self {
            Who::Address(ip) => Who::Address(*ip),
            Who::Name(name) => Who::Name(name.as_str().to_owned()),
        }
    }
}

/// Time since `then`; none if the clock has gone back.
pub open spec fn since(then: u64, now: u64) -> int {
    if now >= then {
        now - then
    } else {
        0
    }
}

fn time_since(then: u64, now: u64) -> (elapsed: u64)
    ensures
        elapsed == since(then, now),
{
    if now >= then {
        now - then
    } else {
        0
    }
}

/// What is kept of someone's attempts at `now`: all of them, or nothing once
/// the last is out of the window.
pub open spec fn kept(times: Seq<u64>, window: u64, now: u64) -> Seq<u64> {
    if times.len() > 0 && since(times.last(), now) < window {
        times
    } else {
        Seq::empty()
    }
}

/// Attempts without those at the front that are out of the window.
pub open spec fn recent(times: Seq<u64>, window: u64, now: u64) -> Seq<u64>
    decreases times.len(),
{
    if times.len() > 0 && since(times[0], now) >= window {
        recent(times.drop_first(), window, now)
    } else {
        times
    }
}

/// Without the attempts at the front that are out of the window.
fn only_recent(times: Vec<u64>, window: u64, now: u64) -> (rest: Vec<u64>)
    ensures
        rest@ == recent(times@, window, now),
{
    let mut start: usize = 0;
    assert(times@.skip(0) =~= times@);
    while start < times.len() && time_since(times[start], now) >= window
        invariant
            start <= times@.len(),
            recent(times@.skip(start as int), window, now) == recent(times@, window, now),
        decreases times.len() - start,
    {
        assert(times@.skip(start as int).drop_first() =~= times@.skip(start + 1));
        start = start + 1;
    }
    let mut rest: Vec<u64> = Vec::new();
    let mut i: usize = start;
    while i < times.len()
        invariant
            start <= i <= times@.len(),
            rest@ == times@.subrange(start as int, i as int),
        decreases times.len() - i,
    {
        rest.push(times[i]);
        i = i + 1;
    }
    assert(rest@ =~= times@.skip(start as int));
    rest
}

#[derive(Debug)]
struct Entry {
    who: Who,
    times: Vec<u64>,
}

/// The attempts listed for someone.
spec fn lookup(entries: Seq<Entry>, key: Key) -> Seq<u64>
    decreases entries.len(),
{
    if entries.len() == 0 {
        Seq::empty()
    } else if entries.last().who@ == key {
        entries.last().times@
    } else {
        lookup(entries.drop_last(), key)
    }
}

/// Nobody is listed twice, or for nothing.
spec fn listed_once(entries: Seq<Entry>) -> bool
    decreases entries.len(),
{
    entries.len() > 0 ==> {
        &&& entries.last().times@.len() > 0
        &&& lookup(entries.drop_last(), entries.last().who@).len() == 0
        &&& listed_once(entries.drop_last())
    }
}

proof fn lemma_push(entries: Seq<Entry>, entry: Entry)
    ensures
        forall|key: Key| #[trigger]
            lookup(entries.push(entry), key) == (if entry.who@ == key {
                entry.times@
            } else {
                lookup(entries, key)
            }),
        listed_once(entries) && entry.times@.len() > 0 && lookup(entries, entry.who@).len() == 0
            ==> listed_once(entries.push(entry)),
{
    assert(entries.push(entry).drop_last() =~= entries);
}

/// Attempts of anyone, each limited to `limit` within `window`.
#[derive(Debug)]
pub struct Attempts {
    limit: usize,
    window: u64,
    entries: Vec<Entry>,
}

impl Attempts {
    pub closed spec fn limit(&self) -> usize {
        self.limit
    }

    pub closed spec fn window(&self) -> u64 {
        self.window
    }

    /// The attempts counted for someone, oldest first.
    pub closed spec fn recorded(&self, key: Key) -> Seq<u64> {
        lookup(self.entries@, key)
    }

    #[verifier::type_invariant]
    spec fn wf(self) -> bool {
        listed_once(self.entries@)
    }

    pub fn new(limit: usize, window: u64) -> (attempts: Attempts)
        ensures
            attempts.limit() == limit,
            attempts.window() == window,
            forall|key: Key| #[trigger] attempts.recorded(key).len() == 0,
    {
        Attempts { limit, window, entries: Vec::new() }
    }

    /// Take someone's attempts out of the list; with `sweep`, everyone's who
    /// has gone quiet, so that the list cannot grow without bound.
    fn take_out(&mut self, who: &Who, now: u64, sweep: bool) -> (times: Vec<u64>)
        ensures
            final(self).limit() == old(self).limit(),
            final(self).window() == old(self).window(),
            final(self).recorded(who@).len() == 0,
            forall|key: Key|
                key != who@ ==> #[trigger] final(self).recorded(key) == (if sweep {
                    kept(old(self).recorded(key), old(self).window(), now)
                } else {
                    old(self).recorded(key)
                }),
            times@ == (if sweep {
                kept(old(self).recorded(who@), old(self).window(), now)
            } else {
                old(self).recorded(who@)
            }),
    {
        proof {
            use_type_invariant(&*self);
        }
        let ghost before = self.entries@;
        let window: u64 = self.window;
        let mut rest: Vec<Entry> = Vec::new();
        std::mem::swap(&mut rest, &mut self.entries);
        let mut staying: Vec<Entry> = Vec::new();
        let mut times: Vec<u64> = Vec::new();
        let ghost wanted = |key: Key|
            if sweep {
                kept(lookup(before, key), window, now)
            } else {
                lookup(before, key)
            };
        while rest.len() > 0
            invariant
                listed_once(rest@),
                listed_once(staying@),
                forall|key: Key|
                    #![trigger lookup(rest@, key)]
                    lookup(rest@, key).len() > 0 ==> lookup(rest@, key) == lookup(before, key),
                forall|key: Key| #[trigger]
                    lookup(staying@, key) == (if key == who@ || lookup(rest@, key).len() > 0 {
                        Seq::<u64>::empty()
                    } else {
                        wanted(key)
                    }),
                times@ == (if lookup(rest@, who@).len() > 0 {
                    Seq::<u64>::empty()
                } else {
                    wanted(who@)
                }),
                wanted == (|key: Key|
                    if sweep {
                        kept(lookup(before, key), window, now)
                    } else {
                        lookup(before, key)
                    }),
            decreases rest.len(),
        {
            let ghost all = rest@;
            match rest.pop() {
                None => {},
                Some(entry) => {
                    assert(all.drop_last() =~= rest@);
                    assert(lookup(all, entry.who@) == entry.times@);
                    assert(lookup(rest@, entry.who@).len() == 0);
                    assert forall|key: Key| key != entry.who@ implies lookup(all, key) == #[trigger] lookup(
                        rest@,
                        key,
                    ) by {}
                    let at: usize = entry.times.len() - 1;
                    let goes = sweep && time_since(entry.times[at], now) >= window;
                    assert(wanted(entry.who@) == if goes {
                        Seq::<u64>::empty()
                    } else {
                        entry.times@
                    });
                    if goes {
                    } else if entry.who.same(who) {
                        times = entry.times;
                    } else {
                        proof {
                            lemma_push(staying@, entry);
                        }
                        staying.push(entry);
                    }
                },
            }
        }
        assert forall|key: Key| key != who@ implies #[trigger] lookup(staying@, key) == wanted(
            key,
        ) by {
            assert(lookup(rest@, key).len() == 0);
        }
        self.entries = staying;
        times
    }

    /// List someone's attempts again.
    fn put_back(&mut self, who: &Who, times: Vec<u64>)
        requires
            old(self).recorded(who@).len() == 0,
        ensures
            final(self).limit() == old(self).limit(),
            final(self).window() == old(self).window(),
            forall|key: Key| #[trigger]
                final(self).recorded(key) == (if key == who@ {
                    times@
                } else {
                    old(self).recorded(key)
                }),
    {
        proof {
            use_type_invariant(&*self);
        }
        if times.len() > 0 {
            let entry = Entry { who: who.copy(), times };
            let ghost before = self.entries@;
            proof {
                lemma_push(before, entry);
            }
            let mut entries: Vec<Entry> = Vec::new();
            std::mem::swap(&mut entries, &mut self.entries);
            entries.push(entry);
            self.entries = entries;
        } else {
            assert(times@ =~= Seq::empty());
            assert(self.recorded(who@) =~= Seq::empty());
        }
    }

    /// Count an attempt at `now`, unless there have been too many lately.
    /// Whoever has gone quiet is forgotten.
    pub fn attempt(&mut self, who: &Who, now: u64) -> (allowed: bool)
        ensures
            final(self).limit() == old(self).limit(),
            final(self).window() == old(self).window(),
            ({
                let (after, ok) = attempted(
                    old(self).recorded(who@),
                    old(self).limit(),
                    old(self).window(),
                    now,
                );
                allowed == ok && final(self).recorded(who@) == after
            }),
            forall|key: Key|
                key != who@ ==> #[trigger] final(self).recorded(key) == kept(
                    old(self).recorded(key),
                    old(self).window(),
                    now,
                ),
    {
        let times = self.take_out(who, now, true);
        let mut times = only_recent(times, self.window, now);
        let allowed = times.len() < self.limit;
        if allowed {
            times.push(now);
        }
        self.put_back(who, times);
        allowed
    }

    /// Whether there have been few enough attempts to make another. Whoever
    /// has gone quiet is forgotten.
    pub fn may_try(&mut self, who: &Who, now: u64) -> (allowed: bool)
        ensures
            final(self).limit() == old(self).limit(),
            final(self).window() == old(self).window(),
            forall|key: Key| #[trigger]
                final(self).recorded(key) == kept(
                    old(self).recorded(key),
                    old(self).window(),
                    now,
                ),
            allowed == (final(self).recorded(who@).len() < old(self).limit()),
    {
        let times = self.take_out(who, now, true);
        let allowed = times.len() < self.limit;
        self.put_back(who, times);
        allowed
    }

    /// Count an attempt that failed.
    pub fn failed(&mut self, who: &Who, now: u64)
        ensures
            final(self).limit() == old(self).limit(),
            final(self).window() == old(self).window(),
            forall|key: Key| #[trigger]
                final(self).recorded(key) == (if key == who@ {
                    recent(old(self).recorded(key), old(self).window(), now).push(now)
                } else {
                    old(self).recorded(key)
                }),
    {
        let times = self.take_out(who, now, false);
        let mut times = only_recent(times, self.window, now);
        times.push(now);
        self.put_back(who, times);
    }
}

/// What someone's next attempt comes to: what is counted for them after it,
/// and whether it is allowed.
pub open spec fn attempted(times: Seq<u64>, limit: usize, window: u64, now: u64) -> (Seq<u64>, bool) {
    let lately = recent(kept(times, window, now), window, now);
    if lately.len() < limit {
        (lately.push(now), true)
    } else {
        (lately, false)
    }
}

// --- What the limit comes to ---------------------------------------------------------------------

/// The times of someone's allowed attempts, in order, none after `latest`.
pub open spec fn in_order(history: Seq<u64>, latest: u64) -> bool {
    &&& forall|i: int, j: int| 0 <= i <= j < history.len() ==> history[i] <= history[j]
    &&& forall|i: int| 0 <= i < history.len() ==> history[i] <= latest
}

/// What is recorded is the end of the history, and the rest of it is out of
/// the window.
pub open spec fn accounts_for(
    history: Seq<u64>,
    recorded: Seq<u64>,
    window: u64,
    latest: u64,
) -> bool {
    &&& recorded.len() <= history.len()
    &&& recorded == history.skip(history.len() - recorded.len())
    &&& forall|i: int|
        0 <= i < history.len() - recorded.len() ==> latest - #[trigger] history[i] >= window
}

/// No more than `limit` attempts within any window.
pub open spec fn spread(history: Seq<u64>, limit: usize, window: u64) -> bool {
    forall|i: int, j: int|
        #![trigger history[i], history[j]]
        0 <= i && i + limit <= j < history.len() ==> history[j] - history[i] >= window
}

proof fn lemma_recent(history: Seq<u64>, recorded: Seq<u64>, window: u64, now: u64)
    requires
        in_order(history, now),
        accounts_for(history, recorded, window, now),
    ensures
        accounts_for(history, recent(recorded, window, now), window, now),
    decreases recorded.len(),
{
    if recorded.len() > 0 && since(recorded[0], now) >= window {
        let start = history.len() - recorded.len();
        assert(recorded[0] == history[start]);
        assert(recorded.drop_first() =~= history.skip(start + 1));
        lemma_recent(history, recorded.drop_first(), window, now);
    }
}

/// Whatever someone does, no more than `limit` of their attempts are allowed
/// within any window: an attempt more than `limit` after another comes at
/// least a window later. `history` is all that was allowed so far; the law
/// says that it goes on holding through the next attempt.
pub proof fn lemma_attempts_are_limited(
    history: Seq<u64>,
    recorded: Seq<u64>,
    limit: usize,
    window: u64,
    latest: u64,
    now: u64,
)
    requires
        in_order(history, latest),
        accounts_for(history, recorded, window, latest),
        spread(history, limit, window),
        latest <= now,
    ensures
        ({
            let (after, allowed) = attempted(recorded, limit, window, now);
            let then = if allowed {
                history.push(now)
            } else {
                history
            };
            &&& in_order(then, now)
            &&& accounts_for(then, after, window, now)
            &&& spread(then, limit, window)
        }),
{
    let held = kept(recorded, window, now);
    assert(accounts_for(history, held, window, now)) by {
        if held.len() == 0 && recorded.len() > 0 {
            assert(history.skip(history.len() as int) =~= Seq::empty());
            assert(recorded.last() == history.last());
            assert forall|i: int| 0 <= i < history.len() implies now - #[trigger] history[i]
                >= window by {
                assert(history[i] <= history[history.len() - 1]);
            }
        } else if recorded.len() == 0 {
            assert(held =~= recorded);
        }
    }
    lemma_recent(history, held, window, now);
    let lately = recent(held, window, now);
    if lately.len() < limit {
        let then = history.push(now);
        assert(lately.push(now) =~= then.skip(then.len() - lately.push(now).len()));
        assert forall|i: int, j: int|
            #![trigger then[i], then[j]]
            0 <= i && i + limit <= j < then.len() implies then[j] - then[i] >= window by {
            if j == history.len() {
                assert(i < history.len() - lately.len());
                assert(now - history[i] >= window);
            } else {
                assert(history[j] - history[i] >= window);
            }
        }
    }
}

/// Someone else's attempt changes nothing about what is accounted for.
pub proof fn lemma_others_stay_accounted_for(
    history: Seq<u64>,
    recorded: Seq<u64>,
    window: u64,
    latest: u64,
    now: u64,
)
    requires
        in_order(history, latest),
        accounts_for(history, recorded, window, latest),
        latest <= now,
    ensures
        accounts_for(history, kept(recorded, window, now), window, now),
{
    let held = kept(recorded, window, now);
    if held.len() == 0 && recorded.len() > 0 {
        assert(history.skip(history.len() as int) =~= Seq::empty());
        assert(recorded.last() == history.last());
        assert forall|i: int| 0 <= i < history.len() implies now - #[trigger] history[i]
            >= window by {
            assert(history[i] <= history[history.len() - 1]);
        }
    } else if recorded.len() == 0 {
        assert(held =~= recorded);
    }
}

/// An attempt is refused only where there were too many lately: as many as the
/// limit are on record, all of them within the window. Whoever has fewer on
/// record may try, and whoever may is on record with it.
pub proof fn lemma_few_attempts_are_allowed(times: Seq<u64>, limit: usize, window: u64, now: u64)
    requires
        in_order(times, now),
    ensures
        ({
            let (after, allowed) = attempted(times, limit, window, now);
            &&& times.len() < limit ==> allowed
            &&& allowed ==> after.len() >= 1 && after.last() == now && after.len() <= limit
            &&& !allowed ==> {
                &&& times.len() >= limit
                &&& forall|i: int|
                    times.len() - limit <= i < times.len() ==> now - #[trigger] times[i] < window
            }
            &&& limit >= 1 && (forall|i: int|
                0 <= i < times.len() ==> now - #[trigger] times[i] >= window) ==> allowed
        }),
{
    let held = kept(times, window, now);
    let lately = recent(held, window, now);
    assert(in_order(held, now));
    lemma_recent_are_the_last(held, window, now);
    if lately.len() >= limit && times.len() > 0 {
        assert forall|i: int| times.len() - limit <= i < times.len() implies now
            - #[trigger] times[i] < window by {
            if held.len() > 0 {
                let k = i - (held.len() - lately.len());
                assert(held[i] == lately[k]);
            }
        }
        if lately.len() > 0 {
            assert(now - lately[0] < window);
            assert(held[held.len() - lately.len()] == lately[0]);
        }
    }
}

proof fn lemma_recent_are_the_last(times: Seq<u64>, window: u64, now: u64)
    requires
        in_order(times, now),
    ensures
        recent(times, window, now).len() <= times.len(),
        recent(times, window, now) == times.skip(
            times.len() - recent(times, window, now).len(),
        ),
        forall|i: int|
            0 <= i < recent(times, window, now).len() ==> now - #[trigger] recent(
                times,
                window,
                now,
            )[i] < window,
    decreases times.len(),
{
    if times.len() > 0 && since(times[0], now) >= window {
        let rest = times.drop_first();
        assert(in_order(rest, now)) by {
            assert forall|i: int, j: int| 0 <= i <= j < rest.len() implies rest[i] <= rest[j] by {
                assert(times[i + 1] <= times[j + 1]);
            }
            assert forall|i: int| 0 <= i < rest.len() implies rest[i] <= now by {
                assert(times[i + 1] <= now);
            }
        }
        lemma_recent_are_the_last(rest, window, now);
        let lately = recent(rest, window, now);
        assert(rest.skip(rest.len() - lately.len()) =~= times.skip(times.len() - lately.len()));
    } else {
        assert(times.skip(0) =~= times);
        assert forall|i: int| 0 <= i < times.len() implies now - #[trigger] times[i] < window by {
            assert(times[0] <= times[i]);
        }
    }
}

}
