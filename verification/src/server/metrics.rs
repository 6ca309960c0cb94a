//! What the server has been doing, for Prometheus.
//!
//! Counters are since the server started; gauges are now. Nothing here names
//! a device, a user or an address: only how many.

use crate::protocol::Refusal;
use crate::text::{decimal, holds, push_decimal};
use vstd::prelude::*;

verus! {

/// How many reasons there are to refuse.
pub const REASONS: usize = 10;

/// Where a refusal is counted: its label's place in the alphabet.
pub open spec fn reason_at(refusal: Refusal) -> int {
    match refusal {
        Refusal::Busy => 0,
        Refusal::Declined => 1,
        Refusal::Enrollment => 2,
        Refusal::IdTaken => 3,
        Refusal::NoCertificate => 4,
        Refusal::NotAllowed => 5,
        Refusal::NotSignedIn => 6,
        Refusal::Offline => 7,
        Refusal::Protocol => 8,
        Refusal::TooManyAttempts => 9,
    }
}

fn place_of(refusal: Refusal) -> (i: usize)
    ensures
        i == reason_at(refusal),
        i < REASONS,
{
    match refusal {
        Refusal::Busy => 0,
        Refusal::Declined => 1,
        Refusal::Enrollment => 2,
        Refusal::IdTaken => 3,
        Refusal::NoCertificate => 4,
        Refusal::NotAllowed => 5,
        Refusal::NotSignedIn => 6,
        Refusal::Offline => 7,
        Refusal::Protocol => 8,
        Refusal::TooManyAttempts => 9,
    }
}

/// The labels of refusals, by where they are counted.
pub open spec fn label(i: int) -> Seq<char> {
    if i == 0 {
        "busy"@
    } else if i == 1 {
        "declined"@
    } else if i == 2 {
        "enrollment"@
    } else if i == 3 {
        "id_taken"@
    } else if i == 4 {
        "no_certificate"@
    } else if i == 5 {
        "not_allowed"@
    } else if i == 6 {
        "not_signed_in"@
    } else if i == 7 {
        "offline"@
    } else if i == 8 {
        "protocol"@
    } else {
        "too_many_attempts"@
    }
}

fn label_at(i: usize) -> (text: &'static str)
    ensures
        text@ == label(i as int),
{
    match i {
        0 => "busy",
        1 => "declined",
        2 => "enrollment",
        3 => "id_taken",
        4 => "no_certificate",
        5 => "not_allowed",
        6 => "not_signed_in",
        7 => "offline",
        8 => "protocol",
        _ => "too_many_attempts",
    }
}

/// The label a refusal is counted under.
pub fn reason(refusal: Refusal) -> (text: &'static str)
    ensures
        text@ == label(reason_at(refusal)),
{
    label_at(place_of(refusal))
}

/// One more, as a 64-bit counter counts.
pub open spec fn after(count: u64, more: u64) -> int {
    if count + more > u64::MAX {
        count + more - u64::MAX - 1
    } else {
        count + more
    }
}

fn count_on(count: u64, more: u64) -> (sum: u64)
    ensures
        sum == after(count, more),
{
    if more > u64::MAX - count {
        more - (u64::MAX - count) - 1
    } else {
        count + more
    }
}

/// Counts kept as the registry works.
#[derive(Debug)]
pub struct Stats {
    /// When the server started, in microseconds of the caller's clock.
    pub started: u64,
    pub introductions: u64,
    /// By where a refusal is counted.
    pub refusals: [u64; 10],
    pub tunnels: u64,
    pub relayed_bytes: u64,
    pub ceilings: u64,
    pub packages: u64,
}

/// Everything the page shows, gathered in one place.
#[derive(Debug)]
pub struct Snapshot {
    pub version: String,
    pub uptime_secs: u64,
    pub agents_online: usize,
    pub devices_enrolled: usize,
    pub introduced: u64,
    /// Why, and how often; in the order of the labels, and without those that
    /// never came.
    pub refused: Vec<(&'static str, u64)>,
    pub tunnels: u64,
    pub relayed_bytes: u64,
    pub capped: u64,
    pub packages_sending: usize,
    pub packages_sent: u64,
}

/// The reasons up to `n` that came, with how often.
pub open spec fn came(refusals: Seq<u64>, n: int) -> Seq<(Seq<char>, u64)>
    decreases n,
{
    if n <= 0 {
        Seq::empty()
    } else if refusals[n - 1] > 0 {
        came(refusals, n - 1).push((label(n - 1), refusals[n - 1]))
    } else {
        came(refusals, n - 1)
    }
}

/// Labels and counts, as values to reason about.
pub open spec fn labelled(samples: Seq<(&'static str, u64)>) -> Seq<(Seq<char>, u64)> {
    Seq::new(samples.len(), |i: int| (samples[i].0@, samples[i].1))
}

/// Something that is counted.
pub enum Counted {
    Introduced,
    Refused(Refusal),
    TunnelOpened,
    TunnelClosed,
    Relayed(usize),
    Capped,
    PackageSent,
}

impl Stats {
    /// Nothing is counted yet.
    pub open spec fn fresh(&self) -> bool {
        &&& self.introductions == 0
        &&& forall|i: int| 0 <= i < REASONS ==> #[trigger] self.refusals@[i] == 0
        &&& self.tunnels == 0
        &&& self.relayed_bytes == 0
        &&& self.ceilings == 0
        &&& self.packages == 0
    }

    /// A snapshot shows what is counted.
    pub open spec fn shown_in(&self, snapshot: &Snapshot) -> bool {
        &&& snapshot.introduced == self.introductions
        &&& labelled(snapshot.refused@) == came(self.refusals@, REASONS as int)
        &&& snapshot.tunnels == self.tunnels
        &&& snapshot.relayed_bytes == self.relayed_bytes
        &&& snapshot.capped == self.ceilings
        &&& snapshot.packages_sent == self.packages
    }

    /// What counting something does.
    pub open spec fn counts(before: &Stats, now: &Stats, what: Counted) -> bool {
        match what {
            Counted::Introduced => {
                &&& now.introductions == after(before.introductions, 1)
                &&& *now == (Stats { introductions: now.introductions, ..*before })
            },
            Counted::Refused(refusal) => {
                let i = reason_at(refusal);
                &&& now.refusals@ == before.refusals@.update(i, (before.refusals@[i] + 1) as u64)
                &&& before.refusals@[i] < u64::MAX
                &&& *now == (Stats { refusals: now.refusals, ..*before })
            },
            Counted::TunnelOpened => {
                &&& now.tunnels == after(before.tunnels, 1)
                &&& *now == (Stats { tunnels: now.tunnels, ..*before })
            },
            Counted::TunnelClosed => {
                &&& now.tunnels == before.tunnels - 1
                &&& *now == (Stats { tunnels: now.tunnels, ..*before })
            },
            Counted::Relayed(bytes) => {
                &&& now.relayed_bytes == after(before.relayed_bytes, bytes as u64)
                &&& *now == (Stats { relayed_bytes: now.relayed_bytes, ..*before })
            },
            Counted::Capped => {
                &&& now.ceilings == after(before.ceilings, 1)
                &&& *now == (Stats { ceilings: now.ceilings, ..*before })
            },
            Counted::PackageSent => {
                &&& now.packages == after(before.packages, 1)
                &&& *now == (Stats { packages: now.packages, ..*before })
            },
        }
    }

    /// Nothing counted yet.
    pub fn new(started: u64) -> (stats: Stats)
        ensures
            stats.started == started,
            stats.fresh(),
    {
        Stats {
            started,
            introductions: 0,
            refusals: [0; 10],
            tunnels: 0,
            relayed_bytes: 0,
            ceilings: 0,
            packages: 0,
        }
    }

    pub fn introduced(&mut self)
        ensures
            Stats::counts(old(self), final(self), Counted::Introduced),
    {
        self.introductions = count_on(self.introductions, 1);
    }

    pub fn refused(&mut self, refusal: Refusal)
        requires
            old(self).refusals@[reason_at(refusal)] < u64::MAX,
        ensures
            Stats::counts(old(self), final(self), Counted::Refused(refusal)),
    {
        let i: usize = place_of(refusal);
        self.refusals[i] = self.refusals[i] + 1;
        assert(self.refusals@ =~= old(self).refusals@.update(
            i as int,
            (old(self).refusals@[i as int] + 1) as u64,
        ));
    }

    /// A viewer's tunnel opened.
    pub fn tunnel(&mut self)
        ensures
            Stats::counts(old(self), final(self), Counted::TunnelOpened),
    {
        self.tunnels = count_on(self.tunnels, 1);
    }

    /// And closed.
    pub fn tunnel_closed(&mut self)
        requires
            old(self).tunnels > 0,
        ensures
            Stats::counts(old(self), final(self), Counted::TunnelClosed),
    {
        self.tunnels = self.tunnels - 1;
    }

    pub fn relayed(&mut self, bytes: usize)
        ensures
            Stats::counts(old(self), final(self), Counted::Relayed(bytes)),
    {
        self.relayed_bytes = count_on(self.relayed_bytes, bytes as u64);
    }

    pub fn capped(&mut self)
        ensures
            Stats::counts(old(self), final(self), Counted::Capped),
    {
        self.ceilings = count_on(self.ceilings, 1);
    }

    pub fn package_sent(&mut self)
        ensures
            Stats::counts(old(self), final(self), Counted::PackageSent),
    {
        self.packages = count_on(self.packages, 1);
    }

    /// The registry's share of a [`Snapshot`] at `now`; the caller fills in
    /// the rest.
    pub fn snapshot(
        &self,
        version: &str,
        now: u64,
        agents_online: usize,
        packages_sending: usize,
    ) -> (snapshot: Snapshot)
        ensures
            snapshot.version@ == version@,
            snapshot.uptime_secs == (if now >= self.started {
                (now - self.started) / 1_000_000
            } else {
                0
            }),
            snapshot.agents_online == agents_online,
            snapshot.devices_enrolled == 0,
            snapshot.packages_sending == packages_sending,
            self.shown_in(&snapshot),
    {
        let mut refused: Vec<(&'static str, u64)> = Vec::new();
        let mut i: usize = 0;
        assert(labelled(refused@) =~= came(self.refusals@, 0));
        while i < REASONS
            invariant
                i <= REASONS,
                labelled(refused@) == came(self.refusals@, i as int),
            decreases REASONS - i,
        {
            let ghost before = refused@;
            if self.refusals[i] > 0 {
                refused.push((label_at(i), self.refusals[i]));
                assert(labelled(refused@) =~= labelled(before).push(
                    (label(i as int), self.refusals@[i as int]),
                ));
            }
            i = i + 1;
        }
        Snapshot {
            version: version.to_owned(),
            uptime_secs: if now >= self.started {
                (now - self.started) / 1_000_000
            } else {
                0
            },
            agents_online,
            devices_enrolled: 0,
            introduced: self.introductions,
            refused,
            tunnels: self.tunnels,
            relayed_bytes: self.relayed_bytes,
            capped: self.ceilings,
            packages_sending,
            packages_sent: self.packages,
        }
    }
}

// --- As text ---------------------------------------------------------------------------------

/// What a metric is called, what kind it is, and what it says.
pub open spec fn heading(name: Seq<char>, kind: Seq<char>, help: Seq<char>) -> Seq<char> {
    "# HELP "@ + name + " "@ + help + "\n"@ + "# TYPE "@ + name + " "@ + kind + "\n"@
}

/// One sample.
pub open spec fn sample(name: Seq<char>, labels: Seq<char>, value: nat) -> Seq<char> {
    name + labels + " "@ + decimal(value) + "\n"@
}

/// A metric with one sample and no labels.
pub open spec fn single(name: Seq<char>, kind: Seq<char>, help: Seq<char>, value: nat) -> Seq<char> {
    heading(name, kind, help) + sample(name, Seq::empty(), value)
}

/// The samples of refusals, one for each reason that came.
pub open spec fn refusal_samples(name: Seq<char>, refused: Seq<(Seq<char>, u64)>) -> Seq<char>
    decreases refused.len(),
{
    if refused.len() == 0 {
        Seq::empty()
    } else {
        refusal_samples(name, refused.drop_last()) + sample(
            name,
            "{reason=\""@ + refused.last().0 + "\"}"@,
            refused.last().1 as nat,
        )
    }
}

fn push_heading(out: &mut String, name: &str, kind: &str, help: &str)
    ensures
        final(out)@ == old(out)@ + heading(name@, kind@, help@),
{
    out.append("# HELP ");
    out.append(name);
    out.append(" ");
    out.append(help);
    out.append("\n");
    out.append("# TYPE ");
    out.append(name);
    out.append(" ");
    out.append(kind);
    out.append("\n");
    assert(out@ =~= old(out)@ + heading(name@, kind@, help@));
}

fn push_sample(out: &mut String, name: &str, labels: &str, value: u64)
    ensures
        final(out)@ == old(out)@ + sample(name@, labels@, value as nat),
{
    out.append(name);
    out.append(labels);
    out.append(" ");
    push_decimal(out, value);
    out.append("\n");
    assert(out@ =~= old(out)@ + sample(name@, labels@, value as nat));
}

fn push_single(out: &mut String, name: &str, kind: &str, help: &str, value: u64)
    ensures
        final(out)@ == old(out)@ + single(name@, kind@, help@, value as nat),
{
    push_heading(out, name, kind, help);
    let none = String::new();
    assert(none@ =~= Seq::<char>::empty());
    push_sample(out, name, &none, value);
    assert(out@ =~= old(out)@ + single(name@, kind@, help@, value as nat));
}

fn push_refusals(out: &mut String, name: &str, refused: &[(&'static str, u64)])
    ensures
        final(out)@ == old(out)@ + refusal_samples(name@, labelled(refused@)),
{
    let ghost all = labelled(refused@);
    let mut i: usize = 0;
    assert(out@ =~= old(out)@ + refusal_samples(name@, all.take(0)));
    while i < refused.len()
        invariant
            i <= refused@.len(),
            all == labelled(refused@),
            out@ == old(out)@ + refusal_samples(name@, all.take(i as int)),
        decreases refused.len() - i,
    {
        let mut labels = "{reason=\"".to_owned();
        labels.append(refused[i].0);
        labels.append("\"}");
        push_sample(out, name, &labels, refused[i].1);
        assert(all.take(i + 1).drop_last() =~= all.take(i as int));
        assert(out@ =~= old(out)@ + refusal_samples(name@, all.take(i + 1)));
        i = i + 1;
    }
    assert(all.take(i as int) =~= all);
}

/// The first half of the page.
pub open spec fn page_of_agents(s: &Snapshot) -> Seq<char> {
    heading("nearhand_build_info"@, "gauge"@, "The server's version, as a label."@) + sample(
        "nearhand_build_info"@,
        "{version=\""@ + s.version@ + "\"}"@,
        1,
    ) + single(
        "nearhand_uptime_seconds"@,
        "gauge"@,
        "Seconds since the server started."@,
        s.uptime_secs as nat,
    ) + single(
        "nearhand_agents_online"@,
        "gauge"@,
        "Agents registered now, managed or not."@,
        s.agents_online as nat,
    ) + single(
        "nearhand_devices_enrolled"@,
        "gauge"@,
        "Devices in the server's list."@,
        s.devices_enrolled as nat,
    ) + single(
        "nearhand_introductions_total"@,
        "counter"@,
        "Viewers introduced to an agent that opened its way to them."@,
        s.introduced as nat,
    ) + heading(
        "nearhand_introductions_refused_total"@,
        "counter"@,
        "Viewers refused an introduction, by why."@,
    ) + refusal_samples("nearhand_introductions_refused_total"@, labelled(s.refused@))
}

/// The second.
pub open spec fn page_of_bytes(s: &Snapshot) -> Seq<char> {
    single(
        "nearhand_relay_tunnels_open"@,
        "gauge"@,
        "Viewers' tunnels open now. A viewer that connected directly closes its own at once."@,
        s.tunnels as nat,
    ) + single(
        "nearhand_relayed_bytes_total"@,
        "counter"@,
        "Bytes relayed, both directions together."@,
        s.relayed_bytes as nat,
    ) + single(
        "nearhand_relay_ceilings_reached_total"@,
        "counter"@,
        "Relayed sessions let go at relay.max_gb."@,
        s.capped as nat,
    ) + single(
        "nearhand_update_downloads_active"@,
        "gauge"@,
        "Agent packages being sent now."@,
        s.packages_sending as nat,
    ) + single(
        "nearhand_update_downloads_total"@,
        "counter"@,
        "Agent packages sent in full."@,
        s.packages_sent as nat,
    )
}

/// `snapshot` in Prometheus' text format.
pub fn render(s: &Snapshot) -> (text: String)
    ensures
        text@ == page_of_agents(s) + page_of_bytes(s),
{
    let mut out = String::new();
    push_heading(
        &mut out,
        "nearhand_build_info",
        "gauge",
        "The server's version, as a label.",
    );
    let mut version = "{version=\"".to_owned();
    version.append(&s.version);
    version.append("\"}");
    push_sample(&mut out, "nearhand_build_info", &version, 1);
    push_single(
        &mut out,
        "nearhand_uptime_seconds",
        "gauge",
        "Seconds since the server started.",
        s.uptime_secs,
    );
    push_single(
        &mut out,
        "nearhand_agents_online",
        "gauge",
        "Agents registered now, managed or not.",
        s.agents_online as u64,
    );
    push_single(
        &mut out,
        "nearhand_devices_enrolled",
        "gauge",
        "Devices in the server's list.",
        s.devices_enrolled as u64,
    );
    push_single(
        &mut out,
        "nearhand_introductions_total",
        "counter",
        "Viewers introduced to an agent that opened its way to them.",
        s.introduced,
    );
    push_heading(
        &mut out,
        "nearhand_introductions_refused_total",
        "counter",
        "Viewers refused an introduction, by why.",
    );
    push_refusals(&mut out, "nearhand_introductions_refused_total", &s.refused);
    assert(out@ =~= page_of_agents(s));
    push_single(
        &mut out,
        "nearhand_relay_tunnels_open",
        "gauge",
        "Viewers' tunnels open now. A viewer that connected directly closes its own at once.",
        s.tunnels,
    );
    push_single(
        &mut out,
        "nearhand_relayed_bytes_total",
        "counter",
        "Bytes relayed, both directions together.",
        s.relayed_bytes,
    );
    push_single(
        &mut out,
        "nearhand_relay_ceilings_reached_total",
        "counter",
        "Relayed sessions let go at relay.max_gb.",
        s.capped,
    );
    push_single(
        &mut out,
        "nearhand_update_downloads_active",
        "gauge",
        "Agent packages being sent now.",
        s.packages_sending as u64,
    );
    push_single(
        &mut out,
        "nearhand_update_downloads_total",
        "counter",
        "Agent packages sent in full.",
        s.packages_sent,
    );
    assert(out@ =~= page_of_agents(s) + page_of_bytes(s));
    out
}

/// A sample that stands for a refusal that came.
pub open spec fn stands_for(refusals: Seq<u64>, n: int, sample: (Seq<char>, u64)) -> bool {
    exists|i: int|
        0 <= i < n && sample == (label(i), #[trigger] refusals[i]) && refusals[i] > 0
}

/// A refusal shows under its own label, as often as it came, and no other
/// does.
pub proof fn lemma_refusals_show(refusals: Seq<u64>, n: int)
    requires
        refusals.len() == REASONS,
        0 <= n <= REASONS,
    ensures
        forall|i: int|
            0 <= i < n && #[trigger] refusals[i] > 0 ==> came(refusals, n).contains(
                (label(i), refusals[i]),
            ),
        forall|k: int|
            0 <= k < came(refusals, n).len() ==> stands_for(
                refusals,
                n,
                #[trigger] came(refusals, n)[k],
            ),
    decreases n,
{
    if n > 0 {
        lemma_refusals_show(refusals, n - 1);
        let less = came(refusals, n - 1);
        let all = came(refusals, n);
        assert forall|i: int| 0 <= i < n && #[trigger] refusals[i] > 0 implies all.contains(
            (label(i), refusals[i]),
        ) by {
            if i < n - 1 {
                let k = choose|k: int| 0 <= k < less.len() && less[k] == (label(i), refusals[i]);
                assert(all[k] == less[k]);
            } else {
                assert(all[less.len() as int] == (label(i), refusals[i]));
            }
        }
        assert forall|k: int| 0 <= k < all.len() implies stands_for(
            refusals,
            n,
            #[trigger] all[k],
        ) by {
            if k < less.len() {
                assert(all[k] == less[k]);
                assert(stands_for(refusals, n - 1, less[k]));
            } else {
                assert(all[k] == (label(n - 1), refusals[n - 1]));
            }
        }
    }
}

/// How often something came.
pub open spec fn often(all: Seq<Counted>, what: Counted) -> nat
    decreases all.len(),
{
    if all.len() == 0 {
        0
    } else {
        often(all.drop_last(), what) + if all.last() == what {
            1nat
        } else {
            0
        }
    }
}

/// How many bytes were relayed in all.
pub open spec fn carried(all: Seq<Counted>) -> nat
    decreases all.len(),
{
    if all.len() == 0 {
        0
    } else {
        carried(all.drop_last()) + match all.last() {
            Counted::Relayed(bytes) => bytes as nat,
            _ => 0,
        }
    }
}

/// A server's counters one after the other, from its start on, as things were
/// counted.
pub open spec fn history(states: Seq<Stats>, all: Seq<Counted>) -> bool {
    &&& states.len() == all.len() + 1
    &&& states[0].fresh()
    &&& forall|i: int, j: int|
        #![trigger states[i], states[j]]
        0 <= i < all.len() && j == i + 1 ==> Stats::counts(&states[i], &states[j], all[i])
}

/// The counters count: after anything that was counted, in any order, each
/// says how often its own thing came, and the tunnels are those that were
/// opened and not closed. It holds while a counter does not run over.
pub proof fn lemma_counters_count(states: Seq<Stats>, all: Seq<Counted>)
    requires
        history(states, all),
        all.len() <= u64::MAX,
        carried(all) <= u64::MAX,
    ensures
        states.last().introductions == often(all, Counted::Introduced),
        forall|refusal: Refusal|
            states.last().refusals@[reason_at(refusal)] == #[trigger] often(
                all,
                Counted::Refused(refusal),
            ),
        states.last().tunnels == often(all, Counted::TunnelOpened) - often(
            all,
            Counted::TunnelClosed,
        ),
        states.last().relayed_bytes == carried(all),
        states.last().ceilings == often(all, Counted::Capped),
        states.last().packages == often(all, Counted::PackageSent),
    decreases all.len(),
{
    lemma_no_more_often(all, Counted::TunnelOpened);
    lemma_no_more_often(all, Counted::Introduced);
    lemma_no_more_often(all, Counted::Capped);
    lemma_no_more_often(all, Counted::PackageSent);
    if all.len() > 0 {
        let n = all.len() - 1;
        let before = states.drop_last();
        assert forall|i: int, j: int|
            #![trigger before[i], before[j]]
            0 <= i < n && j == i + 1 implies Stats::counts(
            &before[i],
            &before[j],
            all.drop_last()[i],
        ) by {
            assert(Stats::counts(&states[i], &states[j], all[i]));
        }
        lemma_counters_count(before, all.drop_last());
        assert(before.last() == states[n]);
        assert(states.last() == states[n + 1]);
        assert(Stats::counts(&states[n], &states[n + 1], all[n]));
        assert forall|refusal: Refusal|
            states.last().refusals@[reason_at(refusal)] == #[trigger] often(
                all,
                Counted::Refused(refusal),
            ) by {
            let came_before = often(all.drop_last(), Counted::Refused(refusal));
            assert(before.last().refusals@[reason_at(refusal)] == came_before);
            if let Counted::Refused(other) = all.last() {
                assert(reason_at(other) == reason_at(refusal) ==> other == refusal);
            }
        }
    }
}

/// A snapshot counts: it says how often each thing came since the server
/// started. A reason to refuse is listed if it came, with how often, and each
/// that is listed came.
pub proof fn lemma_snapshots_count(states: Seq<Stats>, all: Seq<Counted>, snapshot: Snapshot)
    requires
        history(states, all),
        all.len() <= u64::MAX,
        carried(all) <= u64::MAX,
        states.last().shown_in(&snapshot),
    ensures
        snapshot.introduced == often(all, Counted::Introduced),
        snapshot.tunnels == often(all, Counted::TunnelOpened) - often(all, Counted::TunnelClosed),
        snapshot.relayed_bytes == carried(all),
        snapshot.capped == often(all, Counted::Capped),
        snapshot.packages_sent == often(all, Counted::PackageSent),
        forall|refusal: Refusal|
            #![trigger reason_at(refusal)]
            often(all, Counted::Refused(refusal)) > 0 ==> labelled(snapshot.refused@).contains(
                (label(reason_at(refusal)), often(all, Counted::Refused(refusal)) as u64),
            ),
        forall|k: int|
            0 <= k < snapshot.refused@.len() ==> listed_rightly(
                all,
                #[trigger] labelled(snapshot.refused@)[k],
            ),
{
    let refusals = states.last().refusals@;
    lemma_counters_count(states, all);
    lemma_refusals_show(refusals, REASONS as int);
    assert forall|refusal: Refusal|
        #![trigger reason_at(refusal)]
        often(all, Counted::Refused(refusal)) > 0 implies labelled(snapshot.refused@).contains(
        (label(reason_at(refusal)), often(all, Counted::Refused(refusal)) as u64),
    ) by {
        assert(refusals[reason_at(refusal)] == often(all, Counted::Refused(refusal)));
    }
    assert forall|k: int| 0 <= k < snapshot.refused@.len() implies listed_rightly(
        all,
        #[trigger] labelled(snapshot.refused@)[k],
    ) by {
        let sample = labelled(snapshot.refused@)[k];
        assert(stands_for(refusals, REASONS as int, came(refusals, REASONS as int)[k]));
        let i = choose|i: int|
            0 <= i < REASONS && sample == (label(i), #[trigger] refusals[i]) && refusals[i] > 0;
        let refusal = refusal_at(i);
        assert(reason_at(refusal) == i);
        assert(often(all, Counted::Refused(refusal)) == refusals[i]);
    }
}

/// A sample says how often a reason came.
pub open spec fn listed_rightly(all: Seq<Counted>, sample: (Seq<char>, u64)) -> bool {
    exists|refusal: Refusal|
        {
            &&& sample.0 == label(reason_at(refusal))
            &&& sample.1 == #[trigger] often(all, Counted::Refused(refusal))
            &&& sample.1 > 0
        }
}

/// The refusal that is counted in a place.
pub open spec fn refusal_at(i: int) -> Refusal {
    if i == 0 {
        Refusal::Busy
    } else if i == 1 {
        Refusal::Declined
    } else if i == 2 {
        Refusal::Enrollment
    } else if i == 3 {
        Refusal::IdTaken
    } else if i == 4 {
        Refusal::NoCertificate
    } else if i == 5 {
        Refusal::NotAllowed
    } else if i == 6 {
        Refusal::NotSignedIn
    } else if i == 7 {
        Refusal::Offline
    } else if i == 8 {
        Refusal::Protocol
    } else {
        Refusal::TooManyAttempts
    }
}

proof fn lemma_no_more_often(all: Seq<Counted>, what: Counted)
    ensures
        often(all, what) <= all.len(),
    decreases all.len(),
{
    if all.len() > 0 {
        lemma_no_more_often(all.drop_last(), what);
    }
}

/// A text comes before another, in the order of their first characters that
/// differ.
pub open spec fn precedes(a: Seq<char>, b: Seq<char>) -> bool {
    exists|k: int| #[trigger] differ_first(a, b, k) && a[k] < b[k]
}

pub open spec fn differ_first(a: Seq<char>, b: Seq<char>, k: int) -> bool {
    &&& 0 <= k < a.len() && k < b.len()
    &&& a[k] != b[k]
    &&& forall|i: int| 0 <= i < k ==> #[trigger] a[i] == b[i]
}

/// A snapshot lists the reasons in the order of their labels, each once.
pub proof fn lemma_reasons_are_in_order(refusals: Seq<u64>, n: int)
    requires
        refusals.len() == REASONS,
        0 <= n <= REASONS,
    ensures
        forall|i: int, j: int|
            0 <= i < j < came(refusals, n).len() ==> precedes(
                (#[trigger] came(refusals, n)[i]).0,
                (#[trigger] came(refusals, n)[j]).0,
            ),
    decreases n,
{
    if n > 0 {
        lemma_reasons_are_in_order(refusals, n - 1);
        lemma_refusals_show(refusals, n - 1);
        let less = came(refusals, n - 1);
        let all = came(refusals, n);
        assert forall|i: int, j: int| 0 <= i < j < all.len() implies precedes(
            (#[trigger] all[i]).0,
            (#[trigger] all[j]).0,
        ) by {
            assert(all[i] == less[i]);
            if j < less.len() {
                assert(all[j] == less[j]);
            } else {
                assert(stands_for(refusals, n - 1, less[i]));
                let k = choose|k: int|
                    0 <= k < n - 1 && less[i] == (label(k), #[trigger] refusals[k]);
                lemma_labels_in_order(k, n - 1);
            }
        }
    }
}

proof fn lemma_labels_in_order(i: int, j: int)
    requires
        0 <= i < j < REASONS,
    ensures
        precedes(label(i), label(j)),
{
    reveal_strlit("busy");
    reveal_strlit("declined");
    reveal_strlit("enrollment");
    reveal_strlit("id_taken");
    reveal_strlit("no_certificate");
    reveal_strlit("not_allowed");
    reveal_strlit("not_signed_in");
    reveal_strlit("offline");
    reveal_strlit("protocol");
    reveal_strlit("too_many_attempts");
    let k: int = if i == 4 && (j == 5 || j == 6) {
        2
    } else if i == 5 && j == 6 {
        4
    } else {
        0
    };
    assert(differ_first(label(i), label(j), k));
}

/// Each reason is counted under its own name.
pub proof fn lemma_reasons_have_names(refusal: Refusal)
    ensures
        refusal is Busy ==> label(reason_at(refusal)) == "busy"@,
        refusal is Declined ==> label(reason_at(refusal)) == "declined"@,
        refusal is Enrollment ==> label(reason_at(refusal)) == "enrollment"@,
        refusal is IdTaken ==> label(reason_at(refusal)) == "id_taken"@,
        refusal is NoCertificate ==> label(reason_at(refusal)) == "no_certificate"@,
        refusal is NotAllowed ==> label(reason_at(refusal)) == "not_allowed"@,
        refusal is NotSignedIn ==> label(reason_at(refusal)) == "not_signed_in"@,
        refusal is Offline ==> label(reason_at(refusal)) == "offline"@,
        refusal is Protocol ==> label(reason_at(refusal)) == "protocol"@,
        refusal is TooManyAttempts ==> label(reason_at(refusal)) == "too_many_attempts"@,
{
}

/// A part of a text is a part of what the text is a part of.
proof fn lemma_part_of_a_part(before: Seq<char>, text: Seq<char>, behind: Seq<char>, part: Seq<char>)
    requires
        holds(text, part),
    ensures
        holds(before + text + behind, part),
        holds(before + text, part),
        holds(text + behind, part),
{
    let i = choose|i: int|
        0 <= i <= text.len() - part.len() && #[trigger] text.subrange(i, i + part.len()) == part;
    let n = before.len() as int;
    let whole = before + text + behind;
    assert(whole.subrange(n + i, n + i + part.len()) =~= text.subrange(i, i + part.len()));
    assert((before + text).subrange(n + i, n + i + part.len()) =~= text.subrange(i, i + part.len()));
    assert((text + behind).subrange(i, i + part.len()) =~= text.subrange(i, i + part.len()));
}

proof fn lemma_single_says(name: Seq<char>, kind: Seq<char>, help: Seq<char>, value: nat)
    ensures
        holds(single(name, kind, help, value), name + " "@ + decimal(value) + "\n"@),
{
    let line = name + " "@ + decimal(value) + "\n"@;
    assert(sample(name, Seq::empty(), value) =~= line);
    assert(line.subrange(0int, 0int + line.len()) =~= line);
    assert(holds(line, line));
    lemma_part_of_a_part(heading(name, kind, help), line, Seq::empty(), line);
}

/// The page says of each thing, under its name, how many there are.
pub proof fn lemma_the_page_says_how_many(s: Snapshot)
    ensures
        ({
            let page = page_of_agents(&s) + page_of_bytes(&s);
            &&& holds(page, "nearhand_uptime_seconds"@ + " "@ + decimal(s.uptime_secs as nat) + "\n"@)
            &&& holds(page, "nearhand_agents_online"@ + " "@ + decimal(s.agents_online as nat) + "\n"@)
            &&& holds(page, "nearhand_devices_enrolled"@ + " "@ + decimal(s.devices_enrolled as nat) + "\n"@)
            &&& holds(page, "nearhand_introductions_total"@ + " "@ + decimal(s.introduced as nat) + "\n"@)
            &&& holds(page, "nearhand_relay_tunnels_open"@ + " "@ + decimal(s.tunnels as nat) + "\n"@)
            &&& holds(page, "nearhand_relayed_bytes_total"@ + " "@ + decimal(s.relayed_bytes as nat) + "\n"@)
            &&& holds(page, "nearhand_relay_ceilings_reached_total"@ + " "@ + decimal(s.capped as nat) + "\n"@)
            &&& holds(page, "nearhand_update_downloads_active"@ + " "@ + decimal(s.packages_sending as nat) + "\n"@)
            &&& holds(page, "nearhand_update_downloads_total"@ + " "@ + decimal(s.packages_sent as nat) + "\n"@)
            &&& holds(page, "nearhand_build_info"@ + ("{version=\""@ + s.version@ + "\"}"@) + " "@
                + decimal(1) + "\n"@)
        }),
{
    let page = page_of_agents(&s) + page_of_bytes(&s);
    let info = sample("nearhand_build_info"@, "{version=\""@ + s.version@ + "\"}"@, 1);
    let a0 = heading("nearhand_build_info"@, "gauge"@, "The server's version, as a label."@) + info;
    let p0 = single("nearhand_uptime_seconds"@, "gauge"@, "Seconds since the server started."@, s.uptime_secs as nat);
    let a1 = a0 + p0;
    let p1 = single("nearhand_agents_online"@, "gauge"@, "Agents registered now, managed or not."@, s.agents_online as nat);
    let a2 = a1 + p1;
    let p2 = single("nearhand_devices_enrolled"@, "gauge"@, "Devices in the server's list."@, s.devices_enrolled as nat);
    let a3 = a2 + p2;
    let p3 = single("nearhand_introductions_total"@, "counter"@, "Viewers introduced to an agent that opened its way to them."@, s.introduced as nat);
    let a4 = a3 + p3;
    let a5 = a4 + heading(
        "nearhand_introductions_refused_total"@,
        "counter"@,
        "Viewers refused an introduction, by why."@,
    );
    let a6 = a5 + refusal_samples("nearhand_introductions_refused_total"@, labelled(s.refused@));
    assert(page_of_agents(&s) == a6);
    assert(info.subrange(0int, 0int + info.len()) =~= info);
    assert(holds(info, info));
    lemma_part_of_a_part(
        heading("nearhand_build_info"@, "gauge"@, "The server's version, as a label."@),
        info,
        Seq::empty(),
        info,
    );
    lemma_part_of_a_part(Seq::empty(), a0, p0, info);
    lemma_part_of_a_part(Seq::empty(), a1, p1, info);
    lemma_part_of_a_part(Seq::empty(), a2, p2, info);
    lemma_part_of_a_part(Seq::empty(), a3, p3, info);
    lemma_part_of_a_part(Seq::empty(), a4, heading(
            "nearhand_introductions_refused_total"@,
            "counter"@,
            "Viewers refused an introduction, by why."@,
        ), info);
    lemma_part_of_a_part(Seq::empty(), a5, refusal_samples("nearhand_introductions_refused_total"@, labelled(s.refused@)), info);
    lemma_part_of_a_part(Seq::empty(), a6, page_of_bytes(&s), info);
    let l0 = "nearhand_uptime_seconds"@ + " "@ + decimal(s.uptime_secs as nat) + "\n"@;
    lemma_single_says("nearhand_uptime_seconds"@, "gauge"@, "Seconds since the server started."@, s.uptime_secs as nat);
    lemma_part_of_a_part(a0, p0, Seq::empty(), l0);
    lemma_part_of_a_part(Seq::empty(), a1, p1, l0);
    lemma_part_of_a_part(Seq::empty(), a2, p2, l0);
    lemma_part_of_a_part(Seq::empty(), a3, p3, l0);
    lemma_part_of_a_part(Seq::empty(), a4, heading(
            "nearhand_introductions_refused_total"@,
            "counter"@,
            "Viewers refused an introduction, by why."@,
        ), l0);
    lemma_part_of_a_part(Seq::empty(), a5, refusal_samples("nearhand_introductions_refused_total"@, labelled(s.refused@)), l0);
    lemma_part_of_a_part(Seq::empty(), a6, page_of_bytes(&s), l0);
    let l1 = "nearhand_agents_online"@ + " "@ + decimal(s.agents_online as nat) + "\n"@;
    lemma_single_says("nearhand_agents_online"@, "gauge"@, "Agents registered now, managed or not."@, s.agents_online as nat);
    lemma_part_of_a_part(a1, p1, Seq::empty(), l1);
    lemma_part_of_a_part(Seq::empty(), a2, p2, l1);
    lemma_part_of_a_part(Seq::empty(), a3, p3, l1);
    lemma_part_of_a_part(Seq::empty(), a4, heading(
            "nearhand_introductions_refused_total"@,
            "counter"@,
            "Viewers refused an introduction, by why."@,
        ), l1);
    lemma_part_of_a_part(Seq::empty(), a5, refusal_samples("nearhand_introductions_refused_total"@, labelled(s.refused@)), l1);
    lemma_part_of_a_part(Seq::empty(), a6, page_of_bytes(&s), l1);
    let l2 = "nearhand_devices_enrolled"@ + " "@ + decimal(s.devices_enrolled as nat) + "\n"@;
    lemma_single_says("nearhand_devices_enrolled"@, "gauge"@, "Devices in the server's list."@, s.devices_enrolled as nat);
    lemma_part_of_a_part(a2, p2, Seq::empty(), l2);
    lemma_part_of_a_part(Seq::empty(), a3, p3, l2);
    lemma_part_of_a_part(Seq::empty(), a4, heading(
            "nearhand_introductions_refused_total"@,
            "counter"@,
            "Viewers refused an introduction, by why."@,
        ), l2);
    lemma_part_of_a_part(Seq::empty(), a5, refusal_samples("nearhand_introductions_refused_total"@, labelled(s.refused@)), l2);
    lemma_part_of_a_part(Seq::empty(), a6, page_of_bytes(&s), l2);
    let l3 = "nearhand_introductions_total"@ + " "@ + decimal(s.introduced as nat) + "\n"@;
    lemma_single_says("nearhand_introductions_total"@, "counter"@, "Viewers introduced to an agent that opened its way to them."@, s.introduced as nat);
    lemma_part_of_a_part(a3, p3, Seq::empty(), l3);
    lemma_part_of_a_part(Seq::empty(), a4, heading(
            "nearhand_introductions_refused_total"@,
            "counter"@,
            "Viewers refused an introduction, by why."@,
        ), l3);
    lemma_part_of_a_part(Seq::empty(), a5, refusal_samples("nearhand_introductions_refused_total"@, labelled(s.refused@)), l3);
    lemma_part_of_a_part(Seq::empty(), a6, page_of_bytes(&s), l3);
    let q0 = single("nearhand_relay_tunnels_open"@, "gauge"@, "Viewers' tunnels open now. A viewer that connected directly closes its own at once."@, s.tunnels as nat);
    let b0 = q0;
    let q1 = single("nearhand_relayed_bytes_total"@, "counter"@, "Bytes relayed, both directions together."@, s.relayed_bytes as nat);
    let b1 = b0 + q1;
    let q2 = single("nearhand_relay_ceilings_reached_total"@, "counter"@, "Relayed sessions let go at relay.max_gb."@, s.capped as nat);
    let b2 = b1 + q2;
    let q3 = single("nearhand_update_downloads_active"@, "gauge"@, "Agent packages being sent now."@, s.packages_sending as nat);
    let b3 = b2 + q3;
    let q4 = single("nearhand_update_downloads_total"@, "counter"@, "Agent packages sent in full."@, s.packages_sent as nat);
    let b4 = b3 + q4;
    assert(page_of_bytes(&s) == b4);
    let m0 = "nearhand_relay_tunnels_open"@ + " "@ + decimal(s.tunnels as nat) + "\n"@;
    lemma_single_says("nearhand_relay_tunnels_open"@, "gauge"@, "Viewers' tunnels open now. A viewer that connected directly closes its own at once."@, s.tunnels as nat);
    lemma_part_of_a_part(Seq::empty(), b0, q1, m0);
    lemma_part_of_a_part(Seq::empty(), b1, q2, m0);
    lemma_part_of_a_part(Seq::empty(), b2, q3, m0);
    lemma_part_of_a_part(Seq::empty(), b3, q4, m0);
    lemma_part_of_a_part(page_of_agents(&s), b4, Seq::empty(), m0);
    let m1 = "nearhand_relayed_bytes_total"@ + " "@ + decimal(s.relayed_bytes as nat) + "\n"@;
    lemma_single_says("nearhand_relayed_bytes_total"@, "counter"@, "Bytes relayed, both directions together."@, s.relayed_bytes as nat);
    lemma_part_of_a_part(b0, q1, Seq::empty(), m1);
    lemma_part_of_a_part(Seq::empty(), b1, q2, m1);
    lemma_part_of_a_part(Seq::empty(), b2, q3, m1);
    lemma_part_of_a_part(Seq::empty(), b3, q4, m1);
    lemma_part_of_a_part(page_of_agents(&s), b4, Seq::empty(), m1);
    let m2 = "nearhand_relay_ceilings_reached_total"@ + " "@ + decimal(s.capped as nat) + "\n"@;
    lemma_single_says("nearhand_relay_ceilings_reached_total"@, "counter"@, "Relayed sessions let go at relay.max_gb."@, s.capped as nat);
    lemma_part_of_a_part(b1, q2, Seq::empty(), m2);
    lemma_part_of_a_part(Seq::empty(), b2, q3, m2);
    lemma_part_of_a_part(Seq::empty(), b3, q4, m2);
    lemma_part_of_a_part(page_of_agents(&s), b4, Seq::empty(), m2);
    let m3 = "nearhand_update_downloads_active"@ + " "@ + decimal(s.packages_sending as nat) + "\n"@;
    lemma_single_says("nearhand_update_downloads_active"@, "gauge"@, "Agent packages being sent now."@, s.packages_sending as nat);
    lemma_part_of_a_part(b2, q3, Seq::empty(), m3);
    lemma_part_of_a_part(Seq::empty(), b3, q4, m3);
    lemma_part_of_a_part(page_of_agents(&s), b4, Seq::empty(), m3);
    let m4 = "nearhand_update_downloads_total"@ + " "@ + decimal(s.packages_sent as nat) + "\n"@;
    lemma_single_says("nearhand_update_downloads_total"@, "counter"@, "Agent packages sent in full."@, s.packages_sent as nat);
    lemma_part_of_a_part(b3, q4, Seq::empty(), m4);
    lemma_part_of_a_part(page_of_agents(&s), b4, Seq::empty(), m4);
}

}
