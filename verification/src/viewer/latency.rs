//! Latency accounting.
//!
//! Every presented frame yields one sample, split into stages so a regression
//! points at its cause:
//!
//! ```text
//! capture ──[network + encode]── received ──[decode]── decoded ──[render]── presented
//! ```
//!
//! Capture is stamped on the agent's clock and placed on ours with the offset
//! between the two; the other three are local. All in microseconds.

use super::frames::FrameReady;
use super::pace::{elapsed, elapsed_of};
use crate::sort::{sorted, sorted_form};
use vstd::prelude::*;

verus! {

/// Statistics cover this much recent history.
pub const WINDOW: u64 = 2_000_000;

/// One presented frame.
#[derive(Debug, Clone, Copy, PartialEq, Eq, Structural)]
pub struct Sample {
    pub at: u64,
    /// `None` until the clock offset is known.
    pub total: Option<u64>,
    pub network: Option<u64>,
    pub decode: u64,
    pub render: u64,
}

/// The agent's capture time, on this machine's clock, if it falls on it.
pub open spec fn captured(capture: u64, offset: Option<i64>) -> Option<u64> {
    match offset {
        None => None,
        Some(ahead) => if 0 <= capture - ahead <= u64::MAX {
            Some((capture - ahead) as u64)
        } else {
            None
        },
    }
}

fn captured_at(capture: u64, offset: Option<i64>) -> (at: Option<u64>)
    ensures
        at == captured(capture, offset),
{
    match offset {
        None => None,
        Some(ahead) => {
            let at: i128 = capture as i128 - ahead as i128;
            if 0 <= at && at <= u64::MAX as i128 {
                Some(at as u64)
            } else {
                None
            }
        },
    }
}

/// The stages of a frame presented at `presented`.
pub open spec fn sample_of(
    frame: FrameReady,
    presented: u64,
    offset: Option<i64>,
    now: u64,
) -> Sample {
    Sample {
        at: now,
        total: match captured(frame.capture_ts_us, offset) {
            Some(at) => Some(elapsed_of(at, presented) as u64),
            None => None,
        },
        network: match captured(frame.capture_ts_us, offset) {
            Some(at) => Some(elapsed_of(at, frame.received_us) as u64),
            None => None,
        },
        decode: elapsed_of(frame.received_us, frame.decoded_us) as u64,
        render: elapsed_of(frame.decoded_us, presented) as u64,
    }
}

/// `samples` without those at the front that are too old at `now`.
pub open spec fn recent(samples: Seq<Sample>, now: u64) -> Seq<Sample>
    decreases samples.len(),
{
    if samples.len() > 0 && elapsed_of(samples[0].at, now) > WINDOW {
        recent(samples.skip(1), now)
    } else {
        samples
    }
}

/// What the samples come to.
#[derive(Debug, Clone, Copy, PartialEq, Eq, Structural)]
pub struct Summary {
    pub frames: usize,
    /// From the first sample to the last; none for fewer than two.
    pub span: u64,
    pub total_p50: Option<u64>,
    pub total_p95: Option<u64>,
    pub network_p50: Option<u64>,
    pub decode_p50: u64,
    pub render_p50: u64,
}

/// The samples of the last moments, and how many frames were never shown.
#[derive(Debug)]
pub struct Latency {
    samples: Vec<Sample>,
    skipped: u64,
}

impl Latency {
    pub closed spec fn samples(&self) -> Seq<Sample> {
        self.samples@
    }

    pub closed spec fn skipped_so_far(&self) -> u64 {
        self.skipped
    }

    pub fn new() -> (latency: Latency)
        ensures
            latency.samples() == Seq::<Sample>::empty(),
            latency.skipped_so_far() == 0,
    {
        Latency { samples: Vec::new(), skipped: 0 }
    }

    /// Record a frame that was just presented at `presented`.
    pub fn record(&mut self, frame: &FrameReady, presented: u64, offset: Option<i64>, now: u64)
        requires
            old(self).skipped_so_far() + frame.skipped <= u64::MAX,
        ensures
            final(self).samples() == recent(
                old(self).samples().push(sample_of(*frame, presented, offset, now)),
                now,
            ),
            final(self).skipped_so_far() == old(self).skipped_so_far() + frame.skipped,
    {
        let at = captured_at(frame.capture_ts_us, offset);
        let sample = Sample {
            at: now,
            total: match at {
                Some(at) => Some(elapsed(at, presented)),
                None => None,
            },
            network: match at {
                Some(at) => Some(elapsed(at, frame.received_us)),
                None => None,
            },
            decode: elapsed(frame.received_us, frame.decoded_us),
            render: elapsed(frame.decoded_us, presented),
        };
        self.samples.push(sample);
        self.skipped = self.skipped + frame.skipped as u64;
        let ghost all = self.samples@;
        while self.samples.len() > 0 && elapsed(self.samples[0].at, now) > WINDOW
            invariant
                recent(self.samples@, now) == recent(all, now),
                self.skipped == old(self).skipped + frame.skipped,
            decreases self.samples.len(),
        {
            let ghost before = self.samples@;
            let gone = self.samples.remove(0);
            assert(self.samples@ =~= before.skip(1));
        }
    }

    pub fn skipped(&self) -> (skipped: u64)
        ensures
            skipped == self.skipped_so_far(),
    {
        self.skipped
    }

    /// The middle and the slow end of each stage.
    pub fn summary(&self) -> (summary: Summary)
        ensures
            sums_up(self.samples(), summary),
    {
        let n: usize = self.samples.len();
        let span: u64 = if n > 1 {
            elapsed(self.samples[0].at, self.samples[n - 1].at)
        } else {
            0
        };
        let mut total: Vec<u64> = Vec::new();
        let mut network: Vec<u64> = Vec::new();
        let mut decode: Vec<u64> = Vec::new();
        let mut render: Vec<u64> = Vec::new();
        let mut i: usize = 0;
        let ghost s = self.samples@;
        proof {
            assert(s.take(0) =~= Seq::<Sample>::empty());
            assert(decode@ =~= decodes(s.take(0)));
            assert(render@ =~= renders(s.take(0)));
        }
        while i < n
            invariant
                i <= n,
                n == self.samples@.len(),
                s == self.samples@,
                total@ == totals(s.take(i as int)),
                network@ == networks(s.take(i as int)),
                decode@ == decodes(s.take(i as int)),
                render@ == renders(s.take(i as int)),
            decreases n - i,
        {
            let sample = self.samples[i];
            proof {
                assert(s.take(i + 1).drop_last() =~= s.take(i as int));
                assert(s.take(i + 1).last() == sample);
            }
            if let Some(t) = sample.total {
                total.push(t);
            }
            if let Some(t) = sample.network {
                network.push(t);
            }
            decode.push(sample.decode);
            render.push(sample.render);
            assert(decode@ =~= decodes(s.take(i + 1)));
            assert(render@ =~= renders(s.take(i + 1)));
            i = i + 1;
        }
        assert(s.take(i as int) =~= s);
        Summary {
            frames: n,
            span,
            total_p50: percentile(&total, 1, 2),
            total_p95: percentile(&total, 19, 20),
            network_p50: percentile(&network, 1, 2),
            decode_p50: match percentile(&decode, 1, 2) {
                Some(t) => t,
                None => 0,
            },
            render_p50: match percentile(&render, 1, 2) {
                Some(t) => t,
                None => 0,
            },
        }
    }
}

pub open spec fn totals(samples: Seq<Sample>) -> Seq<u64>
    decreases samples.len(),
{
    if samples.len() == 0 {
        Seq::empty()
    } else {
        match samples.last().total {
            Some(t) => totals(samples.drop_last()).push(t),
            None => totals(samples.drop_last()),
        }
    }
}

pub open spec fn networks(samples: Seq<Sample>) -> Seq<u64>
    decreases samples.len(),
{
    if samples.len() == 0 {
        Seq::empty()
    } else {
        match samples.last().network {
            Some(t) => networks(samples.drop_last()).push(t),
            None => networks(samples.drop_last()),
        }
    }
}

pub open spec fn decodes(samples: Seq<Sample>) -> Seq<u64> {
    samples.map_values(|sample: Sample| sample.decode)
}

pub open spec fn renders(samples: Seq<Sample>) -> Seq<u64> {
    samples.map_values(|sample: Sample| sample.render)
}

/// Where in `n` sorted numbers the fraction `part / of` falls: the nearest
/// place, and of two the later.
pub open spec fn rank(n: nat, part: nat, of: nat) -> int {
    (2 * (n - 1) * part + of) / (2 * of as int)
}

/// `found` is the number at the fraction `part / of` of `values` in rising
/// order; there is none among none.
pub open spec fn ranked(values: Seq<u64>, part: nat, of: nat, found: Option<u64>) -> bool {
    match found {
        None => values.len() == 0,
        Some(v) => values.len() > 0 && exists|s: Seq<u64>|
            #[trigger] sorted_form(s, values) && s.len() == values.len() && 0 <= rank(
                values.len(),
                part,
                of,
            ) < s.len() && s[rank(values.len(), part, of)] == v,
    }
}

/// The number at the fraction `part / of` of `values` in rising order.
pub fn percentile(values: &[u64], part: u64, of: u64) -> (found: Option<u64>)
    requires
        0 < of <= 0x3fff_ffff_ffff_ffff,
        part <= of,
    ensures
        ranked(values@, part as nat, of as nat, found),
{
    if values.len() == 0 {
        return None;
    }
    let sorted = sorted(values);
    let m: u128 = (sorted.len() - 1) as u128;
    proof {
        let n = values@.len() as int;
        assert(m == n - 1);
        assert(0 <= m * part <= 0xffff_ffff_ffff_ffff * 0x3fff_ffff_ffff_ffff) by (nonlinear_arith)
            requires
                m <= 0xffff_ffff_ffff_ffff,
                part <= 0x3fff_ffff_ffff_ffff,
        ;
        assert(2 * m * part == 2 * (m * part)) by (nonlinear_arith);
        assert((2 * m * part + of) / (2 * of as int) <= m && 0 <= (2 * m * part + of) / (2
            * of as int)) by (nonlinear_arith)
            requires
                0 < of,
                part <= of,
                0 <= m,
        ;
    }
    let at: u128 = (2 * (m * part as u128) + of as u128) / (2 * of as u128);
    let at: usize = at as usize;
    assert(at == rank(values@.len(), part as nat, of as nat));
    assert(sorted_form(sorted@, values@));
    Some(sorted[at])
}

/// These samples come to this.
pub open spec fn sums_up(samples: Seq<Sample>, summary: Summary) -> bool {
    &&& summary.frames == samples.len()
    &&& summary.span == (if samples.len() > 1 {
        elapsed_of(samples[0].at, samples.last().at)
    } else {
        0
    })
    &&& ranked(totals(samples), 1, 2, summary.total_p50)
    &&& ranked(totals(samples), 19, 20, summary.total_p95)
    &&& ranked(networks(samples), 1, 2, summary.network_p50)
    &&& ranked(decodes(samples), 1, 2, Some(summary.decode_p50)) || samples.len() == 0
        && summary.decode_p50 == 0
    &&& ranked(renders(samples), 1, 2, Some(summary.render_p50)) || samples.len() == 0
        && summary.render_p50 == 0
}

/// The stages of a frame make up its whole way, from its capture to the
/// screen, where the clocks agree.
pub proof fn lemma_stages_make_up_the_whole(
    frame: FrameReady,
    presented: u64,
    offset: i64,
    now: u64,
)
    requires
        0 <= frame.capture_ts_us - offset <= frame.received_us <= frame.decoded_us <= presented,
    ensures
        ({
            let sample = sample_of(frame, presented, Some(offset), now);
            &&& sample.total matches Some(total) && sample.network matches Some(network) && total
                == network + sample.decode + sample.render && total == presented - (
            frame.capture_ts_us - offset)
            &&& sample.decode == frame.decoded_us - frame.received_us
            &&& sample.render == presented - frame.decoded_us
            &&& sample.at == now
            &&& sample_of(frame, presented, None, now).total is None
            &&& sample_of(frame, presented, None, now).network is None
        }),
{
}

/// What is kept are the latest samples, all that are no older than two seconds
/// where they come in order; what is let go is older.
pub proof fn lemma_two_seconds_are_kept(samples: Seq<Sample>, now: u64) -> (from: int)
    ensures
        0 <= from <= samples.len(),
        recent(samples, now) == samples.skip(from),
        forall|i: int| 0 <= i < from ==> now - (#[trigger] samples[i]).at > 2_000_000,
        from < samples.len() ==> now - samples[from].at <= 2_000_000,
    decreases samples.len(),
{
    if samples.len() > 0 && elapsed_of(samples[0].at, now) > WINDOW {
        let from = lemma_two_seconds_are_kept(samples.skip(1), now);
        assert(samples.skip(1).skip(from) =~= samples.skip(from + 1));
        assert forall|i: int| 0 <= i < from + 1 implies now - (#[trigger] samples[i]).at > 2_000_000 by {
            if i > 0 {
                assert(samples.skip(1)[i - 1] == samples[i]);
            }
        }
        from + 1
    } else {
        assert(samples.skip(0) =~= samples);
        0
    }
}

/// The place of a fraction is the nearest there is, the later of two, and
/// within the numbers; what is found is one of them.
pub proof fn lemma_the_nearest_place(values: Seq<u64>, part: nat, of: nat, found: Option<u64>)
    requires
        0 < of && part <= of,
        ranked(values, part, of, found),
    ensures
        values.len() == 0 <==> found is None,
        values.len() > 0 ==> {
            let place = rank(values.len(), part, of);
            &&& 0 <= place < values.len()
            &&& 2 * (place * of) - 2 * ((values.len() - 1) * part) <= of
            &&& 2 * ((values.len() - 1) * part) - 2 * (place * of) < of
        },
        found matches Some(v) ==> values.contains(v),
{
    if values.len() > 0 {
        let n = values.len() as int;
        let x = 2 * (n - 1) * part + of;
        let place = rank(values.len(), part, of);
        assert(place * (2 * of) <= x < place * (2 * of) + 2 * of) by (nonlinear_arith)
            requires
                place == x / (2 * of as int),
                of > 0,
        ;
        assert(place * (2 * of) == 2 * (place * of)) by (nonlinear_arith);
        assert(2 * (n - 1) * part == 2 * ((n - 1) * part)) by (nonlinear_arith);
        let s = choose|s: Seq<u64>|
            #[trigger] sorted_form(s, values) && s.len() == values.len() && 0 <= rank(
                values.len(),
                part,
                of,
            ) < s.len() && s[rank(values.len(), part, of)] == found->0;
        assert(s.contains(s[place]));
        assert(s.to_multiset() == values.to_multiset());
        broadcast use vstd::seq_lib::group_to_multiset_ensures;
        assert(s.to_multiset().count(s[place]) > 0);
        assert(values.to_multiset().count(s[place]) > 0);
    }
}

/// Where every frame's way is known, all of them count; one that is not does
/// not count.
pub proof fn lemma_known_ways_count(samples: Seq<Sample>, more: Sample)
    ensures
        totals(samples.push(more)) == (match more.total {
            Some(total) => totals(samples).push(total),
            None => totals(samples),
        }),
        networks(samples.push(more)) == (match more.network {
            Some(network) => networks(samples).push(network),
            None => networks(samples),
        }),
        decodes(samples.push(more)) == decodes(samples).push(more.decode),
        renders(samples.push(more)) == renders(samples).push(more.render),
{
    assert(samples.push(more).drop_last() =~= samples);
    assert(decodes(samples.push(more)) =~= decodes(samples).push(more.decode));
    assert(renders(samples.push(more)) =~= renders(samples).push(more.render));
}

}
