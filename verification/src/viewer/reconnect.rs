//! Getting back to an agent that went away, and telling a loss from a
//! decision.
//!
//! An agent that goes away saying it may be back is reached again, and so is
//! one whose connection was lost; anything the agent or its person decided is
//! final. Times are microseconds on one clock that does not run backwards.

use super::pace::{elapsed, elapsed_of};
use crate::text::{decimal, push_decimal};
use vstd::prelude::*;

verus! {

/// How long to keep trying to get back. The service moving an agent to the
/// session someone just signed in to takes seconds; a restart of the service,
/// a few more.
pub const RECONNECT_FOR: u64 = 120_000_000;

pub const RECONNECT_FIRST: u64 = 1_000_000;

pub const RECONNECT_MAX: u64 = 10_000_000;

/// How one session came out.
#[derive(Debug, Clone, Copy, PartialEq, Eq, Structural)]
pub enum Attempt {
    /// It ended as it should.
    Ended,
    /// The agent or the person at it decided, or the two ends do not fit.
    Refused,
    /// It failed in any other way.
    Lost,
}

/// What to do about it.
#[derive(Debug, Clone, Copy, PartialEq, Eq, Structural)]
pub enum Next {
    /// Done, and well.
    Finish,
    /// Report the failure as it is.
    Fail,
    /// Report that there was no getting back in time.
    GiveUp,
    /// Try again after this long.
    Retry { wait: u64 },
}

/// Coming back, over as many sessions as it takes.
#[derive(Debug)]
pub struct Reconnect {
    established: bool,
    lost_at: Option<u64>,
    wait: u64,
}

/// Since when there has been no session, once one is over.
pub open spec fn lost_since(
    established: bool,
    lost_at: Option<u64>,
    attempt: Attempt,
    reached: bool,
    now: u64,
) -> Option<u64> {
    let lost = if reached {
        None
    } else {
        lost_at
    };
    if attempt == Attempt::Lost && (established || reached) && lost is None {
        Some(now)
    } else {
        lost
    }
}

/// What comes after a session: a failure is tried again only once some
/// session got as far as the picture, and not for ever.
pub open spec fn verdict(
    established: bool,
    lost_at: Option<u64>,
    wait: u64,
    attempt: Attempt,
    reached: bool,
    now: u64,
) -> Next {
    match attempt {
        Attempt::Ended => Next::Finish,
        Attempt::Refused => Next::Fail,
        Attempt::Lost => if !established && !reached {
            Next::Fail
        } else if elapsed_of(
            lost_since(established, lost_at, attempt, reached, now)->0,
            now,
        ) >= RECONNECT_FOR {
            Next::GiveUp
        } else {
            Next::Retry {
                wait: if reached {
                    RECONNECT_FIRST
                } else {
                    wait
                },
            }
        },
    }
}

/// What the agent or its person decided is final: no coming back.
pub proof fn lemma_refusals_are_final(
    established: bool,
    lost_at: Option<u64>,
    wait: u64,
    reached: bool,
    now: u64,
)
    ensures
        verdict(established, lost_at, wait, Attempt::Refused, reached, now) == Next::Fail,
{
}

/// A first connection that fails is not tried again.
pub proof fn lemma_first_failure_is_reported(wait: u64, attempt: Attempt, now: u64)
    requires
        attempt != Attempt::Ended,
    ensures
        verdict(false, None, wait, attempt, false, now) == Next::Fail,
{
}

/// Trying again ends: two minutes after the loss, the next failure is the
/// last.
pub proof fn lemma_retries_end(
    established: bool,
    since: u64,
    wait: u64,
    attempt: Attempt,
    now: u64,
)
    requires
        elapsed_of(since, now) >= RECONNECT_FOR,
    ensures
        !(verdict(established, Some(since), wait, attempt, false, now) is Retry),
{
}

/// A session that got as far as the picture starts the waiting over.
pub proof fn lemma_reaching_starts_over(lost_at: Option<u64>, wait: u64, now: u64)
    ensures
        verdict(true, lost_at, wait, Attempt::Lost, true, now) == (Next::Retry {
            wait: RECONNECT_FIRST,
        }),
{
}

impl Reconnect {
    /// Some session got as far as the picture.
    pub closed spec fn established(&self) -> bool {
        self.established
    }

    /// Since when there has been none, if there is none.
    pub closed spec fn lost_at(&self) -> Option<u64> {
        self.lost_at
    }

    pub closed spec fn wait(&self) -> u64 {
        self.wait
    }

    pub open spec fn wf(&self) -> bool {
        RECONNECT_FIRST <= self.wait() <= RECONNECT_MAX
    }

    pub fn new() -> (reconnect: Reconnect)
        ensures
            reconnect.wf(),
            !reconnect.established(),
            reconnect.lost_at() is None,
            reconnect.wait() == RECONNECT_FIRST,
    {
        Reconnect { established: false, lost_at: None, wait: RECONNECT_FIRST }
    }

    /// A session is over; `reached` says whether it got as far as the
    /// picture.
    pub fn after(&mut self, attempt: Attempt, reached: bool, now: u64) -> (next: Next)
        requires
            old(self).wf(),
        ensures
            final(self).wf(),
            final(self).established() == (old(self).established() || reached),
            final(self).wait() == (if reached {
                RECONNECT_FIRST
            } else {
                old(self).wait()
            }),
            final(self).lost_at() == lost_since(
                old(self).established(),
                old(self).lost_at(),
                attempt,
                reached,
                now,
            ),
            next == verdict(
                old(self).established(),
                old(self).lost_at(),
                old(self).wait(),
                attempt,
                reached,
                now,
            ),
    {
        if reached {
            self.established = true;
            self.lost_at = None;
            self.wait = RECONNECT_FIRST;
        }
        match attempt {
            Attempt::Ended => Next::Finish,
            Attempt::Refused => Next::Fail,
            Attempt::Lost => {
                // Before any session got going, say what is wrong rather than
                // keep a person waiting to hear it.
                if !self.established {
                    return Next::Fail;
                }
                let since: u64 = match self.lost_at {
                    Some(at) => at,
                    None => now,
                };
                self.lost_at = Some(since);
                if elapsed(since, now) >= RECONNECT_FOR {
                    Next::GiveUp
                } else {
                    Next::Retry { wait: self.wait }
                }
            },
        }
    }

    /// What `waited` does.
    pub open spec fn waits(
        before: u64,
        after: u64,
        now: u64,
        deadline: Option<u64>,
        go_on: bool,
    ) -> bool {
        &&& go_on == !(deadline matches Some(at) && now >= at)
        &&& after == (if !go_on {
            before as int
        } else if before * 2 > RECONNECT_MAX {
            RECONNECT_MAX as int
        } else {
            before * 2
        })
    }

    /// The wait before another try is over: whether to go on. Past the
    /// deadline there is nothing more to watch.
    pub fn waited(&mut self, now: u64, deadline: Option<u64>) -> (go_on: bool)
        requires
            old(self).wf(),
        ensures
            final(self).wf(),
            final(self).established() == old(self).established(),
            final(self).lost_at() == old(self).lost_at(),
            Reconnect::waits(old(self).wait(), final(self).wait(), now, deadline, go_on),
    {
        if let Some(at) = deadline {
            if now >= at {
                return false;
            }
        }
        let doubled: u64 = self.wait * 2;
        self.wait = if doubled > RECONNECT_MAX {
            RECONNECT_MAX
        } else {
            doubled
        };
        true
    }
}

/// Seconds, as they are shown: `120s`.
pub open spec fn seconds(micros: u64) -> Seq<char> {
    decimal((micros / 1_000_000) as nat) + "s"@
}

fn push_seconds(out: &mut String, micros: u64)
    ensures
        final(out)@ == old(out)@ + seconds(micros),
{
    push_decimal(out, micros / 1_000_000);
    out.append("s");
    assert(out@ =~= old(out)@ + seconds(micros));
}

/// What is said when there was no getting back.
pub fn gave_up(target: &str) -> (text: String)
    ensures
        text@ == "could not get back to "@ + target@ + " within "@ + seconds(RECONNECT_FOR),
{
    let mut text = "could not get back to ".to_owned();
    text.append(target);
    text.append(" within ");
    push_seconds(&mut text, RECONNECT_FOR);
    text
}

/// What is said before another try.
pub fn trying_again(target: &str, why: &str, wait: u64) -> (text: String)
    ensures
        text@ == "lost "@ + target@ + " ("@ + why@ + "); trying again in "@ + seconds(wait) + "…"@,
{
    let mut text = "lost ".to_owned();
    text.append(target);
    text.append(" (");
    text.append(why);
    text.append("); trying again in ");
    push_seconds(&mut text, wait);
    text.append("…");
    text
}

// --- Why a connection is over ---------------------------------------------------------

/// How a connection ended, if it has.
#[derive(Debug)]
pub enum Closed {
    /// The agent closed it, with a code and its reason in words.
    ByAgent { code: u64, reason: String },
    /// This side closed it.
    Locally,
    /// It was lost; how, in words.
    Lost(String),
    /// It is not known to be over.
    NotClosed,
}

/// The codes that mean something of their own.
#[derive(Debug, Clone, Copy, PartialEq, Eq, Structural)]
pub struct CloseCodes {
    /// A goodbye.
    pub normal: u64,
    /// Gone, and may be back.
    pub going_away: u64,
}

/// What the end of a connection means.
#[derive(Debug)]
pub enum Ending {
    /// The session is over; the agent may have said why.
    Over(Option<String>),
    /// Decided: trying again would not help.
    Refused(String),
    /// It may be back.
    Lost(String),
    /// The connection tells nothing: whatever failed speaks for itself.
    Unexplained,
}

pub open spec fn agent_closed(reason: Seq<char>, code: u64) -> Seq<char> {
    "agent closed the connection: "@ + reason + " (code "@ + decimal(code as nat) + ")"@
}

/// This is why a connection is over.
pub open spec fn explains(closed: &Closed, codes: CloseCodes, ending: &Ending) -> bool {
    match closed {
        Closed::ByAgent { code, reason } => if *code == codes.going_away {
            ending matches Ending::Lost(text) && text@ == agent_closed(reason@, *code)
        } else {
            ending matches Ending::Refused(text) && text@ == agent_closed(reason@, *code)
        },
        Closed::Locally => ending matches Ending::Lost(text) && text@ == "connection lost: closed"@,
        Closed::Lost(how) => ending matches Ending::Lost(text) && text@ == "connection lost: "@
            + how@,
        Closed::NotClosed => ending is Unexplained,
    }
}

/// Why the connection is over, in words, and whether trying again could help.
/// An agent that closed with a reason decided something, except when it says
/// it may be back. A connection lost without a word may be back too.
pub fn explain(closed: &Closed, codes: CloseCodes) -> (ending: Ending)
    ensures
        explains(closed, codes, &ending),
{
    match closed {
        Closed::ByAgent { code, reason } => {
            let mut text = "agent closed the connection: ".to_owned();
            text.append(reason);
            text.append(" (code ");
            push_decimal(&mut text, *code);
            text.append(")");
            if *code == codes.going_away {
                Ending::Lost(text)
            } else {
                Ending::Refused(text)
            }
        },
        Closed::Locally => Ending::Lost("connection lost: closed".to_owned()),
        Closed::Lost(how) => {
            let mut text = "connection lost: ".to_owned();
            text.append(how);
            Ending::Lost(text)
        },
        Closed::NotClosed => Ending::Unexplained,
    }
}

/// This is how a session ends with its connection.
pub open spec fn ends_as(closed: &Closed, codes: CloseCodes, ending: &Ending) -> bool {
    match closed {
        Closed::ByAgent { code, reason } => if *code == codes.normal {
            ending matches Ending::Over(Some(said)) && said@ == reason@
        } else if *code == codes.going_away {
            ending matches Ending::Lost(text) && text@ == agent_closed(reason@, *code)
        } else {
            ending matches Ending::Refused(text) && text@ == agent_closed(reason@, *code)
        },
        Closed::Locally => ending matches Ending::Over(said) && said is None,
        Closed::Lost(how) => ending matches Ending::Lost(text) && text@ == "connection lost: "@
            + how@,
        Closed::NotClosed => ending is Unexplained,
    }
}

/// The end of a session's connection: a goodbye from either side is the
/// session over, and anything else is for [`explain`] to name.
pub fn ended(closed: &Closed, codes: CloseCodes) -> (ending: Ending)
    ensures
        ends_as(closed, codes, &ending),
{
    match closed {
        Closed::ByAgent { code, reason } => {
            if *code == codes.normal {
                Ending::Over(Some(reason.clone()))
            } else {
                explain(closed, codes)
            }
        },
        Closed::Locally => Ending::Over(None),
        _ => explain(closed, codes),
    }
}

/// A session that was lost is tried again for two minutes from when it was,
/// once one had got as far as the picture; it waits a second at first.
pub proof fn lemma_lost_sessions_are_tried_again(
    established: bool,
    lost_at: Option<u64>,
    wait: u64,
    attempt: Attempt,
    reached: bool,
    now: u64,
)
    ensures
        ({
            let next = verdict(established, lost_at, wait, attempt, reached, now);
            &&& next is Finish <==> attempt is Ended
            &&& next is Fail <==> attempt is Refused || (attempt is Lost && !established && !reached)
            &&& next is GiveUp <==> attempt is Lost && established && !reached && (
            lost_at matches Some(since) && now - since >= 120_000_000)
            &&& next matches Next::Retry { wait: again } ==> again == (if reached {
                1_000_000
            } else {
                wait
            })
            &&& attempt is Lost && (reached || (established && lost_at is None)) ==> lost_since(
                established,
                lost_at,
                attempt,
                reached,
                now,
            ) == Some(now)
            &&& attempt is Lost && established && !reached && lost_at is Some ==> lost_since(
                established,
                lost_at,
                attempt,
                reached,
                now,
            ) == lost_at
            &&& attempt !is Lost && reached ==> lost_since(
                established,
                lost_at,
                attempt,
                reached,
                now,
            ) is None
        }),
{
}

/// The wait doubles with each try, up to ten seconds; past the deadline there
/// is no other.
pub proof fn lemma_waits_double(
    before: u64,
    after: u64,
    now: u64,
    deadline: Option<u64>,
    go_on: bool,
)
    requires
        Reconnect::waits(before, after, now, deadline, go_on),
    ensures
        deadline is None ==> go_on,
        deadline matches Some(at) ==> (go_on <==> now < at),
        go_on && before <= 5_000_000 ==> after == 2 * before,
        go_on && before > 5_000_000 ==> after == 10_000_000,
        !go_on ==> after == before,
{
}

/// What an agent decided is final, unless it said that it may be back; what
/// was lost without a word may be back. A goodbye, from either side, is the
/// end.
pub proof fn lemma_decisions_are_told_from_losses(
    closed: Closed,
    codes: CloseCodes,
    explained: Ending,
    ending: Ending,
)
    requires
        codes.normal != codes.going_away,
        explains(&closed, codes, &explained),
        ends_as(&closed, codes, &ending),
    ensures
        explained is Refused <==> (closed matches Closed::ByAgent { code, .. } && code
            != codes.going_away),
        explained is Lost <==> closed is Locally || closed is Lost || (closed matches Closed::ByAgent {
            code,
            ..
        } && code == codes.going_away),
        explained is Unexplained <==> closed is NotClosed,
        ending is Over <==> closed is Locally || (closed matches Closed::ByAgent { code, .. } && code
            == codes.normal),
        ending is Refused <==> (closed matches Closed::ByAgent { code, .. } && code != codes.going_away
            && code != codes.normal),
        ending is Unexplained <==> closed is NotClosed,
{
}

}
