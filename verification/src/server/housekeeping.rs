//! Rows nobody will read again.
//!
//! A server meant to run on one small machine for years cannot keep
//! everything for ever. Three things pile up on their own: the audit log,
//! console sessions that have expired, and the one-time link for the first
//! administrator once nobody used it.
//!
//! Sessions and setup tokens past their time are dead weight: they are
//! checked against the clock before they are honoured, so removing them
//! changes nothing but the size of the file. The audit log is different: it
//! is the record of who did what, so it goes only after `audit.keep_days`,
//! which is a year by default and can be turned off.

use super::accounts::{session_at, Accounts, Login, Record, SetupToken};
use super::audit::{Audit, Entry};
use super::rows::{keep, lemma_all_or_fewer, lemma_kept, lemma_left};
use vstd::prelude::*;

verus! {

/// Between sweeps, in seconds. Long enough to be invisible, short enough that
/// a server left running keeps up.
pub const EVERY: u64 = 86_400;

/// What one sweep removed.
#[derive(Debug, Clone, Copy, PartialEq, Eq, Structural)]
pub struct Swept {
    pub audit_entries: u64,
    pub sessions: u64,
    pub setup_tokens: u64,
}

impl Default for Swept {
    fn default() -> (swept: Swept)
        ensures
            swept == (Swept { audit_entries: 0, sessions: 0, setup_tokens: 0 }),
    {
        Swept { audit_entries: 0, sessions: 0, setup_tokens: 0 }
    }
}

impl Swept {
    pub fn nothing(&self) -> (yes: bool)
        ensures
            yes == (self.audit_entries == 0 && self.sessions == 0 && self.setup_tokens == 0),
    {
        *self == Swept::default()
    }
}

/// Sessions that have not expired at `now`.
pub open spec fn live(now: i64) -> spec_fn(Login) -> bool {
    |login: Login| login.expires_at >= now
}

/// Setup tokens that have not expired at `now`.
pub open spec fn usable(now: i64) -> spec_fn(SetupToken) -> bool {
    |token: SetupToken| token.expires_at >= now
}

/// Where the log that is kept starts.
pub open spec fn cutoff(keep_days: u32, now: i64) -> int {
    now - keep_days * 86_400
}

/// Entries to keep.
pub open spec fn remembered(keep_days: u32, now: i64) -> spec_fn(Entry) -> bool {
    |entry: Entry| keep_days == 0 || entry.at >= cutoff(keep_days, now)
}

/// One sweep, as of `now`. `keep_days` of 0 keeps the audit log for ever.
pub fn sweep(accounts: &mut Accounts, audit: &mut Audit, keep_days: u32, now: i64) -> (swept: Swept)
    requires
        old(accounts).wf(),
        old(audit).wf(),
        cutoff(keep_days, now) >= i64::MIN,
    ensures
        final(accounts).wf(),
        final(audit).wf(),
        final(accounts).users == old(accounts).users,
        final(accounts).tokens == old(accounts).tokens,
        final(accounts).attempts == old(accounts).attempts,
        final(accounts).logins@ == old(accounts).logins@.filter(live(now)),
        final(accounts).setup_tokens@ == old(accounts).setup_tokens@.filter(usable(now)),
        final(audit).entries@ == old(audit).entries@.filter(remembered(keep_days, now)),
        swept.sessions == old(accounts).logins@.len() - final(accounts).logins@.len(),
        swept.setup_tokens == old(accounts).setup_tokens@.len() - final(
            accounts).setup_tokens@.len(),
        swept.audit_entries == old(audit).entries@.len() - final(audit).entries@.len(),
{
    let all_logins: usize = accounts.logins.len();
    let mut logins: Vec<Login> = Vec::new();
    std::mem::swap(&mut logins, &mut accounts.logins);
    let lives = |login: &Login| -> (yes: bool)
        ensures
            yes == (login.expires_at >= now),
        {
            login.expires_at >= now
        };
    accounts.logins = keep(logins, lives, Ghost(live(now)));
    let all_setup: usize = accounts.setup_tokens.len();
    let mut setup: Vec<SetupToken> = Vec::new();
    std::mem::swap(&mut setup, &mut accounts.setup_tokens);
    let works = |token: &SetupToken| -> (yes: bool)
        ensures
            yes == (token.expires_at >= now),
        {
            token.expires_at >= now
        };
    accounts.setup_tokens = keep(setup, works, Ghost(usable(now)));
    let all_entries: usize = audit.entries.len();
    let mut entries: Vec<Entry> = Vec::new();
    std::mem::swap(&mut entries, &mut audit.entries);
    let before: i64 = now - keep_days as i64 * 86_400;
    let stays = |entry: &Entry| -> (yes: bool)
        ensures
            yes == (keep_days == 0 || entry.at >= before),
        {
            keep_days == 0 || entry.at >= before
        };
    audit.entries = keep(entries, stays, Ghost(remembered(keep_days, now)));
    proof {
        lemma_kept(old(accounts).logins@, live(now));
        lemma_kept(old(accounts).setup_tokens@, usable(now));
        lemma_kept(old(audit).entries@, remembered(keep_days, now));
        lemma_log_kept(old(audit).entries@, remembered(keep_days, now));
    }
    Swept {
        audit_entries: (all_entries - audit.entries.len()) as u64,
        sessions: (all_logins - accounts.logins.len()) as u64,
        setup_tokens: (all_setup - accounts.setup_tokens.len()) as u64,
    }
}

/// What is left of a log is still in order.
proof fn lemma_log_kept(entries: Seq<Entry>, which: spec_fn(Entry) -> bool)
    requires
        forall|i: int, j: int|
            0 <= i < j < entries.len() ==> (#[trigger] entries[i]).id < (#[trigger] entries[j]).id,
    ensures
        forall|i: int, j: int|
            0 <= i < j < entries.filter(which).len() ==> (#[trigger] entries.filter(which)[i]).id
                < (#[trigger] entries.filter(which)[j]).id,
    decreases entries.len(),
{
    reveal(Seq::filter);
    if entries.len() > 0 {
        let less = entries.drop_last();
        assert forall|i: int, j: int| 0 <= i < j < less.len() implies (#[trigger] less[i]).id < (
        #[trigger] less[j]).id by {
            assert(entries[i] == less[i] && entries[j] == less[j]);
        }
        lemma_log_kept(less, which);
        lemma_kept(less, which);
        let all = entries.filter(which);
        let held = less.filter(which);
        assert forall|i: int, j: int| 0 <= i < j < all.len() implies (#[trigger] all[i]).id < (
        #[trigger] all[j]).id by {
            assert(all[i] == held[i]);
            if j < held.len() {
                assert(all[j] == held[j]);
            } else {
                let m = choose|m: int| 0 <= m < less.len() && less[m] == held[i];
                assert(entries[m] == held[i]);
                assert(all[j] == entries[entries.len() - 1]);
            }
        }
    }
}

/// Keeping what is kept keeps all of it.
proof fn lemma_kept_twice<T>(rows: Seq<T>, which: spec_fn(T) -> bool)
    ensures
        rows.filter(which).filter(which) == rows.filter(which),
{
    lemma_kept(rows, which);
    lemma_all_or_fewer(rows.filter(which), which);
}

/// A second sweep at the same time finds nothing left to take.
pub proof fn lemma_nothing_is_left_to_take(
    logins: Seq<Login>,
    setup: Seq<SetupToken>,
    entries: Seq<Entry>,
    keep_days: u32,
    now: i64,
)
    ensures
        logins.filter(live(now)).filter(live(now)) == logins.filter(live(now)),
        setup.filter(usable(now)).filter(usable(now)) == setup.filter(usable(now)),
        entries.filter(remembered(keep_days, now)).filter(remembered(keep_days, now))
            == entries.filter(remembered(keep_days, now)),
{
    lemma_kept_twice(logins, live(now));
    lemma_kept_twice(setup, usable(now));
    lemma_kept_twice(entries, remembered(keep_days, now));
}

/// Zero days keep the audit log whole.
pub proof fn lemma_zero_days_keep_the_log(entries: Seq<Entry>, now: i64)
    ensures
        entries.filter(remembered(0, now)) == entries,
{
    lemma_all_or_fewer(entries, remembered(0, now));
}

/// No session that would still be honoured is swept away: a token stands for
/// the same account after a sweep as before.
pub proof fn lemma_sessions_in_use_stay(
    logins: Seq<Login>,
    users: Seq<Record>,
    hash: Seq<u8>,
    now: i64,
    later: i64,
)
    requires
        now <= later,
    ensures
        session_at(logins.filter(live(now)), users, hash, later) == session_at(
            logins,
            users,
            hash,
            later,
        ),
    decreases logins.len(),
{
    reveal(Seq::filter);
    if logins.len() > 0 {
        lemma_sessions_in_use_stay(logins.drop_last(), users, hash, now, later);
        let held = logins.drop_last().filter(live(now));
        if logins.last().expires_at >= now {
            assert(held.push(logins.last()).drop_last() =~= held);
        }
    }
}

/// A sweep takes the sessions and setup tokens whose time is over, and of the
/// log what is older than the days it is kept; and nothing else.
pub proof fn lemma_only_the_old_is_swept(
    logins: Seq<Login>,
    login: Login,
    setup: Seq<SetupToken>,
    token: SetupToken,
    entries: Seq<Entry>,
    entry: Entry,
    keep_days: u32,
    now: i64,
)
    ensures
        logins.filter(live(now)).contains(login) <==> logins.contains(login) && !(login.expires_at
            < now),
        setup.filter(usable(now)).contains(token) <==> setup.contains(token) && !(token.expires_at
            < now),
        entries.filter(remembered(keep_days, now)).contains(entry) <==> entries.contains(entry) && !(
        keep_days > 0 && now - entry.at > keep_days * 86_400),
{
    lemma_left(logins, live(now), login);
    lemma_left(setup, usable(now), token);
    lemma_left(entries, remembered(keep_days, now), entry);
}

}
