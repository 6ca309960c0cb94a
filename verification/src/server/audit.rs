//! The audit log: every change an administrator makes, every sign-in and
//! failed one, every device enrolled, and every session a grant opened or a
//! missing grant refused: who, when, from where.
//!
//! Entries are only added.

use super::rows::{fresh_id, next_id, Row};
use crate::net::Ip;
use vstd::prelude::*;

verus! {

/// The most entries one request returns.
pub const MAX_PAGE: u32 = 500;

#[derive(Debug, Clone, PartialEq, Eq)]
pub struct Entry {
    pub id: i64,
    pub at: i64,
    /// The user's name as it was; none for the server itself, or someone not
    /// signed in.
    pub actor: Option<String>,
    pub address: Option<String>,
    /// Dotted, such as `user.create` or `session.grant`.
    pub action: String,
    /// What it was done to, in words: a user's or device's name.
    pub target: Option<String>,
    pub detail: Option<String>,
}

impl Row for Entry {
    open spec fn key(&self) -> i64 {
        self.id
    }

    fn id(&self) -> (id: i64) {
        self.id
    }
}

/// One thing to record.
#[derive(Debug)]
pub struct Event {
    pub actor: Option<String>,
    pub address: Option<Ip>,
    pub action: String,
    pub target: Option<String>,
    pub detail: Option<String>,
}

/// The text of something that may be missing.
pub open spec fn words(text: Option<String>) -> Option<Seq<char>> {
    match text {
        Some(text) => Some(text@),
        None => None,
    }
}

pub fn copy_words(text: &Option<String>) -> (copy: Option<String>)
    ensures
        words(copy) == words(*text),
{
    match text {
        Some(text) => Some(text.as_str().to_owned()),
        None => None,
    }
}

impl Entry {
    /// The entry is of this event.
    pub open spec fn records(&self, event: &Event) -> bool {
        &&& words(self.actor) == words(event.actor)
        &&& words(self.address) == (match event.address {
            Some(ip) => Some(ip.canonical().written()),
            None => None,
        })
        &&& self.action@ == event.action@
        &&& words(self.target) == words(event.target)
        &&& words(self.detail) == words(event.detail)
    }

    /// The same, word for word.
    pub open spec fn same(&self, other: &Entry) -> bool {
        &&& self.id == other.id
        &&& self.at == other.at
        &&& words(self.actor) == words(other.actor)
        &&& words(self.address) == words(other.address)
        &&& self.action@ == other.action@
        &&& words(self.target) == words(other.target)
        &&& words(self.detail) == words(other.detail)
    }

    fn copy(&self) -> (copy: Entry)
        ensures
            copy.same(self),
    {
        Entry {
            id: self.id,
            at: self.at,
            actor: copy_words(&self.actor),
            address: copy_words(&self.address),
            action: self.action.as_str().to_owned(),
            target: copy_words(&self.target),
            detail: copy_words(&self.detail),
        }
    }
}

/// Older than entry `before`, if that is given.
pub open spec fn older(before: Option<i64>) -> spec_fn(Entry) -> bool {
    |entry: Entry|
        match before {
            Some(before) => entry.id < before,
            None => true,
        }
}

/// The log.
#[derive(Debug)]
pub struct Audit {
    /// In the order they were recorded.
    pub entries: Vec<Entry>,
}

/// How many entries a request for `limit` gets at most.
pub open spec fn page_size(limit: u32) -> int {
    if limit > MAX_PAGE {
        MAX_PAGE as int
    } else {
        limit as int
    }
}

/// This is what a request for a page gets.
pub open spec fn paged(
    entries: Seq<Entry>,
    before: Option<i64>,
    limit: u32,
    page: Seq<Entry>,
) -> bool {
    let all = entries.filter(older(before));
    &&& page.len() == (if all.len() < page_size(limit) {
        all.len() as int
    } else {
        page_size(limit)
    })
    &&& forall|i: int|
        0 <= i < page.len() ==> (#[trigger] page[i]).same(&all[all.len() - 1 - i])
}

/// This is what recording an event does.
pub open spec fn recorded(
    before: Seq<Entry>,
    after: Seq<Entry>,
    event: &Event,
    now: i64,
    written: bool,
) -> bool {
    &&& written == (next_id(before) is Some)
    &&& written ==> {
        &&& after.len() == before.len() + 1
        &&& after.drop_last() == before
        &&& next_id(before) == Some(after.last().id)
        &&& after.last().at == now
        &&& after.last().records(event)
    }
    &&& !written ==> after == before
}

impl Audit {
    /// Numbered as they were recorded.
    pub open spec fn wf(&self) -> bool {
        forall|i: int, j: int|
            0 <= i < j < self.entries@.len() ==> (#[trigger] self.entries@[i]).id < (
            #[trigger] self.entries@[j]).id
    }

    pub fn new() -> (audit: Audit)
        ensures
            audit.wf(),
            audit.entries@.len() == 0,
    {
        Audit { entries: Vec::new() }
    }

    /// Record an event. Writing it must not stop what it records: a log that
    /// is out of numbers takes no more, and says so.
    pub fn record(&mut self, event: &Event, now: i64) -> (written: bool)
        requires
            old(self).wf(),
        ensures
            final(self).wf(),
            recorded(old(self).entries@, final(self).entries@, event, now, written),
            !written ==> final(self).entries == old(self).entries,
    {
        match fresh_id(&self.entries) {
            Some(id) => {
                let address = match event.address {
                    Some(ip) => Some(ip.to_canonical().text()),
                    None => None,
                };
                let entry = Entry {
                    id,
                    at: now,
                    actor: copy_words(&event.actor),
                    address,
                    action: event.action.as_str().to_owned(),
                    target: copy_words(&event.target),
                    detail: copy_words(&event.detail),
                };
                let ghost before = self.entries@;
                self.entries.push(entry);
                assert(self.entries@.drop_last() =~= before);
                assert forall|i: int, j: int| 0 <= i < j < self.entries@.len() implies (
                #[trigger] self.entries@[i]).id < (#[trigger] self.entries@[j]).id by {
                    assert(before[i] == self.entries@[i]);
                    assert(before[i].key() < id);
                }
                true
            },
            None => false,
        }
    }

    /// The newest entries first, up to `limit`, older than entry `before` if
    /// given: pass the last id of one page to get the next.
    pub fn entries(&self, before: Option<i64>, limit: u32) -> (page: Vec<Entry>)
        ensures
            paged(self.entries@, before, limit, page@),
    {
        let size: usize = if limit > MAX_PAGE {
            MAX_PAGE as usize
        } else {
            limit as usize
        };
        let mut page: Vec<Entry> = Vec::new();
        let mut n: usize = self.entries.len();
        let ghost all = self.entries@.filter(older(before));
        assert(self.entries@.take(n as int) =~= self.entries@);
        while n > 0 && page.len() < size
            invariant
                n <= self.entries@.len(),
                size == page_size(limit),
                page@.len() <= size,
                all == self.entries@.filter(older(before)),
                all.len() == self.entries@.take(n as int).filter(older(before)).len() + page@.len(),
                self.entries@.take(n as int).filter(older(before)) == all.take(
                    all.len() - page@.len(),
                ),
                forall|i: int|
                    0 <= i < page@.len() ==> (#[trigger] page@[i]).same(&all[all.len() - 1 - i]),
            decreases n,
        {
            let ghost held = self.entries@.take(n as int);
            proof {
                reveal(Seq::filter);
                assert(held.drop_last() =~= self.entries@.take(n - 1));
                assert(held.last() == self.entries@[n - 1]);
            }
            n = n - 1;
            let wanted = match before {
                Some(before) => self.entries[n].id < before,
                None => true,
            };
            if wanted {
                proof {
                    let left = all.len() - page@.len();
                    assert(held.filter(older(before)) == held.drop_last().filter(
                        older(before),
                    ).push(held.last()));
                    assert(all.take(left)[left - 1] == held.last());
                    assert(all.take(left - 1) =~= held.drop_last().filter(older(before)));
                }
                page.push(self.entries[n].copy());
            }
        }
        proof {
            reveal(Seq::filter);
            if n == 0 {
                assert(self.entries@.take(0).filter(older(before)).len() == 0);
            }
        }
        page
    }
}

/// What is recorded is the log's newest entry, and what was recorded before
/// stays as it was.
pub proof fn lemma_events_are_recorded(
    before: Seq<Entry>,
    after: Seq<Entry>,
    event: &Event,
    now: i64,
    i: int,
)
    requires
        recorded(before, after, event, now, true),
        0 <= i < before.len(),
    ensures
        after.len() == before.len() + 1,
        after[i] == before[i],
        ({
            let new = after[before.len() as int];
            &&& new.id > before[i].id
            &&& new.at == now && new.action@ == event.action@
            &&& words(new.actor) == words(event.actor)
            &&& words(new.target) == words(event.target)
            &&& words(new.detail) == words(event.detail)
            &&& event.address is None <==> new.address is None
        }),
{
    assert(after.drop_last()[i] == before[i]);
    super::rows::lemma_next_is_above(before);
    assert(before[i].key() < after.last().id);
}

/// A page has no more entries than were asked for, nor than 500; each is an
/// entry of the log, older than the one that was named, and the newer come
/// first. It leaves none of those out that are newer than its last, and none
/// at all if it has fewer than it could.
pub proof fn lemma_pages_are_newest_first(
    entries: Seq<Entry>,
    before: Option<i64>,
    limit: u32,
    page: Seq<Entry>,
    i: int,
    j: int,
    k: int,
)
    requires
        forall|a: int, b: int|
            0 <= a < b < entries.len() ==> (#[trigger] entries[a]).id < (#[trigger] entries[b]).id,
        paged(entries, before, limit, page),
        0 <= k < entries.len(),
        before matches Some(before) ==> entries[k].id < before,
    ensures
        page.len() <= limit,
        page.len() <= 500,
        0 <= i < page.len() ==> exists|e: int|
            0 <= e < entries.len() && page[i].same(#[trigger] &entries[e]),
        0 <= i < page.len() && before is Some ==> page[i].id < before->Some_0,
        0 <= i < j < page.len() ==> page[i].id > page[j].id,
        page.len() == 0 ==> limit == 0,
        page.len() > 0 && entries[k].id >= page.last().id ==> exists|p: int|
            0 <= p < page.len() && (#[trigger] page[p]).same(&entries[k]),
        page.len() < limit && page.len() < 500 ==> exists|p: int|
            0 <= p < page.len() && (#[trigger] page[p]).same(&entries[k]),
{
    let which = older(before);
    let all = entries.filter(which);
    super::rows::lemma_kept(entries, which);
    lemma_rising_kept(entries, which);
    assert(which(entries[k]));
    assert(all.contains(entries[k]));
    let m = choose|m: int| 0 <= m < all.len() && all[m] == entries[k];
    if 0 <= i < page.len() {
        let a = all[all.len() - 1 - i];
        assert(page[i].same(&a));
        assert(entries.contains(a));
        let e = choose|e: int| 0 <= e < entries.len() && entries[e] == a;
        assert(page[i].same(&entries[e]));
        assert(which(a));
        if i < j < page.len() {
            assert(page[j].same(&all[all.len() - 1 - j]));
            assert(all[all.len() - 1 - j].id < all[all.len() - 1 - i].id);
        }
    }
    let p = all.len() - 1 - m;
    if page.len() > 0 && entries[k].id >= page.last().id {
        let q = page.len() - 1;
        assert(page[q].same(&all[all.len() - 1 - q]));
        if p > q {
            assert(all[m].id < all[all.len() - 1 - q].id);
        }
        assert(page[p].same(&entries[k]));
    }
    if page.len() < limit && page.len() < 500 {
        assert(page[p].same(&entries[k]));
    }
}

proof fn lemma_rising_kept(entries: Seq<Entry>, which: spec_fn(Entry) -> bool)
    requires
        forall|a: int, b: int|
            0 <= a < b < entries.len() ==> (#[trigger] entries[a]).id < (#[trigger] entries[b]).id,
    ensures
        forall|a: int, b: int|
            0 <= a < b < entries.filter(which).len() ==> (#[trigger] entries.filter(which)[a]).id < (
            #[trigger] entries.filter(which)[b]).id,
    decreases entries.len(),
{
    reveal(Seq::filter);
    if entries.len() > 0 {
        let less = entries.drop_last();
        assert forall|a: int, b: int| 0 <= a < b < less.len() implies (#[trigger] less[a]).id < (
        #[trigger] less[b]).id by {
            assert(entries[a] == less[a] && entries[b] == less[b]);
        }
        lemma_rising_kept(less, which);
        super::rows::lemma_kept(less, which);
        let held = less.filter(which);
        let all = entries.filter(which);
        assert forall|a: int, b: int| 0 <= a < b < all.len() implies (#[trigger] all[a]).id < (
        #[trigger] all[b]).id by {
            assert(all[a] == held[a]);
            if b == held.len() {
                assert(less.contains(held[a]));
                let m = choose|m: int| 0 <= m < less.len() && less[m] == held[a];
                assert(entries[m].id < entries[entries.len() - 1].id);
            } else {
                assert(all[b] == held[b]);
            }
        }
    }
}

}
