//! Device keys this viewer has seen before.
//!
//! The first time the viewer reaches a device it writes the whole fingerprint
//! down; every time after, the key must be the same one. A device that is
//! reinstalled with a new key gets a new number with it, so the same number
//! with another key is another key, and the session stops until the person
//! says otherwise.
//!
//! What is kept is a line per device: the ten digits, a space, the
//! fingerprint in hex. Comments start with `#`.

use crate::hex::{hex_of, push_hex};
use crate::protocol::{grouped, push_ten_digits, ten_digits, DeviceId};
use crate::text::{
    chars_of, decimal, find, index_from, is_space, lemma_index_from, parse_up_to, parsed,
    push_decimal, space, text_of, trim, trimmed,
};
use crate::transport::fingerprint::{read_bytes, Fingerprint};
use std::collections::BTreeMap;
use vstd::prelude::*;
use vstd::std_specs::iter::IteratorSpec;
use vstd::std_specs::cmp::OrdSpec;
use vstd::slice::slice_subrange;

verus! {

/// What the store makes of a key offered for a device.
#[derive(Debug, Clone, Copy)]
pub enum Continuity {
    /// Never seen this device before.
    First,
    /// The key it had last time.
    Same,
    /// Another key under the same number.
    Changed { known: Fingerprint },
}

/// The keys seen, by device.
#[derive(Debug)]
pub struct Known {
    devices: BTreeMap<u64, Fingerprint>,
}

/// The keys by device number, as bytes.
pub open spec fn key_bytes(devices: Map<u64, Fingerprint>) -> Map<u64, Seq<u8>> {
    devices.map_values(|fingerprint: Fingerprint| fingerprint@)
}

/// A device number in a file: ten digits, leading zeros and all; more where
/// ten are not enough.
pub open spec fn padded(id: u64) -> Seq<char> {
    if id < 10_000_000_000 {
        ten_digits(id as nat)
    } else {
        decimal(id as nat)
    }
}

/// One device's line.
pub open spec fn line_of(id: u64, key: Seq<u8>) -> Seq<char> {
    padded(id) + seq![' '] + hex_of(key) + seq!['\n']
}

/// The lines of a list of devices.
pub open spec fn lines_of(entries: Seq<(u64, Seq<u8>)>) -> Seq<char>
    decreases entries.len(),
{
    if entries.len() == 0 {
        Seq::empty()
    } else {
        lines_of(entries.drop_last()) + line_of(entries.last().0, entries.last().1)
    }
}

/// Where white space first stands in `s`, from `from` on; its length where
/// there is none.
pub open spec fn space_from(s: Seq<char>, from: int) -> int
    decreases s.len() - from,
{
    if from >= s.len() {
        s.len() as int
    } else if is_space(s[from]) {
        from
    } else {
        space_from(s, from + 1)
    }
}

/// The device and key that a line names, if it names one.
pub open spec fn entry_of(line: Seq<char>) -> Option<(u64, Seq<u8>)> {
    let l = trimmed(line);
    let at = space_from(l, 0);
    if l.len() == 0 || l[0] == '#' || at >= l.len() {
        None
    } else {
        match (parsed(trimmed(l.take(at)), u64::MAX as nat), read_bytes(trimmed(l.skip(at + 1)))) {
            (Some(id), Some(key)) => Some((id as u64, key)),
            _ => None,
        }
    }
}

pub open spec fn with_line(keys: Map<u64, Seq<u8>>, line: Seq<char>) -> Map<u64, Seq<u8>> {
    match entry_of(line) {
        Some((id, key)) => keys.insert(id, key),
        None => keys,
    }
}

/// What the lines of `s` add to `keys`. A line that cannot be read is skipped
/// rather than fatal: the worst it costs is one device seen for the first
/// time again.
pub open spec fn read_lines(s: Seq<char>, keys: Map<u64, Seq<u8>>) -> Map<u64, Seq<u8>>
    decreases s.len(),
{
    let end = index_from(s, '\n', 0);
    if s.len() == 0 {
        keys
    } else {
        proof {
            lemma_index_from(s, '\n', 0);
        }
        if end < s.len() {
            read_lines(s.skip(end + 1), with_line(keys, s.take(end)))
        } else {
            with_line(keys, s)
        }
    }
}

/// The devices a file's text names; of two lines on one device the later
/// counts.
pub open spec fn read_devices(s: Seq<char>) -> Map<u64, Seq<u8>> {
    read_lines(s, Map::empty())
}

fn find_space(s: &[char]) -> (at: usize)
    ensures
        at == space_from(s@, 0),
        at <= s@.len(),
{
    let mut i: usize = 0;
    while i < s.len() && !space(s[i])
        invariant
            i <= s@.len(),
            space_from(s@, 0) == space_from(s@, i as int),
        decreases s.len() - i,
    {
        i = i + 1;
    }
    i
}

fn entry(line: &[char]) -> (entry: Option<(u64, Fingerprint)>)
    ensures
        match entry {
            Some((id, key)) => entry_of(line@) == Some((id, key@)),
            None => entry_of(line@) is None,
        },
{
    let l = trim(line);
    if l.len() == 0 || l[0] == '#' {
        return None;
    }
    let at = find_space(l);
    if at == l.len() {
        return None;
    }
    let number = slice_subrange(l, 0, at);
    let key = slice_subrange(l, at + 1, l.len());
    assert(number@ =~= l@.take(at as int));
    assert(key@ =~= l@.skip(at + 1));
    let id = parse_up_to(trim(number), u64::MAX);
    let key_text = text_of(trim(key));
    match (id, Fingerprint::from_text(&key_text)) {
        (Some(id), Ok(key)) => Some((id, key)),
        _ => None,
    }
}

/// Read a file's text.
pub fn parse(text: &str) -> (known: Known)
    ensures
        known@ == read_devices(text@),
{
    broadcast use vstd::std_specs::btree::group_btree_axioms;

    let s = chars_of(text);
    let mut devices: BTreeMap<u64, Fingerprint> = BTreeMap::new();
    let mut from: usize = 0;
    assert(key_bytes(devices@) =~= Map::<u64, Seq<u8>>::empty());
    assert(s@.skip(0) =~= s@);
    while from < s.len()
        invariant
            from <= s@.len(),
            s@ == text@,
            read_lines(s@.skip(from as int), key_bytes(devices@)) == read_devices(s@),
        decreases s.len() - from,
    {
        let rest = slice_subrange(&s, from, s.len());
        assert(rest@ =~= s@.skip(from as int));
        let end = find(rest, '\n', 0);
        let line = slice_subrange(rest, 0, end);
        assert(line@ =~= rest@.take(end as int));
        let ghost before = key_bytes(devices@);
        if let Some((id, key)) = entry(line) {
            devices.insert(id, key);
            assert(key_bytes(devices@) =~= before.insert(id, key@));
        }
        assert(key_bytes(devices@) == with_line(before, rest@.take(end as int)));
        if end == rest.len() {
            assert(rest@.take(end as int) =~= rest@);
            assert(s@.skip(s@.len() as int) =~= Seq::<char>::empty());
            from = s.len();
        } else {
            assert(rest@.skip(end + 1) =~= s@.skip(from + end + 1));
            from = from + end + 1;
        }
    }
    assert(s@.skip(from as int) =~= Seq::<char>::empty());
    Known { devices }
}

impl View for Known {
    type V = Map<u64, Seq<u8>>;

    closed spec fn view(&self) -> Map<u64, Seq<u8>> {
        key_bytes(self.devices@)
    }
}

/// How a key goes on from what is known of a device.
pub open spec fn continues(
    keys: Map<u64, Seq<u8>>,
    id: u64,
    key: Seq<u8>,
    continuity: Continuity,
) -> bool {
    match continuity {
        Continuity::First => !keys.contains_key(id),
        Continuity::Same => keys.contains_key(id) && keys[id] == key,
        Continuity::Changed { known } => keys.contains_key(id) && keys[id] == known@ && known@
            != key,
    }
}

impl Known {
    /// A store that remembers nothing yet.
    pub fn new() -> (known: Known)
        ensures
            known@ == Map::<u64, Seq<u8>>::empty(),
    {
        let devices: BTreeMap<u64, Fingerprint> = BTreeMap::new();
        assert(key_bytes(devices@) =~= Map::<u64, Seq<u8>>::empty());
        Known { devices }
    }

    /// Whether `fingerprint` is the key this device had before.
    pub fn check(&self, id: DeviceId, fingerprint: Fingerprint) -> (continuity: Continuity)
        ensures
            continues(self@, id.number() as u64, fingerprint@, continuity),
    {
        broadcast use vstd::std_specs::btree::group_btree_axioms;

        match self.devices.get(&id.value()) {
            None => Continuity::First,
            Some(known) => if *known == fingerprint {
                Continuity::Same
            } else {
                Continuity::Changed { known: *known }
            },
        }
    }

    /// Write this key down as the device's, replacing what was there. Whether
    /// that changed anything, so that the file has to be written.
    pub fn remember(&mut self, id: DeviceId, fingerprint: Fingerprint) -> (changed: bool)
        ensures
            final(self)@ == old(self)@.insert(id.number() as u64, fingerprint@),
            changed == !(old(self)@.contains_key(id.number() as u64) && old(self)@[id.number()
                as u64] == fingerprint@),
    {
        broadcast use vstd::std_specs::btree::group_btree_axioms;

        let before = self.devices.insert(id.value(), fingerprint);
        assert(self@ =~= old(self)@.insert(id.number() as u64, fingerprint@));
        match before {
            Some(key) => key != fingerprint,
            None => true,
        }
    }

    /// Forget the key this device had, so the next connection to it takes
    /// whatever key it answers with. The key it had, if it was known.
    pub fn forget(&mut self, id: DeviceId) -> (forgotten: Option<Fingerprint>)
        ensures
            final(self)@ == old(self)@.remove(id.number() as u64),
            match forgotten {
                Some(key) => old(self)@.contains_key(id.number() as u64) && old(self)@[id.number()
                    as u64] == key@,
                None => !old(self)@.contains_key(id.number() as u64),
            },
    {
        broadcast use vstd::std_specs::btree::group_btree_axioms;

        let forgotten = self.devices.remove(&id.value());
        assert(self@ =~= old(self)@.remove(id.number() as u64));
        forgotten
    }

    /// Every key and its device, in the order of the numbers.
    fn entries(&self) -> (entries: Vec<(u64, Fingerprint)>)
        ensures
            in_order(self@, bytes_of(entries@)),
    {
        broadcast use vstd::std_specs::btree::group_btree_axioms;

        let mut entries: Vec<(u64, Fingerprint)> = Vec::new();
        let ghost listed = vstd::std_specs::btree::spec_btree_map_iter(&self.devices).remaining();
        for pair in it: self.devices.iter()
            invariant
                it.seq() == listed,
                entries@.len() == it.index(),
                it.index() <= listed.len(),
                forall|i: int|
                    0 <= i < entries@.len() ==> (#[trigger] entries@[i]) == (
                        *listed[i].0,
                        *listed[i].1,
                    ),
        {
            entries.push((*pair.0, *pair.1));
        }
        proof {
            assert(entries@.len() == listed.len());
            let keys = listed.map_values(|kv: (&u64, &Fingerprint)| *kv.0);
            assert(vstd::std_specs::btree::increasing_seq(keys));
            let found = bytes_of(entries@);
            assert forall|i: int, j: int| 0 <= i < j < found.len() implies (#[trigger] found[i]).0
                < (#[trigger] found[j]).0 by {
                assert(keys[i].cmp_spec(&keys[j]) is Less);
            }
            assert forall|i: int| 0 <= i < found.len() implies self@.contains_key(
                (#[trigger] found[i]).0,
            ) && self@[found[i].0] == found[i].1 by {
                assert(self.devices@.contains_key(*listed[i].0));
            }
            assert forall|id: u64| #[trigger] self@.contains_key(id) implies exists|i: int|
                0 <= i < found.len() && (#[trigger] found[i]).0 == id by {
                assert(self.devices@.contains_key(id));
                let i = choose|i: int|
                    0 <= i < listed.len() && listed[i] == (&id, &self.devices@[id]);
                assert(found[i].0 == id);
            }
        }
        entries
    }
}

/// Entries with their keys as bytes.
pub open spec fn bytes_of(entries: Seq<(u64, Fingerprint)>) -> Seq<(u64, Seq<u8>)> {
    entries.map_values(|entry: (u64, Fingerprint)| (entry.0, entry.1@))
}

/// `entries` lists `keys`, each once, by rising number.
pub open spec fn in_order(keys: Map<u64, Seq<u8>>, entries: Seq<(u64, Seq<u8>)>) -> bool {
    &&& forall|i: int, j: int|
        0 <= i < j < entries.len() ==> (#[trigger] entries[i]).0 < (#[trigger] entries[j]).0
    &&& forall|i: int|
        0 <= i < entries.len() ==> keys.contains_key((#[trigger] entries[i]).0)
            && keys[entries[i].0] == entries[i].1
    &&& forall|id: u64| #[trigger]
        keys.contains_key(id) ==> exists|i: int| 0 <= i < entries.len() && (#[trigger] entries[i]).0 == id
}

/// What a file of keys starts with.
pub open spec fn header() -> Seq<char> {
    "# Device keys this viewer has seen. A device's ID is made from its"@ + seq!['\n'] + (
    "# key, so the same ID with another key is another device."@ + seq!['\n'] + (
    "# Written by nearhand-viewer; `nearhand-viewer forget <id>`"@ + seq!['\n'] + (
    "# forgets a device, as deleting its line does."@ + seq!['\n'])))
}

impl Known {
    /// The text of a file that holds these keys.
    pub fn to_text(&self) -> (text: String)
        ensures
            exists|entries: Seq<(u64, Seq<u8>)>|
                in_order(self@, entries) && text@ == header() + #[trigger] lines_of(entries),
    {
        let mut out = "# Device keys this viewer has seen. A device's ID is made from its".to_owned();
        out.push('\n');
        out.append("# key, so the same ID with another key is another device.");
        out.push('\n');
        out.append("# Written by nearhand-viewer; `nearhand-viewer forget <id>`");
        out.push('\n');
        out.append("# forgets a device, as deleting its line does.");
        out.push('\n');
        assert(out@ =~= header());
        let entries = self.entries();
        let ghost listed = bytes_of(entries@);
        let mut i: usize = 0;
        assert(out@ =~= header() + lines_of(listed.take(0)));
        while i < entries.len()
            invariant
                i <= entries@.len(),
                listed == bytes_of(entries@),
                out@ == header() + lines_of(listed.take(i as int)),
            decreases entries.len() - i,
        {
            let (id, key) = entries[i];
            let ghost before = out@;
            proof {
                assert(listed.take(i + 1).drop_last() =~= listed.take(i as int));
                assert(listed.take(i + 1).last() == listed[i as int]);
            }
            if id < 10_000_000_000 {
                push_ten_digits(&mut out, id);
            } else {
                push_decimal(&mut out, id);
            }
            out.push(' ');
            push_hex(&mut out, key.as_bytes().as_slice());
            out.push('\n');
            assert(out@ =~= before + line_of(id, key@));
            assert(out@ =~= header() + lines_of(listed.take(i + 1)));
            i = i + 1;
        }
        assert(listed.take(i as int) =~= listed);
        out
    }

    /// Every device remembered, by number; a number of more than ten digits
    /// is no device's.
    pub fn devices(&self) -> (listed: Vec<(DeviceId, Fingerprint)>)
        ensures
            exists|entries: Seq<(u64, Seq<u8>)>|
                #[trigger] in_order(self@, entries) && listed@.map_values(
                    |entry: (DeviceId, Fingerprint)| (entry.0.number() as u64, entry.1@),
                ) == entries.filter(|entry: (u64, Seq<u8>)| entry.0 < 10_000_000_000),
    {
        let entries = self.entries();
        let ghost all = bytes_of(entries@);
        let ghost small = |entry: (u64, Seq<u8>)| entry.0 < 10_000_000_000;
        let ghost shown = |entry: (DeviceId, Fingerprint)| (entry.0.number() as u64, entry.1@);
        let mut listed: Vec<(DeviceId, Fingerprint)> = Vec::new();
        let mut i: usize = 0;
        proof {
            reveal(Seq::filter);
            assert(listed@.map_values(shown) =~= all.take(0).filter(small));
        }
        while i < entries.len()
            invariant
                i <= entries@.len(),
                all == bytes_of(entries@),
                small == (|entry: (u64, Seq<u8>)| entry.0 < 10_000_000_000),
                shown == (|entry: (DeviceId, Fingerprint)| (entry.0.number() as u64, entry.1@)),
                listed@.map_values(shown) == all.take(i as int).filter(small),
            decreases entries.len() - i,
        {
            let (id, key) = entries[i];
            let ghost before = listed@;
            proof {
                reveal(Seq::filter);
                assert(all.take(i + 1).drop_last() =~= all.take(i as int));
                assert(all.take(i + 1).last() == all[i as int]);
            }
            if let Some(id) = DeviceId::new(id) {
                listed.push((id, key));
                assert(listed@.map_values(shown) =~= before.map_values(shown).push(shown((id, key))));
            }
            i = i + 1;
        }
        assert(all.take(i as int) =~= all);
        listed
    }
}

// --- Holding a server to what it said before ---------------------------------------------

/// What becomes of a session, by the key the device answered with.
#[derive(Debug)]
pub enum Judgement {
    /// The key it had last time: go on.
    GoOn,
    /// Say this, write the key down and go on.
    WriteDown(String),
    /// Say this and stop: coming back would only meet the same key again.
    Stop(String),
}

pub open spec fn first_time(id: Seq<char>, key: Seq<char>) -> Seq<char> {
    "first time with "@ + id + ": its key is "@ + key
}

pub open spec fn new_key(id: Seq<char>, before: Seq<char>, key: Seq<char>) -> Seq<char> {
    id + " has a new key: "@ + before + " → "@ + key
}

pub open spec fn another_key(id: Seq<char>, before: Seq<char>, key: Seq<char>) -> Seq<char> {
    id + " answered with another key than last time.\n\nwas:  "@ + before + "\nnow:  "@ + key
        + "\n\nA device's ID is made from its key, so this is not a reinstall — that would change the ID too. Either the server introduced another machine, or something is standing between this viewer and the device. Check with whoever runs the device before going on; --trust-new-key takes the new key and remembers it instead."@
}

/// What is made of a key that a device answered with.
pub open spec fn judged(
    continuity: Continuity,
    id: DeviceId,
    fingerprint: Seq<u8>,
    trust_new_key: bool,
    judgement: Judgement,
) -> bool {
    let shown = grouped(ten_digits(id.number()));
    let key = hex_of(fingerprint);
    match continuity {
        Continuity::Same => judgement is GoOn,
        Continuity::First => judgement matches Judgement::WriteDown(said) && said@ == first_time(
            shown,
            key,
        ),
        Continuity::Changed { known } => if trust_new_key {
            judgement matches Judgement::WriteDown(said) && said@ == new_key(
                shown,
                hex_of(known@),
                key,
            )
        } else {
            judgement matches Judgement::Stop(said) && said@ == another_key(
                shown,
                hex_of(known@),
                key,
            )
        },
    }
}

/// The first time a device is reached its key is written down; every time
/// after, whatever was written down of other devices since, the same key goes
/// on and any other stops the session, until the person says otherwise.
pub proof fn lemma_a_device_is_held_to_its_key(
    keys: Map<u64, Seq<u8>>,
    id: DeviceId,
    key: Seq<u8>,
    other_id: u64,
    other_key: Seq<u8>,
    answered: Seq<u8>,
    continuity: Continuity,
    judgement: Judgement,
)
    requires
        other_id != id.number() as u64,
        continues(
            keys.insert(id.number() as u64, key).insert(other_id, other_key),
            id.number() as u64,
            answered,
            continuity,
        ),
        judged(continuity, id, answered, false, judgement),
    ensures
        answered == key ==> judgement is GoOn,
        answered != key ==> judgement is Stop,
{
}

/// The key a device answered with must be the key it answered with last time,
/// unless the person says otherwise. A grant proves the server's say-so, not
/// the device's.
pub fn judge(
    continuity: Continuity,
    id: DeviceId,
    fingerprint: Fingerprint,
    trust_new_key: bool,
) -> (judgement: Judgement)
    ensures
        judged(continuity, id, fingerprint@, trust_new_key, judgement),
{
    match continuity {
        Continuity::Same => Judgement::GoOn,
        Continuity::First => {
            let mut said = "first time with ".to_owned();
            said.append(&id.text());
            said.append(": its key is ");
            said.append(&fingerprint.text());
            Judgement::WriteDown(said)
        },
        Continuity::Changed { known } => {
            let mut said = id.text();
            if trust_new_key {
                said.append(" has a new key: ");
                said.append(&known.text());
                said.append(" → ");
                said.append(&fingerprint.text());
                return Judgement::WriteDown(said);
            }
            said.append(" answered with another key than last time.\n\nwas:  ");
            said.append(&known.text());
            said.append("\nnow:  ");
            said.append(&fingerprint.text());
            said.append(
                "\n\nA device's ID is made from its key, so this is not a reinstall — that would change the ID too. Either the server introduced another machine, or something is standing between this viewer and the device. Check with whoever runs the device before going on; --trust-new-key takes the new key and remembers it instead.",
            );
            Judgement::Stop(said)
        },
    }
}

// --- What is written reads back ----------------------------------------------------------

/// A line that is read by itself, in front of others.
proof fn lemma_first_line(line: Seq<char>, rest: Seq<char>, keys: Map<u64, Seq<u8>>)
    requires
        forall|i: int| 0 <= i < line.len() ==> line[i] != '\n',
    ensures
        read_lines(line + seq!['\n'] + rest, keys) == read_lines(rest, with_line(keys, line)),
{
    let s = line + seq!['\n'] + rest;
    lemma_index_from(s, '\n', 0);
    let end = index_from(s, '\n', 0);
    assert(s[line.len() as int] == '\n');
    assert(end == line.len()) by {
        if end < line.len() {
            assert(s[end] == line[end]);
        }
    }
    assert(s.take(end) =~= line);
    assert(s.skip(end + 1) =~= rest);
}

proof fn lemma_comment(line: Seq<char>, rest: Seq<char>, keys: Map<u64, Seq<u8>>)
    requires
        line.len() > 0,
        line[0] == '#',
        forall|i: int| 0 <= i < line.len() ==> line[i] != '\n',
    ensures
        read_lines(line + seq!['\n'] + rest, keys) == read_lines(rest, keys),
{
    lemma_first_line(line, rest, keys);
    crate::text::lemma_trimmed_starts(line);
}

/// A device's line reads as the device and its key.
proof fn lemma_line_reads_back(id: u64, key: Seq<u8>)
    requires
        key.len() == 32,
    ensures
        ({
            let line = padded(id) + seq![' '] + hex_of(key);
            &&& entry_of(line) == Some((id, key))
            &&& forall|i: int| 0 <= i < line.len() ==> line[i] != '\n'
        }),
{
    let number = padded(id);
    let digits = hex_of(key);
    let line = number + seq![' '] + digits;
    lemma_padded_reads_back(id);
    assert forall|i: int| 0 <= i < digits.len() implies !is_space(#[trigger] digits[i]) by {}
    assert forall|i: int| 0 <= i < number.len() implies !is_space(#[trigger] number[i]) by {
        assert(crate::text::is_digit(number[i]));
    }
    assert(line[0] == number[0]);
    assert(line.last() == digits.last());
    crate::text::lemma_trimmed_fixed(line);
    lemma_space_after(line, number.len() as int, 0);
    assert(line.take(number.len() as int) =~= number);
    assert(line.skip(number.len() as int + 1) =~= digits);
    assert(number.last() == number[number.len() - 1]);
    crate::text::lemma_trimmed_fixed(number);
    assert(digits.last() == digits[digits.len() - 1]);
    crate::text::lemma_trimmed_fixed(digits);
    crate::transport::fingerprint::lemma_hex_reads_back(key);
    assert forall|i: int| 0 <= i < line.len() implies line[i] != '\n' by {
        if i < number.len() {
            assert(line[i] == number[i]);
        } else if i > number.len() {
            assert(line[i] == digits[i - number.len() - 1]);
        }
    }
}

proof fn lemma_space_after(s: Seq<char>, at: int, from: int)
    requires
        0 <= from <= at < s.len(),
        is_space(s[at]),
        forall|i: int| 0 <= i < at ==> !is_space(#[trigger] s[i]),
    ensures
        space_from(s, from) == at,
    decreases at - from,
{
    if from < at {
        lemma_space_after(s, at, from + 1);
    }
}

proof fn lemma_padded_reads_back(id: u64)
    ensures
        padded(id).len() > 0,
        crate::text::all_digits(padded(id)),
        parsed(padded(id), u64::MAX as nat) == Some(id as nat),
{
    if id < 10_000_000_000 {
        crate::protocol::lemma_ten_digits_read_back(id as nat);
    } else {
        crate::text::lemma_decimal_reads_back(id as nat);
    }
    assert(crate::text::is_digit(padded(id)[0]));
}

/// The lines of a list, read on top of `keys`.
pub open spec fn with_entries(keys: Map<u64, Seq<u8>>, entries: Seq<(u64, Seq<u8>)>) -> Map<
    u64,
    Seq<u8>,
>
    decreases entries.len(),
{
    if entries.len() == 0 {
        keys
    } else {
        with_entries(keys.insert(entries[0].0, entries[0].1), entries.skip(1))
    }
}

proof fn lemma_lines_from_the_front(entries: Seq<(u64, Seq<u8>)>)
    requires
        entries.len() > 0,
    ensures
        lines_of(entries) == line_of(entries[0].0, entries[0].1) + lines_of(entries.skip(1)),
    decreases entries.len(),
{
    if entries.len() == 1 {
        assert(entries.drop_last() =~= Seq::<(u64, Seq<u8>)>::empty());
        assert(entries.skip(1) =~= Seq::<(u64, Seq<u8>)>::empty());
        assert(lines_of(entries.drop_last()) =~= Seq::<char>::empty());
        assert(lines_of(entries) =~= line_of(entries[0].0, entries[0].1) + lines_of(
            entries.skip(1),
        ));
    } else {
        lemma_lines_from_the_front(entries.drop_last());
        assert(entries.drop_last().skip(1) =~= entries.skip(1).drop_last());
        assert(entries.skip(1).last() == entries.last());
        assert(lines_of(entries) =~= line_of(entries[0].0, entries[0].1) + lines_of(
            entries.skip(1),
        ));
    }
}

proof fn lemma_lines_read_back(entries: Seq<(u64, Seq<u8>)>, keys: Map<u64, Seq<u8>>)
    requires
        forall|i: int| 0 <= i < entries.len() ==> (#[trigger] entries[i]).1.len() == 32,
    ensures
        read_lines(lines_of(entries), keys) == with_entries(keys, entries),
    decreases entries.len(),
{
    if entries.len() > 0 {
        let (id, key) = entries[0];
        let line = padded(id) + seq![' '] + hex_of(key);
        let rest = lines_of(entries.skip(1));
        lemma_lines_from_the_front(entries);
        assert(lines_of(entries) =~= line + seq!['\n'] + rest);
        lemma_line_reads_back(id, key);
        lemma_first_line(line, rest, keys);
        assert forall|i: int| 0 <= i < entries.skip(1).len() implies (#[trigger] entries.skip(
            1,
        )[i]).1.len() == 32 by {
            assert(entries[i + 1].1.len() == 32);
        }
        lemma_lines_read_back(entries.skip(1), keys.insert(id, key));
    }
}

proof fn lemma_with_entries(keys: Map<u64, Seq<u8>>, entries: Seq<(u64, Seq<u8>)>)
    requires
        forall|i: int, j: int|
            0 <= i < j < entries.len() ==> (#[trigger] entries[i]).0 < (#[trigger] entries[j]).0,
    ensures
        forall|i: int|
            0 <= i < entries.len() ==> with_entries(keys, entries).contains_key(
                (#[trigger] entries[i]).0,
            ) && with_entries(keys, entries)[entries[i].0] == entries[i].1,
        forall|id: u64|
            (forall|i: int| 0 <= i < entries.len() ==> (#[trigger] entries[i]).0 != id) ==> (
            #[trigger] with_entries(keys, entries).contains_key(id) <==> keys.contains_key(id))
                && (keys.contains_key(id) ==> with_entries(keys, entries)[id] == keys[id]),
    decreases entries.len(),
{
    if entries.len() > 0 {
        let more = keys.insert(entries[0].0, entries[0].1);
        let rest = entries.skip(1);
        assert forall|i: int, j: int| 0 <= i < j < rest.len() implies (#[trigger] rest[i]).0 < (
        #[trigger] rest[j]).0 by {
            assert(entries[i + 1].0 < entries[j + 1].0);
        }
        lemma_with_entries(more, rest);
        let all = with_entries(keys, entries);
        assert(all == with_entries(more, rest));
        assert forall|i: int| 0 <= i < entries.len() implies all.contains_key(
            (#[trigger] entries[i]).0,
        ) && all[entries[i].0] == entries[i].1 by {
            if i > 0 {
                assert(rest[i - 1] == entries[i]);
            } else {
                assert forall|j: int| 0 <= j < rest.len() implies (#[trigger] rest[j]).0
                    != entries[0].0 by {
                    assert(entries[0].0 < entries[j + 1].0);
                }
                assert(with_entries(more, rest).contains_key(entries[0].0) <==> more.contains_key(
                    entries[0].0,
                ));
            }
        }
        assert forall|id: u64|
            (forall|i: int| 0 <= i < entries.len() ==> (#[trigger] entries[i]).0 != id) implies (
        #[trigger] with_entries(keys, entries).contains_key(id) <==> keys.contains_key(id)) && (
        keys.contains_key(id) ==> with_entries(keys, entries)[id] == keys[id]) by {
            assert(entries[0].0 != id);
            assert forall|j: int| 0 <= j < rest.len() implies (#[trigger] rest[j]).0 != id by {
                assert(entries[j + 1].0 != id);
            }
            assert(with_entries(more, rest).contains_key(id) <==> more.contains_key(id));
        }
    }
}

proof fn lemma_header_is_skipped(rest: Seq<char>, keys: Map<u64, Seq<u8>>)
    ensures
        read_lines(header() + rest, keys) == read_lines(rest, keys),
{
    let a = "# Device keys this viewer has seen. A device's ID is made from its"@;
    let b = "# key, so the same ID with another key is another device."@;
    let c = "# Written by nearhand-viewer; `nearhand-viewer forget <id>`"@;
    let d = "# forgets a device, as deleting its line does."@;
    reveal_strlit("# Device keys this viewer has seen. A device's ID is made from its");
    reveal_strlit("# key, so the same ID with another key is another device.");
    reveal_strlit("# Written by nearhand-viewer; `nearhand-viewer forget <id>`");
    reveal_strlit("# forgets a device, as deleting its line does.");
    let d_rest = rest;
    let c_rest = d + seq!['\n'] + d_rest;
    let b_rest = c + seq!['\n'] + c_rest;
    let a_rest = b + seq!['\n'] + b_rest;
    assert(header() + rest =~= a + seq!['\n'] + a_rest);
    lemma_comment(a, a_rest, keys);
    lemma_comment(b, b_rest, keys);
    lemma_comment(c, c_rest, keys);
    lemma_comment(d, d_rest, keys);
}

/// What is written reads back: the text of a store names exactly the keys it
/// holds.
pub proof fn lemma_text_reads_back(known: Known, entries: Seq<(u64, Seq<u8>)>)
    requires
        in_order(known@, entries),
    ensures
        read_devices(header() + lines_of(entries)) == known@,
{
    assert forall|i: int| 0 <= i < entries.len() implies (#[trigger] entries[i]).1.len() == 32 by {
        assert(known@.contains_key(entries[i].0));
        crate::transport::fingerprint::lemma_length(known.devices@[entries[i].0]);
    }
    lemma_header_is_skipped(lines_of(entries), Map::empty());
    lemma_lines_read_back(entries, Map::empty());
    lemma_with_entries(Map::empty(), entries);
    let read = with_entries(Map::empty(), entries);
    assert forall|id: u64| #[trigger] read.contains_key(id) <==> known@.contains_key(id) by {
        if known@.contains_key(id) {
            let i = choose|i: int| 0 <= i < entries.len() && (#[trigger] entries[i]).0 == id;
            assert(read.contains_key(entries[i].0));
        }
    }
    assert forall|id: u64| #[trigger] read.contains_key(id) implies read[id] == known@[id] by {
        assert(known@.contains_key(id));
        let i = choose|i: int| 0 <= i < entries.len() && (#[trigger] entries[i]).0 == id;
        assert(read[entries[i].0] == entries[i].1);
    }
    assert(read =~= known@);
}

/// What is said and done of each key: one that is new is written down, one that
/// was known goes on, and another than was known stops the session unless the
/// person takes it, which writes it down. The words name the key, and the one
/// before.
pub proof fn lemma_keys_are_judged_by_what_is_known(
    keys: Map<u64, Seq<u8>>,
    id: DeviceId,
    key: Seq<u8>,
    trust_new_key: bool,
    continuity: Continuity,
    judgement: Judgement,
)
    requires
        continues(keys, id.number() as u64, key, continuity),
        judged(continuity, id, key, trust_new_key, judgement),
    ensures
        judgement is GoOn <==> keys.contains_key(id.number() as u64) && keys[id.number() as u64]
            == key,
        judgement is Stop <==> keys.contains_key(id.number() as u64) && keys[id.number() as u64]
            != key && !trust_new_key,
        judgement is WriteDown <==> !keys.contains_key(id.number() as u64) || (
        keys[id.number() as u64] != key && trust_new_key),
{
}

/// A comment names nothing, nor does a line of white space; and of two lines on
/// one device the later counts.
pub proof fn lemma_later_lines_count(
    comment: Seq<char>,
    keys: Map<u64, Seq<u8>>,
    id: u64,
    first: Seq<u8>,
    second: Seq<u8>,
)
    requires
        first.len() == 32 && second.len() == 32,
    ensures
        trimmed(comment).len() == 0 || trimmed(comment)[0] == '#' ==> with_line(keys, comment) == keys,
        read_lines(line_of(id, first) + line_of(id, second), keys) == keys.insert(id, second),
        id < 10_000_000_000 ==> line_of(id, first).len() == 10 + 1 + 64 + 1,
{
    let a = padded(id) + seq![' '] + hex_of(first);
    let b = padded(id) + seq![' '] + hex_of(second);
    lemma_line_reads_back(id, first);
    lemma_line_reads_back(id, second);
    assert(line_of(id, first) + line_of(id, second) =~= a + seq!['\n'] + line_of(id, second));
    lemma_first_line(a, line_of(id, second), keys);
    assert(line_of(id, second) =~= b + seq!['\n'] + Seq::empty());
    lemma_first_line(b, Seq::empty(), keys.insert(id, first));
    assert(keys.insert(id, first).insert(id, second) =~= keys.insert(id, second));
    if id < 10_000_000_000 {
        crate::protocol::lemma_ten_digits_read_back(id as nat);
    }
}

}
