//! Managed devices: the machines enrolled with this server, the groups they
//! are sorted into, and the tokens that enroll them.
//!
//! * An administrator makes an enrollment token: for one device or many, for
//!   a while, optionally into a group. It is a random 256-bit value handed
//!   out once and kept only as its SHA-256, like every other token.
//! * An agent installed with it connects with its certificate and sends it;
//!   the server records the certificate's fingerprint. Enrolling again (a
//!   reinstall that kept its key) updates the same device.
//! * Whether a device is online is not stored: the rendezvous registry
//!   knows. When it was last seen, and from where, is.

use super::accounts::{
    check_name, fits, hash, hash_of, internal, name_rule, token_of, valid_name, Refused, User,
};
use super::audit::{copy_words, words};
use super::rows::{
    at, find, fresh_id, keep, lemma_at, lemma_at_own, lemma_kept, lemma_left, lemma_listed_chain,
    lemma_listed_total, lemma_next_is_above, listed_first, lists_first, next_id, numbered, Row,
};
use crate::bytes::same_bytes;
use crate::crypto::random_bytes;
use crate::hex::hex_of;
use crate::net::Address;
use crate::protocol::{DeviceId, Enrollment};
use crate::sort::{in_order, places, Ranked};
use crate::text::{
    chars_of, control, eq_ignore_case, is_control, is_space, same_but_case, starts, text_of, trim,
    trimmed,
};
use crate::transport::fingerprint::Fingerprint;
use vstd::prelude::*;

verus! {

/// The longest an enrollment token lasts: a rollout, not a standing secret.
pub const MAX_ENROLL_DAYS: u32 = 90;

/// Longest name, OS or version an agent may report; longer is cut.
pub const MAX_REPORTED: usize = 64;

#[derive(Debug, Clone, PartialEq, Eq)]
pub struct Device {
    pub id: i64,
    /// The ten-digit ID, spaced as people read it.
    pub device_id: String,
    /// SHA-256 of the device's certificate, in hex: what viewers pin.
    pub fingerprint: String,
    pub name: String,
    pub group_id: Option<i64>,
    pub group: Option<String>,
    pub os: String,
    pub version: String,
    pub enrolled_at: i64,
    pub last_seen_at: Option<i64>,
    pub last_address: Option<String>,
    /// Filled in by whoever knows: the registry.
    pub online: bool,
    /// What the person asking may do with it, filled in by whoever knows.
    pub role: Option<String>,
}

#[derive(Debug, Clone, PartialEq, Eq)]
pub struct Group {
    pub id: i64,
    pub name: String,
    pub devices: i64,
}

#[derive(Debug, Clone, PartialEq, Eq)]
pub struct EnrollToken {
    pub id: i64,
    pub name: String,
    pub group_id: Option<i64>,
    /// None: any number, until it expires.
    pub uses_left: Option<i64>,
    pub used: i64,
    pub created_at: i64,
    pub expires_at: i64,
}

// --- What is kept -----------------------------------------------------------------------------

#[derive(Debug)]
pub struct GroupRecord {
    pub id: i64,
    pub name: String,
    pub created_at: i64,
}

impl Row for GroupRecord {
    open spec fn key(&self) -> i64 {
        self.id
    }

    fn id(&self) -> (id: i64) {
        self.id
    }
}

impl Ranked for GroupRecord {
    open spec fn ranks(&self, other: &GroupRecord) -> bool {
        listed_first(self.name@, self.id, other.name@, other.id)
    }

    fn at_most(&self, other: &GroupRecord) -> (yes: bool) {
        lists_first(&self.name, self.id, &other.name, other.id)
    }

    proof fn lemma_total(a: &GroupRecord, b: &GroupRecord) {
        lemma_listed_total(a.name@, a.id, b.name@, b.id);
    }

    proof fn lemma_chain(a: &GroupRecord, b: &GroupRecord, c: &GroupRecord) {
        lemma_listed_chain(a.name@, a.id, b.name@, b.id, c.name@, c.id);
    }
}

#[derive(Debug)]
pub struct DeviceRecord {
    pub id: i64,
    pub fingerprint: Fingerprint,
    /// The number that goes with the fingerprint.
    pub number: DeviceId,
    pub name: String,
    pub group: Option<i64>,
    pub os: String,
    pub version: String,
    pub enrolled_at: i64,
    pub last_seen_at: Option<i64>,
    pub last_address: Option<String>,
}

impl Row for DeviceRecord {
    open spec fn key(&self) -> i64 {
        self.id
    }

    fn id(&self) -> (id: i64) {
        self.id
    }
}

impl Ranked for DeviceRecord {
    open spec fn ranks(&self, other: &DeviceRecord) -> bool {
        listed_first(self.name@, self.id, other.name@, other.id)
    }

    fn at_most(&self, other: &DeviceRecord) -> (yes: bool) {
        lists_first(&self.name, self.id, &other.name, other.id)
    }

    proof fn lemma_total(a: &DeviceRecord, b: &DeviceRecord) {
        lemma_listed_total(a.name@, a.id, b.name@, b.id);
    }

    proof fn lemma_chain(a: &DeviceRecord, b: &DeviceRecord, c: &DeviceRecord) {
        lemma_listed_chain(a.name@, a.id, b.name@, b.id, c.name@, c.id);
    }
}

#[derive(Debug)]
pub struct EnrollRecord {
    pub id: i64,
    pub token_hash: Vec<u8>,
    pub name: String,
    pub group: Option<i64>,
    pub uses_left: Option<i64>,
    pub used: i64,
    pub created_by: i64,
    pub created_at: i64,
    pub expires_at: i64,
}

impl Row for EnrollRecord {
    open spec fn key(&self) -> i64 {
        self.id
    }

    fn id(&self) -> (id: i64) {
        self.id
    }
}

/// The newest first.
impl Ranked for EnrollRecord {
    open spec fn ranks(&self, other: &EnrollRecord) -> bool {
        self.created_at > other.created_at || (self.created_at == other.created_at && self.id
            >= other.id)
    }

    fn at_most(&self, other: &EnrollRecord) -> (yes: bool) {
        self.created_at > other.created_at || (self.created_at == other.created_at && self.id
            >= other.id)
    }

    proof fn lemma_total(a: &EnrollRecord, b: &EnrollRecord) {
    }

    proof fn lemma_chain(a: &EnrollRecord, b: &EnrollRecord, c: &EnrollRecord) {
    }
}

impl EnrollToken {
    /// This is what is shown of an enrollment token.
    pub open spec fn shows(&self, record: &EnrollRecord) -> bool {
        &&& self.id == record.id
        &&& self.name@ == record.name@
        &&& self.group_id == record.group
        &&& self.uses_left == record.uses_left
        &&& self.used == record.used
        &&& self.created_at == record.created_at
        &&& self.expires_at == record.expires_at
    }
}

fn token_shown(record: &EnrollRecord) -> (token: EnrollToken)
    ensures
        token.shows(record),
{
    EnrollToken {
        id: record.id,
        name: record.name.as_str().to_owned(),
        group_id: record.group,
        uses_left: record.uses_left,
        used: record.used,
        created_at: record.created_at,
        expires_at: record.expires_at,
    }
}

/// The name of the group a device is in, if it is in one.
pub open spec fn group_name(groups: Seq<GroupRecord>, group: Option<i64>) -> Option<Seq<char>> {
    match group {
        Some(id) => if at(groups, id) >= 0 {
            Some(groups[at(groups, id)].name@)
        } else {
            None
        },
        None => None,
    }
}

impl Device {
    /// This is what is shown of a device, but for whether it is online and
    /// what the person asking may do with it.
    pub open spec fn shows(&self, record: &DeviceRecord, groups: Seq<GroupRecord>) -> bool {
        &&& self.id == record.id
        &&& self.device_id@ == record.number.written()
        &&& self.fingerprint@ == hex_of(record.fingerprint@)
        &&& self.name@ == record.name@
        &&& self.group_id == record.group
        &&& words(self.group) == group_name(groups, record.group)
        &&& self.os@ == record.os@
        &&& self.version@ == record.version@
        &&& self.enrolled_at == record.enrolled_at
        &&& self.last_seen_at == record.last_seen_at
        &&& words(self.last_address) == words(record.last_address)
    }
}

pub fn device_of(record: &DeviceRecord, groups: &[GroupRecord]) -> (device: Device)
    ensures
        device.shows(record, groups@),
        !device.online,
        device.role is None,
{
    let group = match record.group {
        Some(id) => match find(groups, id) {
            Some(i) => Some(groups[i].name.as_str().to_owned()),
            None => None,
        },
        None => None,
    };
    Device {
        id: record.id,
        device_id: record.number.text(),
        fingerprint: record.fingerprint.text(),
        name: record.name.as_str().to_owned(),
        group_id: record.group,
        group,
        os: record.os.as_str().to_owned(),
        version: record.version.as_str().to_owned(),
        enrolled_at: record.enrolled_at,
        last_seen_at: record.last_seen_at,
        last_address: copy_words(&record.last_address),
        online: false,
        role: None,
    }
}

// --- What agents report ------------------------------------------------------------------------

/// A text without its control characters.
pub open spec fn printable(s: Seq<char>) -> Seq<char> {
    s.filter(|c: char| !is_control(c))
}

/// The first so many characters of a text.
pub open spec fn cut(s: Seq<char>, most: int) -> Seq<char> {
    if s.len() > most {
        s.take(most)
    } else {
        s
    }
}

/// Something an agent reported, fit to list.
pub open spec fn tidied(text: Seq<char>, fallback: Seq<char>) -> Seq<char> {
    let tidy = trimmed(cut(printable(trimmed(text)), MAX_REPORTED as int));
    if tidy.len() == 0 {
        fallback
    } else {
        tidy
    }
}

/// Something an agent reported, fit to list: trimmed, cut short, and never
/// empty.
pub fn reported(text: &str, fallback: &str) -> (tidy: String)
    ensures
        tidy@ == tidied(text@, fallback@),
        fallback@.len() > 0 ==> tidy@.len() > 0,
{
    let chars = chars_of(text);
    let rest = trim(&chars);
    let mut plain: Vec<char> = Vec::new();
    let mut i: usize = 0;
    assert(printable(rest@.take(0)) =~= Seq::<char>::empty()) by {
        reveal(Seq::filter);
    }
    while i < rest.len()
        invariant
            i <= rest@.len(),
            plain@ == cut(printable(rest@.take(i as int)), MAX_REPORTED as int),
        decreases rest.len() - i,
    {
        proof {
            reveal(Seq::filter);
            assert(rest@.take(i + 1).drop_last() =~= rest@.take(i as int));
            assert(rest@.take(i + 1).last() == rest@[i as int]);
        }
        let ghost before = printable(rest@.take(i as int));
        if !control(rest[i]) && plain.len() < MAX_REPORTED {
            plain.push(rest[i]);
        }
        assert(plain@ =~= cut(printable(rest@.take(i + 1)), MAX_REPORTED as int));
        i = i + 1;
    }
    assert(rest@.take(i as int) =~= rest@);
    let tidy = trim(&plain);
    if tidy.len() == 0 {
        fallback.to_owned()
    } else {
        text_of(tidy)
    }
}

/// What is listed of a report is at most so long, unless the fallback is.
pub proof fn lemma_reports_are_short(text: Seq<char>, fallback: Seq<char>)
    requires
        fallback.len() <= MAX_REPORTED,
    ensures
        tidied(text, fallback).len() <= MAX_REPORTED,
{
    crate::text::lemma_trimmed_within(cut(printable(trimmed(text)), MAX_REPORTED as int));
}

/// The places where the characters of `part` stand in `whole`, in order.
pub open spec fn picked(part: Seq<char>, whole: Seq<char>, at: Seq<int>) -> bool {
    &&& at.len() == part.len()
    &&& forall|i: int|
        0 <= i < at.len() ==> 0 <= #[trigger] at[i] < whole.len() && whole[at[i]] == part[i]
    &&& forall|i: int, j: int| 0 <= i < j < at.len() ==> #[trigger] at[i] < #[trigger] at[j]
}

/// The characters of `part` come from `whole`, in order.
pub open spec fn comes_from(part: Seq<char>, whole: Seq<char>) -> bool {
    exists|at: Seq<int>| #[trigger] picked(part, whole, at)
}

/// What is listed of a report is never empty. It is the fallback; or it is
/// short and clean, its characters come from the report in order, and tidying
/// it again leaves it as it is.
pub proof fn lemma_tidy_stays_tidy(text: Seq<char>, fallback: Seq<char>)
    requires
        fallback.len() > 0,
    ensures
        tidied(text, fallback).len() > 0,
        tidied(text, fallback) == fallback || {
            let tidy = tidied(text, fallback);
            &&& tidy.len() <= MAX_REPORTED
            &&& forall|i: int| 0 <= i < tidy.len() ==> !is_control(#[trigger] tidy[i])
            &&& !is_space(tidy[0]) && !is_space(tidy.last())
            &&& comes_from(tidy, text)
            &&& tidied(tidy, fallback) == tidy
        },
{
    let bare = trimmed(text);
    let plain = printable(bare);
    let short = cut(plain, MAX_REPORTED as int);
    let tidy = trimmed(short);
    if tidy.len() > 0 {
        let (a, b) = crate::text::lemma_trimmed_is_a_part(text);
        let (c, d) = crate::text::lemma_trimmed_is_a_part(short);
        let kept = lemma_printable_picked(bare);
        let at = Seq::new(tidy.len(), |i: int| kept[c + i] + a);
        assert forall|i: int| 0 <= i < at.len() implies 0 <= #[trigger] at[i] < text.len()
            && text[at[i]] == tidy[i] by {
            assert(plain[c + i] == tidy[i]);
            assert(bare[kept[c + i]] == plain[c + i]);
        }
        assert(picked(tidy, text, at));
        crate::text::lemma_trimmed_twice(short);
        crate::text::lemma_trimmed_ends(short);
        assert forall|i: int| 0 <= i < tidy.len() implies !is_control(#[trigger] tidy[i]) by {
            assert(tidy[i] == plain[c + i]);
            bare.lemma_filter_pred(|c: char| !is_control(c), c + i);
        }
        lemma_printable_stays(tidy);
    }
}

proof fn lemma_printable_picked(s: Seq<char>) -> (at: Seq<int>)
    ensures
        picked(printable(s), s, at),
    decreases s.len(),
{
    reveal(Seq::filter);
    if s.len() == 0 {
        Seq::empty()
    } else {
        let less = s.drop_last();
        let at = lemma_printable_picked(less);
        assert forall|i: int| 0 <= i < at.len() implies 0 <= #[trigger] at[i] < s.len()
            && s[at[i]] == printable(less)[i] by {
            assert(less[at[i]] == printable(less)[i]);
        }
        if is_control(s.last()) {
            at
        } else {
            at.push(s.len() - 1)
        }
    }
}

proof fn lemma_printable_stays(s: Seq<char>)
    requires
        forall|i: int| 0 <= i < s.len() ==> !is_control(#[trigger] s[i]),
    ensures
        printable(s) == s,
    decreases s.len(),
{
    reveal(Seq::filter);
    if s.len() > 0 {
        lemma_printable_stays(s.drop_last());
        assert(s.drop_last().push(s.last()) =~= s);
    } else {
        assert(printable(s) =~= s);
    }
}

// --- Groups -----------------------------------------------------------------------------------

/// Where the group called `name` is; -1 if there is none.
pub open spec fn group_called(groups: Seq<GroupRecord>, name: Seq<char>) -> int
    decreases groups.len(),
{
    if groups.len() == 0 {
        -1
    } else if same_but_case(groups.last().name@, name) {
        groups.len() - 1
    } else {
        group_called(groups.drop_last(), name)
    }
}

fn find_called(groups: &[GroupRecord], name: &str) -> (found: Option<usize>)
    ensures
        match found {
            Some(i) => group_called(groups@, name@) == i && i < groups@.len(),
            None => group_called(groups@, name@) < 0,
        },
{
    let wanted = chars_of(name);
    let mut i: usize = groups.len();
    assert(groups@.take(i as int) =~= groups@);
    while i > 0
        invariant
            i <= groups@.len(),
            wanted@ == name@,
            group_called(groups@, name@) == group_called(groups@.take(i as int), name@),
        decreases i,
    {
        assert(groups@.take(i as int).drop_last() =~= groups@.take(i - 1));
        i = i - 1;
        if eq_ignore_case(&chars_of(groups[i].name.as_str()), &wanted) {
            return Some(i);
        }
    }
    None
}

/// Another group than `id` is called `name`.
pub open spec fn taken(groups: Seq<GroupRecord>, name: Seq<char>, id: i64) -> bool {
    exists|i: int|
        0 <= i < groups.len() && same_but_case((#[trigger] groups[i]).name@, name) && groups[i].id
            != id
}

fn is_taken(groups: &[GroupRecord], name: &str, id: i64) -> (yes: bool)
    ensures
        yes == taken(groups@, name@, id),
{
    let wanted = chars_of(name);
    let mut i: usize = 0;
    while i < groups.len()
        invariant
            i <= groups@.len(),
            wanted@ == name@,
            forall|j: int|
                0 <= j < i ==> !(same_but_case((#[trigger] groups@[j]).name@, name@)
                    && groups@[j].id != id),
        decreases groups.len() - i,
    {
        if eq_ignore_case(&chars_of(groups[i].name.as_str()), &wanted) && groups[i].id != id {
            assert(same_but_case(groups@[i as int].name@, name@));
            return true;
        }
        i = i + 1;
    }
    false
}

/// What is said of a name that is taken.
pub open spec fn name_taken(name: Seq<char>) -> Seq<char> {
    "there is a group called "@ + name + " already"@
}

pub fn refuse_name(name: &str) -> (refused: Refused)
    ensures
        refused matches Refused::Invalid(why) && why@ == name_taken(name@),
{
    let mut why = "there is a group called ".to_owned();
    why.append(name);
    why.append(" already");
    Refused::Invalid(why)
}

/// The devices in a group.
pub open spec fn in_group(id: i64) -> spec_fn(DeviceRecord) -> bool {
    |device: DeviceRecord| device.group == Some(id)
}

/// The groups but number `id`.
pub open spec fn groups_but(id: i64) -> spec_fn(GroupRecord) -> bool {
    |group: GroupRecord| group.id != id
}

/// The enrollment tokens that do not enroll into group `id`.
pub open spec fn tokens_elsewhere(id: i64) -> spec_fn(EnrollRecord) -> bool {
    |token: EnrollRecord| token.group != Some(id)
}

/// The enrollment tokens that still enroll at `now`.
pub open spec fn still_enrolls(now: i64) -> spec_fn(EnrollRecord) -> bool {
    |token: EnrollRecord| token.expires_at > now && token.uses_left != Some(0i64)
}

/// The enrollment tokens but number `id`.
pub open spec fn enroll_tokens_but(id: i64) -> spec_fn(EnrollRecord) -> bool {
    |token: EnrollRecord| token.id != id
}

/// The devices but number `id`.
pub open spec fn devices_but(id: i64) -> spec_fn(DeviceRecord) -> bool {
    |device: DeviceRecord| device.id != id
}

/// The devices, those in group `id` out of it.
pub open spec fn let_go(devices: Seq<DeviceRecord>, id: i64) -> Seq<DeviceRecord> {
    devices.map_values(
        |device: DeviceRecord|
            if device.group == Some(id) {
                DeviceRecord { group: None, ..device }
            } else {
                device
            },
    )
}

impl Group {
    /// This is what is shown of a group.
    pub open spec fn shows(&self, record: &GroupRecord, devices: Seq<DeviceRecord>) -> bool {
        &&& self.id == record.id
        &&& self.name@ == record.name@
        &&& self.devices == devices.filter(in_group(record.id)).len()
    }
}

/// Managed devices, their groups, and the tokens that enroll them.
#[derive(Debug)]
pub struct Devices {
    pub groups: Vec<GroupRecord>,
    pub devices: Vec<DeviceRecord>,
    pub tokens: Vec<EnrollRecord>,
}

impl Devices {
    pub fn new() -> (devices: Devices)
        ensures
            devices.groups@.len() == 0,
            devices.devices@.len() == 0,
            devices.tokens@.len() == 0,
    {
        Devices { groups: Vec::new(), devices: Vec::new(), tokens: Vec::new() }
    }

    fn group_shown(&self, i: usize) -> (group: Group)
        requires
            i < self.groups@.len(),
            self.devices@.len() <= i64::MAX,
        ensures
            group.shows(&self.groups@[i as int], self.devices@),
    {
        let id: i64 = self.groups[i].id;
        let mut count: i64 = 0;
        let mut n: usize = 0;
        assert(self.devices@.take(0).filter(in_group(id)).len() == 0) by {
            reveal(Seq::filter);
        }
        while n < self.devices.len()
            invariant
                n <= self.devices@.len(),
                0 <= count <= n,
                count == self.devices@.take(n as int).filter(in_group(id)).len(),
                self.devices@.len() <= i64::MAX,
            decreases self.devices.len() - n,
        {
            proof {
                reveal(Seq::filter);
                assert(self.devices@.take(n + 1).drop_last() =~= self.devices@.take(n as int));
                assert(self.devices@.take(n + 1).last() == self.devices@[n as int]);
            }
            let inside = match self.devices[n].group {
                Some(group) => group == id,
                None => false,
            };
            if inside {
                count = count + 1;
            }
            n = n + 1;
        }
        assert(self.devices@.take(n as int) =~= self.devices@);
        Group { id, name: self.groups[i].name.as_str().to_owned(), devices: count }
    }

    /// Every group, by name, with the number of devices in it.
    pub fn groups(&self) -> (listed: Vec<Group>)
        requires
            self.devices@.len() <= i64::MAX,
        ensures
            exists|order: Seq<usize>|
                {
                    &&& #[trigger] places(self.groups@, order)
                    &&& listed@.len() == order.len()
                    &&& forall|i: int|
                        0 <= i < listed@.len() ==> (#[trigger] listed@[i]).shows(
                            &self.groups@[order[i] as int],
                            self.devices@,
                        )
                },
    {
        let order = in_order(&self.groups);
        let mut listed: Vec<Group> = Vec::new();
        let mut i: usize = 0;
        while i < order.len()
            invariant
                i <= order@.len(),
                self.devices@.len() <= i64::MAX,
                places(self.groups@, order@),
                listed@.len() == i,
                forall|j: int|
                    0 <= j < i ==> (#[trigger] listed@[j]).shows(
                        &self.groups@[order@[j] as int],
                        self.devices@,
                    ),
            decreases order.len() - i,
        {
            listed.push(self.group_shown(order[i]));
            i = i + 1;
        }
        listed
    }

    pub fn group(&self, id: i64) -> (group: Result<Group, Refused>)
        requires
            self.devices@.len() <= i64::MAX,
        ensures
            match group {
                Ok(group) => at(self.groups@, id) >= 0 && group.shows(
                    &self.groups@[at(self.groups@, id)],
                    self.devices@,
                ),
                Err(refused) => refused is NotFound && at(self.groups@, id) < 0,
            },
    {
        match find(&self.groups, id) {
            Some(i) => Ok(self.group_shown(i)),
            None => Err(Refused::NotFound),
        }
    }

    /// What `create_group` does.
    pub open spec fn create_group_does(
        before: &Devices,
        after: &Devices,
        name: &str,
        now: i64,
        made: Result<Group, Refused>,
    ) -> bool {
        &&& after.devices == before.devices
        &&& after.tokens == before.tokens
        &&& match made {
            Ok(group) => {
                &&& valid_name(name@)
                &&& group_called(before.groups@, name@) < 0
                &&& next_id(before.groups@) == Some(group.id)
                &&& after.groups@.len() == before.groups@.len() + 1
                &&& after.groups@.drop_last() == before.groups@
                &&& after.groups@.last().created_at == now
                &&& group.shows(&after.groups@.last(), before.devices@)
                &&& group.name@ == name@
            },
            Err(refused) => {
                &&& after.groups == before.groups
                &&& if !valid_name(name@) {
                    refused matches Refused::Invalid(why) && why@ == name_rule()
                } else if group_called(before.groups@, name@) >= 0 {
                    refused matches Refused::Invalid(why) && why@ == name_taken(name@)
                } else {
                    refused.is_internal() && next_id(before.groups@) is None
                }
            },
        }
    }

    pub fn create_group(&mut self, name: &str, now: i64) -> (made: Result<Group, Refused>)
        requires
            old(self).devices@.len() <= i64::MAX,
        ensures
            Devices::create_group_does(old(self), final(self), name, now, made),
    {
        check_name(name)?;
        if find_called(&self.groups, name).is_some() {
            return Err(refuse_name(name));
        }
        let id = match fresh_id(&self.groups) {
            Some(id) => id,
            None => {
                return Err(internal());
            },
        };
        self.groups.push(GroupRecord { id, name: name.to_owned(), created_at: now });
        assert(self.groups@.drop_last() =~= old(self).groups@);
        let last: usize = self.groups.len() - 1;
        Ok(self.group_shown(last))
    }

    /// What `rename_group` does.
    pub open spec fn rename_group_does(
        before: &Devices,
        after: &Devices,
        id: i64,
        name: &str,
        renamed: Result<Group, Refused>,
    ) -> bool {
        &&& after.devices == before.devices
        &&& after.tokens == before.tokens
        &&& {
            let i = at(before.groups@, id);
            match renamed {
                Ok(group) => {
                    &&& valid_name(name@)
                    &&& !taken(before.groups@, name@, id)
                    &&& i >= 0
                    &&& after.groups@.len() == before.groups@.len()
                    &&& after.groups@[i].name@ == name@
                    &&& after.groups@ == before.groups@.update(
                        i,
                        GroupRecord {
                            name: after.groups@[i].name,
                            ..before.groups@[i]
                        },
                    )
                    &&& group.shows(&after.groups@[i], before.devices@)
                },
                Err(refused) => {
                    &&& after.groups == before.groups
                    &&& if !valid_name(name@) {
                        refused matches Refused::Invalid(why) && why@ == name_rule()
                    } else if taken(before.groups@, name@, id) {
                        refused matches Refused::Invalid(why) && why@ == name_taken(name@)
                    } else {
                        refused is NotFound && i < 0
                    }
                },
            }
        }
    }

    pub fn rename_group(&mut self, id: i64, name: &str) -> (renamed: Result<Group, Refused>)
        requires
            old(self).devices@.len() <= i64::MAX,
        ensures
            Devices::rename_group_does(old(self), final(self), id, name, renamed),
    {
        check_name(name)?;
        if is_taken(&self.groups, name, id) {
            return Err(refuse_name(name));
        }
        match find(&self.groups, id) {
            None => Err(Refused::NotFound),
            Some(i) => {
                self.groups[i].name = name.to_owned();
                assert(self.groups@ =~= old(self).groups@.update(
                    i as int,
                    GroupRecord {
                        name: self.groups@[i as int].name,
                        ..old(self).groups@[i as int]
                    },
                ));
                Ok(self.group_shown(i))
            },
        }
    }

    /// What `delete_group` does.
    pub open spec fn delete_group_does(
        before: &Devices,
        after: &Devices,
        id: i64,
        deleted: Result<(), Refused>,
    ) -> bool {
        &&& match deleted {
            Ok(()) => {
                &&& at(before.groups@, id) >= 0
                &&& after.groups@ == before.groups@.filter(groups_but(id))
                &&& after.devices@ == let_go(before.devices@, id)
                &&& after.tokens@ == before.tokens@.filter(tokens_elsewhere(id))
            },
            Err(refused) => {
                &&& refused is NotFound && at(before.groups@, id) < 0
                &&& *after == *before
            },
        }
    }

    /// Delete a group. Its devices stay, in no group; the tokens that enroll
    /// into it go.
    pub fn delete_group(&mut self, id: i64) -> (deleted: Result<(), Refused>)
        ensures
            Devices::delete_group_does(old(self), final(self), id, deleted),
    {
        if find(&self.groups, id).is_none() {
            return Err(Refused::NotFound);
        }
        let mut groups: Vec<GroupRecord> = Vec::new();
        std::mem::swap(&mut groups, &mut self.groups);
        let stays = |group: &GroupRecord| -> (yes: bool)
            ensures
                yes == (group.id != id),
            {
                group.id != id
            };
        self.groups = keep(groups, stays, Ghost(groups_but(id)));
        let mut tokens: Vec<EnrollRecord> = Vec::new();
        std::mem::swap(&mut tokens, &mut self.tokens);
        let elsewhere = |token: &EnrollRecord| -> (yes: bool)
            ensures
                yes == (token.group != Some(id)),
            {
                match token.group {
                    Some(group) => group != id,
                    None => true,
                }
            };
        self.tokens = keep(tokens, elsewhere, Ghost(tokens_elsewhere(id)));
        let ghost (groups_left, tokens_left) = (self.groups, self.tokens);
        let mut n: usize = 0;
        while n < self.devices.len()
            invariant
                self.groups == groups_left,
                self.tokens == tokens_left,
                n <= self.devices@.len(),
                self.devices@.len() == old(self).devices@.len(),
                forall|i: int|
                    0 <= i < n ==> #[trigger] self.devices@[i] == let_go(
                        old(self).devices@,
                        id,
                    )[i],
                forall|i: int|
                    n <= i < self.devices@.len() ==> #[trigger] self.devices@[i] == old(
                        self).devices@[i],
            decreases self.devices.len() - n,
        {
            let inside = match self.devices[n].group {
                Some(group) => group == id,
                None => false,
            };
            if inside {
                self.devices[n].group = None;
            }
            n = n + 1;
        }
        assert(self.devices@ =~= let_go(old(self).devices@, id));
        Ok(())
    }

    // --- Enrollment tokens ----------------------------------------------------------------

    /// Keep an enrollment token made of drawn bytes.
    pub fn add_enroll_token(
        &mut self,
        by: i64,
        name: &str,
        group_id: Option<i64>,
        uses: Option<u32>,
        lifetime_days: u32,
        drawn: Option<Vec<u8>>,
        now: i64,
    ) -> (added: Result<(EnrollToken, String), Refused>)
        requires
            drawn matches Some(bytes) ==> bytes@.len() == 32,
            now + MAX_ENROLL_DAYS * 86_400 <= i64::MAX,
        ensures
            final(self).groups == old(self).groups,
            final(self).devices == old(self).devices,
            match added {
                Ok((listed, token)) => {
                    &&& token_refusal(old(self).groups@, name@, group_id, uses, lifetime_days)
                        is None
                    &&& drawn matches Some(bytes) && token@ == "nhe_"@ + hex_of(bytes@)
                    &&& next_id(old(self).tokens@) == Some(listed.id)
                    &&& final(self).tokens@.len() == old(self).tokens@.len() + 1
                    &&& final(self).tokens@.drop_last() == old(self).tokens@
                    &&& listed.shows(&final(self).tokens@.last())
                    &&& listed.name@ == name@
                    &&& listed.group_id == group_id
                    &&& match uses {
                        Some(uses) => listed.uses_left == Some(uses as i64),
                        None => listed.uses_left is None,
                    }
                    &&& listed.used == 0
                    &&& listed.created_at == now
                    &&& listed.expires_at == now + lifetime_days * 86_400
                    &&& final(self).tokens@.last().created_by == by
                    &&& final(self).tokens@.last().token_hash@ == hash_of(token@)
                },
                Err(refused) => {
                    &&& final(self).tokens == old(self).tokens
                    &&& match token_refusal(
                        old(self).groups@,
                        name@,
                        group_id,
                        uses,
                        lifetime_days,
                    ) {
                        Some(TokenRefusal::Invalid(why)) => refused matches Refused::Invalid(said)
                            && said@ == why,
                        Some(TokenRefusal::NotFound) => refused is NotFound,
                        None => refused.is_internal() && (drawn is None || next_id(
                            old(self).tokens@,
                        ) is None),
                    }
                },
            },
    {
        check_name(name)?;
        if lifetime_days < 1 || lifetime_days > MAX_ENROLL_DAYS {
            return Err(Refused::Invalid("an enrollment token lasts 1 to 90 days".to_owned()));
        }
        let none = match uses {
            Some(uses) => uses == 0,
            None => false,
        };
        if none {
            return Err(Refused::Invalid("a token for no devices enrolls none".to_owned()));
        }
        match group_id {
            Some(group) => {
                if find(&self.groups, group).is_none() {
                    return Err(Refused::NotFound);
                }
            },
            None => {},
        }
        let bytes = match drawn {
            Some(bytes) => bytes,
            None => {
                return Err(internal());
            },
        };
        let id = match fresh_id(&self.tokens) {
            Some(id) => id,
            None => {
                return Err(internal());
            },
        };
        let token = token_of("nhe_", &bytes);
        proof {
            reveal_strlit("nhe_");
            super::accounts::lemma_short_fits(token@);
        }
        let uses_left: Option<i64> = match uses {
            Some(uses) => Some(uses as i64),
            None => None,
        };
        let record = EnrollRecord {
            id,
            token_hash: hash(&token),
            name: name.to_owned(),
            group: group_id,
            uses_left,
            used: 0,
            created_by: by,
            created_at: now,
            expires_at: now + lifetime_days as i64 * 86_400,
        };
        let listed = token_shown(&record);
        self.tokens.push(record);
        assert(self.tokens@.drop_last() =~= old(self).tokens@);
        Ok((listed, token))
    }

    /// What `new_enroll_token` does.
    pub open spec fn new_enroll_token_does(
        before: &Devices,
        after: &Devices,
        by: &User,
        name: &str,
        group_id: Option<i64>,
        uses: Option<u32>,
        lifetime_days: u32,
        now: i64,
        added: Result<(EnrollToken, String), Refused>,
    ) -> bool {
        &&& after.groups == before.groups
        &&& after.devices == before.devices
        &&& match added {
            Ok((listed, token)) => {
                &&& token_refusal(before.groups@, name@, group_id, uses, lifetime_days)
                    is None
                &&& token@.len() == 68 && starts(token@, "nhe_"@)
                &&& after.tokens@.len() > 0
                &&& after.tokens@.drop_last() == before.tokens@.filter(
                    still_enrolls(now),
                )
                &&& listed.shows(&after.tokens@.last())
                &&& listed.name@ == name@
                &&& listed.group_id == group_id
                &&& match uses {
                    Some(uses) => listed.uses_left == Some(uses as i64),
                    None => listed.uses_left is None,
                }
                &&& listed.used == 0
                &&& listed.expires_at == now + lifetime_days * 86_400
                &&& after.tokens@.last().created_by == by.id
                &&& after.tokens@.last().token_hash@ == hash_of(token@)
            },
            Err(refused) => {
                &&& after.tokens == before.tokens
                &&& match token_refusal(
                    before.groups@,
                    name@,
                    group_id,
                    uses,
                    lifetime_days,
                ) {
                    Some(TokenRefusal::Invalid(why)) => refused matches Refused::Invalid(said)
                        && said@ == why,
                    Some(TokenRefusal::NotFound) => refused is NotFound,
                    None => refused.is_internal(),
                }
            },
        }
    }

    /// A new enrollment token, shown this once. `uses` None means any number
    /// of devices until it expires. Tokens that no longer enroll are deleted
    /// on the way.
    pub fn new_enroll_token(
        &mut self,
        by: &User,
        name: &str,
        group_id: Option<i64>,
        uses: Option<u32>,
        lifetime_days: u32,
        now: i64,
    ) -> (added: Result<(EnrollToken, String), Refused>)
        requires
            now + MAX_ENROLL_DAYS * 86_400 <= i64::MAX,
        ensures
            Devices::new_enroll_token_does(
                old(self),
                final(self),
                by,
                name,
                group_id,
                uses,
                lifetime_days,
                now,
                added,
            ),
    {
        let added = self.add_enroll_token(
            by.id,
            name,
            group_id,
            uses,
            lifetime_days,
            random_bytes(32),
            now,
        );
        if added.is_ok() {
            let ghost with = self.tokens@;
            self.drop_dead_tokens(now);
            proof {
                reveal(Seq::filter);
                reveal_strlit("nhe_");
                assert(with.filter(still_enrolls(now)) == with.drop_last().filter(
                    still_enrolls(now),
                ).push(with.last()));
                assert(self.tokens@.drop_last() =~= old(self).tokens@.filter(still_enrolls(now)));
                if let Ok((_, token)) = &added {
                    assert(token@.take(4) =~= "nhe_"@);
                }
            }
        }
        added
    }

    fn drop_dead_tokens(&mut self, now: i64)
        ensures
            final(self).groups == old(self).groups,
            final(self).devices == old(self).devices,
            final(self).tokens@ == old(self).tokens@.filter(still_enrolls(now)),
    {
        let mut tokens: Vec<EnrollRecord> = Vec::new();
        std::mem::swap(&mut tokens, &mut self.tokens);
        let stays = |token: &EnrollRecord| -> (yes: bool)
            ensures
                yes == (token.expires_at > now && token.uses_left != Some(0i64)),
            {
                let spent = match token.uses_left {
                    Some(left) => left == 0,
                    None => false,
                };
                token.expires_at > now && !spent
            };
        self.tokens = keep(tokens, stays, Ghost(still_enrolls(now)));
    }

    /// What `enroll_tokens` does.
    pub open spec fn enroll_tokens_does(
        before: &Devices,
        after: &Devices,
        now: i64,
        listed: Vec<EnrollToken>,
    ) -> bool {
        &&& after.groups == before.groups
        &&& after.devices == before.devices
        &&& after.tokens@ == before.tokens@.filter(still_enrolls(now))
        &&& exists|order: Seq<usize>|
            {
                &&& #[trigger] places(after.tokens@, order)
                &&& listed@.len() == order.len()
                &&& forall|i: int|
                    0 <= i < listed@.len() ==> (#[trigger] listed@[i]).shows(
                        &after.tokens@[order[i] as int],
                    )
            }
    }

    /// The tokens that still enroll, the newest first: not expired, not used
    /// up. The rest are deleted on the way.
    pub fn enroll_tokens(&mut self, now: i64) -> (listed: Vec<EnrollToken>)
        ensures
            Devices::enroll_tokens_does(old(self), final(self), now, listed),
    {
        self.drop_dead_tokens(now);
        let order = in_order(&self.tokens);
        let mut listed: Vec<EnrollToken> = Vec::new();
        let mut i: usize = 0;
        while i < order.len()
            invariant
                i <= order@.len(),
                places(self.tokens@, order@),
                listed@.len() == i,
                forall|j: int|
                    0 <= j < i ==> (#[trigger] listed@[j]).shows(
                        &self.tokens@[order@[j] as int],
                    ),
            decreases order.len() - i,
        {
            listed.push(token_shown(&self.tokens[order[i]]));
            i = i + 1;
        }
        listed
    }

    /// What `delete_enroll_token` does.
    pub open spec fn delete_enroll_token_does(
        before: &Devices,
        after: &Devices,
        id: i64,
        deleted: Result<(), Refused>,
    ) -> bool {
        &&& after.groups == before.groups
        &&& after.devices == before.devices
        &&& match deleted {
            Ok(()) => {
                &&& at(before.tokens@, id) >= 0
                &&& after.tokens@ == before.tokens@.filter(enroll_tokens_but(id))
            },
            Err(refused) => {
                &&& refused is NotFound && at(before.tokens@, id) < 0
                &&& after.tokens == before.tokens
            },
        }
    }

    pub fn delete_enroll_token(&mut self, id: i64) -> (deleted: Result<(), Refused>)
        ensures
            Devices::delete_enroll_token_does(old(self), final(self), id, deleted),
    {
        if find(&self.tokens, id).is_none() {
            return Err(Refused::NotFound);
        }
        let mut tokens: Vec<EnrollRecord> = Vec::new();
        std::mem::swap(&mut tokens, &mut self.tokens);
        let stays = |token: &EnrollRecord| -> (yes: bool)
            ensures
                yes == (token.id != id),
            {
                token.id != id
            };
        self.tokens = keep(tokens, stays, Ghost(enroll_tokens_but(id)));
        Ok(())
    }
}

/// Why an enrollment token is not made.
pub enum TokenRefusal {
    Invalid(Seq<char>),
    NotFound,
}

/// Why an enrollment token like this is not made, if it is not.
pub open spec fn token_refusal(
    groups: Seq<GroupRecord>,
    name: Seq<char>,
    group: Option<i64>,
    uses: Option<u32>,
    lifetime_days: u32,
) -> Option<TokenRefusal> {
    if !valid_name(name) {
        Some(TokenRefusal::Invalid(name_rule()))
    } else if !(1 <= lifetime_days <= MAX_ENROLL_DAYS) {
        Some(TokenRefusal::Invalid("an enrollment token lasts 1 to 90 days"@))
    } else if uses == Some(0u32) {
        Some(TokenRefusal::Invalid("a token for no devices enrolls none"@))
    } else if group is Some && at(groups, group->Some_0) < 0 {
        Some(TokenRefusal::NotFound)
    } else {
        None
    }
}

// --- Devices ---------------------------------------------------------------------------------

/// Where the device with this certificate is; -1 if there is none.
pub open spec fn at_certificate(devices: Seq<DeviceRecord>, fingerprint: Seq<u8>) -> int
    decreases devices.len(),
{
    if devices.len() == 0 {
        -1
    } else if devices.last().fingerprint@ == fingerprint {
        devices.len() - 1
    } else {
        at_certificate(devices.drop_last(), fingerprint)
    }
}

fn find_certificate(devices: &[DeviceRecord], fingerprint: &Fingerprint) -> (found: Option<usize>)
    ensures
        match found {
            Some(i) => at_certificate(devices@, fingerprint@) == i && i < devices@.len()
                && devices@[i as int].fingerprint@ == fingerprint@,
            None => at_certificate(devices@, fingerprint@) < 0,
        },
{
    let mut i: usize = devices.len();
    assert(devices@.take(i as int) =~= devices@);
    while i > 0
        invariant
            i <= devices@.len(),
            at_certificate(devices@, fingerprint@) == at_certificate(
                devices@.take(i as int),
                fingerprint@,
            ),
        decreases i,
    {
        assert(devices@.take(i as int).drop_last() =~= devices@.take(i - 1));
        i = i - 1;
        if devices[i].fingerprint == *fingerprint {
            return Some(i);
        }
    }
    None
}

/// Where the token with this hash is, if it enrolls now; -1 if it does not.
pub open spec fn at_token(tokens: Seq<EnrollRecord>, hash: Seq<u8>, now: i64) -> int
    decreases tokens.len(),
{
    if tokens.len() == 0 {
        -1
    } else if tokens.last().token_hash@ == hash && tokens.last().expires_at > now && (
    tokens.last().uses_left matches Some(left) ==> left > 0) {
        tokens.len() - 1
    } else {
        at_token(tokens.drop_last(), hash, now)
    }
}

fn find_token(tokens: &[EnrollRecord], hash: &[u8], now: i64) -> (found: Option<usize>)
    ensures
        match found {
            Some(i) => at_token(tokens@, hash@, now) == i && i < tokens@.len() && (
            tokens@[i as int].uses_left matches Some(left) ==> left > 0),
            None => at_token(tokens@, hash@, now) < 0,
        },
{
    let mut i: usize = tokens.len();
    assert(tokens@.take(i as int) =~= tokens@);
    while i > 0
        invariant
            i <= tokens@.len(),
            at_token(tokens@, hash@, now) == at_token(tokens@.take(i as int), hash@, now),
        decreases i,
    {
        assert(tokens@.take(i as int).drop_last() =~= tokens@.take(i - 1));
        i = i - 1;
        let left = match tokens[i].uses_left {
            Some(left) => left > 0,
            None => true,
        };
        if same_bytes(&tokens[i].token_hash, hash) && tokens[i].expires_at > now && left {
            return Some(i);
        }
    }
    None
}

/// A token with one use counted.
pub open spec fn used_once(token: EnrollRecord) -> EnrollRecord {
    EnrollRecord {
        used: if token.used < i64::MAX {
            (token.used + 1) as i64
        } else {
            token.used
        },
        uses_left: match token.uses_left {
            Some(left) => Some((left - 1) as i64),
            None => None,
        },
        ..token
    }
}

impl DeviceRecord {
    /// The device as it enrolled.
    pub open spec fn enrolled(
        &self,
        fingerprint: Seq<u8>,
        number: DeviceId,
        enrollment: &Enrollment,
        from: Address,
        now: i64,
    ) -> bool {
        &&& self.fingerprint@ == fingerprint
        &&& self.number == number
        &&& self.name@ == tidied(enrollment.name@, "unnamed"@)
        &&& self.os@ == tidied(enrollment.os@, "unknown"@)
        &&& self.version@ == tidied(enrollment.version@, "unknown"@)
        &&& self.enrolled_at == now
        &&& self.last_seen_at == Some(now)
        &&& words(self.last_address) == Some(from.written())
    }
}

/// No two devices have the same certificate.
pub open spec fn own_certificates(devices: Seq<DeviceRecord>) -> bool {
    forall|i: int, j: int|
        0 <= i < j < devices.len() ==> (#[trigger] devices[i]).fingerprint@ != (
        #[trigger] devices[j]).fingerprint@
}

impl Devices {
    /// What `enroll` does.
    pub open spec fn enroll_does(
        before: &Devices,
        after: &Devices,
        fingerprint: &Fingerprint,
        number: DeviceId,
        enrollment: &Enrollment,
        from: Address,
        now: i64,
        enrolled: Result<Device, Refused>,
    ) -> bool {
        &&& after.groups == before.groups
        &&& own_certificates(before.devices@) ==> own_certificates(after.devices@)
        &&& {
            let t = at_token(before.tokens@, hash_of(enrollment.token@), now);
            let d = at_certificate(before.devices@, fingerprint@);
            match enrolled {
                Ok(device) => {
                    &&& t >= 0
                    &&& after.tokens@ == before.tokens@.update(
                        t,
                        used_once(before.tokens@[t]),
                    )
                    &&& if d >= 0 {
                        let changed_to = after.devices@[d];
                        &&& after.devices@ == before.devices@.update(d, changed_to)
                        &&& changed_to.id == before.devices@[d].id
                        &&& changed_to.group == (if before.tokens@[t].group is Some {
                            before.tokens@[t].group
                        } else {
                            before.devices@[d].group
                        })
                        &&& changed_to.enrolled(fingerprint@, number, enrollment, from, now)
                        &&& device.shows(&changed_to, before.groups@)
                    } else {
                        let changed_to = after.devices@.last();
                        &&& after.devices@.len() == before.devices@.len() + 1
                        &&& after.devices@.drop_last() == before.devices@
                        &&& next_id(before.devices@) == Some(changed_to.id)
                        &&& changed_to.group == before.tokens@[t].group
                        &&& changed_to.enrolled(fingerprint@, number, enrollment, from, now)
                        &&& device.shows(&changed_to, before.groups@)
                    }
                },
                Err(refused) => {
                    &&& *after == *before
                    &&& if t < 0 {
                        refused is Forbidden
                    } else {
                        refused.is_internal() && d < 0 && next_id(before.devices@) is None
                    }
                },
            }
        }
    }

    /// Enroll the device with this certificate, if the token is good: it
    /// counts one use of it. A device enrolled already is updated, and moved
    /// into the token's group if it names one.
    pub fn enroll(
        &mut self,
        fingerprint: &Fingerprint,
        number: DeviceId,
        enrollment: &Enrollment,
        from: Address,
        now: i64,
    ) -> (enrolled: Result<Device, Refused>)
        requires
            fits(enrollment.token@),
        ensures
            Devices::enroll_does(
                old(self),
                final(self),
                fingerprint,
                number,
                enrollment,
                from,
                now,
                enrolled,
            ),
    {
        let t = match find_token(&self.tokens, &hash(&enrollment.token), now) {
            Some(t) => t,
            None => {
                return Err(Refused::Forbidden);
            },
        };
        let group: Option<i64> = self.tokens[t].group;
        let known = find_certificate(&self.devices, fingerprint);
        let fresh = fresh_id(&self.devices);
        if known.is_none() && fresh.is_none() {
            return Err(internal());
        }
        let name = reported(&enrollment.name, "unnamed");
        let os = reported(&enrollment.os, "unknown");
        let version = reported(&enrollment.version, "unknown");
        let used: i64 = self.tokens[t].used;
        if used < i64::MAX {
            self.tokens[t].used = used + 1;
        }
        match self.tokens[t].uses_left {
            Some(left) => {
                self.tokens[t].uses_left = Some(left - 1);
            },
            None => {},
        }
        assert(self.tokens@ =~= old(self).tokens@.update(
            t as int,
            used_once(old(self).tokens@[t as int]),
        ));
        match known {
            Some(d) => {
                if group.is_some() {
                    self.devices[d].group = group;
                }
                self.devices[d].fingerprint = *fingerprint;
                self.devices[d].number = number;
                self.devices[d].name = name;
                self.devices[d].os = os;
                self.devices[d].version = version;
                self.devices[d].enrolled_at = now;
                self.devices[d].last_seen_at = Some(now);
                self.devices[d].last_address = Some(from.text());
                assert(self.devices@ =~= old(self).devices@.update(
                    d as int,
                    self.devices@[d as int],
                ));
                assert forall|i: int| 0 <= i < self.devices@.len() implies (
                #[trigger] self.devices@[i]).fingerprint@ == old(self).devices@[i].fingerprint@ by {}
                Ok(device_of(&self.devices[d], &self.groups))
            },
            None => {
                let id: i64 = match fresh {
                    Some(id) => id,
                    None => 0,
                };
                let record = DeviceRecord {
                    id,
                    fingerprint: *fingerprint,
                    number,
                    name,
                    group,
                    os,
                    version,
                    enrolled_at: now,
                    last_seen_at: Some(now),
                    last_address: Some(from.text()),
                };
                let device = device_of(&record, &self.groups);
                self.devices.push(record);
                proof {
                    lemma_at_certificate(old(self).devices@, fingerprint@);
                    assert(self.devices@.drop_last() =~= old(self).devices@);
                    assert forall|i: int| 0 <= i < old(self).devices@.len() implies old(
                        self).devices@[i] == #[trigger] self.devices@[i] by {}
                }
                Ok(device)
            },
        }
    }

    /// These are all devices, in order, as they are shown before anyone has
    /// said which are online.
    pub open spec fn all_listed(&self, listed: Seq<Device>) -> bool {
        exists|order: Seq<usize>|
            {
                &&& #[trigger] places(self.devices@, order)
                &&& listed.len() == order.len()
                &&& forall|i: int|
                    0 <= i < listed.len() ==> (#[trigger] listed[i]).shows(
                        &self.devices@[order[i] as int],
                        self.groups@,
                    ) && !listed[i].online
            }
    }

    /// Every device, by name.
    pub fn devices(&self) -> (listed: Vec<Device>)
        ensures
            self.all_listed(listed@),
            listed@.len() == self.devices@.len(),
    {
        let order = in_order(&self.devices);
        let mut listed: Vec<Device> = Vec::new();
        let mut i: usize = 0;
        while i < order.len()
            invariant
                i <= order@.len(),
                places(self.devices@, order@),
                listed@.len() == i,
                forall|j: int|
                    0 <= j < i ==> (#[trigger] listed@[j]).shows(
                        &self.devices@[order@[j] as int],
                        self.groups@,
                    ) && !listed@[j].online,
            decreases order.len() - i,
        {
            listed.push(device_of(&self.devices[order[i]], &self.groups));
            i = i + 1;
        }
        listed
    }

    pub fn device(&self, id: i64) -> (device: Result<Device, Refused>)
        ensures
            match device {
                Ok(device) => at(self.devices@, id) >= 0 && device.shows(
                    &self.devices@[at(self.devices@, id)],
                    self.groups@,
                ) && !device.online,
                Err(refused) => refused is NotFound && at(self.devices@, id) < 0,
            },
    {
        match find(&self.devices, id) {
            Some(i) => Ok(device_of(&self.devices[i], &self.groups)),
            None => Err(Refused::NotFound),
        }
    }

    /// What `update_device` does.
    pub open spec fn update_device_does(
        before: &Devices,
        after: &Devices,
        id: i64,
        name: Option<&str>,
        group: Option<Option<i64>>,
        changed: Result<Device, Refused>,
    ) -> bool {
        &&& after.groups == before.groups
        &&& after.tokens == before.tokens
        &&& {
            let i = at(before.devices@, id);
            let bad_name = name is Some && !valid_name(name->Some_0@);
            let no_group = group matches Some(Some(g)) && at(before.groups@, g) < 0;
            if i < 0 || bad_name {
                &&& after.devices == before.devices
                &&& if i < 0 {
                    changed matches Err(Refused::NotFound)
                } else {
                    changed matches Err(Refused::Invalid(why)) && why@ == name_rule()
                }
            } else {
                let was = before.devices@[i];
                let changed_to = after.devices@[i];
                &&& after.devices@ == before.devices@.update(i, changed_to)
                &&& changed_to.name@ == (match name {
                    Some(name) => name@,
                    None => was.name@,
                })
                &&& changed_to == (DeviceRecord {
                    name: changed_to.name,
                    group: if group is Some && !no_group {
                        group->Some_0
                    } else {
                        was.group
                    },
                    ..was
                })
                &&& if no_group {
                    changed matches Err(Refused::NotFound)
                } else {
                    changed matches Ok(device) && device.shows(&changed_to, before.groups@)
                        && !device.online
                }
            }
        }
    }

    /// Rename a device, or move it: `group` Some(None) takes it out of its
    /// group. The name changes first, and stays changed if there is no such
    /// group.
    pub fn update_device(&mut self, id: i64, name: Option<&str>, group: Option<Option<i64>>) -> (
        changed: Result<Device, Refused>)
        ensures
            Devices::update_device_does(old(self), final(self), id, name, group, changed),
    {
        let i = match find(&self.devices, id) {
            Some(i) => i,
            None => {
                return Err(Refused::NotFound);
            },
        };
        match name {
            Some(name) => {
                check_name(name)?;
                self.devices[i].name = name.to_owned();
            },
            None => {},
        }
        match group {
            Some(moved) => {
                match moved {
                    Some(group) => {
                        if find(&self.groups, group).is_none() {
                            assert(self.devices@ =~= old(self).devices@.update(
                                i as int,
                                self.devices@[i as int],
                            ));
                            return Err(Refused::NotFound);
                        }
                    },
                    None => {},
                }
                self.devices[i].group = moved;
            },
            None => {},
        }
        assert(self.devices@ =~= old(self).devices@.update(i as int, self.devices@[i as int]));
        Ok(device_of(&self.devices[i], &self.groups))
    }

    /// What `delete_device` does.
    pub open spec fn delete_device_does(
        before: &Devices,
        after: &Devices,
        id: i64,
        deleted: Result<(), Refused>,
    ) -> bool {
        &&& after.groups == before.groups
        &&& after.tokens == before.tokens
        &&& match deleted {
            Ok(()) => {
                &&& at(before.devices@, id) >= 0
                &&& after.devices@ == before.devices@.filter(devices_but(id))
            },
            Err(refused) => {
                &&& refused is NotFound && at(before.devices@, id) < 0
                &&& after.devices == before.devices
            },
        }
    }

    /// Forget a device. The agent can still register: it is no longer
    /// managed, and a new token enrolls it again.
    pub fn delete_device(&mut self, id: i64) -> (deleted: Result<(), Refused>)
        ensures
            Devices::delete_device_does(old(self), final(self), id, deleted),
    {
        if find(&self.devices, id).is_none() {
            return Err(Refused::NotFound);
        }
        let mut devices: Vec<DeviceRecord> = Vec::new();
        std::mem::swap(&mut devices, &mut self.devices);
        let stays = |device: &DeviceRecord| -> (yes: bool)
            ensures
                yes == (device.id != id),
            {
                device.id != id
            };
        self.devices = keep(devices, stays, Ghost(devices_but(id)));
        Ok(())
    }

    pub fn is_enrolled(&self, fingerprint: &Fingerprint) -> (yes: bool)
        ensures
            yes == (at_certificate(self.devices@, fingerprint@) >= 0),
    {
        find_certificate(&self.devices, fingerprint).is_some()
    }

    /// What `seen` does.
    pub open spec fn seen_does(
        before: &Devices,
        after: &Devices,
        fingerprint: &Fingerprint,
        from: Address,
        now: i64,
    ) -> bool {
        &&& after.groups == before.groups
        &&& after.tokens == before.tokens
        &&& {
            let i = at_certificate(before.devices@, fingerprint@);
            if i >= 0 {
                let changed_to = after.devices@[i];
                &&& after.devices@ == before.devices@.update(
                    i,
                    DeviceRecord {
                        last_seen_at: Some(now),
                        last_address: changed_to.last_address,
                        ..before.devices@[i]
                    },
                )
                &&& words(changed_to.last_address) == Some(from.written())
            } else {
                after.devices == before.devices
            }
        }
    }

    /// Note that the device with this certificate is here now, from `from`;
    /// nothing if it is not enrolled.
    pub fn seen(&mut self, fingerprint: &Fingerprint, from: Address, now: i64)
        ensures
            Devices::seen_does(old(self), final(self), fingerprint, from, now),
    {
        match find_certificate(&self.devices, fingerprint) {
            Some(i) => {
                self.devices[i].last_seen_at = Some(now);
                self.devices[i].last_address = Some(from.text());
                assert(self.devices@ =~= old(self).devices@.update(
                    i as int,
                    DeviceRecord {
                        last_seen_at: Some(now),
                        last_address: self.devices@[i as int].last_address,
                        ..old(self).devices@[i as int]
                    },
                ));
            },
            None => {},
        }
    }
}

proof fn lemma_at_certificate(devices: Seq<DeviceRecord>, fingerprint: Seq<u8>)
    ensures
        -1 <= at_certificate(devices, fingerprint) < devices.len(),
        at_certificate(devices, fingerprint) >= 0 ==> devices[at_certificate(
            devices,
            fingerprint,
        )].fingerprint@ == fingerprint,
        at_certificate(devices, fingerprint) < 0 ==> forall|i: int|
            0 <= i < devices.len() ==> (#[trigger] devices[i]).fingerprint@ != fingerprint,
    decreases devices.len(),
{
    if devices.len() > 0 && devices.last().fingerprint@ != fingerprint {
        lemma_at_certificate(devices.drop_last(), fingerprint);
        assert forall|i: int|
            at_certificate(devices, fingerprint) < 0 && 0 <= i < devices.len() implies (
        #[trigger] devices[i]).fingerprint@ != fingerprint by {
            if i < devices.len() - 1 {
                assert(devices.drop_last()[i].fingerprint@ != fingerprint);
            }
        }
    }
}

/// A device that has enrolled is enrolled.
pub proof fn lemma_enrolled_devices_are_managed(
    devices: Seq<DeviceRecord>,
    device: DeviceRecord,
    i: int,
)
    requires
        0 <= i < devices.len(),
        devices[i] == device,
    ensures
        at_certificate(devices, device.fingerprint@) >= 0,
{
    lemma_at_certificate(devices, device.fingerprint@);
}

proof fn lemma_enrolled_at(
    before: Devices,
    after: Devices,
    fingerprint: Fingerprint,
    number: DeviceId,
    enrollment: Enrollment,
    from: Address,
    now: i64,
    device: Device,
)
    requires
        Devices::enroll_does(
            &before,
            &after,
            &fingerprint,
            number,
            &enrollment,
            from,
            now,
            Ok(device),
        ),
    ensures
        0 <= at_certificate(after.devices@, fingerprint@) < after.devices@.len(),
        after.devices@[at_certificate(after.devices@, fingerprint@)].id == device.id,
        at_certificate(before.devices@, fingerprint@) >= 0 ==> {
            &&& after.devices@.len() == before.devices@.len()
            &&& before.devices@[at_certificate(before.devices@, fingerprint@)].id == device.id
        },
{
    let d = at_certificate(before.devices@, fingerprint@);
    lemma_at_certificate(before.devices@, fingerprint@);
    if d >= 0 {
        lemma_update_at_certificate(
            before.devices@,
            fingerprint@,
            after.devices@[d],
        );
    }
}

proof fn lemma_update_at_certificate(
    devices: Seq<DeviceRecord>,
    fingerprint: Seq<u8>,
    record: DeviceRecord,
)
    requires
        at_certificate(devices, fingerprint) >= 0,
        record.fingerprint@ == fingerprint,
    ensures
        at_certificate(
            devices.update(at_certificate(devices, fingerprint), record),
            fingerprint,
        ) == at_certificate(devices, fingerprint),
    decreases devices.len(),
{
    let d = at_certificate(devices, fingerprint);
    lemma_at_certificate(devices, fingerprint);
    if d < devices.len() - 1 {
        lemma_update_at_certificate(devices.drop_last(), fingerprint, record);
        assert(devices.update(d, record).drop_last() =~= devices.drop_last().update(d, record));
    }
}

/// Enrolling again, as after a reinstall that kept its key, updates the same
/// device, whatever the tokens and wherever it comes from.
pub proof fn lemma_enrolling_again_updates_the_same_device(
    before: Devices,
    once: Devices,
    twice: Devices,
    fingerprint: Fingerprint,
    number: DeviceId,
    first: (Enrollment, Address, i64, Device),
    again: (Enrollment, Address, i64, Device),
)
    requires
        Devices::enroll_does(
            &before,
            &once,
            &fingerprint,
            number,
            &first.0,
            first.1,
            first.2,
            Ok(first.3),
        ),
        Devices::enroll_does(
            &once,
            &twice,
            &fingerprint,
            number,
            &again.0,
            again.1,
            again.2,
            Ok(again.3),
        ),
    ensures
        twice.devices@.len() == once.devices@.len(),
        again.3.id == first.3.id,
{
    lemma_enrolled_at(before, once, fingerprint, number, first.0, first.1, first.2, first.3);
    lemma_enrolled_at(once, twice, fingerprint, number, again.0, again.1, again.2, again.3);
}

/// A try to enroll a device, and what came of it.
pub struct Try {
    pub fingerprint: Fingerprint,
    pub number: DeviceId,
    pub enrollment: Enrollment,
    pub from: Address,
    pub now: i64,
    pub enrolled: Result<Device, Refused>,
}

/// Devices as they are tried to be enrolled one after the other.
pub open spec fn enrolled_in_turn(states: Seq<Devices>, tries: Seq<Try>) -> bool {
    &&& states.len() == tries.len() + 1
    &&& forall|i: int, j: int|
        #![trigger states[i], states[j]]
        0 <= i < tries.len() && j == i + 1 ==> Devices::enroll_does(
            &states[i],
            &states[j],
            &tries[i].fingerprint,
            tries[i].number,
            &tries[i].enrollment,
            tries[i].from,
            tries[i].now,
            tries[i].enrolled,
        )
}

/// A token is the only one with this hash.
pub open spec fn only_token(tokens: Seq<EnrollRecord>, t: int, hash: Seq<u8>) -> bool {
    &&& 0 <= t < tokens.len()
    &&& forall|i: int| 0 <= i < tokens.len() ==> ((#[trigger] tokens[i]).token_hash@ == hash) == (i
        == t)
}

/// A token for so many devices enrolls so many, in whatever order and from
/// wherever they come, and then no more. Left out is a try after the token's
/// end, and one for which the numbers of devices have run out.
pub proof fn lemma_a_token_enrolls_so_many(states: Seq<Devices>, tries: Seq<Try>, t: int, many: i64)
    requires
        enrolled_in_turn(states, tries),
        only_token(states[0].tokens@, t, states[0].tokens@[t].token_hash@),
        states[0].tokens@[t].uses_left == Some(many),
        many >= 0,
        forall|k: int|
            0 <= k < tries.len() ==> {
                &&& hash_of((#[trigger] tries[k]).enrollment.token@)
                    == states[0].tokens@[t].token_hash@
                &&& tries[k].now < states[0].tokens@[t].expires_at
                &&& next_id(states[k].devices@) is Some
            },
    ensures
        forall|k: int|
            0 <= k < tries.len() ==> match (#[trigger] tries[k]).enrolled {
                Ok(_) => k < many,
                Err(refused) => k >= many && refused is Forbidden,
            },
        only_token(states.last().tokens@, t, states[0].tokens@[t].token_hash@),
        states.last().tokens@[t].expires_at == states[0].tokens@[t].expires_at,
        states.last().tokens@[t].uses_left == Some(
            if tries.len() < many {
                (many - tries.len()) as i64
            } else {
                0
            },
        ),
    decreases tries.len(),
{
    if tries.len() > 0 {
        let n = tries.len() - 1;
        let before = states.drop_last();
        let earlier = tries.drop_last();
        let hash = states[0].tokens@[t].token_hash@;
        assert forall|i: int, j: int|
            #![trigger before[i], before[j]]
            0 <= i < n && j == i + 1 implies Devices::enroll_does(
            &before[i],
            &before[j],
            &earlier[i].fingerprint,
            earlier[i].number,
            &earlier[i].enrollment,
            earlier[i].from,
            earlier[i].now,
            earlier[i].enrolled,
        ) by {
            assert(states[i] == before[i] && states[j] == before[j]);
        }
        assert forall|k: int| 0 <= k < n implies {
            &&& hash_of((#[trigger] earlier[k]).enrollment.token@) == hash
            &&& earlier[k].now < before[0].tokens@[t].expires_at
            &&& next_id(before[k].devices@) is Some
        } by {
            assert(tries[k] == earlier[k]);
        }
        lemma_a_token_enrolls_so_many(before, earlier, t, many);
        assert(before.last() == states[n]);
        assert(states.last() == states[n + 1]);
        let last = tries[n];
        let tokens = states[n].tokens@;
        lemma_only_token(tokens, t, hash, last.now);
        assert forall|k: int| 0 <= k < tries.len() implies match (#[trigger] tries[k]).enrolled {
            Ok(_) => k < many,
            Err(refused) => k >= many && refused is Forbidden,
        } by {
            if k < n {
                assert(earlier[k] == tries[k]);
            }
        }
    } else {
        assert(states.last() == states[0]);
    }
}

proof fn lemma_only_token(tokens: Seq<EnrollRecord>, t: int, hash: Seq<u8>, now: i64)
    requires
        only_token(tokens, t, hash),
    ensures
        at_token(tokens, hash, now) == if tokens[t].expires_at > now && (
        tokens[t].uses_left matches Some(left) ==> left > 0) {
            t
        } else {
            -1
        },
    decreases tokens.len(),
{
    let less = tokens.drop_last();
    if t < tokens.len() - 1 {
        assert(only_token(less, t, hash)) by {
            assert forall|i: int| 0 <= i < less.len() implies ((#[trigger] less[i]).token_hash@
                == hash) == (i == t) by {
                assert(less[i] == tokens[i]);
            }
        }
        lemma_only_token(less, t, hash, now);
        assert(tokens[tokens.len() - 1].token_hash@ != hash);
    } else {
        assert forall|i: int| 0 <= i < less.len() implies (#[trigger] less[i]).token_hash@ != hash by {
            assert(less[i] == tokens[i]);
        }
        lemma_no_token(less, hash, now);
    }
}

proof fn lemma_no_token(tokens: Seq<EnrollRecord>, hash: Seq<u8>, now: i64)
    requires
        forall|i: int| 0 <= i < tokens.len() ==> (#[trigger] tokens[i]).token_hash@ != hash,
    ensures
        at_token(tokens, hash, now) == -1,
    decreases tokens.len(),
{
    if tokens.len() > 0 {
        assert(tokens[tokens.len() - 1].token_hash@ != hash);
        lemma_no_token(tokens.drop_last(), hash, now);
    }
}

/// A new token enrolls a device at once, and until it ends.
pub proof fn lemma_enroll_tokens_work(
    before: Devices,
    after: Devices,
    by: &User,
    name: &str,
    group_id: Option<i64>,
    uses: Option<u32>,
    lifetime_days: u32,
    now: i64,
    listed: EnrollToken,
    token: String,
    later: i64,
)
    requires
        Devices::new_enroll_token_does(
            &before,
            &after,
            by,
            name,
            group_id,
            uses,
            lifetime_days,
            now,
            Ok((listed, token)),
        ),
        later < now + lifetime_days * 86_400,
    ensures
        ({
            let i = at_token(after.tokens@, hash_of(token@), later);
            &&& 0 <= i < after.tokens@.len()
            &&& after.tokens@[i].group == group_id
        }),
{
}

/// A deleted group is nobody's: no device is in it any more, and no token
/// enrolls into it.
pub proof fn lemma_deleted_groups_are_empty(
    devices: Seq<DeviceRecord>,
    tokens: Seq<EnrollRecord>,
    id: i64,
)
    ensures
        forall|i: int|
            0 <= i < devices.len() ==> (#[trigger] let_go(devices, id)[i]).group != Some(id),
        forall|i: int|
            0 <= i < tokens.filter(tokens_elsewhere(id)).len() ==> (
            #[trigger] tokens.filter(tokens_elsewhere(id))[i]).group != Some(id),
{
    lemma_kept(tokens, tokens_elsewhere(id));
}

// --- What enrolling comes to ---------------------------------------------------------------------

proof fn lemma_at_token(tokens: Seq<EnrollRecord>, hash: Seq<u8>, now: i64)
    ensures
        ({
            let t = at_token(tokens, hash, now);
            &&& -1 <= t < tokens.len()
            &&& t >= 0 ==> tokens[t].token_hash@ == hash && tokens[t].expires_at > now && (
            tokens[t].uses_left matches Some(left) ==> left > 0)
            &&& t < 0 ==> forall|i: int|
                0 <= i < tokens.len() ==> (#[trigger] tokens[i]).token_hash@ != hash
                    || tokens[i].expires_at <= now || (tokens[i].uses_left matches Some(left)
                    && left <= 0)
        }),
    decreases tokens.len(),
{
    if tokens.len() > 0 {
        let less = tokens.drop_last();
        lemma_at_token(less, hash, now);
        assert(forall|i: int| 0 <= i < less.len() ==> less[i] == #[trigger] tokens[i]);
        if at_token(tokens, hash, now) < 0 {
            assert forall|i: int| 0 <= i < tokens.len() implies (#[trigger] tokens[i]).token_hash@
                != hash || tokens[i].expires_at <= now || (tokens[i].uses_left matches Some(left)
                && left <= 0) by {
                if i < less.len() {
                    assert(less[i] == tokens[i]);
                }
            }
        }
    }
}

/// Only who has a token enrolls: one that has not ended and is not used up. It
/// is counted as used once more, and enrolls one device less; no other token
/// changes.
pub proof fn lemma_only_a_good_token_enrolls(
    before: Devices,
    after: Devices,
    fingerprint: &Fingerprint,
    number: DeviceId,
    enrollment: &Enrollment,
    from: Address,
    now: i64,
    device: Device,
)
    requires
        Devices::enroll_does(
            &before,
            &after,
            fingerprint,
            number,
            enrollment,
            from,
            now,
            Ok(device),
        ),
    ensures
        after.tokens@.len() == before.tokens@.len(),
        exists|t: int|
            {
                &&& 0 <= t < before.tokens@.len()
                &&& (#[trigger] before.tokens@[t]).token_hash@ == crate::crypto::sha256_of(
                    vstd::utf8::encode_utf8(enrollment.token@),
                )
                &&& now < before.tokens@[t].expires_at
                &&& before.tokens@[t].used < i64::MAX ==> after.tokens@[t].used
                    == before.tokens@[t].used + 1
                &&& match before.tokens@[t].uses_left {
                    Some(left) => left >= 1 && after.tokens@[t].uses_left == Some((left - 1) as i64),
                    None => after.tokens@[t].uses_left is None,
                }
                &&& after.tokens@[t].expires_at == before.tokens@[t].expires_at
                &&& after.tokens@[t].token_hash == before.tokens@[t].token_hash
                &&& after.tokens@[t].group == before.tokens@[t].group
                &&& forall|i: int|
                    0 <= i < before.tokens@.len() && i != t ==> #[trigger] after.tokens@[i]
                        == before.tokens@[i]
            },
{
    lemma_at_token(before.tokens@, hash_of(enrollment.token@), now);
    let t = at_token(before.tokens@, hash_of(enrollment.token@), now);
    assert(before.tokens@[t].expires_at > now);
}

/// Who has such a token enrolls, whatever they report, while there are numbers
/// for devices.
pub proof fn lemma_a_good_token_enrolls(
    before: Devices,
    after: Devices,
    fingerprint: &Fingerprint,
    number: DeviceId,
    enrollment: &Enrollment,
    from: Address,
    now: i64,
    enrolled: Result<Device, Refused>,
    t: int,
)
    requires
        Devices::enroll_does(
            &before,
            &after,
            fingerprint,
            number,
            enrollment,
            from,
            now,
            enrolled,
        ),
        0 <= t < before.tokens@.len(),
        before.tokens@[t].token_hash@ == crate::crypto::sha256_of(
            vstd::utf8::encode_utf8(enrollment.token@),
        ),
        now < before.tokens@[t].expires_at,
        before.tokens@[t].uses_left matches Some(left) ==> left >= 1,
        next_id(before.devices@) is Some,
    ensures
        enrolled is Ok,
{
    lemma_at_token(before.tokens@, hash_of(enrollment.token@), now);
}

/// What enrolls is one device, with the key that it came with: the one that
/// has that key already, under its number; or another, under a new one. It is
/// in the group that the token names, if it names one, and otherwise where it
/// was. It is here now, from where it came, and no other device changes.
pub proof fn lemma_one_device_enrolls(
    before: Devices,
    after: Devices,
    fingerprint: &Fingerprint,
    number: DeviceId,
    enrollment: &Enrollment,
    from: Address,
    now: i64,
    device: Device,
    i: int,
)
    requires
        Devices::enroll_does(
            &before,
            &after,
            fingerprint,
            number,
            enrollment,
            from,
            now,
            Ok(device),
        ),
        0 <= i < before.devices@.len(),
    ensures
        ({
            let known = exists|d: int|
                0 <= d < before.devices@.len() && (#[trigger] before.devices@[d]).fingerprint@
                    == fingerprint@;
            &&& after.devices@.len() == before.devices@.len() + (if known {
                0int
            } else {
                1
            })
            &&& before.devices@[i].fingerprint@ != fingerprint@ ==> after.devices@[i]
                == before.devices@[i]
            &&& own_certificates(before.devices@) && before.devices@[i].fingerprint@ == fingerprint@
                ==> {
                &&& after.devices@[i].id == before.devices@[i].id && device.id
                    == before.devices@[i].id
                &&& after.devices@[i].fingerprint@ == fingerprint@
                &&& after.devices@[i].last_seen_at == Some(now)
                &&& words(after.devices@[i].last_address) == Some(from.written())
            }
            &&& !known ==> {
                let new = after.devices@[before.devices@.len() as int];
                &&& new.fingerprint@ == fingerprint@ && new.number == number && new.id == device.id
                &&& new.last_seen_at == Some(now) && new.enrolled_at == now
                &&& words(new.last_address) == Some(from.written())
                &&& new.id > before.devices@[i].id
            }
        }),
{
    lemma_at_certificate(before.devices@, fingerprint@);
    let d = at_certificate(before.devices@, fingerprint@);
    if d >= 0 {
        assert(before.devices@[d].fingerprint@ == fingerprint@);
        if own_certificates(before.devices@) && before.devices@[i].fingerprint@ == fingerprint@ {
            assert(i == d);
        }
    } else {
        lemma_next_is_above(before.devices@);
        assert(after.devices@.drop_last()[i] == before.devices@[i]);
        assert(before.devices@[i].key() == before.devices@[i].id);
    }
}

/// A device that enrolls is in the token's group, if the token names one.
pub proof fn lemma_a_device_joins_the_tokens_group(
    before: Devices,
    after: Devices,
    fingerprint: &Fingerprint,
    number: DeviceId,
    enrollment: &Enrollment,
    from: Address,
    now: i64,
    device: Device,
    t: int,
)
    requires
        Devices::enroll_does(
            &before,
            &after,
            fingerprint,
            number,
            enrollment,
            from,
            now,
            Ok(device),
        ),
        only_token(before.tokens@, t, hash_of(enrollment.token@)),
        0 <= t < before.tokens@.len(),
    ensures
        before.tokens@[t].group is Some ==> device.group_id == before.tokens@[t].group,
        before.tokens@[t].group is None ==> forall|d: int|
            0 <= d < before.devices@.len() && own_certificates(before.devices@) && (
            #[trigger] before.devices@[d]).fingerprint@ == fingerprint@ ==> device.group_id
                == before.devices@[d].group,
{
    lemma_at_token(before.tokens@, hash_of(enrollment.token@), now);
    lemma_at_certificate(before.devices@, fingerprint@);
    let d = at_certificate(before.devices@, fingerprint@);
    let found = at_token(before.tokens@, hash_of(enrollment.token@), now);
    assert(found == t) by {
        if found != t {
            assert(before.tokens@[found].token_hash@ == hash_of(enrollment.token@));
        }
    }
    if before.tokens@[t].group is None {
        assert forall|k: int|
            0 <= k < before.devices@.len() && own_certificates(before.devices@) && (
            #[trigger] before.devices@[k]).fingerprint@ == fingerprint@ implies device.group_id
            == before.devices@[k].group by {
            assert(before.devices@[d].fingerprint@ == fingerprint@);
            assert(k == d);
        }
    }
}

/// An enrollment token is for 1 to 90 days, for one device or more, and into a
/// group that is there; a name that is valid and all that is enough. It
/// enrolls from now for so many days, and so many devices.
pub proof fn lemma_enroll_tokens_are_limited(
    before: Devices,
    after: Devices,
    by: &User,
    name: &str,
    group_id: Option<i64>,
    uses: Option<u32>,
    lifetime_days: u32,
    now: i64,
    listed: EnrollToken,
    token: String,
)
    requires
        Devices::new_enroll_token_does(
            &before,
            &after,
            by,
            name,
            group_id,
            uses,
            lifetime_days,
            now,
            Ok((listed, token)),
        ),
    ensures
        1 <= lifetime_days <= 90,
        uses matches Some(uses) ==> uses >= 1 && listed.uses_left == Some(uses as i64),
        uses is None ==> listed.uses_left is None,
        group_id matches Some(group) ==> exists|g: int|
            0 <= g < before.groups@.len() && (#[trigger] before.groups@[g]).id == group,
        ({
            let made = after.tokens@[after.tokens@.len() - 1];
            &&& made.id == listed.id && made.group == group_id && made.used == 0
            &&& made.expires_at == now + lifetime_days * 24 * 60 * 60
            &&& made.token_hash@ == crate::crypto::sha256_of(vstd::utf8::encode_utf8(token@))
            &&& made.created_by == by.id
            &&& made.uses_left == listed.uses_left
        }),
{
    if let Some(group) = group_id {
        lemma_at(before.groups@, group);
        assert(before.groups@[at(before.groups@, group)].id == group);
    }
}

/// A token that still enrolls is listed and kept, and one that does not is
/// neither: it has ended, or none of its uses is left.
pub proof fn lemma_dead_tokens_go(
    before: Devices,
    after: Devices,
    now: i64,
    listed: Vec<EnrollToken>,
    token: EnrollRecord,
)
    requires
        Devices::enroll_tokens_does(&before, &after, now, listed),
    ensures
        after.tokens@.contains(token) <==> before.tokens@.contains(token) && now < token.expires_at
            && token.uses_left != Some(0i64),
        listed@.len() == after.tokens@.len(),
{
    lemma_left(before.tokens@, still_enrolls(now), token);
}

/// Changing a device changes its name and its group, as asked and where that
/// group is there, and nothing else of it, and no other device.
pub proof fn lemma_a_device_is_changed(
    before: Devices,
    after: Devices,
    id: i64,
    name: Option<&str>,
    group: Option<Option<i64>>,
    device: Device,
    i: int,
)
    requires
        numbered(before.devices@),
        Devices::update_device_does(&before, &after, id, name, group, Ok(device)),
        0 <= i < before.devices@.len(),
    ensures
        after.devices@.len() == before.devices@.len(),
        before.devices@[i].id != id ==> after.devices@[i] == before.devices@[i],
        before.devices@[i].id == id ==> {
            &&& after.devices@[i].id == id
            &&& after.devices@[i].fingerprint == before.devices@[i].fingerprint
            &&& after.devices@[i].last_seen_at == before.devices@[i].last_seen_at
            &&& after.devices@[i].name@ == (match name {
                Some(name) => name@,
                None => before.devices@[i].name@,
            })
            &&& after.devices@[i].group == (match group {
                Some(group) => group,
                None => before.devices@[i].group,
            })
        },
        group matches Some(Some(g)) ==> exists|k: int|
            0 <= k < before.groups@.len() && (#[trigger] before.groups@[k]).id == g,
{
    lemma_at_own(before.devices@, i);
    lemma_at(before.devices@, id);
    if let Some(Some(g)) = group {
        lemma_at(before.groups@, g);
        assert(before.groups@[at(before.groups@, g)].id == g);
    }
}

/// A deleted device is gone, and no other.
pub proof fn lemma_a_deleted_device_is_gone(
    before: Devices,
    after: Devices,
    id: i64,
    device: DeviceRecord,
)
    requires
        Devices::delete_device_does(&before, &after, id, Ok(())),
    ensures
        after.devices@.contains(device) <==> before.devices@.contains(device) && device.id != id,
{
    lemma_left(before.devices@, devices_but(id), device);
}

/// A device that is seen is noted as seen, from where it was, and nothing else
/// of it or of another changes.
pub proof fn lemma_a_device_is_seen(
    before: Devices,
    after: Devices,
    fingerprint: &Fingerprint,
    from: Address,
    now: i64,
    i: int,
)
    requires
        own_certificates(before.devices@),
        Devices::seen_does(&before, &after, fingerprint, from, now),
        0 <= i < before.devices@.len(),
    ensures
        before.devices@[i].fingerprint@ != fingerprint@ ==> after.devices@[i] == before.devices@[i],
        before.devices@[i].fingerprint@ == fingerprint@ ==> {
            &&& after.devices@[i].last_seen_at == Some(now)
            &&& words(after.devices@[i].last_address) == Some(from.written())
            &&& after.devices@[i].id == before.devices@[i].id
            &&& after.devices@[i].name == before.devices@[i].name
            &&& after.devices@[i].group == before.devices@[i].group
            &&& after.devices@[i].enrolled_at == before.devices@[i].enrolled_at
        },
{
    lemma_at_certificate(before.devices@, fingerprint@);
    let d = at_certificate(before.devices@, fingerprint@);
    if before.devices@[i].fingerprint@ == fingerprint@ {
        assert(before.devices@[d].fingerprint@ == fingerprint@);
        assert(i == d);
    }
}

/// What a device reports is cut to 64 characters and rid of control characters;
/// what is plain and short is taken as it is, and nothing is the fallback.
pub proof fn lemma_plain_reports_are_taken(text: Seq<char>, fallback: Seq<char>)
    ensures
        fallback.len() <= 64 ==> tidied(text, fallback).len() <= 64,
        1 <= text.len() <= 64 && (forall|i: int|
            0 <= i < text.len() ==> '!' <= (#[trigger] text[i]) <= '~') ==> tidied(text, fallback)
            == text,
        text.len() == 0 ==> tidied(text, fallback) == fallback,
{
    crate::text::lemma_trimmed_within(cut(printable(trimmed(text)), MAX_REPORTED as int));
    if 1 <= text.len() <= 64 && (forall|i: int|
        0 <= i < text.len() ==> '!' <= (#[trigger] text[i]) <= '~') {
        assert('!' <= text[0] <= '~' && '!' <= text[text.len() - 1] <= '~');
        crate::text::lemma_trimmed_fixed(text);
        lemma_plain_stays(text);
    }
    if text.len() == 0 {
        crate::text::lemma_trimmed_within(text);
        assert(trimmed(text) =~= Seq::empty());
        reveal(Seq::filter);
        assert(printable(trimmed(text)) =~= Seq::empty());
        crate::text::lemma_trimmed_within(printable(trimmed(text)));
    }
}

proof fn lemma_plain_stays(text: Seq<char>)
    requires
        forall|i: int| 0 <= i < text.len() ==> '!' <= (#[trigger] text[i]) <= '~',
    ensures
        printable(text) == text,
    decreases text.len(),
{
    reveal(Seq::filter);
    if text.len() > 0 {
        let less = text.drop_last();
        assert forall|i: int| 0 <= i < less.len() implies '!' <= (#[trigger] less[i]) <= '~' by {
            assert(less[i] == text[i]);
        }
        lemma_plain_stays(less);
        assert('!' <= text[text.len() - 1] <= '~');
        assert(less.push(text.last()) =~= text);
    } else {
        assert(printable(text) =~= text);
    }
}

}
