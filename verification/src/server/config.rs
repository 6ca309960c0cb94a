//! The server's configuration: one TOML file, every value of which an
//! environment variable can override (`NEARHAND_<SECTION>_<KEY>`), and
//! defaults that serve a first try without either.
//!
//! ```toml
//! [data]
//! dir = "/var/lib/nearhand"      # server.key, nearhand.db, the HTTPS certificate
//!
//! [quic]
//! bind = "0.0.0.0:443"           # UDP: agents, viewers, relay
//! public_address = "desk.example.com:443"   # how agents reach it
//!
//! [audit]
//! keep_days = 365                # 0 keeps the audit log for ever
//!
//! [relay]
//! max_gb = 100                   # per relayed session; 0 lifts the ceiling
//!
//! [http]
//! bind = "0.0.0.0:443"           # TCP: REST API and console
//! tls = "self-signed"            # or "none" behind a reverse proxy,
//!                                # or "files" with cert and key below
//! cert = "/etc/nearhand/fullchain.pem"
//! key = "/etc/nearhand/privkey.pem"
//! public_url = "https://desk.example.com"   # how people reach the console
//! ```

use super::audit::words;
use super::https::{host_in, host_of};
use super::toml_file::{
    held_in, held_in_all, held_in_members, open, read_toml, toml_of, Opened, Told,
};
use crate::net::{Address, Ip};
use crate::text::{
    after, ascii_lower, before, chars_of, contains, decimal, find, index_from, is_digit,
    lemma_decimal_reads_back, lemma_parted, parse_signed,
    parsed_signed, push_decimal, same_text, starts, starts_with, text_of, to_ascii_lower,
};
use vstd::prelude::*;
use vstd::slice::slice_subrange;

verus! {

// --- What a file and the environment set --------------------------------------------------------

/// A value that is set.
#[derive(Debug)]
pub enum Setting {
    Text(String),
    Number(i64),
    /// A number with a fraction.
    Fraction,
    YesNo(bool),
    /// A date or a time, as it is written.
    Moment(String),
    List,
    Table(Vec<Member>),
    /// Given in words, by the environment: the setting it is for says what
    /// they mean.
    Words(String),
}

/// A key of a table that is a setting, and whether there is an empty list or
/// an empty table behind it.
#[derive(Debug)]
pub struct Member {
    pub key: String,
    pub empty: bool,
}

/// A setting in a section.
#[derive(Debug)]
pub struct Line {
    pub key: String,
    pub value: Setting,
}

/// What is at the top of a file.
#[derive(Debug)]
pub enum Content {
    Section(Vec<Line>),
    /// The values of a section without their keys, in the order of those.
    List(Vec<Setting>),
    /// A value outside any section.
    Value,
}

#[derive(Debug)]
pub struct Entry {
    pub name: String,
    pub content: Content,
}

/// The same, as values to reason about.
pub enum Meant {
    Text(Seq<char>),
    Number(i64),
    Fraction,
    YesNo(bool),
    Moment(Seq<char>),
    List,
    Table(Seq<(Seq<char>, bool)>),
    Words(Seq<char>),
}

pub struct Pair {
    pub key: Seq<char>,
    pub value: Meant,
}

pub enum Contents {
    Section(Seq<Pair>),
    List(Seq<Meant>),
    Value,
}

pub struct Item {
    pub name: Seq<char>,
    pub content: Contents,
}

pub open spec fn members(all: Seq<Member>) -> Seq<(Seq<char>, bool)> {
    Seq::new(all.len(), |i: int| (all[i].key@, all[i].empty))
}

impl View for Setting {
    type V = Meant;

    open spec fn view(&self) -> Meant {
        match self {
            Setting::Text(text) => Meant::Text(text@),
            Setting::Number(n) => Meant::Number(*n),
            Setting::Fraction => Meant::Fraction,
            Setting::YesNo(yes) => Meant::YesNo(*yes),
            Setting::Moment(text) => Meant::Moment(text@),
            Setting::List => Meant::List,
            Setting::Table(all) => Meant::Table(members(all@)),
            Setting::Words(text) => Meant::Words(text@),
        }
    }
}

pub open spec fn values(settings: Seq<Setting>) -> Seq<Meant> {
    Seq::new(settings.len(), |i: int| settings[i]@)
}

impl View for Line {
    type V = Pair;

    open spec fn view(&self) -> Pair {
        Pair { key: self.key@, value: self.value@ }
    }
}

pub open spec fn pairs(lines: Seq<Line>) -> Seq<Pair> {
    Seq::new(lines.len(), |i: int| lines[i]@)
}

impl View for Content {
    type V = Contents;

    open spec fn view(&self) -> Contents {
        match self {
            Content::Section(lines) => Contents::Section(pairs(lines@)),
            Content::List(settings) => Contents::List(values(settings@)),
            Content::Value => Contents::Value,
        }
    }
}

impl View for Entry {
    type V = Item;

    open spec fn view(&self) -> Item {
        Item { name: self.name@, content: self.content@ }
    }
}

pub open spec fn items(entries: Seq<Entry>) -> Seq<Item> {
    Seq::new(entries.len(), |i: int| entries[i]@)
}

/// An empty list or an empty table.
pub open spec fn nothing_in(told: Told) -> bool {
    match told {
        Told::List(all) => all.len() == 0,
        Told::Table(all) => all.len() == 0,
        _ => false,
    }
}

/// The setting that a TOML value is.
pub open spec fn value_of(told: Told) -> Meant {
    match told {
        Told::Text(text) => Meant::Text(text),
        Told::Number(n) => Meant::Number(n),
        Told::Fraction => Meant::Fraction,
        Told::YesNo(yes) => Meant::YesNo(yes),
        Told::Moment(text) => Meant::Moment(text),
        Told::List(_) => Meant::List,
        Told::Table(all) => Meant::Table(
            Seq::new(all.len(), |i: int| (all[i].0, nothing_in(all[i].1))),
        ),
    }
}

/// What a TOML value at the top of a file is.
pub open spec fn content_of(told: Told) -> Contents {
    match told {
        Told::Table(all) => Contents::Section(
            Seq::new(all.len(), |i: int| Pair { key: all[i].0, value: value_of(all[i].1) }),
        ),
        Told::List(all) => Contents::List(Seq::new(all.len(), |i: int| value_of(all[i]))),
        _ => Contents::Value,
    }
}

/// What a file's tables and values are.
pub open spec fn items_of(all: Seq<(Seq<char>, Told)>) -> Seq<Item> {
    Seq::new(all.len(), |i: int| Item { name: all[i].0, content: content_of(all[i].1) })
}

fn is_empty(value: &toml::Value) -> (yes: bool)
    ensures
        yes == nothing_in(held_in(*value)),
{
    match open(value) {
        Opened::List(values) => values.len() == 0,
        Opened::Table(all) => all.len() == 0,
        _ => false,
    }
}

fn setting_in(value: &toml::Value) -> (setting: Setting)
    ensures
        setting@ == value_of(held_in(*value)),
{
    match open(value) {
        Opened::Text(text) => Setting::Text(text),
        Opened::Number(n) => Setting::Number(n),
        Opened::Fraction => Setting::Fraction,
        Opened::YesNo(yes) => Setting::YesNo(yes),
        Opened::Moment(text) => Setting::Moment(text),
        Opened::List(_) => Setting::List,
        Opened::Table(all) => {
            let mut held: Vec<Member> = Vec::new();
            let mut i: usize = 0;
            while i < all.len()
                invariant
                    i <= all@.len(),
                    held@.len() == i,
                    forall|j: int|
                        0 <= j < i ==> (#[trigger] held@[j]).key@ == all@[j].0@ && held@[j].empty
                            == nothing_in(held_in(all@[j].1)),
                decreases all.len() - i,
            {
                held.push(Member { key: all[i].0.as_str().to_owned(), empty: is_empty(&all[i].1) });
                i = i + 1;
            }
            let setting = Setting::Table(held);
            assert(members(held@) =~= Seq::new(
                all@.len(),
                |i: int| (held_in_members(all@)[i].0, nothing_in(held_in_members(all@)[i].1)),
            ));
            setting
        },
    }
}

fn content_in(value: &toml::Value) -> (content: Content)
    ensures
        content@ == content_of(held_in(*value)),
{
    match open(value) {
        Opened::Table(all) => {
            let mut lines: Vec<Line> = Vec::new();
            let mut i: usize = 0;
            while i < all.len()
                invariant
                    i <= all@.len(),
                    lines@.len() == i,
                    forall|j: int|
                        0 <= j < i ==> (#[trigger] lines@[j])@ == (Pair {
                            key: all@[j].0@,
                            value: value_of(held_in(all@[j].1)),
                        }),
                decreases all.len() - i,
            {
                lines.push(Line { key: all[i].0.as_str().to_owned(), value: setting_in(&all[i].1) });
                i = i + 1;
            }
            assert(content_of(Told::Table(held_in_members(all@)))->Section_0 =~= pairs(lines@));
            Content::Section(lines)
        },
        Opened::List(all) => {
            let mut settings: Vec<Setting> = Vec::new();
            let mut i: usize = 0;
            while i < all.len()
                invariant
                    i <= all@.len(),
                    settings@.len() == i,
                    forall|j: int|
                        0 <= j < i ==> (#[trigger] settings@[j])@ == value_of(held_in(all@[j])),
                decreases all.len() - i,
            {
                settings.push(setting_in(&all[i]));
                i = i + 1;
            }
            assert(content_of(Told::List(held_in_all(all@)))->List_0 =~= values(settings@));
            Content::List(settings)
        },
        _ => Content::Value,
    }
}

fn entries_in(all: &[(String, toml::Value)]) -> (entries: Vec<Entry>)
    ensures
        items(entries@) == items_of(held_in_members(all@)),
{
    let mut entries: Vec<Entry> = Vec::new();
    let mut i: usize = 0;
    while i < all.len()
        invariant
            i <= all@.len(),
            entries@.len() == i,
            forall|j: int|
                0 <= j < i ==> (#[trigger] entries@[j])@ == (Item {
                    name: all@[j].0@,
                    content: content_of(held_in(all@[j].1)),
                }),
        decreases all.len() - i,
    {
        entries.push(Entry { name: all[i].0.as_str().to_owned(), content: content_in(&all[i].1) });
        i = i + 1;
    }
    assert(items(entries@) =~= items_of(held_in_members(all@)));
    entries
}

/// A section there is.
pub open spec fn known_section(name: Seq<char>) -> bool {
    name == "data"@ || name == "quic"@ || name == "http"@ || name == "audit"@ || name == "relay"@
}

fn is_known_section(name: &str) -> (yes: bool)
    ensures
        yes == known_section(name@),
{
    same_text(name, "data") || same_text(name, "quic") || same_text(name, "http") || same_text(
        name,
        "audit",
    ) || same_text(name, "relay")
}

/// A text in small ASCII letters.
pub open spec fn lowered(s: Seq<char>) -> Seq<char> {
    Seq::new(s.len(), |i: int| ascii_lower(s[i]))
}

fn lower(s: &[char]) -> (small: Vec<char>)
    ensures
        small@ == lowered(s@),
{
    let mut small: Vec<char> = Vec::new();
    let mut i: usize = 0;
    while i < s.len()
        invariant
            i <= s@.len(),
            small@ == lowered(s@).take(i as int),
        decreases s.len() - i,
    {
        small.push(to_ascii_lower(s[i]));
        assert(small@ =~= lowered(s@).take(i + 1));
        i = i + 1;
    }
    assert(small@ =~= lowered(s@));
    small
}

/// The section and key an environment variable is for, if it is for one.
pub open spec fn overrides(name: Seq<char>) -> Option<(Seq<char>, Seq<char>)> {
    if starts(name, "NEARHAND_"@) {
        let rest = lowered(name.skip("NEARHAND_"@.len() as int));
        if index_from(rest, '_', 0) < rest.len() && known_section(before(rest, '_')) {
            Some((before(rest, '_'), after(rest, '_')))
        } else {
            None
        }
    } else {
        None
    }
}

/// The section and key an environment variable is for, if it is for one.
pub fn override_of(name: &str) -> (which: Option<(String, String)>)
    ensures
        match which {
            Some((section, key)) => overrides(name@) == Some((section@, key@)),
            None => overrides(name@) is None,
        },
{
    let chars = chars_of(name);
    let prefix = chars_of("NEARHAND_");
    if !starts_with(&chars, &prefix) {
        return None;
    }
    let tail = slice_subrange(&chars, prefix.len(), chars.len());
    assert(tail@ =~= name@.skip("NEARHAND_"@.len() as int));
    let rest = lower(tail);
    let at: usize = find(&rest, '_', 0);
    if at >= rest.len() {
        return None;
    }
    let section = slice_subrange(&rest, 0, at);
    let key = slice_subrange(&rest, at + 1, rest.len());
    assert(section@ =~= before(rest@, '_'));
    assert(key@ =~= after(rest@, '_'));
    let section = text_of(section);
    if !is_known_section(&section) {
        return None;
    }
    Some((section, text_of(key)))
}

/// Where a name is among items; -1 where it is not.
pub open spec fn item_at(items: Seq<Item>, name: Seq<char>) -> int
    decreases items.len(),
{
    if items.len() == 0 {
        -1
    } else if items.last().name == name {
        items.len() - 1
    } else {
        item_at(items.drop_last(), name)
    }
}

/// Where a key is in a section; -1 where it is not.
pub open spec fn pair_at(pairs: Seq<Pair>, key: Seq<char>) -> int
    decreases pairs.len(),
{
    if pairs.len() == 0 {
        -1
    } else if pairs.last().key == key {
        pairs.len() - 1
    } else {
        pair_at(pairs.drop_last(), key)
    }
}

/// A section with a setting put in, in place of one with that key.
pub open spec fn with_pair(pairs: Seq<Pair>, key: Seq<char>, value: Meant) -> Seq<Pair> {
    let i = pair_at(pairs, key);
    if i >= 0 {
        pairs.update(i, Pair { key, value })
    } else {
        pairs.push(Pair { key, value })
    }
}

/// What is set, with one setting put in; nothing where its section is not a
/// section.
pub open spec fn with_setting(
    items: Seq<Item>,
    section: Seq<char>,
    key: Seq<char>,
    value: Meant,
) -> Option<Seq<Item>> {
    let i = item_at(items, section);
    if i < 0 {
        Some(
            items.push(Item { name: section, content: Contents::Section(seq![Pair { key, value }]) }),
        )
    } else {
        match items[i].content {
            Contents::Section(pairs) => Some(
                items.update(
                    i,
                    Item { name: section, content: Contents::Section(with_pair(pairs, key, value)) },
                ),
            ),
            _ => None,
        }
    }
}

fn put_line(lines: Vec<Line>, key: String, value: Setting) -> (after: Vec<Line>)
    ensures
        pairs(after@) == with_pair(pairs(lines@), key@, value@),
{
    let mut lines = lines;
    let ghost all = pairs(lines@);
    let ghost pair = Pair { key: key@, value: value@ };
    let mut i: usize = lines.len();
    assert(all.take(i as int) =~= all);
    while i > 0 && !same_text(&lines[i - 1].key, &key)
        invariant
            i <= lines@.len(),
            all == pairs(lines@),
            pair_at(all, key@) == pair_at(all.take(i as int), key@),
        decreases i,
    {
        assert(all.take(i as int).drop_last() =~= all.take(i - 1));
        i = i - 1;
    }
    if i > 0 {
        assert(all.take(i as int).last().key == key@);
        lines[i - 1].key = key;
        lines[i - 1].value = value;
        assert(pairs(lines@) =~= all.update(i - 1, pair));
    } else {
        lines.push(Line { key, value });
        assert(pairs(lines@) =~= all.push(pair));
    }
    lines
}

fn put_setting(entries: Vec<Entry>, section: String, key: String, value: Setting) -> (after: Option<
    Vec<Entry>,
>)
    ensures
        match after {
            Some(after) => with_setting(items(entries@), section@, key@, value@) == Some(
                items(after@),
            ),
            None => with_setting(items(entries@), section@, key@, value@) is None,
        },
{
    let mut entries = entries;
    let ghost all = items(entries@);
    let mut i: usize = entries.len();
    assert(all.take(i as int) =~= all);
    while i > 0 && !same_text(&entries[i - 1].name, &section)
        invariant
            i <= entries@.len(),
            all == items(entries@),
            item_at(all, section@) == item_at(all.take(i as int), section@),
        decreases i,
    {
        assert(all.take(i as int).drop_last() =~= all.take(i - 1));
        i = i - 1;
    }
    if i == 0 {
        let ghost pair = Pair { key: key@, value: value@ };
        let mut lines: Vec<Line> = Vec::new();
        lines.push(Line { key, value });
        assert(pairs(lines@) =~= seq![pair]);
        let entry = Entry { name: section, content: Content::Section(lines) };
        let ghost item = entry@;
        entries.push(entry);
        assert(items(entries@) =~= all.push(item));
        return Some(entries);
    }
    assert(all.take(i as int).last().name == section@);
    let ghost before = all[i - 1];
    let mut content = Content::Value;
    std::mem::swap(&mut content, &mut entries[i - 1].content);
    match content {
        Content::Section(lines) => {
            assert(before.content == Contents::Section(pairs(lines@)));
            let ghost put = with_pair(pairs(lines@), key@, value@);
            let lines = put_line(lines, key, value);
            entries[i - 1].content = Content::Section(lines);
            assert(items(entries@) =~= all.update(
                i - 1,
                Item { name: section@, content: Contents::Section(put) },
            ));
            Some(entries)
        },
        _ => None,
    }
}

/// A variable of the environment.
#[derive(Debug)]
pub struct Variable {
    pub name: String,
    pub value: String,
}

/// What is set once variables of the environment were put in, in their order;
/// or the section that is not one.
pub open spec fn with_environment(items: Seq<Item>, environment: Seq<Variable>) -> Result<
    Seq<Item>,
    Seq<char>,
>
    decreases environment.len(),
{
    if environment.len() == 0 {
        Ok(items)
    } else {
        match with_environment(items, environment.drop_last()) {
            Err(section) => Err(section),
            Ok(so_far) => match overrides(environment.last().name@) {
                None => Ok(so_far),
                Some((section, key)) => match with_setting(
                    so_far,
                    section,
                    key,
                    Meant::Words(environment.last().value@),
                ) {
                    Some(after) => Ok(after),
                    None => Err(section),
                },
            },
        }
    }
}

fn put_environment(file: Vec<Entry>, environment: &[Variable]) -> (after: Result<
    Vec<Entry>,
    String,
>)
    ensures
        match after {
            Ok(after) => with_environment(items(file@), environment@) == Ok::<
                Seq<Item>,
                Seq<char>,
            >(items(after@)),
            Err(section) => with_environment(items(file@), environment@) == Err::<
                Seq<Item>,
                Seq<char>,
            >(section@),
        },
{
    let ghost first = items(file@);
    let mut entries = file;
    let mut i: usize = 0;
    while i < environment.len()
        invariant
            i <= environment@.len(),
            first == items(file@),
            with_environment(first, environment@.take(i as int)) == Ok::<Seq<Item>, Seq<char>>(
                items(entries@),
            ),
        decreases environment.len() - i,
    {
        assert(environment@.take(i + 1).drop_last() =~= environment@.take(i as int));
        assert(environment@.take(i + 1).last() == environment@[i as int]);
        match override_of(&environment[i].name) {
            None => {},
            Some((section, key)) => {
                let said = section.as_str().to_owned();
                let value = Setting::Words(environment[i].value.as_str().to_owned());
                match put_setting(entries, section, key, value) {
                    Some(after) => {
                        entries = after;
                    },
                    None => {
                        proof {
                            lemma_environment_fails(first, environment@, i + 1, said@);
                        }
                        return Err(said);
                    },
                }
            },
        }
        i = i + 1;
    }
    assert(environment@.take(i as int) =~= environment@);
    Ok(entries)
}

proof fn lemma_environment_fails(
    items: Seq<Item>,
    environment: Seq<Variable>,
    n: int,
    section: Seq<char>,
)
    requires
        0 <= n <= environment.len(),
        with_environment(items, environment.take(n)) == Err::<Seq<Item>, Seq<char>>(section),
    ensures
        with_environment(items, environment) == Err::<Seq<Item>, Seq<char>>(section),
    decreases environment.len() - n,
{
    if n == environment.len() {
        assert(environment.take(n) =~= environment);
    } else {
        assert(environment.take(n + 1).drop_last() =~= environment.take(n));
        lemma_environment_fails(items, environment, n + 1, section);
    }
}

// --- The configuration ---------------------------------------------------------------------------

/// Where the HTTPS certificate comes from.
#[derive(Debug, Clone, Copy, PartialEq, Eq, Structural)]
pub enum Tls {
    /// Made on first start and kept in the data folder: browsers warn about
    /// it, so it is for trying the server out, or for API clients that pin it.
    SelfSigned,
    /// `cert` and `key`, PEM: a real certificate, from Let's Encrypt or
    /// elsewhere.
    Files,
    /// Plain HTTP, for a reverse proxy in front that does TLS. Bind to
    /// localhost then: passwords cross this connection. Written `none`.
    Plain,
}

#[derive(Debug)]
pub struct Data {
    pub dir: String,
}

#[derive(Debug)]
pub struct Quic {
    pub bind: Address,
    /// How agents and viewers reach this server, `host:port`, for the install
    /// commands it hands out. By default the host of `http.public_url` and
    /// the port of `bind`.
    pub public_address: Option<String>,
}

#[derive(Debug)]
pub struct Http {
    pub bind: Address,
    pub tls: Tls,
    pub cert: Option<String>,
    pub key: Option<String>,
    pub public_url: Option<String>,
}

/// The audit log's one setting: how long to keep it.
#[derive(Debug)]
pub struct Audit {
    /// Days to keep entries for. 0 keeps them for ever, which is a choice, on
    /// a machine whose disk nobody watches.
    pub keep_days: u32,
}

/// What the relay will carry for one session.
#[derive(Debug)]
pub struct Relay {
    /// Gigabytes one relayed session may carry, both directions counted
    /// together, before the server stops carrying it. 0 lifts the ceiling.
    ///
    /// A session at the agent's default 10 Mbps takes a day to reach the
    /// default, so no honest one meets it; it is there so that a server open
    /// to accounts cannot be turned into a tunnel without limit.
    pub max_gb: u64,
}

#[derive(Debug)]
pub struct Config {
    pub data: Data,
    pub quic: Quic,
    pub http: Http,
    pub audit: Audit,
    pub relay: Relay,
}

/// A configuration, as a value to reason about.
pub struct Settings {
    pub dir: Seq<char>,
    pub quic_bind: Address,
    pub public_address: Option<Seq<char>>,
    pub http_bind: Address,
    pub tls: Tls,
    pub cert: Option<Seq<char>>,
    pub key: Option<Seq<char>>,
    pub public_url: Option<Seq<char>>,
    pub keep_days: u32,
    pub max_gb: u64,
}

impl View for Config {
    type V = Settings;

    open spec fn view(&self) -> Settings {
        Settings {
            dir: self.data.dir@,
            quic_bind: self.quic.bind,
            public_address: words(self.quic.public_address),
            http_bind: self.http.bind,
            tls: self.http.tls,
            cert: words(self.http.cert),
            key: words(self.http.key),
            public_url: words(self.http.public_url),
            keep_days: self.audit.keep_days,
            max_gb: self.relay.max_gb,
        }
    }
}

/// What is set when nothing is given.
pub open spec fn defaults() -> Settings {
    Settings {
        dir: "."@,
        quic_bind: Address { ip: Ip::V4(0), port: 443 },
        public_address: None,
        http_bind: Address { ip: Ip::V4(0), port: 443 },
        tls: Tls::SelfSigned,
        cert: None,
        key: None,
        public_url: None,
        keep_days: 365,
        max_gb: 100,
    }
}

impl Default for Config {
    fn default() -> (config: Config)
        ensures
            config@ == defaults(),
    {
        Config {
            data: Data { dir: ".".to_owned() },
            quic: Quic { bind: Address { ip: Ip::V4(0), port: 443 }, public_address: None },
            http: Http {
                bind: Address { ip: Ip::V4(0), port: 443 },
                tls: Tls::SelfSigned,
                cert: None,
                key: None,
                public_url: None,
            },
            audit: Audit { keep_days: 365 },
            relay: Relay { max_gb: 100 },
        }
    }
}

impl Relay {
    /// The ceiling in bytes; 0 means none.
    pub open spec fn most(&self) -> int {
        if self.max_gb * 0x4000_0000 > u64::MAX {
            u64::MAX as int
        } else {
            self.max_gb * 0x4000_0000
        }
    }

    /// The ceiling in bytes; 0 means none.
    pub fn ceiling(&self) -> (bytes: u64)
        ensures
            bytes == self.most(),
    {
        if self.max_gb > u64::MAX / 0x4000_0000 {
            u64::MAX
        } else {
            self.max_gb * 0x4000_0000
        }
    }
}

/// The text a value is, if it is one. A date is taken as it is written. The
/// environment has only texts: any of them will do for a setting that is one.
pub open spec fn text_in(value: Meant) -> Option<Seq<char>> {
    match value {
        Meant::Text(text) => Some(text),
        Meant::Moment(text) => Some(text),
        Meant::Words(text) => Some(text),
        _ => None,
    }
}

/// The number a value is, if it is one. The file has numbers; the environment
/// writes them.
pub open spec fn number_in(value: Meant) -> Option<int> {
    match value {
        Meant::Number(n) => Some(n as int),
        Meant::Words(text) => parsed_signed(text),
        _ => None,
    }
}

/// The address a value writes, if it does.
pub open spec fn address_in(value: Meant) -> Option<Address> {
    match text_in(value) {
        Some(text) => Address::read_from(text),
        None => None,
    }
}

/// The kind of certificate that has a name, if one has it.
pub open spec fn tls_called(name: Seq<char>) -> Option<Tls> {
    if name == "self-signed"@ {
        Some(Tls::SelfSigned)
    } else if name == "files"@ {
        Some(Tls::Files)
    } else if name == "none"@ {
        Some(Tls::Plain)
    } else {
        None
    }
}

/// The kind of certificate a value names, if it does: by its name, or as the
/// only key of a table, with nothing behind it.
pub open spec fn tls_in(value: Meant) -> Option<Tls> {
    match value {
        Meant::Text(name) => tls_called(name),
        Meant::Words(name) => tls_called(name),
        Meant::Table(all) => if all.len() == 1 && all[0].1 {
            tls_called(all[0].0)
        } else {
            None
        },
        _ => None,
    }
}

/// What is set by one setting of a section; nothing for one that is not known
/// there, or is not what it should be.
pub open spec fn set_one(to: Settings, section: Seq<char>, key: Seq<char>, value: Meant) -> Option<
    Settings,
> {
    if section == "data"@ {
        set_data(to, key, value)
    } else if section == "quic"@ {
        set_quic(to, key, value)
    } else if section == "http"@ {
        set_http(to, key, value)
    } else if section == "audit"@ {
        set_audit(to, key, value)
    } else {
        set_relay(to, key, value)
    }
}

pub open spec fn set_data(to: Settings, key: Seq<char>, value: Meant) -> Option<Settings> {
    match text_in(value) {
        Some(dir) if key == "dir"@ => Some(Settings { dir, ..to }),
        _ => None,
    }
}

pub open spec fn set_quic(to: Settings, key: Seq<char>, value: Meant) -> Option<Settings> {
    if key == "bind"@ {
        match address_in(value) {
            Some(bind) => Some(Settings { quic_bind: bind, ..to }),
            None => None,
        }
    } else if key == "public_address"@ {
        match text_in(value) {
            Some(address) => Some(Settings { public_address: Some(address), ..to }),
            None => None,
        }
    } else {
        None
    }
}

pub open spec fn set_http(to: Settings, key: Seq<char>, value: Meant) -> Option<Settings> {
    if key == "bind"@ {
        match address_in(value) {
            Some(bind) => Some(Settings { http_bind: bind, ..to }),
            None => None,
        }
    } else if key == "tls"@ {
        match tls_in(value) {
            Some(tls) => Some(Settings { tls, ..to }),
            None => None,
        }
    } else if key == "cert"@ {
        match text_in(value) {
            Some(cert) => Some(Settings { cert: Some(cert), ..to }),
            None => None,
        }
    } else if key == "key"@ {
        match text_in(value) {
            Some(key) => Some(Settings { key: Some(key), ..to }),
            None => None,
        }
    } else if key == "public_url"@ {
        match text_in(value) {
            Some(url) => Some(Settings { public_url: Some(url), ..to }),
            None => None,
        }
    } else {
        None
    }
}

pub open spec fn set_audit(to: Settings, key: Seq<char>, value: Meant) -> Option<Settings> {
    match number_in(value) {
        Some(days) if key == "keep_days"@ && 0 <= days <= u32::MAX => Some(
            Settings { keep_days: days as u32, ..to },
        ),
        _ => None,
    }
}

pub open spec fn set_relay(to: Settings, key: Seq<char>, value: Meant) -> Option<Settings> {
    match number_in(value) {
        Some(gb) if key == "max_gb"@ && 0 <= gb => Some(
            Settings { max_gb: gb as u64, ..to },
        ),
        _ => None,
    }
}

/// What is set by a section.
pub open spec fn set_section(to: Settings, section: Seq<char>, pairs: Seq<Pair>) -> Option<Settings>
    decreases pairs.len(),
{
    if pairs.len() == 0 {
        Some(to)
    } else {
        match set_section(to, section, pairs.drop_last()) {
            Some(so_far) => set_one(so_far, section, pairs.last().key, pairs.last().value),
            None => None,
        }
    }
}

/// The keys of a section, in their order.
pub open spec fn keys_of(section: Seq<char>) -> Seq<Seq<char>> {
    if section == "data"@ {
        seq!["dir"@]
    } else if section == "quic"@ {
        seq!["bind"@, "public_address"@]
    } else if section == "http"@ {
        seq!["bind"@, "tls"@, "cert"@, "key"@, "public_url"@]
    } else if section == "audit"@ {
        seq!["keep_days"@]
    } else {
        seq!["max_gb"@]
    }
}

/// What is set by values that come in the order of their section's keys.
pub open spec fn set_list(to: Settings, section: Seq<char>, values: Seq<Meant>) -> Option<Settings>
    decreases values.len(),
{
    if values.len() == 0 {
        Some(to)
    } else if values.len() > keys_of(section).len() {
        None
    } else {
        match set_list(to, section, values.drop_last()) {
            Some(so_far) => set_one(
                so_far,
                section,
                keys_of(section)[values.len() - 1],
                values.last(),
            ),
            None => None,
        }
    }
}

/// What is set by what is at the top of a file.
pub open spec fn set_content(to: Settings, section: Seq<char>, content: Contents) -> Option<Settings> {
    match content {
        Contents::Section(pairs) => set_section(to, section, pairs),
        Contents::List(values) => set_list(to, section, values),
        Contents::Value => None,
    }
}

/// What is set by everything.
pub open spec fn set_all(items: Seq<Item>) -> Option<Settings>
    decreases items.len(),
{
    if items.len() == 0 {
        Some(defaults())
    } else {
        match set_all(items.drop_last()) {
            Some(so_far) if known_section(items.last().name) => set_content(
                so_far,
                items.last().name,
                items.last().content,
            ),
            _ => None,
        }
    }
}

/// Why there is no configuration.
#[derive(Debug)]
pub enum Problem {
    /// The file is not TOML, for this reason.
    NotToml(String),
    /// This name is a value in the file, and a section in the environment.
    NotASection(String),
    /// There is no such setting, or it is not what it should be.
    Unexpected(String),
    /// `http.tls = "files"` without the files.
    FilesMissing,
}

impl Problem {
    pub open spec fn says(&self) -> Seq<char> {
        match self {
            Problem::NotToml(why) => "not valid TOML: "@ + why@,
            Problem::NotASection(name) => "["@ + name@ + "] is not a section"@,
            Problem::Unexpected(what) => "unexpected setting: "@ + what@,
            Problem::FilesMissing => "http.tls = \"files\" needs http.cert and http.key"@,
        }
    }

    pub fn message(&self) -> (text: String)
        ensures
            text@ == self.says(),
    {
        match self {
            Problem::NotToml(why) => {
                let mut text = "not valid TOML: ".to_owned();
                text.append(why);
                text
            },
            Problem::NotASection(name) => {
                let mut text = "[".to_owned();
                text.append(name);
                text.append("] is not a section");
                text
            },
            Problem::Unexpected(what) => {
                let mut text = "unexpected setting: ".to_owned();
                text.append(what);
                text
            },
            Problem::FilesMissing => "http.tls = \"files\" needs http.cert and http.key".to_owned(),
        }
    }
}

fn text_of_setting(value: &Setting) -> (text: Option<String>)
    ensures
        words(text) == text_in(value@),
{
    match value {
        Setting::Text(text) => Some(text.as_str().to_owned()),
        Setting::Moment(text) => Some(text.as_str().to_owned()),
        Setting::Words(text) => Some(text.as_str().to_owned()),
        _ => None,
    }
}

fn number_of_setting(value: &Setting) -> (number: Option<i64>)
    ensures
        match number {
            Some(n) => number_in(value@) == Some(n as int),
            None => number_in(value@) is None,
        },
{
    match value {
        Setting::Number(n) => Some(*n),
        Setting::Words(text) => parse_signed(&chars_of(text)),
        _ => None,
    }
}

fn address_of_setting(value: &Setting) -> (address: Option<Address>)
    ensures
        address == address_in(value@),
{
    match text_of_setting(value) {
        Some(text) => Address::parse(&chars_of(&text)),
        None => None,
    }
}

fn tls_by_name(name: &str) -> (tls: Option<Tls>)
    ensures
        tls == tls_called(name@),
{
    if same_text(name, "self-signed") {
        Some(Tls::SelfSigned)
    } else if same_text(name, "files") {
        Some(Tls::Files)
    } else if same_text(name, "none") {
        Some(Tls::Plain)
    } else {
        None
    }
}

fn tls_of_setting(value: &Setting) -> (tls: Option<Tls>)
    ensures
        tls == tls_in(value@),
{
    match value {
        Setting::Text(name) => tls_by_name(name),
        Setting::Words(name) => tls_by_name(name),
        Setting::Table(all) => if all.len() == 1 && all[0].empty {
            tls_by_name(&all[0].key)
        } else {
            None
        },
        _ => None,
    }
}

/// The key in a place of a section, if there are so many.
fn key_at(section: &str, n: usize) -> (key: Option<&'static str>)
    ensures
        match key {
            Some(key) => n < keys_of(section@).len() && key@ == keys_of(section@)[n as int],
            None => n >= keys_of(section@).len(),
        },
{
    if same_text(section, "data") {
        match n {
            0 => Some("dir"),
            _ => None,
        }
    } else if same_text(section, "quic") {
        match n {
            0 => Some("bind"),
            1 => Some("public_address"),
            _ => None,
        }
    } else if same_text(section, "http") {
        match n {
            0 => Some("bind"),
            1 => Some("tls"),
            2 => Some("cert"),
            3 => Some("key"),
            4 => Some("public_url"),
            _ => None,
        }
    } else if same_text(section, "audit") {
        match n {
            0 => Some("keep_days"),
            _ => None,
        }
    } else {
        match n {
            0 => Some("max_gb"),
            _ => None,
        }
    }
}

impl Config {
    fn set(&mut self, section: &str, key: &str, value: &Setting) -> (known: bool)
        ensures
            match set_one(old(self)@, section@, key@, value@) {
                Some(after) => known && final(self)@ == after,
                None => !known,
            },
    {
        if same_text(section, "data") {
            return self.set_in_data(key, value);
        }
        if same_text(section, "quic") {
            return self.set_in_quic(key, value);
        }
        if same_text(section, "http") {
            return self.set_in_http(key, value);
        }
        if same_text(section, "audit") {
            return match number_of_setting(value) {
                Some(days) => if same_text(key, "keep_days") && 0 <= days && days <= 0xffff_ffff {
                    self.audit.keep_days = days as u32;
                    true
                } else {
                    false
                },
                None => false,
            };
        }
        match number_of_setting(value) {
            Some(gb) => if same_text(key, "max_gb") && 0 <= gb {
                self.relay.max_gb = gb as u64;
                true
            } else {
                false
            },
            None => false,
        }
    }

    fn set_in_data(&mut self, key: &str, value: &Setting) -> (known: bool)
        ensures
            match set_data(old(self)@, key@, value@) {
                Some(after) => known && final(self)@ == after,
                None => !known,
            },
    {
        match text_of_setting(value) {
            Some(dir) => if same_text(key, "dir") {
                self.data.dir = dir;
                true
            } else {
                false
            },
            None => false,
        }
    }

    fn set_in_quic(&mut self, key: &str, value: &Setting) -> (known: bool)
        ensures
            match set_quic(old(self)@, key@, value@) {
                Some(after) => known && final(self)@ == after,
                None => !known,
            },
    {
        if same_text(key, "bind") {
            match address_of_setting(value) {
                Some(bind) => {
                    self.quic.bind = bind;
                    true
                },
                None => false,
            }
        } else if same_text(key, "public_address") {
            let address = text_of_setting(value);
            let known = address.is_some();
            if known {
                self.quic.public_address = address;
            }
            known
        } else {
            false
        }
    }

    fn set_in_http(&mut self, key: &str, value: &Setting) -> (known: bool)
        ensures
            match set_http(old(self)@, key@, value@) {
                Some(after) => known && final(self)@ == after,
                None => !known,
            },
    {
        if same_text(key, "bind") {
            match address_of_setting(value) {
                Some(bind) => {
                    self.http.bind = bind;
                    true
                },
                None => false,
            }
        } else if same_text(key, "tls") {
            match tls_of_setting(value) {
                Some(tls) => {
                    self.http.tls = tls;
                    true
                },
                None => false,
            }
        } else if same_text(key, "cert") {
            let text = text_of_setting(value);
            let known = text.is_some();
            if known {
                self.http.cert = text;
            }
            known
        } else if same_text(key, "key") {
            let text = text_of_setting(value);
            let known = text.is_some();
            if known {
                self.http.key = text;
            }
            known
        } else if same_text(key, "public_url") {
            let text = text_of_setting(value);
            let known = text.is_some();
            if known {
                self.http.public_url = text;
            }
            known
        } else {
            false
        }
    }

    /// Sets the settings of a section; or gives back the key of the first one
    /// that is not known there, or is not what it should be.
    fn set_lines(&mut self, section: &str, lines: &[Line]) -> (unexpected: Option<String>)
        ensures
            match set_section(old(self)@, section@, pairs(lines@)) {
                Some(after) => unexpected is None && final(self)@ == after,
                None => unexpected is Some,
            },
    {
        let ghost held = pairs(lines@);
        let mut n: usize = 0;
        while n < lines.len()
            invariant
                n <= lines@.len(),
                held == pairs(lines@),
                set_section(old(self)@, section@, held.take(n as int)) == Some(self@),
            decreases lines.len() - n,
        {
            assert(held.take(n + 1).drop_last() =~= held.take(n as int));
            assert(held.take(n + 1).last() == lines@[n as int]@);
            if !self.set(section, &lines[n].key, &lines[n].value) {
                proof {
                    lemma_section_fails(old(self)@, section@, held, n + 1);
                }
                return Some(lines[n].key.as_str().to_owned());
            }
            n = n + 1;
        }
        assert(held.take(n as int) =~= held);
        None
    }

    /// The same, for values that come in the order of the section's keys.
    fn set_values(&mut self, section: &str, settings: &[Setting]) -> (unexpected: Option<String>)
        ensures
            match set_list(old(self)@, section@, values(settings@)) {
                Some(after) => unexpected is None && final(self)@ == after,
                None => unexpected is Some,
            },
    {
        let ghost held = values(settings@);
        let mut n: usize = 0;
        while n < settings.len()
            invariant
                n <= settings@.len(),
                held == values(settings@),
                set_list(old(self)@, section@, held.take(n as int)) == Some(self@),
            decreases settings.len() - n,
        {
            assert(held.take(n + 1).drop_last() =~= held.take(n as int));
            assert(held.take(n + 1).last() == settings@[n as int]@);
            let key = match key_at(section, n) {
                Some(key) => key,
                None => {
                    proof {
                        lemma_list_fails(old(self)@, section@, held, n + 1);
                    }
                    return Some("more values than there are keys".to_owned());
                },
            };
            if !self.set(section, key, &settings[n]) {
                proof {
                    lemma_list_fails(old(self)@, section@, held, n + 1);
                }
                return Some(key.to_owned());
            }
            n = n + 1;
        }
        assert(held.take(n as int) =~= held);
        None
    }

    /// The configuration that settings make.
    pub fn from_entries(entries: &[Entry]) -> (config: Result<Config, Problem>)
        ensures
            match config {
                Ok(config) => set_all(items(entries@)) == Some(config@),
                Err(problem) => set_all(items(entries@)) is None && problem is Unexpected,
            },
    {
        let mut config = Config::default();
        let ghost all = items(entries@);
        let mut i: usize = 0;
        while i < entries.len()
            invariant
                i <= entries@.len(),
                all == items(entries@),
                set_all(all.take(i as int)) == Some(config@),
            decreases entries.len() - i,
        {
            let entry = &entries[i];
            assert(all.take(i + 1).drop_last() =~= all.take(i as int));
            assert(all.take(i + 1).last() == entry@);
            let mut what = entry.name.as_str().to_owned();
            let known = is_known_section(&entry.name);
            let unexpected = match &entry.content {
                Content::Section(lines) if known => config.set_lines(&entry.name, lines),
                Content::List(settings) if known => config.set_values(&entry.name, settings),
                _ => {
                    proof {
                        lemma_all_fails(all, i + 1);
                    }
                    return Err(Problem::Unexpected(what));
                },
            };
            match unexpected {
                Some(key) => {
                    proof {
                        lemma_all_fails(all, i + 1);
                    }
                    what.append(".");
                    what.append(&key);
                    return Err(Problem::Unexpected(what));
                },
                None => {},
            }
            i = i + 1;
        }
        assert(all.take(i as int) =~= all);
        Ok(config)
    }

    /// `http.tls = "files"` comes with both files.
    pub fn check(&self) -> (checked: Result<(), Problem>)
        ensures
            checked is Ok == !(self.http.tls == Tls::Files && (self.http.cert is None
                || self.http.key is None)),
            checked matches Err(problem) ==> problem is FilesMissing,
    {
        if self.http.tls == Tls::Files && (self.http.cert.is_none() || self.http.key.is_none()) {
            return Err(Problem::FilesMissing);
        }
        Ok(())
    }

    /// Whether passwords would cross the network in the clear: worth a
    /// warning.
    pub fn in_the_clear(&self) -> (yes: bool)
        ensures
            yes == (self.http.tls == Tls::Plain && !self.http.bind.ip.loopback()),
    {
        self.http.tls == Tls::Plain && !self.http.bind.ip.is_loopback()
    }

    /// The configuration that a file's entries and the environment make.
    pub fn from_settings(entries: Vec<Entry>, environment: &[Variable]) -> (config: Result<
        Config,
        Problem,
    >)
        ensures
            configured(items(entries@), environment@, config),
    {
        let merged = match put_environment(entries, environment) {
            Ok(merged) => merged,
            Err(section) => {
                return Err(Problem::NotASection(section));
            },
        };
        let config = Config::from_entries(&merged)?;
        config.check()?;
        Ok(config)
    }

    /// The configuration that a file's text and the environment make.
    pub fn parse(text: &str, environment: &[Variable]) -> (config: Result<Config, Problem>)
        ensures
            match toml_of(text@) {
                Some(all) => configured(items_of(all), environment@, config),
                None => config matches Err(problem) && problem is NotToml,
            },
            text@.len() == 0 ==> configured(Seq::<Item>::empty(), environment@, config),
    {
        match read_toml(text) {
            Ok(all) => {
                let entries = entries_in(&all);
                assert(text@.len() == 0 ==> items(entries@) =~= Seq::<Item>::empty());
                Config::from_settings(entries, environment)
            },
            Err(why) => Err(Problem::NotToml(why)),
        }
    }

    /// How people reach the console.
    pub open spec fn url(settings: Settings) -> Seq<char> {
        match settings.public_url {
            Some(url) => without_slashes(url),
            None => {
                let port = settings.http_bind.port;
                if settings.tls == Tls::Plain {
                    if port == 80 {
                        "http://localhost"@
                    } else {
                        "http://localhost:"@ + decimal(port as nat)
                    }
                } else {
                    if port == 443 {
                        "https://localhost"@
                    } else {
                        "https://localhost:"@ + decimal(port as nat)
                    }
                }
            },
        }
    }

    /// How people reach the console, for links the server prints.
    pub fn public_url(&self) -> (url: String)
        ensures
            url@ == Self::url(self@),
    {
        match &self.http.public_url {
            Some(url) => trim_slashes(url),
            None => {
                let port: u16 = self.http.bind.port;
                let plain = self.http.tls == Tls::Plain;
                let mut url = if plain {
                    "http://localhost".to_owned()
                } else {
                    "https://localhost".to_owned()
                };
                if !((plain && port == 80) || (!plain && port == 443)) {
                    url = if plain {
                        "http://localhost:".to_owned()
                    } else {
                        "https://localhost:".to_owned()
                    };
                    push_decimal(&mut url, port as u64);
                }
                url
            },
        }
    }

    /// How agents reach the QUIC side.
    pub open spec fn address(settings: Settings) -> Seq<char> {
        match settings.public_address {
            Some(address) => address,
            None => {
                let host = match host_in(Self::url(settings)) {
                    Some(host) => host,
                    None => "localhost"@,
                };
                let named = if host.contains(':') {
                    "["@ + host + "]"@
                } else {
                    host
                };
                named + ":"@ + decimal(settings.quic_bind.port as nat)
            },
        }
    }

    /// How agents reach the QUIC side, for the install commands the server
    /// hands out.
    pub fn public_address(&self) -> (address: String)
        ensures
            address@ == Self::address(self@),
    {
        match &self.quic.public_address {
            Some(address) => address.as_str().to_owned(),
            None => {
                let host = match host_of(&self.public_url()) {
                    Some(host) => host,
                    None => "localhost".to_owned(),
                };
                let chars = chars_of(&host);
                let at: usize = find(&chars, ':', 0);
                proof {
                    crate::text::lemma_index_from(chars@, ':', 0);
                    if host@.contains(':') {
                        let k = choose|k: int| 0 <= k < host@.len() && host@[k] == ':';
                        assert(at <= k);
                    }
                }
                let mut address = if at < chars.len() {
                    let mut named = "[".to_owned();
                    named.append(&host);
                    named.append("]");
                    named
                } else {
                    host
                };
                address.append(":");
                push_decimal(&mut address, self.quic.bind.port as u64);
                address
            },
        }
    }
}

/// What a file's settings and the environment come to.
pub open spec fn configured(
    items: Seq<Item>,
    environment: Seq<Variable>,
    config: Result<Config, Problem>,
) -> bool {
    match with_environment(items, environment) {
        Err(section) => config matches Err(Problem::NotASection(name)) && name@ == section,
        Ok(merged) => match set_all(merged) {
            None => config matches Err(problem) && problem is Unexpected,
            Some(settings) => if settings.tls == Tls::Files && (settings.cert is None
                || settings.key is None) {
                config matches Err(problem) && problem is FilesMissing
            } else {
                config matches Ok(config) && config@ == settings
            },
        },
    }
}

/// A text without the slashes at its end.
pub open spec fn without_slashes(s: Seq<char>) -> Seq<char>
    decreases s.len(),
{
    if s.len() > 0 && s.last() == '/' {
        without_slashes(s.drop_last())
    } else {
        s
    }
}

pub fn trim_slashes(text: &str) -> (rest: String)
    ensures
        rest@ == without_slashes(text@),
{
    let chars = chars_of(text);
    let mut end: usize = chars.len();
    assert(chars@.take(end as int) =~= chars@);
    while end > 0 && chars[end - 1] == '/'
        invariant
            end <= chars@.len(),
            without_slashes(chars@) == without_slashes(chars@.take(end as int)),
        decreases end,
    {
        assert(chars@.take(end as int).drop_last() =~= chars@.take(end - 1));
        end = end - 1;
    }
    let rest = slice_subrange(&chars, 0, end);
    assert(rest@ =~= chars@.take(end as int));
    text_of(rest)
}

proof fn lemma_section_fails(to: Settings, section: Seq<char>, pairs: Seq<Pair>, n: int)
    requires
        0 <= n <= pairs.len(),
        set_section(to, section, pairs.take(n)) is None,
    ensures
        set_section(to, section, pairs) is None,
    decreases pairs.len() - n,
{
    if n == pairs.len() {
        assert(pairs.take(n) =~= pairs);
    } else {
        assert(pairs.take(n + 1).drop_last() =~= pairs.take(n));
        lemma_section_fails(to, section, pairs, n + 1);
    }
}

proof fn lemma_list_fails(to: Settings, section: Seq<char>, values: Seq<Meant>, n: int)
    requires
        0 <= n <= values.len(),
        set_list(to, section, values.take(n)) is None,
    ensures
        set_list(to, section, values) is None,
    decreases values.len() - n,
{
    if n == values.len() {
        assert(values.take(n) =~= values);
    } else {
        assert(values.take(n + 1).drop_last() =~= values.take(n));
        lemma_list_fails(to, section, values, n + 1);
    }
}

proof fn lemma_all_fails(items: Seq<Item>, n: int)
    requires
        0 <= n <= items.len(),
        set_all(items.take(n)) is None,
    ensures
        set_all(items) is None,
    decreases items.len() - n,
{
    if n == items.len() {
        assert(items.take(n) =~= items);
    } else {
        assert(items.take(n + 1).drop_last() =~= items.take(n));
        lemma_all_fails(items, n + 1);
    }
}

// --- What is set, and by whom -------------------------------------------------------------------

/// The value of a key in a section; none where it is not there.
pub open spec fn value_at(pairs: Seq<Pair>, key: Seq<char>) -> Option<Meant> {
    if pair_at(pairs, key) >= 0 {
        Some(pairs[pair_at(pairs, key)].value)
    } else {
        None
    }
}

/// The value of a setting; none where it is not there.
pub open spec fn looked_up(items: Seq<Item>, section: Seq<char>, key: Seq<char>) -> Option<Meant> {
    let i = item_at(items, section);
    if i >= 0 {
        match items[i].content {
            Contents::Section(pairs) => value_at(pairs, key),
            _ => None,
        }
    } else {
        None
    }
}

/// What the environment says of a setting; none where it does not speak of it.
pub open spec fn said(
    environment: Seq<Variable>,
    section: Seq<char>,
    key: Seq<char>,
) -> Option<Seq<char>>
    decreases environment.len(),
{
    if environment.len() == 0 {
        None
    } else if overrides(environment.last().name@) == Some((section, key)) {
        Some(environment.last().value@)
    } else {
        said(environment.drop_last(), section, key)
    }
}

/// A setting is as a value has it: setting it to that once more would change
/// nothing.
pub open spec fn is_set(to: Settings, section: Seq<char>, key: Seq<char>, value: Meant) -> bool {
    set_one(to, section, key, value) == Some(to)
}

/// The environment overrides the file: what it says of a setting is what that
/// setting is, whatever the file has.
pub proof fn lemma_the_environment_overrides(
    items: Seq<Item>,
    environment: Seq<Variable>,
    config: Config,
    section: Seq<char>,
    key: Seq<char>,
)
    requires
        configured(items, environment, Ok(config)),
        said(environment, section, key) is Some,
    ensures
        is_set(config@, section, key, Meant::Words(said(environment, section, key)->Some_0)),
{
    lemma_environment_put(items, environment, section, key);
    lemma_said_known(environment, section, key);
    lemma_all_read(with_environment(items, environment)->Ok_0, section, key);
}

/// What the environment does not speak of is as the file has it.
pub proof fn lemma_the_file_sets(
    items: Seq<Item>,
    environment: Seq<Variable>,
    config: Config,
    section: Seq<char>,
    key: Seq<char>,
)
    requires
        configured(items, environment, Ok(config)),
        known_section(section),
        said(environment, section, key) is None,
        looked_up(items, section, key) is Some,
    ensures
        is_set(config@, section, key, looked_up(items, section, key)->Some_0),
{
    lemma_environment_put(items, environment, section, key);
    lemma_all_read(with_environment(items, environment)->Ok_0, section, key);
}

/// With nothing in the file and nothing in the environment everything is as it
/// is by default.
pub proof fn lemma_nothing_given_means_defaults(environment: Seq<Variable>, config: Config)
    requires
        configured(Seq::<Item>::empty(), environment, Ok(config)),
        forall|i: int|
            0 <= i < environment.len() ==> overrides((#[trigger] environment[i]).name@) is None,
    ensures
        config@ == defaults(),
{
    lemma_environment_says_nothing(Seq::empty(), environment);
}

proof fn lemma_environment_says_nothing(items: Seq<Item>, environment: Seq<Variable>)
    requires
        forall|i: int|
            0 <= i < environment.len() ==> overrides((#[trigger] environment[i]).name@) is None,
    ensures
        with_environment(items, environment) == Ok::<Seq<Item>, Seq<char>>(items),
    decreases environment.len(),
{
    if environment.len() > 0 {
        assert forall|i: int| 0 <= i < environment.len() - 1 implies overrides(
            (#[trigger] environment.drop_last()[i]).name@,
        ) is None by {
            assert(environment[i] == environment.drop_last()[i]);
        }
        lemma_environment_says_nothing(items, environment.drop_last());
    }
}

/// Any text will do for a setting that is one: numbers and words like `true`
/// too.
pub proof fn lemma_any_text_will_do(to: Settings, text: Seq<char>)
    ensures
        set_one(to, "data"@, "dir"@, Meant::Words(text)) == Some(Settings { dir: text, ..to }),
        set_one(to, "quic"@, "public_address"@, Meant::Words(text)) == Some(
            Settings { public_address: Some(text), ..to },
        ),
        set_one(to, "http"@, "cert"@, Meant::Words(text)) == Some(
            Settings { cert: Some(text), ..to },
        ),
        set_one(to, "http"@, "key"@, Meant::Words(text)) == Some(
            Settings { key: Some(text), ..to },
        ),
        set_one(to, "http"@, "public_url"@, Meant::Words(text)) == Some(
            Settings { public_url: Some(text), ..to },
        ),
{
    lemma_sections_differ();
    reveal_strlit("bind");
    reveal_strlit("public_address");
    reveal_strlit("tls");
    reveal_strlit("cert");
    reveal_strlit("key");
    reveal_strlit("public_url");
    assert("cert"@[0] == 'c' && "key"@[0] == 'k' && "public_url"@[0] == 'p' && "tls"@[0] == 't'
        && "bind"@[0] == 'b' && "public_address"@[0] == 'p');
}

proof fn lemma_sections_differ()
    ensures
        "data"@ != "quic"@,
        "data"@ != "http"@,
        "data"@ != "audit"@,
        "data"@ != "relay"@,
        "quic"@ != "http"@,
        "quic"@ != "audit"@,
        "quic"@ != "relay"@,
        "http"@ != "audit"@,
        "http"@ != "relay"@,
        "audit"@ != "relay"@,
{
    reveal_strlit("data");
    reveal_strlit("quic");
    reveal_strlit("http");
    reveal_strlit("audit");
    reveal_strlit("relay");
    assert("data"@[0] == 'd' && "quic"@[0] == 'q' && "http"@[0] == 'h' && "audit"@[0] == 'a'
        && "relay"@[0] == 'r');
}

proof fn lemma_said_known(environment: Seq<Variable>, section: Seq<char>, key: Seq<char>)
    requires
        said(environment, section, key) is Some,
    ensures
        known_section(section),
    decreases environment.len(),
{
    if overrides(environment.last().name@) != Some((section, key)) {
        lemma_said_known(environment.drop_last(), section, key);
    }
}

proof fn lemma_environment_put(
    items: Seq<Item>,
    environment: Seq<Variable>,
    section: Seq<char>,
    key: Seq<char>,
)
    requires
        with_environment(items, environment) is Ok,
    ensures
        looked_up(with_environment(items, environment)->Ok_0, section, key) == match said(
            environment,
            section,
            key,
        ) {
            Some(text) => Some(Meant::Words(text)),
            None => looked_up(items, section, key),
        },
    decreases environment.len(),
{
    if environment.len() > 0 {
        lemma_environment_put(items, environment.drop_last(), section, key);
        let so_far = with_environment(items, environment.drop_last())->Ok_0;
        if let Some((other, other_key)) = overrides(environment.last().name@) {
            lemma_put(
                so_far,
                other,
                other_key,
                Meant::Words(environment.last().value@),
                section,
                key,
            );
        }
    }
}

proof fn lemma_put(
    items: Seq<Item>,
    other: Seq<char>,
    other_key: Seq<char>,
    value: Meant,
    section: Seq<char>,
    key: Seq<char>,
)
    requires
        with_setting(items, other, other_key, value) is Some,
    ensures
        looked_up(with_setting(items, other, other_key, value)->Some_0, section, key) == if section
            == other && key == other_key {
            Some(value)
        } else {
            looked_up(items, section, key)
        },
{
    let i = item_at(items, other);
    let after = with_setting(items, other, other_key, value)->Some_0;
    lemma_item_at(items, other);
    lemma_item_at(items, section);
    if i < 0 {
        let pair = Pair { key: other_key, value };
        let item = Item { name: other, content: Contents::Section(seq![pair]) };
        assert(items.push(item).drop_last() =~= items);
        reveal_with_fuel(pair_at, 2);
        assert(seq![pair].drop_last().len() == 0);
        assert(seq![pair].last() == pair);
    } else {
        let pairs = items[i].content->Section_0;
        lemma_item_update(items, other, after[i], section);
        lemma_pair_put(pairs, other_key, value, key);
    }
}

proof fn lemma_item_at(items: Seq<Item>, name: Seq<char>)
    ensures
        -1 <= item_at(items, name) < items.len(),
        item_at(items, name) >= 0 ==> items[item_at(items, name)].name == name,
    decreases items.len(),
{
    if items.len() > 0 && items.last().name != name {
        lemma_item_at(items.drop_last(), name);
    }
}

proof fn lemma_item_update(items: Seq<Item>, name: Seq<char>, item: Item, wanted: Seq<char>)
    requires
        item.name == name,
        item_at(items, name) >= 0,
    ensures
        item_at(items.update(item_at(items, name), item), wanted) == item_at(items, wanted),
    decreases items.len(),
{
    let i = item_at(items, name);
    lemma_item_at(items, name);
    let after = items.update(i, item);
    if items.last().name != name {
        assert(after.drop_last() =~= items.drop_last().update(i, item));
        lemma_item_at(items.drop_last(), name);
        lemma_item_update(items.drop_last(), name, item, wanted);
    } else {
        assert(after.drop_last() =~= items.drop_last());
    }
}

proof fn lemma_pair_put(pairs: Seq<Pair>, key: Seq<char>, value: Meant, wanted: Seq<char>)
    ensures
        value_at(with_pair(pairs, key, value), wanted) == if wanted == key {
            Some(value)
        } else {
            value_at(pairs, wanted)
        },
    decreases pairs.len(),
{
    let i = pair_at(pairs, key);
    let pair = Pair { key, value };
    lemma_pair_at(pairs, key);
    lemma_pair_at(pairs, wanted);
    if i < 0 {
        assert(pairs.push(pair).drop_last() =~= pairs);
        assert(pairs.push(pair).last() == pair);
    } else {
        let put = pairs.update(i, pair);
        if pairs.last().key != key {
            let less = pairs.drop_last();
            lemma_pair_at(less, key);
            lemma_pair_at(less, wanted);
            lemma_pair_put(less, key, value, wanted);
            lemma_pair_at(less.update(i, pair), wanted);
            assert(put.drop_last() =~= less.update(i, pair));
            assert(put.last() == pairs.last());
        } else {
            assert(put.drop_last() =~= pairs.drop_last());
            lemma_pair_at(pairs.drop_last(), wanted);
        }
    }
}

proof fn lemma_pair_at(pairs: Seq<Pair>, key: Seq<char>)
    ensures
        -1 <= pair_at(pairs, key) < pairs.len(),
        pair_at(pairs, key) >= 0 ==> pairs[pair_at(pairs, key)].key == key,
    decreases pairs.len(),
{
    if pairs.len() > 0 && pairs.last().key != key {
        lemma_pair_at(pairs.drop_last(), key);
    }
}

/// Setting one thing leaves another as it is.
proof fn lemma_others_stay(
    to: Settings,
    section: Seq<char>,
    key: Seq<char>,
    value: Meant,
    other: Seq<char>,
    other_key: Seq<char>,
    other_value: Meant,
)
    requires
        known_section(section),
        known_section(other),
        is_set(to, section, key, value),
        section != other || key != other_key,
        set_one(to, other, other_key, other_value) is Some,
    ensures
        is_set(
            set_one(to, other, other_key, other_value)->Some_0,
            section,
            key,
            value,
        ),
{
    lemma_sections_differ();
}

proof fn lemma_section_read(to: Settings, section: Seq<char>, pairs: Seq<Pair>, key: Seq<char>)
    requires
        known_section(section),
        set_section(to, section, pairs) is Some,
        value_at(pairs, key) is Some,
    ensures
        is_set(set_section(to, section, pairs)->Some_0, section, key, value_at(pairs, key)->Some_0),
    decreases pairs.len(),
{
    let last = pairs.last();
    let so_far = set_section(to, section, pairs.drop_last())->Some_0;
    if last.key == key {
        lemma_sections_differ();
    } else {
        lemma_pair_at(pairs.drop_last(), key);
        lemma_section_read(to, section, pairs.drop_last(), key);
        lemma_others_stay(
            so_far,
            section,
            key,
            value_at(pairs, key)->Some_0,
            section,
            last.key,
            last.value,
        );
    }
}

proof fn lemma_section_leaves(
    to: Settings,
    other: Seq<char>,
    pairs: Seq<Pair>,
    section: Seq<char>,
    key: Seq<char>,
    value: Meant,
)
    requires
        known_section(section),
        known_section(other),
        section != other,
        is_set(to, section, key, value),
        set_section(to, other, pairs) is Some,
    ensures
        is_set(set_section(to, other, pairs)->Some_0, section, key, value),
    decreases pairs.len(),
{
    if pairs.len() > 0 {
        lemma_section_leaves(to, other, pairs.drop_last(), section, key, value);
        lemma_others_stay(
            set_section(to, other, pairs.drop_last())->Some_0,
            section,
            key,
            value,
            other,
            pairs.last().key,
            pairs.last().value,
        );
    }
}

proof fn lemma_list_leaves(
    to: Settings,
    other: Seq<char>,
    values: Seq<Meant>,
    section: Seq<char>,
    key: Seq<char>,
    value: Meant,
)
    requires
        known_section(section),
        known_section(other),
        section != other,
        is_set(to, section, key, value),
        set_list(to, other, values) is Some,
    ensures
        is_set(set_list(to, other, values)->Some_0, section, key, value),
    decreases values.len(),
{
    if values.len() > 0 {
        lemma_list_leaves(to, other, values.drop_last(), section, key, value);
        lemma_others_stay(
            set_list(to, other, values.drop_last())->Some_0,
            section,
            key,
            value,
            other,
            keys_of(other)[values.len() - 1],
            values.last(),
        );
    }
}

proof fn lemma_all_read(items: Seq<Item>, section: Seq<char>, key: Seq<char>)
    requires
        known_section(section),
        set_all(items) is Some,
        looked_up(items, section, key) is Some,
    ensures
        is_set(set_all(items)->Some_0, section, key, looked_up(items, section, key)->Some_0),
    decreases items.len(),
{
    let last = items.last();
    let less = items.drop_last();
    let so_far = set_all(less)->Some_0;
    if last.name == section {
        lemma_section_read(so_far, section, last.content->Section_0, key);
    } else {
        lemma_item_at(less, section);
        let value = looked_up(items, section, key)->Some_0;
        assert(looked_up(less, section, key) == Some(value));
        lemma_all_read(less, section, key);
        match last.content {
            Contents::Section(pairs) => lemma_section_leaves(
                so_far,
                last.name,
                pairs,
                section,
                key,
                value,
            ),
            Contents::List(values) => lemma_list_leaves(
                so_far,
                last.name,
                values,
                section,
                key,
                value,
            ),
            Contents::Value => {},
        }
    }
}

// --- What settings come to ----------------------------------------------------------------------

/// A server that is told nothing keeps its data where it is started, listens on
/// port 443 of every address for both, with a certificate of its own, keeps the
/// log for a year and carries a hundred gigabytes for a session.
pub proof fn lemma_the_defaults()
    ensures
        defaults().dir == "."@,
        defaults().quic_bind == (Address { ip: Ip::V4(0), port: 443 }),
        defaults().http_bind == defaults().quic_bind,
        defaults().tls == Tls::SelfSigned && defaults().cert is None && defaults().key is None,
        defaults().public_url is None && defaults().public_address is None,
        defaults().keep_days == 365 && defaults().max_gb == 100,
{
}

/// Each setting sets what it is called, and nothing else.
pub proof fn lemma_settings_set_what_they_are_called(
    to: Settings,
    ip: u32,
    port: u16,
    days: u32,
    gb: u32,
)
    ensures
        ({
            let address = Address { ip: Ip::V4(ip), port };
            let bind = Meant::Text(address.written());
            &&& set_one(to, "quic"@, "bind"@, bind) == Some(Settings { quic_bind: address, ..to })
            &&& set_one(to, "http"@, "bind"@, bind) == Some(Settings { http_bind: address, ..to })
        }),
        set_one(to, "audit"@, "keep_days"@, Meant::Number(days as i64)) == Some(
            Settings { keep_days: days, ..to },
        ),
        set_one(to, "audit"@, "keep_days"@, Meant::Words(decimal(days as nat))) == Some(
            Settings { keep_days: days, ..to },
        ),
        set_one(to, "relay"@, "max_gb"@, Meant::Number(gb as i64)) == Some(
            Settings { max_gb: gb as u64, ..to },
        ),
        set_one(to, "relay"@, "max_gb"@, Meant::Words(decimal(gb as nat))) == Some(
            Settings { max_gb: gb as u64, ..to },
        ),
        set_one(to, "http"@, "tls"@, Meant::Text("self-signed"@)) == Some(
            Settings { tls: Tls::SelfSigned, ..to },
        ),
        set_one(to, "http"@, "tls"@, Meant::Text("files"@)) == Some(
            Settings { tls: Tls::Files, ..to },
        ),
        set_one(to, "http"@, "tls"@, Meant::Text("none"@)) == Some(
            Settings { tls: Tls::Plain, ..to },
        ),
{
    lemma_sections_differ();
    crate::net::lemma_ipv4_reads_back(ip, port);
    lemma_decimal_reads_back(days as nat);
    lemma_decimal_reads_back(gb as nat);
    assert(is_digit(decimal(days as nat)[0]) && is_digit(decimal(gb as nat)[0]));
    reveal_strlit("self-signed");
    reveal_strlit("files");
    reveal_strlit("none");
    reveal_strlit("bind");
    reveal_strlit("tls");
    reveal_strlit("public_address");
    assert("self-signed"@.len() == 11 && "files"@.len() == 5 && "none"@.len() == 4);
    assert("bind"@.len() == 4 && "tls"@.len() == 3);
}

/// A variable is for the setting that it names, in capital letters: behind
/// `NEARHAND_` the section, and behind another underscore the key.
pub proof fn lemma_variables_name_their_setting(
    section: Seq<char>,
    key: Seq<char>,
    other: Seq<char>,
)
    requires
        known_section(lowered(section)),
    ensures
        overrides("NEARHAND_"@ + section + seq!['_'] + key) == Some((lowered(section), lowered(key))),
        !starts(other, "NEARHAND_"@) ==> overrides(other) is None,
{
    reveal_strlit("NEARHAND_");
    let name = "NEARHAND_"@ + section + seq!['_'] + key;
    assert(name.take(9) =~= "NEARHAND_"@);
    let rest = lowered(name.skip(9));
    assert(rest =~= lowered(section).push('_') + lowered(key));
    reveal_strlit("data");
    reveal_strlit("quic");
    reveal_strlit("http");
    reveal_strlit("audit");
    reveal_strlit("relay");
    assert forall|i: int| 0 <= i < lowered(section).len() implies lowered(section)[i] != '_' by {}
    lemma_parted(lowered(section), '_', lowered(key));
}

/// What is configured is complete: with `files` both files are named.
pub proof fn lemma_files_are_named(
    items: Seq<Item>,
    environment: Seq<Variable>,
    config: Result<Config, Problem>,
)
    requires
        configured(items, environment, config),
    ensures
        config matches Ok(config) ==> (config@.tls == Tls::Files ==> config@.cert is Some
            && config@.key is Some),
{
}

/// Slashes at the end are taken off, and nothing else.
pub proof fn lemma_slashes_come_off(s: Seq<char>) -> (many: int)
    ensures
        0 <= many <= s.len(),
        without_slashes(s) == s.take(many),
        forall|i: int| many <= i < s.len() ==> s[i] == '/',
        many > 0 ==> s[many - 1] != '/',
    decreases s.len(),
{
    if s.len() > 0 && s.last() == '/' {
        let many = lemma_slashes_come_off(s.drop_last());
        assert(s.drop_last().take(many) =~= s.take(many));
        assert forall|i: int| many <= i < s.len() implies s[i] == '/' by {
            if i < s.len() - 1 {
                assert(s.drop_last()[i] == s[i]);
            }
        }
        if many > 0 {
            assert(s.drop_last()[many - 1] == s[many - 1]);
        }
        many
    } else {
        assert(s.take(s.len() as int) =~= s);
        s.len() as int
    }
}

/// Without a URL of its own the console is on this machine, at the port it
/// listens on, which is left out where it is the usual one.
pub proof fn lemma_the_console_is_here(settings: Settings)
    requires
        settings.public_url is None,
    ensures
        ({
            let secure = settings.tls != Tls::Plain;
            let usual: u16 = if secure {
                443
            } else {
                80
            };
            let scheme = if secure {
                "https"@
            } else {
                "http"@
            };
            Config::url(settings) == scheme + "://localhost"@ + (if settings.http_bind.port == usual {
                Seq::empty()
            } else {
                ":"@ + decimal(settings.http_bind.port as nat)
            })
        }),
{
    reveal_strlit("https");
    reveal_strlit("http");
    reveal_strlit("://localhost");
    reveal_strlit(":");
    reveal_strlit("http://localhost");
    reveal_strlit("http://localhost:");
    reveal_strlit("https://localhost");
    reveal_strlit("https://localhost:");
    let port = decimal(settings.http_bind.port as nat);
    assert("http://localhost"@ =~= "http"@ + "://localhost"@ + Seq::empty());
    assert("http://localhost:"@ + port =~= "http"@ + "://localhost"@ + (":"@ + port));
    assert("https://localhost"@ =~= "https"@ + "://localhost"@ + Seq::empty());
    assert("https://localhost:"@ + port =~= "https"@ + "://localhost"@ + (":"@ + port));
}

/// Agents reach the server at the address that is given; without one, at the
/// host of the console's URL, and the port of the QUIC side.
pub proof fn lemma_agents_reach_the_consoles_host(
    settings: Settings,
    scheme: Seq<char>,
    host: Seq<char>,
    port: Seq<char>,
)
    requires
        !scheme.contains(':'),
        crate::server::https::shown_host(host, host),
        crate::server::https::shown_port(port),
        settings.public_url == Some(scheme + seq![':', '/', '/'] + host + port),
    ensures
        settings.public_address is None ==> Config::address(settings) == host + ":"@ + decimal(
            settings.quic_bind.port as nat,
        ),
        settings.public_address matches Some(address) ==> Config::address(settings) == address,
{
    let url = settings.public_url->Some_0;
    crate::server::https::lemma_the_host_of_a_url(scheme, host, host, port, Seq::empty());
    assert(url + Seq::<char>::empty() =~= url);
    if port.len() > 0 {
        assert(url.last() == port.last());
        if port.len() > 1 {
            assert(is_digit(port[port.len() - 1]));
        }
    } else {
        assert(url.last() == host[host.len() - 1]);
    }
    assert(without_slashes(url) == url);
    if host.len() > 2 && host == seq!['['] + host + seq![']'] {
        assert(host.len() == host.len() + 2);
    }
    assert(!host.contains(':'));
}

/// A gigabyte is 1,073,741,824 bytes; nought lifts the ceiling, and nothing
/// else does.
pub proof fn lemma_the_ceiling_in_bytes(relay: Relay)
    ensures
        relay.max_gb < 17_179_869_184 ==> relay.most() == relay.max_gb * 1_073_741_824,
        relay.max_gb >= 17_179_869_184 ==> relay.most() == u64::MAX,
        relay.most() == 0 <==> relay.max_gb == 0,
{
}

}
