//! What is in the way, and what this server is: what each check of the
//! server's doctor found, in words.

use super::backup::{megabytes, megabytes_of};
use super::config::{Config, Tls};
use super::devices::DeviceRecord;
use super::https::{bracket, last_colon, unbracket_end, unbracket_start, unbracketed};
use crate::net::{Address, Ip};
use crate::text::{
    chars_of, decimal, index_from, push_decimal, same_text, signed, signed_text, text_of,
};
use vstd::prelude::*;
use vstd::slice::slice_subrange;

verus! {

/// What one check found.
#[derive(Debug)]
pub enum Finding {
    /// Nothing to do about this one.
    Good(String),
    /// Worth knowing, not in the way.
    Note(String),
    /// This is what to fix, and how.
    Bad { what: String, fix: String },
}

/// A finding, as a value to reason about.
pub enum Found {
    Good(Seq<char>),
    Note(Seq<char>),
    Bad(Seq<char>, Seq<char>),
}

impl View for Finding {
    type V = Found;

    open spec fn view(&self) -> Found {
        match self {
            Finding::Good(what) => Found::Good(what@),
            Finding::Note(what) => Found::Note(what@),
            Finding::Bad { what, fix } => Found::Bad(what@, fix@),
        }
    }
}

impl Finding {
    pub fn good(what: &str) -> (finding: Finding)
        ensures
            finding@ == Found::Good(what@),
    {
        Finding::Good(what.to_owned())
    }

    pub fn note(what: &str) -> (finding: Finding)
        ensures
            finding@ == Found::Note(what@),
    {
        Finding::Note(what.to_owned())
    }

    pub fn bad(what: &str, fix: &str) -> (finding: Finding)
        ensures
            finding@ == Found::Bad(what@, fix@),
    {
        Finding::Bad { what: what.to_owned(), fix: fix.to_owned() }
    }

    pub fn is_bad(&self) -> (yes: bool)
        ensures
            yes == (self@ is Bad),
    {
        match self {
            Finding::Bad { .. } => true,
            _ => false,
        }
    }

    /// The finding under its check's name, as it is printed: what, and then
    /// each line of how to fix it.
    pub fn print(&self, name: &str) -> (text: String)
        ensures
            text@ == printed(self@, name@),
    {
        let mut text = String::new();
        match self {
            Finding::Good(what) => {
                text.append("  ok   ");
                text.append(name);
                text.append(": ");
                text.append(what);
                text.append("\n");
            },
            Finding::Note(what) => {
                text.append("  --   ");
                text.append(name);
                text.append(": ");
                text.append(what);
                text.append("\n");
            },
            Finding::Bad { what, fix } => {
                text.append("  NO   ");
                text.append(name);
                text.append(": ");
                text.append(what);
                text.append("\n");
                let ghost head = text@;
                push_indented(&mut text, &chars_of(fix));
                assert(text@ =~= head + indented(fix@));
            },
        }
        assert(text@ =~= printed(self@, name@));
        text
    }
}

/// Where a line ends whose newline is at `end`: before that, and before the
/// carriage return that goes with it.
pub open spec fn line_end(s: Seq<char>, end: int) -> int {
    if end > 0 && s[end - 1] == '\r' {
        end - 1
    } else {
        end
    }
}

/// Lines, each behind a margin and with its end.
pub open spec fn indented(s: Seq<char>) -> Seq<char>
    decreases s.len(),
{
    if s.len() == 0 {
        Seq::empty()
    } else {
        let end = index_from(s, '\n', 0);
        if 0 <= end < s.len() {
            "       "@ + s.take(line_end(s, end)) + "\n"@ + indented(s.skip(end + 1))
        } else {
            "       "@ + s + "\n"@
        }
    }
}

pub open spec fn printed(found: Found, name: Seq<char>) -> Seq<char> {
    match found {
        Found::Good(what) => "  ok   "@ + name + ": "@ + what + "\n"@,
        Found::Note(what) => "  --   "@ + name + ": "@ + what + "\n"@,
        Found::Bad(what, fix) => "  NO   "@ + name + ": "@ + what + "\n"@ + indented(fix),
    }
}

fn push_indented(out: &mut String, s: &[char])
    ensures
        final(out)@ == old(out)@ + indented(s@),
{
    let mut from: usize = 0;
    assert(s@.skip(0) =~= s@);
    assert(out@ + indented(s@.skip(0)) =~= old(out)@ + indented(s@));
    while from < s.len()
        invariant
            from <= s@.len(),
            out@ + indented(s@.skip(from as int)) == old(out)@ + indented(s@),
        decreases s.len() - from,
    {
        let rest = slice_subrange(s, from, s.len());
        assert(rest@ =~= s@.skip(from as int));
        let end: usize = crate::text::find(rest, '\n', 0);
        let last: usize = if end < rest.len() && end > 0 && rest[end - 1] == '\r' {
            end - 1
        } else {
            end
        };
        let line = slice_subrange(rest, 0, last);
        assert(line@ =~= rest@.take(last as int));
        let ghost before = out@;
        out.append("       ");
        out.append(&text_of(line));
        out.append("\n");
        assert(out@ =~= before + ("       "@ + rest@.take(last as int) + "\n"@));
        if end < rest.len() {
            assert(rest@.skip(end + 1) =~= s@.skip(from + end + 1));
            assert(before + indented(rest@) =~= out@ + indented(s@.skip(from + end + 1)));
            from = from + end + 1;
        } else {
            assert(rest@.take(end as int) =~= rest@);
            from = s.len();
            assert(s@.skip(from as int) =~= Seq::empty());
            assert(before + indented(rest@) =~= out@ + indented(s@.skip(from as int)));
        }
    }
    assert(s@.skip(from as int) =~= Seq::empty());
    assert(out@ + indented(s@.skip(from as int)) =~= out@);
}

/// What is said at the end.
pub fn conclusion(findings: &[Finding]) -> (text: &'static str)
    ensures
        text@ == (if exists|i: int| 0 <= i < findings@.len() && (#[trigger] findings@[i])@ is Bad {
            "Something above is in the way; docs/troubleshooting.md has more."@
        } else {
            "Nothing here is in the way of agents and viewers."@
        }),
{
    let mut i: usize = 0;
    while i < findings.len()
        invariant
            i <= findings@.len(),
            forall|j: int| 0 <= j < i ==> !((#[trigger] findings@[j])@ is Bad),
        decreases findings.len() - i,
    {
        if findings[i].is_bad() {
            return "Something above is in the way; docs/troubleshooting.md has more.";
        }
        i = i + 1;
    }
    "Nothing here is in the way of agents and viewers."
}

// --- The checks --------------------------------------------------------------------------------

/// What trying something on disk came to.
#[derive(Debug)]
pub enum Tried {
    Missing,
    Worked,
    Failed(String),
}

fn joined(a: &str, b: &str, c: &str) -> (text: String)
    ensures
        text@ == a@ + b@ + c@,
{
    let mut text = a.to_owned();
    text.append(b);
    text.append(c);
    text
}

/// What is found of the data folder.
pub open spec fn found_folder(dir: Seq<char>, tried: &Tried) -> Found {
    match tried {
        Tried::Missing => Found::Note(
            dir + " does not exist yet; the server makes it at first start"@,
        ),
        Tried::Worked => Found::Good("exists and takes writes"@),
        Tried::Failed(why) => Found::Bad(
            "cannot write in "@ + dir + (": "@ + why@),
            "The server writes its key, database and releases here. In Docker this is\nusually a volume that is not mounted, or mounted read-only."@,
        ),
    }
}

/// The data folder must exist and take writes: the key, the database and the
/// releases all live here.
pub fn data_folder(dir: &str, tried: &Tried) -> (finding: Finding)
    ensures
        finding@ == found_folder(dir@, tried),
{
    match tried {
        Tried::Missing => {
            let mut what = dir.to_owned();
            what.append(" does not exist yet; the server makes it at first start");
            Finding::Note(what)
        },
        Tried::Worked => Finding::good("exists and takes writes"),
        Tried::Failed(why) => {
            let mut said = ": ".to_owned();
            said.append(why);
            Finding::bad(
                &joined("cannot write in ", dir, &said),
                "The server writes its key, database and releases here. In Docker this is\nusually a volume that is not mounted, or mounted read-only.",
            )
        },
    }
}

/// What is found of the key.
pub open spec fn found_key(path: Seq<char>, read: &Option<Result<String, String>>) -> Found {
    match read {
        None => Found::Note(
            "no key yet: the server makes one at first start, and agents pin it"@,
        ),
        Some(Ok(fingerprint)) => Found::Good(
            "fingerprint "@ + fingerprint@ + " — what agents and viewers pin"@,
        ),
        Some(Err(why)) => Found::Bad(
            path + ": "@ + why@,
            "Without this key the server cannot be the server agents pinned.\nRestore it from a backup; a new one means reconfiguring every agent."@,
        ),
    }
}

/// The key behind the certificate every agent and viewer pins: its
/// fingerprint, or why it cannot be read; nothing where there is no key.
pub fn key(path: &str, read: &Option<Result<String, String>>) -> (finding: Finding)
    ensures
        finding@ == found_key(path@, read),
{
    match read {
        None => Finding::note("no key yet: the server makes one at first start, and agents pin it"),
        Some(Ok(fingerprint)) => Finding::Good(
            joined("fingerprint ", fingerprint, " — what agents and viewers pin"),
        ),
        Some(Err(why)) => Finding::bad(
            &joined(path, ": ", why),
            "Without this key the server cannot be the server agents pinned.\nRestore it from a backup; a new one means reconfiguring every agent.",
        ),
    }
}

/// How much is in a database.
#[derive(Debug, Clone, Copy, PartialEq, Eq, Structural)]
pub struct Counts {
    pub users: i64,
    pub devices: i64,
    /// Devices seen this week.
    pub recent: i64,
    pub grants: i64,
}

/// Seconds in a week.
pub const WEEK: i64 = 604_800;

/// A device that was seen after `since`.
pub open spec fn seen_after(since: i64) -> spec_fn(DeviceRecord) -> bool {
    |device: DeviceRecord| device.last_seen_at matches Some(seen) && seen > since
}

/// How many devices were seen after `since`.
pub fn recent(devices: &[DeviceRecord], since: i64) -> (n: usize)
    ensures
        n == devices@.filter(seen_after(since)).len(),
{
    let mut n: usize = 0;
    let mut i: usize = 0;
    proof {
        reveal(Seq::filter);
    }
    while i < devices.len()
        invariant
            n <= i <= devices@.len(),
            n == devices@.take(i as int).filter(seen_after(since)).len(),
        decreases devices.len() - i,
    {
        proof {
            reveal(Seq::filter);
            assert(devices@.take(i + 1).drop_last() =~= devices@.take(i as int));
        }
        if let Some(seen) = devices[i].last_seen_at {
            if seen > since {
                n = n + 1;
            }
        }
        i = i + 1;
    }
    assert(devices@.take(i as int) =~= devices@);
    n
}

/// What opening a database, and counting what is in it, came to.
#[derive(Debug)]
pub enum Opened {
    Missing,
    Closed(String),
    Unreadable(String),
    Counted(Counts),
}

pub open spec fn summarised(counts: Counts) -> Found {
    if counts.users == 0 {
        Found::Note("no users yet: `nearhand-server admin-link` prints a link for the first one"@)
    } else {
        Found::Good(
            signed(counts.users as int) + " users, "@ + signed(counts.devices as int)
                + " devices ("@ + signed(counts.recent as int) + " seen this week), "@ + signed(
                counts.grants as int,
            ) + " grants"@,
        )
    }
}

/// Who and what is in the database.
pub fn summary(counts: Counts) -> (finding: Finding)
    ensures
        finding@ == summarised(counts),
{
    if counts.users == 0 {
        return Finding::note(
            "no users yet: `nearhand-server admin-link` prints a link for the first one",
        );
    }
    let mut text = signed_text(counts.users);
    text.append(" users, ");
    text.append(&signed_text(counts.devices));
    text.append(" devices (");
    text.append(&signed_text(counts.recent));
    text.append(" seen this week), ");
    text.append(&signed_text(counts.grants));
    text.append(" grants");
    Finding::Good(text)
}

/// What is found of the database.
pub open spec fn found_database(path: Seq<char>, opened: &Opened) -> Found {
    match opened {
        Opened::Missing => Found::Note("no database yet; the server makes one at first start"@),
        Opened::Closed(why) => Found::Bad(
            path + ": "@ + why@,
            "A database that cannot be opened is usually one being written by\nanother server, or one on a filesystem that does not do locking."@,
        ),
        Opened::Unreadable(why) => Found::Bad(
            "cannot read "@ + path + (": "@ + why@),
            "The schema may be older than this server. `nearhand-server migrate` brings it up to date."@,
        ),
        Opened::Counted(counts) => summarised(*counts),
    }
}

/// The database, opened as it is, without changing it.
pub fn database(path: &str, opened: &Opened) -> (finding: Finding)
    ensures
        finding@ == found_database(path@, opened),
{
    match opened {
        Opened::Missing => Finding::note("no database yet; the server makes one at first start"),
        Opened::Closed(why) => Finding::bad(
            &joined(path, ": ", why),
            "A database that cannot be opened is usually one being written by\nanother server, or one on a filesystem that does not do locking.",
        ),
        Opened::Unreadable(why) => {
            let mut said = ": ".to_owned();
            said.append(why);
            Finding::bad(
                &joined("cannot read ", path, &said),
                "The schema may be older than this server. `nearhand-server migrate` brings it up to date.",
            )
        },
        Opened::Counted(counts) => summary(*counts),
    }
}

/// What is found of the audit log.
pub open spec fn found_audit(config: &Config) -> Found {
    if config.audit.keep_days == 0 {
        Found::Note(
            "audit.keep_days = 0: entries are kept for ever, and nothing watches the disk"@,
        )
    } else {
        Found::Good(
            "entries older than "@ + decimal(config.audit.keep_days as nat)
                + " days are swept daily (audit.keep_days)"@,
        )
    }
}

/// How long the record of who did what is kept.
pub fn audit(config: &Config) -> (finding: Finding)
    ensures
        finding@ == found_audit(config),
{
    if config.audit.keep_days == 0 {
        return Finding::note(
            "audit.keep_days = 0: entries are kept for ever, and nothing watches the disk",
        );
    }
    let mut text = "entries older than ".to_owned();
    push_decimal(&mut text, config.audit.keep_days as u64);
    text.append(" days are swept daily (audit.keep_days)");
    Finding::Good(text)
}

/// What is found of the releases.
pub open spec fn found_releases(packages: u64, bytes: u64) -> Found {
    if packages == 0 {
        Found::Note("no releases held for agents to update from"@)
    } else {
        Found::Good(
            decimal(packages as nat) + (if packages == 1 {
                " package"@
            } else {
                " packages"@
            }) + " held, "@ + megabytes_of(bytes) + " — the console says which is offered"@,
        )
    }
}

/// What agents would be offered, and what it costs on disk.
pub fn releases(packages: u64, bytes: u64) -> (finding: Finding)
    ensures
        finding@ == found_releases(packages, bytes),
{
    if packages == 0 {
        return Finding::note("no releases held for agents to update from");
    }
    let mut text = crate::text::decimal_text(packages);
    text.append(
        if packages == 1 {
            " package"
        } else {
            " packages"
        },
    );
    text.append(" held, ");
    text.append(&megabytes(bytes));
    text.append(" — the console says which is offered");
    Finding::Good(text)
}

/// What is found of the certificate.
pub open spec fn found_certificate(config: &Config, built: &Result<(), String>) -> Found {
    match config.http.tls {
        Tls::Plain => Found::Note(
            "http.tls = \"none\": something in front must do TLS, and this must bind to localhost"@,
        ),
        Tls::SelfSigned => match built {
            Ok(()) => Found::Good(
                "self-signed: browsers warn, and curl needs -k. `tls = \"files\"` takes a real one"@,
            ),
            Err(why) => Found::Bad(
                "cannot make a self-signed certificate: "@ + why@,
                "The data folder must take writes: the certificate is kept there."@,
            ),
        },
        Tls::Files => match built {
            Ok(()) => Found::Good(
                "from "@ + (match config.http.cert {
                    Some(cert) => cert@,
                    None => "http.cert"@,
                }) + " and its key"@,
            ),
            Err(why) => Found::Bad(
                why@,
                "http.cert and http.key must both be PEM, and be each other's.\nAfter a renewal, restart the server so it reads them again."@,
            ),
        },
    }
}

/// The certificate browsers see, built the way it is to serve: `built` says
/// why it could not be.
pub fn certificate(config: &Config, built: &Result<(), String>) -> (finding: Finding)
    ensures
        finding@ == found_certificate(config, built),
{
    match config.http.tls {
        Tls::Plain => Finding::note(
            "http.tls = \"none\": something in front must do TLS, and this must bind to localhost",
        ),
        Tls::SelfSigned => match built {
            Ok(()) => Finding::good(
                "self-signed: browsers warn, and curl needs -k. `tls = \"files\"` takes a real one",
            ),
            Err(why) => {
                let mut what = "cannot make a self-signed certificate: ".to_owned();
                what.append(why);
                Finding::bad(
                    &what,
                    "The data folder must take writes: the certificate is kept there.",
                )
            },
        },
        Tls::Files => match built {
            Ok(()) => Finding::Good(
                match &config.http.cert {
                    Some(cert) => joined("from ", cert, " and its key"),
                    None => joined("from ", "http.cert", " and its key"),
                },
            ),
            Err(why) => Finding::bad(
                why,
                "http.cert and http.key must both be PEM, and be each other's.\nAfter a renewal, restart the server so it reads them again.",
            ),
        },
    }
}

/// What binding to a port came to.
#[derive(Debug)]
pub enum Bound {
    Free,
    InUse,
    Failed(String),
}

fn port(bind: Address, bound: &Bound, fix: &str) -> (finding: Finding)
    ensures
        finding@ == (match bound {
            Bound::Free => Found::Good(bind.written() + " is free to bind"@),
            Bound::InUse => Found::Note(
                bind.written() + " is in use — by this server, if it is running"@,
            ),
            Bound::Failed(why) => Found::Bad(
                "cannot bind "@ + bind.written() + (": "@ + why@),
                fix@,
            ),
        }),
{
    match bound {
        Bound::Free => {
            let mut text = bind.text();
            text.append(" is free to bind");
            Finding::Good(text)
        },
        Bound::InUse => {
            let mut text = bind.text();
            text.append(" is in use — by this server, if it is running");
            Finding::Note(text)
        },
        Bound::Failed(why) => {
            let mut said = ": ".to_owned();
            said.append(why);
            Finding::bad(&joined("cannot bind ", &bind.text(), &said), fix)
        },
    }
}

/// What is found of the UDP port.
pub open spec fn found_udp(bind: Address, bound: &Bound) -> Found {
    match bound {
        Bound::Free => Found::Good(bind.written() + " is free to bind"@),
        Bound::InUse => Found::Note(
            bind.written() + " is in use — by this server, if it is running"@,
        ),
        Bound::Failed(why) => Found::Bad(
            "cannot bind "@ + bind.written() + (": "@ + why@),
            "A port under 1024 needs a capability on Linux:\n  setcap 'cap_net_bind_service=+ep' /usr/local/bin/nearhand-server\nor run behind something that forwards UDP."@,
        ),
    }
}

/// Agents, viewers and the relay all arrive on this UDP port.
pub fn udp(bind: Address, bound: &Bound) -> (finding: Finding)
    ensures
        finding@ == found_udp(bind, bound),
{
    port(
        bind,
        bound,
        "A port under 1024 needs a capability on Linux:\n  setcap 'cap_net_bind_service=+ep' /usr/local/bin/nearhand-server\nor run behind something that forwards UDP.",
    )
}

/// What is found of the TCP port.
pub open spec fn found_tcp(bind: Address, bound: &Bound) -> Found {
    match bound {
        Bound::Free => Found::Good(bind.written() + " is free to bind"@),
        Bound::InUse => Found::Note(
            bind.written() + " is in use — by this server, if it is running"@,
        ),
        Bound::Failed(why) => Found::Bad(
            "cannot bind "@ + bind.written() + (": "@ + why@),
            "A port under 1024 needs a capability on Linux, or a proxy in front."@,
        ),
    }
}

/// The REST API and the console.
pub fn tcp(bind: Address, bound: &Bound) -> (finding: Finding)
    ensures
        finding@ == found_tcp(bind, bound),
{
    port(bind, bound, "A port under 1024 needs a capability on Linux, or a proxy in front.")
}

/// The host of a `host:port`.
pub open spec fn host_part(address: Seq<char>) -> Seq<char> {
    let colon = last_colon(address, address.len() as int);
    if colon >= 0 {
        unbracket_end(unbracket_start(address.take(colon)))
    } else {
        address
    }
}

/// A host that only this machine could use.
pub open spec fn looks_local(host: Seq<char>) -> bool {
    ||| host == "localhost"@
    ||| Ip::read_from(host) matches Some(ip) && (ip.loopback() || ip.unspecified())
}

fn is_local_host(address: &str) -> (yes: bool)
    ensures
        yes == looks_local(host_part(address@)),
{
    let chars = chars_of(address);
    let mut end: usize = chars.len();
    while end > 0 && chars[end - 1] != ':'
        invariant
            end <= chars@.len(),
            last_colon(chars@, chars@.len() as int) == last_colon(chars@, end as int),
        decreases end,
    {
        end = end - 1;
    }
    let front = if end > 0 {
        slice_subrange(&chars, 0, end - 1)
    } else {
        slice_subrange(&chars, 0, chars.len())
    };
    let host = if end > 0 {
        unbracketed(front)
    } else {
        front
    };
    proof {
        if end > 0 {
            assert(front@ =~= chars@.take(end - 1));
        } else {
            assert(front@ =~= chars@);
        }
        assert(host@ =~= host_part(address@));
    }
    if same_text(&text_of(host), "localhost") {
        return true;
    }
    match Ip::parse(host) {
        Some(ip) => ip.is_loopback() || ip.is_unspecified(),
        None => false,
    }
}

/// What is found of the address agents are told.
pub open spec fn found_public(config: &Config) -> Found {
    let address = Config::address(config@);
    if looks_local(host_part(address)) {
        Found::Bad(
            "agents would be told to reach this server at "@ + address,
            "Set quic.public_address (or http.public_url) to the name or address\nagents and viewers use from outside this machine."@,
        )
    } else {
        Found::Good("agents are told to reach "@ + address)
    }
}

/// What the server tells agents to come back to. A name only it can resolve,
/// or a loopback address, means the install commands it hands out do not work
/// anywhere else.
pub fn public(config: &Config) -> (finding: Finding)
    ensures
        finding@ == found_public(config),
{
    let address = config.public_address();
    if is_local_host(&address) {
        let mut what = "agents would be told to reach this server at ".to_owned();
        what.append(&address);
        return Finding::bad(
            &what,
            "Set quic.public_address (or http.public_url) to the name or address\nagents and viewers use from outside this machine.",
        );
    }
    let mut what = "agents are told to reach ".to_owned();
    what.append(&address);
    Finding::Good(what)
}

// --- All of them -------------------------------------------------------------------------------

/// What was looked at on this machine.
#[derive(Debug)]
pub struct Facts {
    /// Writing in the data folder.
    pub folder: Tried,
    /// Where the server key is, and its fingerprint if it reads; none where
    /// there is no key.
    pub key_path: String,
    pub key: Option<Result<String, String>>,
    pub database_path: String,
    pub database: Opened,
    /// How many packages are held, and what they take.
    pub packages: u64,
    pub bytes: u64,
    /// Building the TLS that the API would be served with.
    pub tls: Result<(), String>,
    pub udp: Bound,
    pub tcp: Bound,
}

/// Every check, in the order a person would want them.
pub open spec fn all_found(config: &Config, facts: &Facts) -> Seq<(Seq<char>, Found)> {
    seq![
        ("data folder"@, found_folder(config.data.dir@, &facts.folder)),
        ("server key"@, found_key(facts.key_path@, &facts.key)),
        ("database"@, found_database(facts.database_path@, &facts.database)),
        ("audit log"@, found_audit(config)),
        ("releases"@, found_releases(facts.packages, facts.bytes)),
        ("certificate"@, found_certificate(config, &facts.tls)),
        ("UDP port"@, found_udp(config.quic.bind, &facts.udp)),
        ("TCP port"@, found_tcp(config.http.bind, &facts.tcp)),
        ("public address"@, found_public(config)),
    ]
}

pub open spec fn views(checks: Seq<(&'static str, Finding)>) -> Seq<(Seq<char>, Found)> {
    Seq::new(checks.len(), |i: int| (checks[i].0@, checks[i].1@))
}

/// Every check, in the order a person would want them.
pub fn checks(config: &Config, facts: &Facts) -> (checks: Vec<(&'static str, Finding)>)
    ensures
        views(checks@) == all_found(config, facts),
{
    let mut checks: Vec<(&'static str, Finding)> = Vec::new();
    checks.push(("data folder", data_folder(&config.data.dir, &facts.folder)));
    checks.push(("server key", key(&facts.key_path, &facts.key)));
    checks.push(("database", database(&facts.database_path, &facts.database)));
    checks.push(("audit log", audit(config)));
    checks.push(("releases", releases(facts.packages, facts.bytes)));
    checks.push(("certificate", certificate(config, &facts.tls)));
    checks.push(("UDP port", udp(config.quic.bind, &facts.udp)));
    checks.push(("TCP port", tcp(config.http.bind, &facts.tcp)));
    checks.push(("public address", public(config)));
    assert(views(checks@) =~= all_found(config, facts));
    checks
}

/// What is said first: which server this is, and what it was told to use.
pub fn heading(version: &str, configuration: &str, there: bool, data: &str) -> (text: String)
    ensures
        text@ == "nearhand server "@ + version@ + "\nconfiguration: "@ + configuration@ + (if there {
            Seq::<char>::empty()
        } else {
            " (missing: defaults, and the environment)"@
        }) + "\ndata:          "@ + data@ + "\n\n"@,
{
    let mut text = "nearhand server ".to_owned();
    text.append(version);
    text.append("\nconfiguration: ");
    text.append(configuration);
    if !there {
        text.append(" (missing: defaults, and the environment)");
    }
    text.append("\ndata:          ");
    text.append(data);
    text.append("\n\n");
    assert(text@ =~= "nearhand server "@ + version@ + "\nconfiguration: "@ + configuration@ + (
    if there {
        Seq::<char>::empty()
    } else {
        " (missing: defaults, and the environment)"@
    }) + "\ndata:          "@ + data@ + "\n\n"@);
    text
}

// --- What the checks come to -------------------------------------------------------------------

/// A check finds something in the way just where something failed; what is not
/// there yet, or is as it was chosen, is only worth knowing.
pub proof fn lemma_what_is_in_the_way(config: Config, facts: Facts)
    ensures
        found_folder(config.data.dir@, &facts.folder) is Bad <==> facts.folder is Failed,
        found_folder(config.data.dir@, &facts.folder) is Good <==> facts.folder is Worked,
        found_key(facts.key_path@, &facts.key) is Bad <==> (facts.key matches Some(read)
            && read is Err),
        found_key(facts.key_path@, &facts.key) is Note <==> facts.key is None,
        found_database(facts.database_path@, &facts.database) is Bad <==> facts.database is Closed
            || facts.database is Unreadable,
        found_database(facts.database_path@, &facts.database) is Good <==> (
        facts.database matches Opened::Counted(counts) && counts.users != 0),
        found_audit(&config) is Note <==> config.audit.keep_days == 0,
        found_audit(&config) !is Bad,
        found_releases(facts.packages, facts.bytes) is Note <==> facts.packages == 0,
        found_releases(facts.packages, facts.bytes) !is Bad,
        found_certificate(&config, &facts.tls) is Bad <==> config.http.tls != Tls::Plain
            && facts.tls is Err,
        found_certificate(&config, &facts.tls) is Note <==> config.http.tls == Tls::Plain,
        found_udp(config.quic.bind, &facts.udp) is Bad <==> facts.udp is Failed,
        found_udp(config.quic.bind, &facts.udp) is Good <==> facts.udp is Free,
        found_tcp(config.http.bind, &facts.tcp) is Bad <==> facts.tcp is Failed,
        found_tcp(config.http.bind, &facts.tcp) is Good <==> facts.tcp is Free,
        found_public(&config) is Bad <==> looks_local(host_part(Config::address(config@))),
        found_public(&config) !is Note,
{
}

/// Nine checks are made, each of its own fact.
pub proof fn lemma_every_fact_is_checked(config: Config, facts: Facts)
    ensures
        ({
            let found = all_found(&config, &facts);
            &&& found.len() == 9
            &&& facts.folder is Failed ==> found[0].1 is Bad
            &&& facts.key matches Some(Err(_)) ==> found[1].1 is Bad
            &&& facts.database is Closed || facts.database is Unreadable ==> found[2].1 is Bad
            &&& config.http.tls != Tls::Plain && facts.tls is Err ==> found[5].1 is Bad
            &&& facts.udp is Failed ==> found[6].1 is Bad
            &&& facts.tcp is Failed ==> found[7].1 is Bad
        }),
{
}

/// An address that is this machine's only, or none, is of no use to agents
/// elsewhere; any other is.
pub proof fn lemma_local_addresses_are_found(a: u8, b: u8, c: u8, d: u8, port: u16)
    ensures
        ({
            let ip = Ip::V4((a * 0x100_0000 + b * 0x1_0000 + c * 0x100 + d) as u32);
            let address = (Address { ip, port }).written();
            &&& host_part(address) == ip.written()
            &&& ip.written() != "localhost"@ ==> (looks_local(host_part(address)) <==> a == 127 || (a
                == 0 && b == 0 && c == 0 && d == 0))
        }),
        looks_local("localhost"@),
{
    let bits = (a * 0x100_0000 + b * 0x1_0000 + c * 0x100 + d) as u32;
    let ip = Ip::V4(bits);
    let address = (Address { ip, port }).written();
    crate::net::lemma_ipv4_reads_back(bits, port);
    crate::net::lemma_private_ipv4(a, b, c, d);
    crate::net::lemma_dotted_parts(bits);
    let host = ip.written();
    let digits = decimal(port as nat);
    crate::text::lemma_decimal_reads_back(port as nat);
    reveal_strlit(":");
    assert(address =~= host.push(':') + digits);
    lemma_colon_found(address, address.len() as int, host.len() as int);
    assert(address.take(host.len() as int) =~= host);
    assert(!bracket(host[0]));
    assert(host.last() != '[' && host.last() != ']') by {
        crate::net::lemma_dotted_ends_in_a_digit(bits);
    }
}

proof fn lemma_colon_found(s: Seq<char>, end: int, at: int)
    requires
        0 <= at < end <= s.len(),
        s[at] == ':',
        forall|i: int| at < i < s.len() ==> crate::text::is_digit(#[trigger] s[i]),
    ensures
        last_colon(s, end) == at,
    decreases end - at,
{
    if end - 1 > at {
        assert(crate::text::is_digit(s[end - 1]));
        lemma_colon_found(s, end - 1, at);
    }
}

/// A device counts as seen since a moment if it was last seen after it.
pub proof fn lemma_recent_devices_were_seen(
    devices: Seq<DeviceRecord>,
    since: i64,
    device: DeviceRecord,
)
    ensures
        devices.filter(seen_after(since)).contains(device) <==> devices.contains(device) && (
        device.last_seen_at matches Some(seen) && seen > since),
        WEEK == 7 * 24 * 3600,
{
    super::rows::lemma_left(devices, seen_after(since), device);
}

/// How to fix something is printed behind what it is, a line of it at a time.
pub proof fn lemma_fixes_are_printed_in_lines(line: Seq<char>, rest: Seq<char>)
    requires
        line.len() > 0 && !line.contains('\n') && line.last() != '\r',
    ensures
        indented(line) == "       "@ + line + "\n"@,
        indented(line.push('\n') + rest) == "       "@ + line + "\n"@ + indented(rest),
{
    crate::text::lemma_parted(line, '\n', rest);
    let s = line.push('\n') + rest;
    assert(s[line.len() - 1] == line.last());
    assert(s.take(line.len() as int) =~= line);
    assert(s.skip(line.len() as int + 1) =~= rest);
    crate::text::lemma_index_from(line, '\n', 0);
    let end = index_from(line, '\n', 0);
    if end < line.len() {
        assert(line[end] == '\n');
    }
}

}
