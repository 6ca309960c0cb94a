//! What the viewer is asked to do, and what it says of devices it remembers.

use super::session::Monitor;
use crate::net::Address;
use crate::protocol::DeviceId;
use crate::server::audit::words;
use crate::text::{decimal, push_decimal, signed, signed_text};
use crate::transport::fingerprint::Fingerprint;
use crate::transport::rendezvous::Route;
use vstd::prelude::*;

verus! {

/// Which agent to reach, and how.
#[derive(Debug)]
pub enum Target {
    /// Straight to an address, pinned to a fingerprint copied by hand.
    Direct { address: Address, fingerprint: Fingerprint },
    /// By device ID, introduced by a server.
    Server {
        server: Address,
        server_fingerprint: Fingerprint,
        id: DeviceId,
        route: Route,
        /// An API token of a user of the server, to connect with a grant.
        token: Option<String>,
    },
}

impl Target {
    pub open spec fn written(&self) -> Seq<char> {
        match self {
            Target::Direct { address, .. } => address.written(),
            Target::Server { id, .. } => id.written(),
        }
    }

    pub fn text(&self) -> (text: String)
        ensures
            text@ == self.written(),
    {
        match self {
            Target::Direct { address, .. } => address.text(),
            Target::Server { id, .. } => id.text(),
        }
    }
}

/// The token to connect with.
pub open spec fn token_of(
    given: Option<Seq<char>>,
    environment: Option<Seq<char>>,
    password: bool,
) -> Option<Seq<char>> {
    match given {
        Some(given) => Some(given),
        None => match environment {
            Some(text) => if text.len() > 0 && !password {
                Some(text)
            } else {
                None
            },
            None => None,
        },
    }
}

/// The token to connect with: the one given, or the environment's if that is
/// not empty and there is no password.
pub fn connect_token(given: Option<String>, environment: Option<String>, password: bool) -> (token:
    Option<String>)
    ensures
        words(token) == token_of(words(given), words(environment), password),
{
    if given.is_some() {
        return given;
    }
    match environment {
        Some(text) => if text.as_str().unicode_len() > 0 && !password {
            Some(text)
        } else {
            None
        },
        None => None,
    }
}

/// What is said to someone who gives a name where only an ID will do.
pub fn name_needs_token(device: &str) -> (text: String)
    ensures
        text@ == "\""@ + device@
            + "\" is not a device ID (ten digits); a name needs --token, or NEARHAND_TOKEN, to look it up"@,
{
    let mut text = "\"".to_owned();
    text.append(device);
    text.append(
        "\" is not a device ID (ten digits); a name needs --token, or NEARHAND_TOKEN, to look it up",
    );
    text
}

/// Which ways to try.
pub open spec fn way_for(relay_only: bool) -> Route {
    if relay_only {
        Route::RelayOnly
    } else {
        Route::Best
    }
}

/// Directly where that works, unless the relay is asked for.
pub fn route(relay_only: bool) -> (route: Route)
    ensures
        route == way_for(relay_only),
{
    if relay_only {
        Route::RelayOnly
    } else {
        Route::Best
    }
}

/// How many frames a second to ask for.
pub open spec fn rate_for(fps: u8) -> u8 {
    if fps == 0 {
        1
    } else {
        fps
    }
}

/// The frame rate to ask for: at least one a second.
pub fn frame_rate(fps: u8) -> (asked: u8)
    ensures
        asked == rate_for(fps),
{
    if fps == 0 {
        1
    } else {
        fps
    }
}

/// A monitor, as the viewer lists it: ` ▶ [0] 1920x1080 at 0,0 (primary)`.
pub open spec fn monitor_listed(monitor: Monitor, watching: u8) -> Seq<char> {
    " "@ + (if monitor.id == watching {
        "▶"@
    } else {
        " "@
    }) + " ["@ + decimal(monitor.id as nat) + "] "@ + decimal(monitor.width as nat) + "x"@
        + decimal(monitor.height as nat) + " at "@ + signed(monitor.x as int) + ","@ + signed(
        monitor.y as int,
    ) + (if monitor.primary {
        " (primary)"@
    } else {
        Seq::<char>::empty()
    })
}

pub fn monitor_line(monitor: &Monitor, watching: u8) -> (line: String)
    ensures
        line@ == monitor_listed(*monitor, watching),
{
    let mut line = " ".to_owned();
    if monitor.id == watching {
        line.append("▶");
    } else {
        line.append(" ");
    }
    line.append(" [");
    push_decimal(&mut line, monitor.id as u64);
    line.append("] ");
    push_decimal(&mut line, monitor.width as u64);
    line.append("x");
    push_decimal(&mut line, monitor.height as u64);
    line.append(" at ");
    line.append(&signed_text(monitor.x as i64));
    line.append(",");
    line.append(&signed_text(monitor.y as i64));
    if monitor.primary {
        line.append(" (primary)");
    }
    assert(line@ =~= monitor_listed(*monitor, watching));
    line
}

/// What is said of a device whose key was to be forgotten.
pub fn forgotten(id: DeviceId, key: Option<Fingerprint>) -> (text: String)
    ensures
        text@ == (match key {
            Some(key) => "Forgot "@ + id.written() + ", which had the key "@ + crate::hex::hex_of(
                key@,
            ) + ". The next connection takes the key it answers with, and remembers that."@,
            None => id.written() + " was not remembered; there is nothing to forget."@,
        }),
{
    match key {
        Some(key) => {
            let mut text = "Forgot ".to_owned();
            text.append(&id.text());
            text.append(", which had the key ");
            text.append(&key.text());
            text.append(". The next connection takes the key it answers with, and remembers that.");
            text
        },
        None => {
            let mut text = id.text();
            text.append(" was not remembered; there is nothing to forget.");
            text
        },
    }
}

/// A token that is given is taken, whatever the environment says. The
/// environment's is taken in its place, unless a password is to be used.
pub proof fn lemma_a_given_token_comes_first(
    given: Seq<char>,
    environment: Seq<char>,
    password: bool,
)
    ensures
        token_of(Some(given), Some(environment), password) == Some(given),
        token_of(Some(given), None, password) == Some(given),
        token_of(None, Some(environment), true) is None,
        token_of(None, None, password) is None,
        environment.len() > 0 ==> token_of(None, Some(environment), false) == Some(environment),
        environment.len() == 0 ==> token_of(None, Some(environment), password) is None,
{
}

/// The relay is the only way where it is asked for, and only there; and what is
/// asked for is what is given, but at least one frame a second.
pub proof fn lemma_what_is_asked_for(relay_only: bool, fps: u8)
    ensures
        way_for(relay_only) == Route::RelayOnly <==> relay_only,
        way_for(relay_only) == Route::Best <==> !relay_only,
        rate_for(fps) >= 1 && rate_for(fps) >= fps,
        fps >= 1 ==> rate_for(fps) == fps,
        rate_for(0) == 1,
{
}

/// The monitor that is watched is marked, and no other; only the primary one is
/// said to be that.
pub proof fn lemma_the_watched_monitor_is_marked(monitor: Monitor, watching: u8)
    ensures
        monitor_listed(monitor, watching)[1] == '▶' <==> monitor.id == watching,
        monitor_listed(monitor, watching).last() == ')' <==> monitor.primary,
{
    reveal_strlit(" ");
    reveal_strlit("▶");
    reveal_strlit(" (primary)");
    let mark = if monitor.id == watching {
        "▶"@
    } else {
        " "@
    };
    let line = monitor_listed(monitor, watching);
    assert(mark.len() == 1);
    assert(line[1] == mark[0]);
    let y = signed(monitor.y as int);
    crate::text::lemma_decimal_reads_back(monitor.y as nat);
    crate::text::lemma_decimal_reads_back((-monitor.y) as nat);
    assert(y.len() > 0 && crate::text::is_digit(y.last())) by {
        let digits = if monitor.y < 0 {
            decimal((-monitor.y) as nat)
        } else {
            decimal(monitor.y as nat)
        };
        assert(y.last() == digits[digits.len() - 1]);
    }
    if monitor.primary {
        assert(line.last() == " (primary)"@.last());
    } else {
        assert(line.last() == y.last());
    }
}

}
