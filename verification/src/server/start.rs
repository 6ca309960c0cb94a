//! What the server says when it starts: agents and viewers need it to pin and
//! find the server, and whoever runs it to make the first administrator.

use super::accounts::MIN_PASSWORD;
use crate::hex::hex_of;
use crate::net::Address;
use crate::text::{decimal, push_decimal};
use crate::transport::fingerprint::Fingerprint;
use vstd::prelude::*;

verus! {

/// What the server says once it listens.
pub fn announcement(quic: Address, fingerprint: &Fingerprint, http: Address, tls: bool) -> (text:
    String)
    ensures
        text@ == "nearhand server on "@ + quic.written() + "\nfingerprint: "@ + hex_of(fingerprint@)
            + "\nAPI on "@ + http.written() + " ("@ + (if tls {
            "https"@
        } else {
            "http"@
        }) + ")\n"@,
{
    let mut text = "nearhand server on ".to_owned();
    text.append(&quic.text());
    text.append("\nfingerprint: ");
    text.append(&fingerprint.text());
    text.append("\nAPI on ");
    text.append(&http.text());
    text.append(" (");
    if tls {
        text.append("https");
    } else {
        text.append("http");
    }
    text.append(")\n");
    text
}

/// How to make the first administrator: one API call.
pub open spec fn setup_words(url: Seq<char>, token: Seq<char>) -> Seq<char> {
    "\nNo users yet. Create the first administrator within 24 hours with:\n\n  curl -k "@ + url
        + "/api/v1/setup -H 'content-type: application/json' \\\n    -d '{\"token\": \""@ + token
        + "\", \"name\": \"admin\", \"password\": \"<at least "@ + decimal(MIN_PASSWORD as nat)
        + " characters>\"}'\n\n(-k because the certificate is self-signed; `nearhand-server admin-link` makes a new token.)\n\n"@
}

pub fn setup_text(url: &str, token: &str) -> (text: String)
    ensures
        text@ == setup_words(url@, token@),
{
    let mut text =
        "\nNo users yet. Create the first administrator within 24 hours with:\n\n  curl -k ".to_owned();
    text.append(url);
    text.append("/api/v1/setup -H 'content-type: application/json' \\\n    -d '{\"token\": \"");
    text.append(token);
    text.append("\", \"name\": \"admin\", \"password\": \"<at least ");
    push_decimal(&mut text, MIN_PASSWORD as u64);
    text.append(
        " characters>\"}'\n\n(-k because the certificate is self-signed; `nearhand-server admin-link` makes a new token.)\n\n",
    );
    text
}

}
