//! The web console's pages: everything they load comes from this server.

use vstd::prelude::*;

verus! {

/// The policy for pages served from here: this server's own script, style and
/// API, and WebTransport sessions to `webtransport` (`host:port` of the QUIC
/// side), and nothing else: no inline script, no other origin, no framing.
pub fn policy(webtransport: &str) -> (policy: String)
    ensures
        policy@
            == "default-src 'none'; script-src 'self'; style-src 'self'; connect-src 'self' https://"@
            + webtransport@
            + "; img-src 'self'; form-action 'self'; base-uri 'none'; frame-ancestors 'none'"@,
{
    let mut policy =
        "default-src 'none'; script-src 'self'; style-src 'self'; connect-src 'self' https://".to_owned();
    policy.append(webtransport);
    policy.append("; img-src 'self'; form-action 'self'; base-uri 'none'; frame-ancestors 'none'");
    policy
}

}
