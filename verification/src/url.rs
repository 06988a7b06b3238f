//! Rendering a host and a probe as a URL.

use crate::decimal::{decimal_digits, push_decimal};
use crate::probe::{scheme, Probe, Protocol};
use vstd::prelude::*;

verus! {

/// The URL under which `probe` reaches `host`: scheme, `://` and the host,
/// followed by `:` and the port in decimal unless the port is the default
/// for the protocol.
pub open spec fn url_of(host: Seq<char>, probe: Probe) -> Seq<char> {
    let origin = scheme(probe.protocol) + "://"@ + host;
    if probe.is_default_port() {
        origin
    } else {
        origin + ":"@ + decimal_digits(probe.port as nat)
    }
}

/// Format the host and probe into a URL, dropping the port number if it is
/// the default for the protocol. The host is taken as it is.
pub fn probe_to_url(host: &str, probe: &Probe) -> (url: String)
    ensures
        url@ == url_of(host@, *probe),
        probe.is_default_port() ==> url@ == scheme(probe.protocol) + "://"@ + host@,
        !probe.is_default_port() ==> url@ == scheme(probe.protocol) + "://"@ + host@ + ":"@
            + decimal_digits(probe.port as nat),
{
    let mut url = match probe.protocol {
        Protocol::Http => String::from_str("http"),
        Protocol::Https => String::from_str("https"),
    };
    url.append("://");
    url.append(host);
    if !probe.is_default_port() {
        url.append(":");
        push_decimal(&mut url, probe.port as u64);
    }
    url
}

} // verus!
