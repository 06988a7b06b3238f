//! The probe model: a protocol, a port, and the rule for default ports.

use vstd::prelude::*;

verus! {

/// A port number for a probe.
pub type Port = u16;

/// The largest port number.
pub const MAX_PORT: u64 = 65535;

/// The two protocols a probe can speak.
#[derive(Debug, Copy, Clone, PartialEq, Eq, Structural)]
pub enum Protocol {
    Http,
    Https,
}

/// The name of a protocol, as it is written in a probe token and as the
/// scheme of a URL.
pub open spec fn scheme(protocol: Protocol) -> Seq<char> {
    match protocol {
        Protocol::Http => "http"@,
        Protocol::Https => "https"@,
    }
}

/// One way of reaching a host: a protocol and a port.
#[derive(Debug, Copy, Clone, PartialEq, Eq, Structural)]
pub struct Probe {
    pub protocol: Protocol,
    pub port: Port,
}

impl Probe {
    /// Whether the port is the conventional one for the protocol:
    /// 80 for HTTP, 443 for HTTPS.
    pub open spec fn spec_is_default_port(&self) -> bool {
        match self.protocol {
            Protocol::Http => self.port == 80,
            Protocol::Https => self.port == 443,
        }
    }

    /// Create a new probe from a protocol and port.
    pub fn new(protocol: Protocol, port: Port) -> (probe: Probe)
        ensures
            probe.protocol == protocol,
            probe.port == port,
    {
        Probe { protocol, port }
    }

    /// Create a new http probe for the port.
    pub fn new_http(port: Port) -> (probe: Probe)
        ensures
            probe.protocol == Protocol::Http,
            probe.port == port,
    {
        Probe::new(Protocol::Http, port)
    }

    /// Create a new https probe for the port.
    pub fn new_https(port: Port) -> (probe: Probe)
        ensures
            probe.protocol == Protocol::Https,
            probe.port == port,
    {
        Probe::new(Protocol::Https, port)
    }

    /// Returns true if the port is the default for the protocol.
    #[verifier::when_used_as_spec(spec_is_default_port)]
    pub fn is_default_port(&self) -> (default: bool)
        ensures
            default == self.spec_is_default_port(),
            default <==> (self.protocol == Protocol::Http && self.port == 80) || (self.protocol
                == Protocol::Https && self.port == 443),
    {
        match self.protocol {
            Protocol::Http => self.port == 80,
            Protocol::Https => self.port == 443,
        }
    }
}

} // verus!
