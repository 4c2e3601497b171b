//! Discovery settings: the multicast groups, port, TTL and address families.
use vstd::prelude::*;
use crate::net::IpVersionMode;

verus! {

/// The standard IPv4 multicast group.
pub const UPNP_MULTICAST_IPV4_ADDR: &'static str = "239.255.255.250";
/// The standard IPv6 link-local multicast group.
pub const UPNP_MULTICAST_IPV6_LINK_LOCAL_ADDR: &'static str = "FF02::C";
/// The standard port.
pub const UPNP_MULTICAST_PORT: u16 = 1900;
/// The default TTL of outbound multicast datagrams.
pub const UPNP_MULTICAST_TTL: u32 = 2;

/// Settings of a discovery flow. Setters take the value and hand back a new one.
#[derive(Clone, Debug)]
pub struct Config {
    pub ipv4_addr: String,
    pub ipv6_addr: String,
    pub port: u16,
    pub ttl: u32,
    pub mode: IpVersionMode,
}

impl Config {
    /// The standard settings: 239.255.255.250 and FF02::C on port 1900, TTL 2,
    /// both address families.
    pub fn new() -> (r: Config)
        ensures
            r.ipv4_addr@ == "239.255.255.250"@,
            r.ipv6_addr@ == "FF02::C"@,
            r.port == 1900,
            r.ttl == 2,
            r.mode == IpVersionMode::Any,
    {
        Config {
            ipv4_addr: UPNP_MULTICAST_IPV4_ADDR.to_owned(),
            ipv6_addr: UPNP_MULTICAST_IPV6_LINK_LOCAL_ADDR.to_owned(),
            port: UPNP_MULTICAST_PORT,
            ttl: UPNP_MULTICAST_TTL,
            mode: IpVersionMode::Any,
        }
    }

    pub fn set_ipv4_addr(self, value: String) -> (r: Config)
        ensures
            r.ipv4_addr@ == value@,
            r.ipv6_addr@ == self.ipv6_addr@,
            r.port == self.port,
            r.ttl == self.ttl,
            r.mode == self.mode,
    {
        Config { ipv4_addr: value, ..self }
    }

    pub fn set_ipv6_addr(self, value: String) -> (r: Config)
        ensures
            r.ipv4_addr@ == self.ipv4_addr@,
            r.ipv6_addr@ == value@,
            r.port == self.port,
            r.ttl == self.ttl,
            r.mode == self.mode,
    {
        Config { ipv6_addr: value, ..self }
    }

    pub fn set_port(self, value: u16) -> (r: Config)
        ensures
            r.ipv4_addr@ == self.ipv4_addr@,
            r.ipv6_addr@ == self.ipv6_addr@,
            r.port == value,
            r.ttl == self.ttl,
            r.mode == self.mode,
    {
        Config { port: value, ..self }
    }

    pub fn set_ttl(self, value: u32) -> (r: Config)
        ensures
            r.ipv4_addr@ == self.ipv4_addr@,
            r.ipv6_addr@ == self.ipv6_addr@,
            r.port == self.port,
            r.ttl == value,
            r.mode == self.mode,
    {
        Config { ttl: value, ..self }
    }

    pub fn set_mode(self, value: IpVersionMode) -> (r: Config)
        ensures
            r.ipv4_addr@ == self.ipv4_addr@,
            r.ipv6_addr@ == self.ipv6_addr@,
            r.port == self.port,
            r.ttl == self.ttl,
            r.mode == value,
    {
        Config { mode: value, ..self }
    }
}

impl Default for Config {
    fn default() -> (r: Config)
        ensures
            r.ipv4_addr@ == "239.255.255.250"@,
            r.ipv6_addr@ == "FF02::C"@,
            r.port == 1900,
            r.ttl == 2,
            r.mode == IpVersionMode::Any,
    {
        Config::new()
    }
}

} // verus!
