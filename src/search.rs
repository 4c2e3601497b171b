//! Search requests and responses, and the datagrams that a search sends.
use vstd::prelude::*;
use crate::config::Config;
use crate::header::{decimal, mx_name, mx_of};
use crate::message::{
    byte_views, lines_for, parse_as_spec, serialize_spec, values_of, replaced, valid_name, values_valid, well_formed,
    MessageType, MessageView, SSDPError, SSDPMessage,
};
use crate::net::{filter_local_addrs, select, IpAddress, SocketAddress};

verus! {

/// Seconds to wait for responses to a search without an `MX` header: devices
/// answer within one second, the rest absorbs network jitter.
pub const DEFAULT_UNICAST_TIMEOUT: u8 = 2;

/// How long a search collects responses: its `MX` value, else the default.
pub open spec fn search_timeout(m: MessageView) -> u64 {
    match mx_of(m) {
        Some(n) => n as u64,
        None => DEFAULT_UNICAST_TIMEOUT as u64,
    }
}

/// Where a datagram goes.
#[derive(Copy, Clone, Debug, PartialEq, Eq)]
pub enum Destination {
    /// One host.
    Host(SocketAddress),
    /// The configured multicast group of the sending address's family, at this port.
    Group(u16),
}

/// One datagram to send from a socket bound to `local`.
#[derive(Clone, Debug)]
pub struct Transmission {
    pub local: SocketAddress,
    pub dest: Destination,
    pub payload: Vec<u8>,
}

/// One datagram sent back, from the socket a request came in on, to `dest`.
#[derive(Clone, Debug)]
pub struct Reply {
    pub dest: SocketAddress,
    pub payload: Vec<u8>,
}

/// The datagrams of a search, and how many seconds to collect responses.
#[derive(Clone, Debug)]
pub struct SearchPlan {
    pub sends: Vec<Transmission>,
    pub timeout_secs: u64,
}

/// The sends of a multicast flow: `message` to the group, from every local
/// address on which discovery binds under the configured mode.
pub open spec fn group_sends_ok(
    sends: Seq<Transmission>,
    m: MessageView,
    config: &Config,
    local_addrs: Seq<IpAddress>,
) -> bool {
    &&& sends.len() == select(local_addrs, config.mode).len()
    &&& forall|i: int|
        0 <= i < sends.len() ==> {
            &&& (#[trigger] sends[i]).local == SocketAddress {
                ip: select(local_addrs, config.mode)[i],
                port: 0,
            }
            &&& sends[i].dest == Destination::Group(config.port)
            &&& sends[i].payload@ == serialize_spec(m)
        }
}

pub(crate) fn group_sends(
    message: &SSDPMessage,
    config: &Config,
    local_addrs: &Vec<IpAddress>,
) -> (r: Vec<Transmission>)
    ensures
        group_sends_ok(r@, message@, config, local_addrs@),
{
    let addrs = filter_local_addrs(local_addrs, config.mode);
    let mut sends: Vec<Transmission> = Vec::new();
    let mut i: usize = 0;
    while i < addrs.len()
        invariant
            i <= addrs@.len(),
            addrs@ == select(local_addrs@, config.mode),
            sends@.len() == i,
            forall|k: int|
                0 <= k < i ==> {
                    &&& (#[trigger] sends@[k]).local == SocketAddress { ip: addrs@[k], port: 0 }
                    &&& sends@[k].dest == Destination::Group(config.port)
                    &&& sends@[k].payload@ == serialize_spec(message@)
                },
        decreases addrs@.len() - i,
    {
        sends.push(
            Transmission {
                local: SocketAddress { ip: addrs[i], port: 0 },
                dest: Destination::Group(config.port),
                payload: message.serialize(),
            },
        );
        i = i + 1;
    }
    sends
}

/// A search (`M-SEARCH`) message.
#[derive(Clone, Debug)]
pub struct SearchRequest {
    message: SSDPMessage,
}

/// A response to a search.
#[derive(Clone, Debug)]
pub struct SearchResponse {
    message: SSDPMessage,
}

impl View for SearchRequest {
    type V = MessageView;

    closed spec fn view(&self) -> MessageView {
        self.message@
    }
}

impl View for SearchResponse {
    type V = MessageView;

    closed spec fn view(&self) -> MessageView {
        self.message@
    }
}

impl SearchRequest {
    /// The message is of kind Search.
    pub open spec fn wf(&self) -> bool {
        self@.kind == MessageType::Search
    }

    /// An empty search message.
    pub fn new() -> (r: SearchRequest)
        ensures
            r.wf(),
            r@.kind == MessageType::Search,
            r@.headers.len() == 0,
    {
        SearchRequest { message: SSDPMessage::new(MessageType::Search) }
    }

    /// Reads a datagram that must be a search message.
    pub fn raw_ssdp(bytes: &[u8]) -> (r: Result<SearchRequest, SSDPError>)
        ensures
            match r {
                Ok(q) => q.wf() && parse_as_spec(bytes@, MessageType::Search) == Ok::<
                    MessageView,
                    SSDPError,
                >(q@),
                Err(e) => parse_as_spec(bytes@, MessageType::Search) == Err::<MessageView, SSDPError>(e),
            },
    {
        match SSDPMessage::parse_as(bytes, MessageType::Search) {
            Ok(m) => Ok(SearchRequest { message: m }),
            Err(e) => Err(e),
        }
    }

    pub fn get_raw(&self, name: &[u8]) -> (r: Option<Vec<Vec<u8>>>)
        ensures
            match r {
                None => values_of(self@.headers, name@).len() == 0,
                Some(v) => byte_views(v@) == values_of(self@.headers, name@) && v@.len() > 0,
            },
    {
        self.message.get_raw(name)
    }

    pub fn set_raw(&mut self, name: &[u8], values: Vec<Vec<u8>>)
        requires
            old(self).wf(),
        ensures
            final(self).wf(),
            final(self)@.kind == old(self)@.kind,
            final(self)@.headers == replaced(
                old(self)@.headers,
                name@,
                lines_for(name@, byte_views(values@)),
            ),
            well_formed(old(self)@) && valid_name(name@) && values_valid(byte_views(values@))
                ==> well_formed(final(self)@),
    {
        self.message.set_raw(name, values)
    }

    pub fn get_mx(&self) -> (r: Option<u8>)
        ensures
            r == mx_of(self@),
    {
        self.message.get_mx()
    }

    pub fn set_mx(&mut self, n: u8)
        requires
            old(self).wf(),
        ensures
            final(self).wf(),
            final(self)@.kind == old(self)@.kind,
            final(self)@.headers == replaced(
                old(self)@.headers,
                mx_name(),
                seq![(mx_name(), decimal(n as nat))],
            ),
            well_formed(old(self)@) ==> well_formed(final(self)@),
            mx_of(final(self)@) == Some(n),
    {
        self.message.set_mx(n)
    }

    pub fn serialize(&self) -> (r: Vec<u8>)
        ensures
            r@ == serialize_spec(self@),
    {
        self.message.serialize()
    }

    /// Seconds to collect responses: the `MX` value where set, else the default.
    pub fn timeout_secs(&self) -> (r: u64)
        ensures
            r == search_timeout(self@),
    {
        match self.message.get_mx() {
            Some(n) => n as u64,
            None => DEFAULT_UNICAST_TIMEOUT as u64,
        }
    }

    /// The search sent to one host, from a socket bound to `local_addr`.
    pub fn unicast(&self, local_addr: SocketAddress, dst_addr: SocketAddress) -> (r: SearchPlan)
        ensures
            r.sends@.len() == 1,
            r.sends@[0].local == local_addr,
            r.sends@[0].dest == Destination::Host(dst_addr),
            r.sends@[0].payload@ == serialize_spec(self@),
            r.timeout_secs == search_timeout(self@),
    {
        let mut sends: Vec<Transmission> = Vec::new();
        sends.push(
            Transmission {
                local: local_addr,
                dest: Destination::Host(dst_addr),
                payload: self.serialize(),
            },
        );
        SearchPlan { sends, timeout_secs: self.timeout_secs() }
    }

    /// The search sent to the multicast group from every local address on
    /// which discovery binds under the configured mode, each from an
    /// ephemeral port.
    pub fn multicast(&self, config: &Config, local_addrs: &Vec<IpAddress>) -> (r: SearchPlan)
        ensures
            group_sends_ok(r.sends@, self@, config, local_addrs@),
            r.timeout_secs == search_timeout(self@),
    {
        let sends = group_sends(&self.message, config, local_addrs);
        SearchPlan { sends, timeout_secs: self.timeout_secs() }
    }
}

impl SearchResponse {
    /// The message is of kind Response.
    pub open spec fn wf(&self) -> bool {
        self@.kind == MessageType::Response
    }

    /// An empty response message.
    pub fn new() -> (r: SearchResponse)
        ensures
            r.wf(),
            r@.kind == MessageType::Response,
            r@.headers.len() == 0,
    {
        SearchResponse { message: SSDPMessage::new(MessageType::Response) }
    }

    /// A message taken as a response: `None` where it is of another kind.
    pub fn from_message(message: SSDPMessage) -> (r: Option<SearchResponse>)
        ensures
            r is Some <==> message@.kind == MessageType::Response,
            r matches Some(q) ==> q@ == message@,
    {
        if message.message_type() == MessageType::Response {
            Some(SearchResponse { message })
        } else {
            None
        }
    }

    /// Reads a datagram that must be a response.
    pub fn raw_ssdp(bytes: &[u8]) -> (r: Result<SearchResponse, SSDPError>)
        ensures
            match r {
                Ok(q) => q.wf() && parse_as_spec(bytes@, MessageType::Response) == Ok::<
                    MessageView,
                    SSDPError,
                >(q@),
                Err(e) => parse_as_spec(bytes@, MessageType::Response) == Err::<
                    MessageView,
                    SSDPError,
                >(e),
            },
    {
        match SSDPMessage::parse_as(bytes, MessageType::Response) {
            Ok(m) => Ok(SearchResponse { message: m }),
            Err(e) => Err(e),
        }
    }

    pub fn get_raw(&self, name: &[u8]) -> (r: Option<Vec<Vec<u8>>>)
        ensures
            match r {
                None => values_of(self@.headers, name@).len() == 0,
                Some(v) => byte_views(v@) == values_of(self@.headers, name@) && v@.len() > 0,
            },
    {
        self.message.get_raw(name)
    }

    pub fn set_raw(&mut self, name: &[u8], values: Vec<Vec<u8>>)
        requires
            old(self).wf(),
        ensures
            final(self).wf(),
            final(self)@.kind == old(self)@.kind,
            final(self)@.headers == replaced(
                old(self)@.headers,
                name@,
                lines_for(name@, byte_views(values@)),
            ),
            well_formed(old(self)@) && valid_name(name@) && values_valid(byte_views(values@))
                ==> well_formed(final(self)@),
    {
        self.message.set_raw(name, values)
    }

    pub fn get_mx(&self) -> (r: Option<u8>)
        ensures
            r == mx_of(self@),
    {
        self.message.get_mx()
    }

    pub fn set_mx(&mut self, n: u8)
        requires
            old(self).wf(),
        ensures
            final(self).wf(),
            final(self)@.kind == old(self)@.kind,
            final(self)@.headers == replaced(
                old(self)@.headers,
                mx_name(),
                seq![(mx_name(), decimal(n as nat))],
            ),
            well_formed(old(self)@) ==> well_formed(final(self)@),
            mx_of(final(self)@) == Some(n),
    {
        self.message.set_mx(n)
    }

    pub fn serialize(&self) -> (r: Vec<u8>)
        ensures
            r@ == serialize_spec(self@),
    {
        self.message.serialize()
    }

    /// The response sent back to the host that searched, at the source
    /// address of its request.
    pub fn unicast(&self, dst_addr: SocketAddress) -> (r: Reply)
        ensures
            r.dest == dst_addr,
            r.payload@ == serialize_spec(self@),
    {
        Reply { dest: dst_addr, payload: self.serialize() }
    }
}

} // verus!
