//! Notify messages: announcements multicast from every eligible interface.
use vstd::prelude::*;
use crate::config::Config;
use crate::message::{
    byte_views, lines_for, parse_as_spec, replaced, serialize_spec, valid_name, values_of,
    values_valid, well_formed, MessageType, MessageView, SSDPError, SSDPMessage,
};
use crate::net::IpAddress;
use crate::search::{group_sends, group_sends_ok, Transmission};

verus! {

/// A notify (`NOTIFY`) message.
#[derive(Clone, Debug)]
pub struct NotifyMessage {
    message: SSDPMessage,
}

impl View for NotifyMessage {
    type V = MessageView;

    closed spec fn view(&self) -> MessageView {
        self.message@
    }
}

impl NotifyMessage {
    /// The message is of kind Notify.
    pub open spec fn wf(&self) -> bool {
        self@.kind == MessageType::Notify
    }

    /// An empty notify message.
    pub fn new() -> (r: NotifyMessage)
        ensures
            r.wf(),
            r@.headers.len() == 0,
    {
        NotifyMessage { message: SSDPMessage::new(MessageType::Notify) }
    }

    /// Reads a datagram that must be a notify message.
    pub fn raw_ssdp(bytes: &[u8]) -> (r: Result<NotifyMessage, SSDPError>)
        ensures
            match r {
                Ok(q) => q.wf() && parse_as_spec(bytes@, MessageType::Notify) == Ok::<
                    MessageView,
                    SSDPError,
                >(q@),
                Err(e) => parse_as_spec(bytes@, MessageType::Notify) == Err::<MessageView, SSDPError>(e),
            },
    {
        match SSDPMessage::parse_as(bytes, MessageType::Notify) {
            Ok(m) => Ok(NotifyMessage { message: m }),
            Err(e) => Err(e),
        }
    }

    pub fn get_raw(&self, name: &[u8]) -> (r: Option<Vec<Vec<u8>>>)
        ensures
            match r {
                None => values_of(self@.headers, name@).len() == 0,
                Some(v) => byte_views(v@) == values_of(self@.headers, name@) && v@.len() > 0,
            },
    {
        self.message.get_raw(name)
    }

    pub fn set_raw(&mut self, name: &[u8], values: Vec<Vec<u8>>)
        requires
            old(self).wf(),
        ensures
            final(self).wf(),
            final(self)@.headers == replaced(
                old(self)@.headers,
                name@,
                lines_for(name@, byte_views(values@)),
            ),
            well_formed(old(self)@) && valid_name(name@) && values_valid(byte_views(values@))
                ==> well_formed(final(self)@),
    {
        self.message.set_raw(name, values)
    }

    pub fn serialize(&self) -> (r: Vec<u8>)
        ensures
            r@ == serialize_spec(self@),
    {
        self.message.serialize()
    }

    /// The announcement sent to the multicast group from every local address
    /// on which discovery binds under the configured mode. Sending it twice
    /// sends two independent sets of datagrams.
    pub fn multicast(&self, config: &Config, local_addrs: &Vec<IpAddress>) -> (r: Vec<
        Transmission,
    >)
        ensures
            group_sends_ok(r@, self@, config, local_addrs@),
    {
        group_sends(&self.message, config, local_addrs)
    }
}

} // verus!
