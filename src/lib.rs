//! Simple Service Discovery Protocol: the wire format of SSDP datagrams, the
//! choice of local addresses to discover on, the datagrams that searches and
//! announcements send, and the decisions of a time-bounded receiver.
//!
//! Sockets and interface enumeration are left to the caller: the functions
//! here take and return plain values.

pub mod message;
pub mod header;
pub mod net;
pub mod config;
pub mod search;
pub mod notify;
pub mod receiver;
