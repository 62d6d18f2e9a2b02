//! Control plane of an AODV (RFC 3561) routing node for IPv4 mesh networks:
//! the wire codec of its control messages, the routing state a node keeps,
//! and the rules by which a received message changes that state and
//! produces replies.
//!
//! The library does no input or output and reads no clock. A caller hands it
//! the bytes of a datagram, the address it came from and the time, as a
//! number of milliseconds, and gets back what is to be sent and where to.
//! Timers are the caller's too: the state holds the deadlines, and a timer
//! that goes off calls `expire`, `expire_all` or `manage_rreq`, which look at
//! the deadline before they act.

pub mod wire;
pub mod message;
pub mod config;
pub mod routing;
pub mod handlers;
