//! A CAN-to-TCP bridge: the datagram codec of its line protocol, the framer that cuts a
//! byte stream into datagrams, the acceptance filters with their per-identifier rate
//! limiter, the decisions of the bridge's event loop and the stored configuration; beside
//! them, the host console's histories and the command reader of the socketcand protocol.
use vstd::prelude::*;

pub mod adapter;
pub mod can_frame;
pub mod cmd_error;
pub mod codec;
pub mod com_item;
pub mod command_buffer;
pub mod command_parser;
pub mod config;
pub mod console;
pub mod error;
pub mod filter;
pub mod ingress;
pub mod pattern;
pub mod ring_buffer;
pub mod router;
pub mod rx_buffer;
pub mod time;
pub mod timing;

verus! {

} // verus!
