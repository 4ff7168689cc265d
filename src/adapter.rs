//! The decisions of the bridge's two adapters, as steps from state and event to action;
//! the adapters themselves wait on the socket and the CAN controller and perform them.
use vstd::prelude::*;

use crate::can_frame::{info_remote, CanFrame};
use crate::com_item::ComItem;
use crate::error::Error;
use crate::filter::Id;

verus! {

/// Where the TCP adapter sends the outcome of a datagram from the host.
#[derive(Debug, PartialEq)]
pub enum Delivery {
    /// On to the router.
    ToRouter(ComItem),
    /// Back to the host.
    ToHost(ComItem),
}

/// A datagram that parsed goes on to the router; an error goes back to the host as one
/// `$err` datagram.
pub fn deliver(outcome: Result<ComItem, Error>) -> (d: Delivery)
    ensures
        match outcome {
            Ok(c) => d == Delivery::ToRouter(c),
            Err(e) => d == Delivery::ToHost(ComItem::Error(e)),
        },
{
    match outcome {
        Ok(c) => Delivery::ToRouter(c),
        Err(e) => Delivery::ToHost(ComItem::Error(e)),
    }
}

/// What happens to the CAN adapter.
#[derive(Debug, PartialEq)]
pub enum CanEvent {
    /// The host connected (true) or went away (false).
    Connection(bool),
    /// A frame came from the bus.
    Received(CanFrame),
    /// The router handed over a datagram to send on the bus.
    ToSend(ComItem),
}

/// What the CAN adapter is to do.
#[derive(Debug, PartialEq)]
pub enum CanAction {
    Nothing,
    /// Hand a datagram to the host side.
    ToHost(ComItem),
    /// Send a data frame with these bytes.
    SendData(Id, Vec<u8>),
    /// Send a remote frame with this length code.
    SendRemote(Id, usize),
}

/// One step of the CAN adapter: whether a host is connected after the event, and the
/// action. Frames from the bus are dropped while no host is connected; a frame to send
/// goes out as a remote frame where it is one, else as a data frame.
pub fn can_step(connected: bool, ev: CanEvent) -> (r: (bool, CanAction))
    ensures
        match ev {
            CanEvent::Connection(c) => r.0 == c && r.1 == CanAction::Nothing,
            CanEvent::Received(f) => r.0 == connected && r.1 == (if connected {
                CanAction::ToHost(ComItem::ReceivedFrame(f))
            } else {
                CanAction::Nothing
            }),
            CanEvent::ToSend(ComItem::FrameToSend(f)) => r.0 == connected && if info_remote(
                f@.info,
            ) {
                r.1 == CanAction::SendRemote(f@.ident(), crate::can_frame::info_dlc(f@.info) as usize)
            } else {
                r.1 is SendData && r.1->SendData_0 == f@.ident() && r.1->SendData_1@ == f@.payload()
            },
            CanEvent::ToSend(_) => r.0 == connected && r.1 == CanAction::Nothing,
        },
{
    match ev {
        CanEvent::Connection(c) => (c, CanAction::Nothing),
        CanEvent::Received(f) => {
            if connected {
                (connected, CanAction::ToHost(ComItem::ReceivedFrame(f)))
            } else {
                (connected, CanAction::Nothing)
            }
        },
        CanEvent::ToSend(item) => match item {
            ComItem::FrameToSend(f) => {
                if f.is_remote_frame() {
                    (connected, CanAction::SendRemote(f.id(), f.dlc()))
                } else {
                    (connected, CanAction::SendData(f.id(), f.data()))
                }
            },
            _ => (connected, CanAction::Nothing),
        },
    }
}

} // verus!
