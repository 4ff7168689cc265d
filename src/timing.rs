//! The bit timing of the CAN controller for each supported baud rate.
use vstd::prelude::*;
use vstd::string::*;

use crate::codec::{bytes_eq, lit};

verus! {

broadcast use vstd::string::is_ascii_spec_bytes;

/// The timing parameters handed to the CAN controller.
#[derive(Clone, Copy, Debug, PartialEq, Eq, Structural)]
pub struct TimingConfig {
    pub baud_rate_prescaler: u16,
    pub sync_jump_width: u8,
    pub tseg_1: u8,
    pub tseg_2: u8,
    pub triple_sample: bool,
}

/// The prescaler for a baud rate name; any other name means 1 Mbit/s.
pub open spec fn prescaler_of(name: Seq<u8>) -> u16 {
    if name == lit("B10K") {
        400
    } else if name == lit("B20K") {
        200
    } else if name == lit("B50K") {
        80
    } else if name == lit("B100K") {
        40
    } else if name == lit("B125K") {
        32
    } else if name == lit("B250K") {
        16
    } else if name == lit("B500K") {
        8
    } else {
        4
    }
}

/// The timing for a baud rate name (`B10K` ... `B1000K`); an unknown name gives 1 Mbit/s.
pub fn timing_config(timing: &str) -> (r: TimingConfig)
    ensures
        r == (TimingConfig {
            baud_rate_prescaler: prescaler_of(timing.spec_bytes()),
            sync_jump_width: 3,
            tseg_1: 15,
            tseg_2: 4,
            triple_sample: false,
        }),
{
    let t = timing.as_bytes();
    let baud_rate_prescaler: u16 = if bytes_eq(t, "B10K".as_bytes()) {
        400
    } else if bytes_eq(t, "B20K".as_bytes()) {
        200
    } else if bytes_eq(t, "B50K".as_bytes()) {
        80
    } else if bytes_eq(t, "B100K".as_bytes()) {
        40
    } else if bytes_eq(t, "B125K".as_bytes()) {
        32
    } else if bytes_eq(t, "B250K".as_bytes()) {
        16
    } else if bytes_eq(t, "B500K".as_bytes()) {
        8
    } else {
        4
    };
    TimingConfig { baud_rate_prescaler, sync_jump_width: 3, tseg_1: 15, tseg_2: 4, triple_sample: false }
}

} // verus!
