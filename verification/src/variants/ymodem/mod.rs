//! YMODEM variant: control-octet names and the batch-capable engine.

pub use crate::variants::api::ymodem::YModem;

use vstd::prelude::*;

verus! {

/// The control octets the YMODEM protocol uses, as a named enumeration.
#[derive(Debug, Clone, Copy, PartialEq, Eq, Structural)]
pub enum Consts {
    /// Start of a 128-octet block, 0x01.
    SOH,
    /// Start of a 1024-octet block, 0x02.
    STX,
    /// End of transfer, 0x04.
    EOT,
    /// Positive acknowledgement, 0x06.
    ACK,
    /// Negative acknowledgement, 0x15.
    NAK,
    /// Cancel, 0x18.
    CAN,
    /// CRC-16 request, ASCII `C`, 0x43.
    CRC,
    /// Any octet that names no control function.
    Unknown,
}

impl Default for Consts {
    fn default() -> (r: Self)
        ensures
            r == Consts::Unknown,
    {
        Consts::Unknown
    }
}

/// The octet a control name stands for; `Unknown` has no octet of its own
/// and is written as 0x99.
pub open spec fn const_octet(c: Consts) -> u8 {
    match c {
        Consts::SOH => 0x01,
        Consts::STX => 0x02,
        Consts::EOT => 0x04,
        Consts::ACK => 0x06,
        Consts::NAK => 0x15,
        Consts::CAN => 0x18,
        Consts::CRC => 0x43,
        Consts::Unknown => 0x99,
    }
}

/// The control name an octet stands for.
pub open spec fn octet_const(v: u8) -> Consts {
    match v {
        0x01 => Consts::SOH,
        0x02 => Consts::STX,
        0x04 => Consts::EOT,
        0x06 => Consts::ACK,
        0x15 => Consts::NAK,
        0x18 => Consts::CAN,
        0x43 => Consts::CRC,
        _ => Consts::Unknown,
    }
}

impl From<Consts> for u8 {
    fn from(v: Consts) -> (r: Self) {
        match v {
            Consts::SOH => 0x01,
            Consts::STX => 0x02,
            Consts::EOT => 0x04,
            Consts::ACK => 0x06,
            Consts::NAK => 0x15,
            Consts::CAN => 0x18,
            Consts::CRC => 0x43,
            Consts::Unknown => 0x99,
        }
    }
}

impl vstd::std_specs::convert::FromSpecImpl<Consts> for u8 {
    open spec fn obeys_from_spec() -> bool {
        true
    }

    open spec fn from_spec(v: Consts) -> Self {
        const_octet(v)
    }
}

impl From<u8> for Consts {
    fn from(v: u8) -> (r: Self) {
        match v {
            0x01 => Consts::SOH,
            0x02 => Consts::STX,
            0x04 => Consts::EOT,
            0x06 => Consts::ACK,
            0x15 => Consts::NAK,
            0x18 => Consts::CAN,
            0x43 => Consts::CRC,
            _ => Consts::Unknown,
        }
    }
}

impl vstd::std_specs::convert::FromSpecImpl<u8> for Consts {
    open spec fn obeys_from_spec() -> bool {
        true
    }

    open spec fn from_spec(v: u8) -> Self {
        octet_const(v)
    }
}

} // verus!
