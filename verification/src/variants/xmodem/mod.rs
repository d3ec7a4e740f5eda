//! XMODEM variant: control-octet names and the block-oriented engine.

pub mod consts;

pub use crate::variants::api::xmodem::XModem;

use vstd::prelude::*;

verus! {

/// The control octets of the XMODEM protocol, as a named enumeration.
#[derive(Debug, Clone, Copy, PartialEq, Eq, Structural)]
pub enum Consts {
    /// Padding octet, 0x00.
    NUL,
    /// Start of a 128-octet data block, 0x01.
    SOH,
    /// Start of a 1024-octet data block, 0x02.
    STX,
    /// End of transfer, 0x04.
    EOT,
    /// Positive acknowledgement, 0x06.
    ACK,
    /// Positive acknowledgement with the high bit set, 0x86.
    ACK2,
    /// Data link escape, 0x10.
    DLE,
    /// Negative acknowledgement, 0x15.
    NAK,
    /// Cancel, 0x18.
    CAN,
    /// Cancel with the high bit set, 0x98.
    CAN2,
    /// CRC-16 request, ASCII `C`, 0x43.
    CRC,
    /// CRC-16 request with the high bit set, 0xC3.
    CRC2,
    /// Alternative CRC request, 0x83.
    CRC3,
    /// Historical abort request, ASCII `a`, 0x61.
    ABT,
    /// Any octet that names no control function.
    Unknown,
}

impl Default for Consts {
    fn default() -> (r: Self)
        ensures
            r == Consts::Unknown,
    {
        Consts::Unknown
    }
}

/// The octet a control name stands for; `Unknown` has no octet of its own
/// and is written as 0x99.
pub open spec fn const_octet(c: Consts) -> u8 {
    match c {
        Consts::NUL => 0x00,
        Consts::SOH => 0x01,
        Consts::STX => 0x02,
        Consts::EOT => 0x04,
        Consts::ACK => 0x06,
        Consts::ACK2 => 0x86,
        Consts::DLE => 0x10,
        Consts::NAK => 0x15,
        Consts::CAN => 0x18,
        Consts::CAN2 => 0x98,
        Consts::CRC => 0x43,
        Consts::CRC2 => 0xC3,
        Consts::CRC3 => 0x83,
        Consts::ABT => 0x61,
        Consts::Unknown => 0x99,
    }
}

/// The control name an octet stands for.
pub open spec fn octet_const(v: u8) -> Consts {
    match v {
        0x00 => Consts::NUL,
        0x01 => Consts::SOH,
        0x02 => Consts::STX,
        0x04 => Consts::EOT,
        0x06 => Consts::ACK,
        0x86 => Consts::ACK2,
        0x10 => Consts::DLE,
        0x15 => Consts::NAK,
        0x18 => Consts::CAN,
        0x98 => Consts::CAN2,
        0x43 => Consts::CRC,
        0xC3 => Consts::CRC2,
        0x83 => Consts::CRC3,
        0x61 => Consts::ABT,
        _ => Consts::Unknown,
    }
}

impl From<Consts> for u8 {
    fn from(v: Consts) -> (r: Self) {
        match v {
            Consts::NUL => 0x00,
            Consts::SOH => 0x01,
            Consts::STX => 0x02,
            Consts::EOT => 0x04,
            Consts::ACK => 0x06,
            Consts::ACK2 => 0x86,
            Consts::DLE => 0x10,
            Consts::NAK => 0x15,
            Consts::CAN => 0x18,
            Consts::CAN2 => 0x98,
            Consts::CRC => 0x43,
            Consts::CRC2 => 0xC3,
            Consts::CRC3 => 0x83,
            Consts::ABT => 0x61,
            Consts::Unknown => 0x99,
        }
    }
}

impl vstd::std_specs::convert::FromSpecImpl<Consts> for u8 {
    open spec fn obeys_from_spec() -> bool {
        true
    }

    open spec fn from_spec(v: Consts) -> Self {
        const_octet(v)
    }
}

impl From<u8> for Consts {
    fn from(v: u8) -> (r: Self) {
        match v {
            0x00 => Consts::NUL,
            0x01 => Consts::SOH,
            0x02 => Consts::STX,
            0x04 => Consts::EOT,
            0x06 => Consts::ACK,
            0x86 => Consts::ACK2,
            0x10 => Consts::DLE,
            0x15 => Consts::NAK,
            0x18 => Consts::CAN,
            0x98 => Consts::CAN2,
            0x43 => Consts::CRC,
            0xC3 => Consts::CRC2,
            0x83 => Consts::CRC3,
            0x61 => Consts::ABT,
            _ => Consts::Unknown,
        }
    }
}

impl vstd::std_specs::convert::FromSpecImpl<u8> for Consts {
    open spec fn obeys_from_spec() -> bool {
        true
    }

    open spec fn from_spec(v: u8) -> Self {
        octet_const(v)
    }
}

} // verus!
