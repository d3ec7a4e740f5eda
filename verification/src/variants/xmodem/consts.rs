//! The control octets of the XMODEM family of protocols.

use vstd::prelude::*;

verus! {

/// Padding octet.
pub const NUL: u8 = 0x00;
/// Start of a 128-octet data block.
pub const SOH: u8 = 0x01;
/// Start of a 1024-octet data block.
pub const STX: u8 = 0x02;
/// End of transfer.
pub const EOT: u8 = 0x04;
/// Positive acknowledgement.
pub const ACK: u8 = 0x06;
/// Positive acknowledgement with the high bit set.
pub const ACK2: u8 = 0x86;
/// Data link escape.
pub const DLE: u8 = 0x10;
/// Negative acknowledgement; also requests the standard checksum.
pub const NAK: u8 = 0x15;
/// Cancel; two in a row abort the transfer.
pub const CAN: u8 = 0x18;
/// Cancel with the high bit set.
pub const CAN2: u8 = 0x98;
/// ASCII `C`; requests CRC-16 trailers.
pub const CRC: u8 = 0x43;
/// ASCII `C` with the high bit set.
pub const CRC2: u8 = 0xC3;
/// Alternative CRC request.
pub const CRC3: u8 = 0x83;
/// ASCII `a`; historical abort request.
pub const ABT: u8 = 0x61;

} // verus!
