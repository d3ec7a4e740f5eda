//! The block-oriented XMODEM engine of the variant API.

use vstd::prelude::*;

use crate::chan::{ByteSink, ByteSource, ChanError, Channel};
use crate::common::{
    BlockLengthKind, ChecksumKind, ModemError, ModemResult, ModemTrait, await_octet,
    negotiate_start, recv_core, stream_core,
};
use crate::model::{
    AwaitResult, NegotiateResult, RecvResult, SendResult, StreamResult, await_byte,
    lemma_negotiate_accept_bound, lemma_xmodem_stream_done_bound, negotiate, xmodem_recv,
    xmodem_send, xmodem_stream,
};
use crate::variants::xmodem::consts::{ACK, CRC, EOT, NAK};

verus! {

/// `XModem` acts as state for XMODEM transfers.
#[derive(Debug, Clone, Copy)]
pub struct XModem {
    /// The number of errors that can occur before the communication is
    /// considered a failure.  Errors include unexpected octets and timeouts
    /// waiting for octets.
    pub max_errors: u32,

    /// The octet used to pad the last block.  XMODEM can only send blocks of
    /// a certain size, so if the message is not a multiple of that size the
    /// last block needs to be padded.
    pub pad_byte: u8,

    /// The length of each block: 128-octet blocks (standard XMODEM) or
    /// 1024-octet blocks (XMODEM-1k).
    pub block_length: BlockLengthKind,

    /// The checksum mode used by XMODEM.  This is determined by the receiver.
    pub checksum_mode: ChecksumKind,

    /// The running protocol-error counter.
    pub errors: u32,
}

impl Default for XModem {
    fn default() -> (r: Self)
        ensures
            r.max_errors == 0,
            r.pad_byte == 0,
            r.block_length == BlockLengthKind::Standard,
            r.checksum_mode == ChecksumKind::Standard,
            r.errors == 0,
    {
        XModem {
            max_errors: 0,
            pad_byte: 0,
            block_length: BlockLengthKind::Standard,
            checksum_mode: ChecksumKind::Standard,
            errors: 0,
        }
    }
}

impl ModemTrait for XModem {
    fn new() -> (r: Self)
        ensures
            r.max_errors == 16,
            r.pad_byte == 0x1a,
            r.block_length == BlockLengthKind::Standard,
            r.checksum_mode == ChecksumKind::Standard,
            r.errors == 0,
    {
        Self {
            max_errors: 16,
            pad_byte: 0x1a,
            block_length: BlockLengthKind::Standard,
            checksum_mode: ChecksumKind::Standard,
            errors: 0,
        }
    }
}

impl XModem {
    /// Whether the engine's configuration is left untouched by a call.
    pub open spec fn config_eq(self, other: XModem) -> bool {
        &&& self.max_errors == other.max_errors
        &&& self.pad_byte == other.pad_byte
        &&& self.block_length == other.block_length
    }

    /// Wait for the receiver's opening request and negotiate the checksum
    /// mode: `NAK` selects the standard checksum, `C` selects CRC-16.
    pub fn init_send<C: Channel>(&mut self, dev: &mut C) -> (r: ModemResult<()>)
        requires
            old(self).errors <= old(self).max_errors,
            old(self).max_errors < u32::MAX,
        ensures
            ({
                let o = negotiate(
                    old(dev).incoming(),
                    true,
                    0,
                    old(self).errors as int,
                    old(self).max_errors as int,
                );
                &&& final(dev).incoming() == o.rest
                &&& final(dev).written() == old(dev).written() + o.sent
                &&& final(self).errors as int == o.errors
                &&& final(self).config_eq(*old(self))
                &&& match o.result {
                    NegotiateResult::Standard => r == Ok::<(), ModemError>(())
                        && final(self).checksum_mode == ChecksumKind::Standard,
                    NegotiateResult::Crc => r == Ok::<(), ModemError>(())
                        && final(self).checksum_mode == ChecksumKind::Crc16,
                    NegotiateResult::Canceled => r == Err::<(), ModemError>(ModemError::Canceled)
                        && final(self).checksum_mode == old(self).checksum_mode,
                    NegotiateResult::Exhausted => r == Err::<(), ModemError>(
                        ModemError::ExhaustedRetries { errors: o.errors as u32 },
                    ) && final(self).checksum_mode == old(self).checksum_mode,
                    NegotiateResult::Fault => r == Err::<(), ModemError>(
                        ModemError::Io(ChanError::Broken),
                    ) && final(self).checksum_mode == old(self).checksum_mode,
                }
            }),
    {
        match negotiate_start(dev, true, &mut self.errors, self.max_errors) {
            NegotiateResult::Standard => {
                self.checksum_mode = ChecksumKind::Standard;
                Ok(())
            }
            NegotiateResult::Crc => {
                self.checksum_mode = ChecksumKind::Crc16;
                Ok(())
            }
            NegotiateResult::Canceled => Err(ModemError::Canceled),
            NegotiateResult::Exhausted => Err(ModemError::ExhaustedRetries { errors: self.errors }),
            NegotiateResult::Fault => Err(ModemError::Io(ChanError::Broken)),
        }
    }

    /// Send `EOT` and wait for the acknowledgement, resending `EOT` after
    /// every unexpected octet or timeout.
    pub fn finish_send<C: Channel>(&mut self, dev: &mut C) -> (r: ModemResult<()>)
        requires
            old(self).errors <= old(self).max_errors,
            old(self).max_errors < u32::MAX,
        ensures
            ({
                let o = await_byte(
                    old(dev).incoming(),
                    ACK,
                    seq![EOT],
                    old(self).errors as int,
                    old(self).max_errors as int,
                );
                &&& final(dev).incoming() == o.rest
                &&& final(dev).written() == old(dev).written() + o.sent
                &&& final(self).errors as int == o.errors
                &&& final(self).config_eq(*old(self))
                &&& final(self).checksum_mode == old(self).checksum_mode
                &&& match o.result {
                    AwaitResult::Got => r == Ok::<(), ModemError>(()),
                    AwaitResult::Exhausted => r == Err::<(), ModemError>(
                        ModemError::ExhaustedRetries { errors: o.errors as u32 },
                    ),
                    AwaitResult::Fault => r == Err::<(), ModemError>(
                        ModemError::Io(ChanError::Broken),
                    ),
                }
            }),
    {
        let mut eot: Vec<u8> = Vec::new();
        eot.push(EOT);
        proof {
            assert(eot@ =~= seq![EOT]);
        }
        match await_octet(dev, ACK, &eot, &mut self.errors, self.max_errors) {
            AwaitResult::Got => Ok(()),
            AwaitResult::Exhausted => Err(ModemError::ExhaustedRetries { errors: self.errors }),
            AwaitResult::Fault => Err(ModemError::Io(ChanError::Broken)),
        }
    }

    /// Stream the payload as framed blocks: fill each block from the
    /// producer, pad the last one, and await an acknowledgement for each,
    /// resending the same block after every unexpected octet or timeout.
    pub fn send_stream<C: Channel, S: ByteSource>(
        &mut self,
        dev: &mut C,
        inp: &mut S,
    ) -> (r: ModemResult<()>)
        requires
            old(self).errors <= old(self).max_errors,
            old(self).max_errors < u32::MAX,
        ensures
            ({
                let o = xmodem_stream(
                    old(inp).remaining(),
                    1u8,
                    old(dev).incoming(),
                    old(self).errors as int,
                    old(self).max_errors as int,
                    old(self).checksum_mode == ChecksumKind::Crc16,
                    old(self).block_length.spec_len(),
                    old(self).pad_byte,
                );
                &&& final(dev).incoming() == o.rest
                &&& final(dev).written() == old(dev).written() + o.sent
                &&& final(inp).remaining() == o.data_left
                &&& final(self).errors as int == o.errors
                &&& final(self).config_eq(*old(self))
                &&& final(self).checksum_mode == old(self).checksum_mode
                &&& match o.result {
                    StreamResult::Done => r == Ok::<(), ModemError>(()),
                    StreamResult::Exhausted => r == Err::<(), ModemError>(
                        ModemError::ExhaustedRetries { errors: o.errors as u32 },
                    ),
                    StreamResult::Fault => r == Err::<(), ModemError>(
                        ModemError::Io(ChanError::Broken),
                    ),
                }
            }),
    {
        let crc = match self.checksum_mode {
            ChecksumKind::Standard => false,
            ChecksumKind::Crc16 => true,
        };
        let bl = self.block_length.len();
        match stream_core(dev, inp, crc, bl, self.pad_byte, &mut self.errors, self.max_errors) {
            StreamResult::Done => Ok(()),
            StreamResult::Exhausted => Err(ModemError::ExhaustedRetries { errors: self.errors }),
            StreamResult::Fault => Err(ModemError::Io(ChanError::Broken)),
        }
    }

    /// Starts the XMODEM transmission.
    ///
    /// `dev` should be the serial communication channel (e.g. the serial
    /// device).  `inp` should be the message to send (e.g. a file).
    ///
    /// # Timeouts
    /// This method has no way of setting the timeout of `dev`, so it's up to
    /// the caller to set the timeout of the device before calling this
    /// method.  Timeouts on receiving octets will be counted against
    /// `max_errors`, but timeouts on transmitting octets will be considered
    /// a fatal error.
    pub fn send<C: Channel, S: ByteSource>(&mut self, dev: &mut C, inp: &mut S) -> (r: ModemResult<
        (),
    >)
        requires
            old(self).max_errors < u32::MAX,
        ensures
            ({
                let o = xmodem_send(
                    old(inp).remaining(),
                    old(dev).incoming(),
                    old(self).max_errors as int,
                    old(self).block_length.spec_len(),
                    old(self).pad_byte,
                    old(self).checksum_mode == ChecksumKind::Crc16,
                );
                &&& final(dev).incoming() == o.rest
                &&& final(dev).written() == old(dev).written() + o.sent
                &&& final(inp).remaining() == o.data_left
                &&& final(self).errors as int == o.errors
                &&& final(self).config_eq(*old(self))
                &&& final(self).checksum_mode == (if o.crc {
                    ChecksumKind::Crc16
                } else {
                    ChecksumKind::Standard
                })
                &&& match o.result {
                    SendResult::Complete => r == Ok::<(), ModemError>(()),
                    SendResult::Canceled => r == Err::<(), ModemError>(ModemError::Canceled),
                    SendResult::Exhausted => r == Err::<(), ModemError>(
                        ModemError::ExhaustedRetries { errors: o.errors as u32 },
                    ),
                    SendResult::Fault => r == Err::<(), ModemError>(
                        ModemError::Io(ChanError::Broken),
                    ),
                }
            }),
    {
        self.errors = 0;

        let ghost s0 = old(dev).incoming();
        let ghost w0 = old(dev).written();
        let ghost maxg = old(self).max_errors as int;
        let ghost o1 = negotiate(s0, true, 0, 0, maxg);
        match self.init_send(dev) {
            Err(e) => {
                return Err(e);
            }
            Ok(()) => {}
        }
        proof {
            lemma_negotiate_accept_bound(s0, true, 0, 0, maxg);
        }
        let ghost crcg = self.checksum_mode == ChecksumKind::Crc16;
        let ghost o2 = xmodem_stream(
            old(inp).remaining(),
            1u8,
            o1.rest,
            o1.errors,
            maxg,
            crcg,
            old(self).block_length.spec_len(),
            old(self).pad_byte,
        );
        match self.send_stream(dev, inp) {
            Err(e) => {
                proof {
                    assert(w0 + o1.sent + o2.sent =~= w0 + (o1.sent + o2.sent));
                }
                return Err(e);
            }
            Ok(()) => {}
        }
        proof {
            lemma_xmodem_stream_done_bound(
                old(inp).remaining(),
                1u8,
                o1.rest,
                o1.errors,
                maxg,
                crcg,
                old(self).block_length.spec_len(),
                old(self).pad_byte,
            );
        }
        let r = self.finish_send(dev);
        proof {
            let o3 = await_byte(o2.rest, ACK, seq![EOT], o2.errors, maxg);
            assert(w0 + o1.sent + o2.sent + o3.sent =~= w0 + (o1.sent + o2.sent + o3.sent));
        }
        r
    }

    /// Receive an XMODEM transmission.
    ///
    /// `dev` should be the serial communication channel (e.g. the serial
    /// device).  The received data will be written to `out`.  `checksum`
    /// indicates which checksum mode should be used;
    /// `ChecksumKind::Standard` is a reasonable default.
    ///
    /// # Timeouts
    /// This method has no way of setting the timeout of `dev`, so it's up to
    /// the caller to set the timeout of the device before calling this
    /// method.  Timeouts on receiving octets will be counted against
    /// `max_errors`, but timeouts on transmitting octets will be considered
    /// a fatal error.
    pub fn receive<C: Channel, W: ByteSink>(
        &mut self,
        dev: &mut C,
        out: &mut W,
        checksum: ChecksumKind,
    ) -> (r: ModemResult<()>)
        requires
            old(self).max_errors < u32::MAX,
        ensures
            ({
                let crc = checksum == ChecksumKind::Crc16;
                let o = xmodem_recv(old(dev).incoming(), 1u8, 0, old(self).max_errors as int, crc);
                &&& final(dev).incoming() == o.rest
                &&& final(dev).written() == old(dev).written() + seq![
                    if crc {
                        CRC
                    } else {
                        NAK
                    },
                ] + o.sent
                &&& final(out).received() == old(out).received() + o.delivered
                &&& final(self).errors as int == o.errors
                &&& final(self).config_eq(*old(self))
                &&& final(self).checksum_mode == checksum
                &&& match o.result {
                    RecvResult::Done => r == Ok::<(), ModemError>(()),
                    RecvResult::Canceled => r == Err::<(), ModemError>(ModemError::Canceled),
                    RecvResult::Exhausted => r == Err::<(), ModemError>(
                        ModemError::ExhaustedRetries { errors: o.errors as u32 },
                    ),
                    RecvResult::Fault => r == Err::<(), ModemError>(ModemError::Io(o.fault)),
                }
            }),
    {
        self.errors = 0;
        self.checksum_mode = checksum;
        let ncg = match self.checksum_mode {
            ChecksumKind::Standard => NAK,
            ChecksumKind::Crc16 => CRC,
        };
        dev.write_byte(ncg);
        proof {
            assert(old(dev).written().push(ncg) =~= old(dev).written() + seq![ncg]);
        }
        let crc = match checksum {
            ChecksumKind::Standard => false,
            ChecksumKind::Crc16 => true,
        };
        let (res, fault) = recv_core(dev, out, crc, &mut self.errors, self.max_errors);
        match res {
            RecvResult::Done => Ok(()),
            RecvResult::Canceled => Err(ModemError::Canceled),
            RecvResult::Exhausted => Err(ModemError::ExhaustedRetries { errors: self.errors }),
            RecvResult::Fault => Err(ModemError::Io(fault)),
        }
    }
}

} // verus!
