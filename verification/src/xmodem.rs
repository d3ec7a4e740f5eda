//! The classic XMODEM engine: sender and receiver state machines for a
//! single-file transfer over a duplex octet channel.

use vstd::prelude::*;

use crate::chan::{ByteSink, ByteSource, ChanError, Channel};
use crate::common::{await_octet, negotiate_start, recv_core, stream_core};
use crate::model::{
    AwaitResult, NegotiateResult, RecvResult, SendResult, StreamResult, await_byte,
    lemma_negotiate_accept_bound, lemma_xmodem_stream_done_bound, negotiate, xmodem_recv,
    xmodem_send, xmodem_stream,
};
use crate::variants::xmodem::consts::{ACK, CRC, EOT, NAK};

verus! {

/// How an XMODEM transfer can fail.
#[derive(Clone, Copy, Debug, PartialEq, Eq, Structural)]
pub enum Error {
    /// The channel failed outside the protocol: a non-timeout read error, or
    /// a timeout in the middle of a frame, where only octets may follow.
    Io(ChanError),
    /// The number of communications errors exceeded `max_errors` in a single
    /// transmission.
    ExhaustedRetries(u32),
    /// The transmission was canceled by the other end of the channel.
    Canceled,
}

impl Error {
    /// A short description of the failure.
    pub fn describe(&self) -> &'static str {
        match self {
            Error::Io(ChanError::TimedOut) => "channel timed out mid-frame",
            Error::Io(ChanError::Broken) => "channel I/O failure",
            Error::ExhaustedRetries(_) => "too many protocol errors",
            Error::Canceled => "canceled by the other party",
        }
    }
}

impl From<ChanError> for Error {
    fn from(err: ChanError) -> (r: Error) {
        Error::Io(err)
    }
}

impl vstd::std_specs::convert::FromSpecImpl<ChanError> for Error {
    open spec fn obeys_from_spec() -> bool {
        true
    }

    open spec fn from_spec(err: ChanError) -> Self {
        Error::Io(err)
    }
}

/// The result type the XMODEM engine returns.
pub type Result<T> = core::result::Result<T, Error>;

/// Which trailer verifies a data block.
#[derive(Clone, Copy, Debug, PartialEq, Eq, Structural)]
pub enum Checksum {
    /// A single octet: the wrapping 8-bit sum of the payload.
    Standard,
    /// Two octets: CRC-16/XMODEM of the payload, high octet first.
    CRC16,
}

/// The two block payload lengths the protocol knows.
#[derive(Clone, Copy, Debug, PartialEq, Eq, Structural)]
pub enum BlockLength {
    /// 128-octet payloads, framed with `SOH`.
    Standard,
    /// 1024-octet payloads, framed with `STX`.
    OneK,
}

impl BlockLength {
    /// The payload length in octets.
    pub open spec fn spec_len(self) -> int {
        match self {
            BlockLength::Standard => 128,
            BlockLength::OneK => 1024,
        }
    }

    /// The payload length in octets.
    pub fn len(&self) -> (r: usize)
        ensures
            r as int == self.spec_len(),
    {
        match self {
            BlockLength::Standard => 128,
            BlockLength::OneK => 1024,
        }
    }
}

/// Configuration for the XMODEM transfer.
#[derive(Copy, Clone, Debug)]
pub struct Xmodem {
    /// The number of errors that can occur before the communication is
    /// considered a failure.  Errors include unexpected octets and timeouts
    /// waiting for octets.
    pub max_errors: u32,

    /// The octet used to pad the last block.  XMODEM can only send blocks of
    /// a certain size, so if the message is not a multiple of that size the
    /// last block needs to be padded.
    pub pad_byte: u8,

    /// The length of each block: 128-octet blocks (standard XMODEM) or
    /// 1024-octet blocks (XMODEM-1k).
    pub block_length: BlockLength,

    /// The checksum mode used by XMODEM.  This is determined by the receiver.
    pub checksum_mode: Checksum,

    /// The running protocol-error counter.
    pub errors: u32,
}

impl Default for Xmodem {
    fn default() -> (r: Self)
        ensures
            r == Xmodem::new(),
    {
        Xmodem::new()
    }
}

impl Xmodem {
    /// Whether the engine's configuration is left untouched by a call.
    pub open spec fn config_eq(self, other: Xmodem) -> bool {
        &&& self.max_errors == other.max_errors
        &&& self.pad_byte == other.pad_byte
        &&& self.block_length == other.block_length
    }

    /// Creates the XMODEM config with default parameters.
    #[verifier::when_used_as_spec(spec_new)]
    pub fn new() -> (r: Self)
        ensures
            r == Xmodem::spec_new(),
    {
        Xmodem {
            max_errors: 16,
            pad_byte: 0x1a,
            block_length: BlockLength::Standard,
            checksum_mode: Checksum::Standard,
            errors: 0,
        }
    }

    /// The default configuration.
    pub open spec fn spec_new() -> Xmodem {
        Xmodem {
            max_errors: 16,
            pad_byte: 0x1a,
            block_length: BlockLength::Standard,
            checksum_mode: Checksum::Standard,
            errors: 0,
        }
    }

    /// Wait for the receiver's opening request and negotiate the checksum
    /// mode: `NAK` selects the standard checksum, `C` selects CRC-16.
    pub fn start_send<C: Channel>(&mut self, dev: &mut C) -> (r: Result<()>)
        requires
            old(self).errors <= old(self).max_errors,
            old(self).max_errors < u32::MAX,
        ensures
            ({
                let o = negotiate(
                    old(dev).incoming(),
                    true,
                    0,
                    old(self).errors as int,
                    old(self).max_errors as int,
                );
                &&& final(dev).incoming() == o.rest
                &&& final(dev).written() == old(dev).written() + o.sent
                &&& final(self).errors as int == o.errors
                &&& final(self).config_eq(*old(self))
                &&& match o.result {
                    NegotiateResult::Standard => r == Ok::<(), Error>(())
                        && final(self).checksum_mode == Checksum::Standard,
                    NegotiateResult::Crc => r == Ok::<(), Error>(())
                        && final(self).checksum_mode == Checksum::CRC16,
                    NegotiateResult::Canceled => r == Err::<(), Error>(Error::Canceled)
                        && final(self).checksum_mode == old(self).checksum_mode,
                    NegotiateResult::Exhausted => r == Err::<(), Error>(Error::ExhaustedRetries(o.errors as u32))
                        && final(self).checksum_mode == old(self).checksum_mode,
                    NegotiateResult::Fault => r == Err::<(), Error>(Error::Io(ChanError::Broken))
                        && final(self).checksum_mode == old(self).checksum_mode,
                }
            }),
    {
        match negotiate_start(dev, true, &mut self.errors, self.max_errors) {
            NegotiateResult::Standard => {
                self.checksum_mode = Checksum::Standard;
                Ok(())
            }
            NegotiateResult::Crc => {
                self.checksum_mode = Checksum::CRC16;
                Ok(())
            }
            NegotiateResult::Canceled => Err(Error::Canceled),
            NegotiateResult::Exhausted => Err(Error::ExhaustedRetries(self.errors)),
            NegotiateResult::Fault => Err(Error::Io(ChanError::Broken)),
        }
    }

    /// Send `EOT` and wait for the acknowledgement, resending `EOT` after
    /// every unexpected octet or timeout.
    pub fn finish_send<C: Channel>(&mut self, dev: &mut C) -> (r: Result<()>)
        requires
            old(self).errors <= old(self).max_errors,
            old(self).max_errors < u32::MAX,
        ensures
            ({
                let o = await_byte(
                    old(dev).incoming(),
                    ACK,
                    seq![EOT],
                    old(self).errors as int,
                    old(self).max_errors as int,
                );
                &&& final(dev).incoming() == o.rest
                &&& final(dev).written() == old(dev).written() + o.sent
                &&& final(self).errors as int == o.errors
                &&& final(self).config_eq(*old(self))
                &&& final(self).checksum_mode == old(self).checksum_mode
                &&& match o.result {
                    AwaitResult::Got => r == Ok::<(), Error>(()),
                    AwaitResult::Exhausted => r == Err::<(), Error>(Error::ExhaustedRetries(o.errors as u32)),
                    AwaitResult::Fault => r == Err::<(), Error>(Error::Io(ChanError::Broken)),
                }
            }),
    {
        let mut eot: Vec<u8> = Vec::new();
        eot.push(EOT);
        proof {
            assert(eot@ =~= seq![EOT]);
        }
        match await_octet(dev, ACK, &eot, &mut self.errors, self.max_errors) {
            AwaitResult::Got => Ok(()),
            AwaitResult::Exhausted => Err(Error::ExhaustedRetries(self.errors)),
            AwaitResult::Fault => Err(Error::Io(ChanError::Broken)),
        }
    }

    /// Stream the payload as framed blocks: fill each block from the
    /// producer, pad the last one, and await an acknowledgement for each,
    /// resending the same block after every unexpected octet or timeout.
    pub fn send_stream<C: Channel, S: ByteSource>(
        &mut self,
        dev: &mut C,
        stream: &mut S,
    ) -> (r: Result<()>)
        requires
            old(self).errors <= old(self).max_errors,
            old(self).max_errors < u32::MAX,
        ensures
            ({
                let o = xmodem_stream(
                    old(stream).remaining(),
                    1u8,
                    old(dev).incoming(),
                    old(self).errors as int,
                    old(self).max_errors as int,
                    old(self).checksum_mode == Checksum::CRC16,
                    old(self).block_length.spec_len(),
                    old(self).pad_byte,
                );
                &&& final(dev).incoming() == o.rest
                &&& final(dev).written() == old(dev).written() + o.sent
                &&& final(stream).remaining() == o.data_left
                &&& final(self).errors as int == o.errors
                &&& final(self).config_eq(*old(self))
                &&& final(self).checksum_mode == old(self).checksum_mode
                &&& match o.result {
                    StreamResult::Done => r == Ok::<(), Error>(()),
                    StreamResult::Exhausted => r == Err::<(), Error>(Error::ExhaustedRetries(o.errors as u32)),
                    StreamResult::Fault => r == Err::<(), Error>(Error::Io(ChanError::Broken)),
                }
            }),
    {
        let crc = match self.checksum_mode {
            Checksum::Standard => false,
            Checksum::CRC16 => true,
        };
        let bl = self.block_length.len();
        match stream_core(dev, stream, crc, bl, self.pad_byte, &mut self.errors, self.max_errors) {
            StreamResult::Done => Ok(()),
            StreamResult::Exhausted => Err(Error::ExhaustedRetries(self.errors)),
            StreamResult::Fault => Err(Error::Io(ChanError::Broken)),
        }
    }

    /// Starts the XMODEM transmission.
    ///
    /// `dev` should be the serial communication channel (e.g. the serial
    /// device).  `stream` should be the message to send (e.g. a file).
    ///
    /// # Timeouts
    /// This method has no way of setting the timeout of `dev`, so it's up to
    /// the caller to set the timeout of the device before calling this
    /// method.  Timeouts on receiving octets will be counted against
    /// `max_errors`, but timeouts on transmitting octets will be considered
    /// a fatal error.
    pub fn send<C: Channel, S: ByteSource>(&mut self, dev: &mut C, stream: &mut S) -> (r: Result<
        (),
    >)
        requires
            old(self).max_errors < u32::MAX,
        ensures
            ({
                let o = xmodem_send(
                    old(stream).remaining(),
                    old(dev).incoming(),
                    old(self).max_errors as int,
                    old(self).block_length.spec_len(),
                    old(self).pad_byte,
                    old(self).checksum_mode == Checksum::CRC16,
                );
                &&& final(dev).incoming() == o.rest
                &&& final(dev).written() == old(dev).written() + o.sent
                &&& final(stream).remaining() == o.data_left
                &&& final(self).errors as int == o.errors
                &&& final(self).config_eq(*old(self))
                &&& final(self).checksum_mode == (if o.crc {
                    Checksum::CRC16
                } else {
                    Checksum::Standard
                })
                &&& match o.result {
                    SendResult::Complete => r == Ok::<(), Error>(()),
                    SendResult::Canceled => r == Err::<(), Error>(Error::Canceled),
                    SendResult::Exhausted => r == Err::<(), Error>(Error::ExhaustedRetries(o.errors as u32)),
                    SendResult::Fault => r == Err::<(), Error>(Error::Io(ChanError::Broken)),
                }
            }),
    {
        self.errors = 0;

        let ghost s0 = old(dev).incoming();
        let ghost w0 = old(dev).written();
        let ghost maxg = old(self).max_errors as int;
        let ghost o1 = negotiate(s0, true, 0, 0, maxg);
        match self.start_send(dev) {
            Err(e) => {
                return Err(e);
            }
            Ok(()) => {}
        }
        proof {
            lemma_negotiate_accept_bound(s0, true, 0, 0, maxg);
        }
        let ghost crcg = self.checksum_mode == Checksum::CRC16;
        let ghost o2 = xmodem_stream(
            old(stream).remaining(),
            1u8,
            o1.rest,
            o1.errors,
            maxg,
            crcg,
            old(self).block_length.spec_len(),
            old(self).pad_byte,
        );
        match self.send_stream(dev, stream) {
            Err(e) => {
                proof {
                    assert(w0 + o1.sent + o2.sent =~= w0 + (o1.sent + o2.sent));
                }
                return Err(e);
            }
            Ok(()) => {}
        }
        proof {
            lemma_xmodem_stream_done_bound(
                old(stream).remaining(),
                1u8,
                o1.rest,
                o1.errors,
                maxg,
                crcg,
                old(self).block_length.spec_len(),
                old(self).pad_byte,
            );
        }
        let r = self.finish_send(dev);
        proof {
            let o3 = await_byte(o2.rest, ACK, seq![EOT], o2.errors, maxg);
            assert(w0 + o1.sent + o2.sent + o3.sent =~= w0 + (o1.sent + o2.sent + o3.sent));
        }
        r
    }

    /// Receive an XMODEM transmission.
    ///
    /// `dev` should be the serial communication channel (e.g. the serial
    /// device).  The received data will be written to `outstream`.
    /// `checksum` indicates which checksum mode should be used;
    /// `Checksum::Standard` is a reasonable default.
    ///
    /// # Timeouts
    /// This method has no way of setting the timeout of `dev`, so it's up to
    /// the caller to set the timeout of the device before calling this
    /// method.  Timeouts on receiving octets will be counted against
    /// `max_errors`, but timeouts on transmitting octets will be considered
    /// a fatal error.
    pub fn recv<C: Channel, W: ByteSink>(
        &mut self,
        dev: &mut C,
        outstream: &mut W,
        checksum: Checksum,
    ) -> (r: Result<()>)
        requires
            old(self).max_errors < u32::MAX,
        ensures
            ({
                let crc = checksum == Checksum::CRC16;
                let o = xmodem_recv(old(dev).incoming(), 1u8, 0, old(self).max_errors as int, crc);
                &&& final(dev).incoming() == o.rest
                &&& final(dev).written() == old(dev).written() + seq![
                    if crc {
                        CRC
                    } else {
                        NAK
                    },
                ] + o.sent
                &&& final(outstream).received() == old(outstream).received() + o.delivered
                &&& final(self).errors as int == o.errors
                &&& final(self).config_eq(*old(self))
                &&& final(self).checksum_mode == checksum
                &&& match o.result {
                    RecvResult::Done => r == Ok::<(), Error>(()),
                    RecvResult::Canceled => r == Err::<(), Error>(Error::Canceled),
                    RecvResult::Exhausted => r == Err::<(), Error>(Error::ExhaustedRetries(o.errors as u32)),
                    RecvResult::Fault => r == Err::<(), Error>(Error::Io(o.fault)),
                }
            }),
    {
        self.errors = 0;
        self.checksum_mode = checksum;
        let ncg = match self.checksum_mode {
            Checksum::Standard => NAK,
            Checksum::CRC16 => CRC,
        };
        dev.write_byte(ncg);
        proof {
            assert(old(dev).written().push(ncg) =~= old(dev).written() + seq![ncg]);
        }
        let crc = match checksum {
            Checksum::Standard => false,
            Checksum::CRC16 => true,
        };
        let (res, fault) = recv_core(dev, outstream, crc, &mut self.errors, self.max_errors);
        match res {
            RecvResult::Done => Ok(()),
            RecvResult::Canceled => Err(Error::Canceled),
            RecvResult::Exhausted => Err(Error::ExhaustedRetries(self.errors)),
            RecvResult::Fault => Err(Error::Io(fault)),
        }
    }
}

} // verus!

