//! The mathematical model of the protocols: framing, trailers, and the
//! outcome of each engine phase as a function of the channel script.
//!
//! Each engine loop has a spec-level interpreter here.  The interpreter maps
//! the script of read outcomes (and, for a sender, the payload) to the phase
//! result, the final error counter, the octets written, the octets
//! delivered, and the part of the script left unread.  The executable
//! engines carry contracts stating that they realise these interpreters
//! exactly.

use vstd::prelude::*;

use crate::chan::{ChanError, ReadEvent, next_event};
use crate::common::{crc16_of, sum8, take_bytes};
use crate::variants::xmodem::consts::{ACK, CAN, CRC, EOT, NAK, SOH, STX};

verus! {

/// The two CRC-16 trailer octets combined, high octet first.
pub open spec fn combine16(hi: u8, lo: u8) -> u16 {
    (hi * 256 + lo) as u16
}

/// The trailer a sender appends to a payload: the CRC-16 high octet first,
/// or the single wrapping-sum octet.
pub open spec fn trailer_of(crc: bool, payload: Seq<u8>) -> Seq<u8> {
    if crc {
        seq![(crc16_of(payload) / 256) as u8, (crc16_of(payload) % 256) as u8]
    } else {
        seq![sum8(payload)]
    }
}

/// Whether a received trailer verifies a payload.
pub open spec fn trailer_matches(crc: bool, payload: Seq<u8>, trailer: Seq<u8>) -> bool {
    if crc {
        combine16(trailer[0], trailer[1]) == crc16_of(payload)
    } else {
        trailer[0] == sum8(payload)
    }
}

/// A payload extended to `len` octets with the pad octet.
pub open spec fn pad_to(chunk: Seq<u8>, len: int, pad: u8) -> Seq<u8> {
    if chunk.len() >= len {
        chunk
    } else {
        chunk + Seq::new((len - chunk.len()) as nat, |i: int| pad)
    }
}

/// A framed data block: the header octet chosen by the payload length, the
/// sequence octet, its complement, the payload, and the trailer.
pub open spec fn frame_for(seq_byte: u8, payload: Seq<u8>, crc: bool) -> Seq<u8> {
    seq![
        if payload.len() == 128 { SOH } else { STX },
        seq_byte,
        (255 - seq_byte) as u8,
    ] + payload + trailer_of(crc, payload)
}

/// A sequence of octets as the read events that carry them.
pub open spec fn byte_events(bs: Seq<u8>) -> Seq<ReadEvent> {
    Seq::new(bs.len(), |i: int| ReadEvent::Byte(bs[i]))
}

/// How many events `take_bytes` consumes: never more than the script holds,
/// and exactly `n` when it succeeds, in which case it yields `n` octets.
pub proof fn lemma_take_bytes_len(s: Seq<ReadEvent>, n: nat)
    ensures
        take_bytes(s, n).1.len() <= s.len(),
        take_bytes(s, n).0 is Ok ==> n <= s.len() && take_bytes(s, n).1.len() == s.len() - n,
        match take_bytes(s, n).0 {
            Ok(bs) => bs.len() == n,
            Err(_) => true,
        },
    decreases n,
{
    if n > 0 {
        if s.len() > 0 {
            match s[0] {
                ReadEvent::Byte(_) => {
                    lemma_take_bytes_len(s.drop_first(), (n - 1) as nat);
                }
                _ => {}
            }
        }
    }
}

/// The verdict of a negotiation phase: the sender waiting for the
/// receiver's first control octet.
#[derive(Debug, Clone, Copy, PartialEq, Eq, Structural)]
pub enum NegotiateResult {
    /// A `NAK` arrived: the peer asked for the standard checksum.
    Standard,
    /// A `C` arrived: the peer asked for CRC-16 trailers.
    Crc,
    /// Two cancel octets arrived.
    Canceled,
    /// The error budget ran out.
    Exhausted,
    /// The channel failed.
    Fault,
}

/// The outcome of a negotiation phase.
pub ghost struct NegotiateOut {
    /// The verdict.
    pub result: NegotiateResult,
    /// The error counter afterwards.
    pub errors: int,
    /// The events left unread.
    pub rest: Seq<ReadEvent>,
    /// The octets written during the phase.
    pub sent: Seq<u8>,
}

/// The sender's negotiation loop: poll until an accepted request octet
/// arrives.  `NAK` is accepted only when `accept_nak` holds (XMODEM; YMODEM
/// always uses CRC-16).  Every other event costs one protocol error; a
/// cancel octet also counts toward cancellation, and two of them cancel the
/// phase.  When the error count reaches `max`, one best-effort `CAN` is
/// written and the phase gives up.
pub open spec fn negotiate(
    s: Seq<ReadEvent>,
    accept_nak: bool,
    cancels: int,
    errors: int,
    max: int,
) -> NegotiateOut
    decreases s.len(), (if errors < max { max - errors } else { 0 }),
{
    let ev = next_event(s).0;
    let rest = next_event(s).1;
    if ev == ReadEvent::Fault {
        NegotiateOut { result: NegotiateResult::Fault, errors, rest, sent: Seq::empty() }
    } else if accept_nak && ev == ReadEvent::Byte(NAK) {
        NegotiateOut { result: NegotiateResult::Standard, errors, rest, sent: Seq::empty() }
    } else if ev == ReadEvent::Byte(CRC) {
        NegotiateOut { result: NegotiateResult::Crc, errors, rest, sent: Seq::empty() }
    } else {
        let cancels2 = if ev == ReadEvent::Byte(CAN) {
            cancels + 1
        } else {
            cancels
        };
        let errors2 = errors + 1;
        if cancels2 >= 2 {
            NegotiateOut {
                result: NegotiateResult::Canceled,
                errors: errors2,
                rest,
                sent: Seq::empty(),
            }
        } else if errors2 >= max {
            NegotiateOut { result: NegotiateResult::Exhausted, errors: errors2, rest, sent: seq![CAN] }
        } else {
            negotiate(rest, accept_nak, cancels2, errors2, max)
        }
    }
}

/// The verdict of an awaiting loop: write an attempt, poll for one wanted
/// octet, and retry until it arrives or the budget runs out.
#[derive(Debug, Clone, Copy, PartialEq, Eq, Structural)]
pub enum AwaitResult {
    /// The wanted octet arrived.
    Got,
    /// The error budget ran out.
    Exhausted,
    /// The channel failed.
    Fault,
}

/// The outcome of an awaiting loop.
pub ghost struct AwaitOut {
    /// The verdict.
    pub result: AwaitResult,
    /// The error counter afterwards.
    pub errors: int,
    /// The events left unread.
    pub rest: Seq<ReadEvent>,
    /// The octets written during the phase.
    pub sent: Seq<u8>,
}

/// One awaiting loop: each attempt writes `attempt` (a whole frame, an
/// `EOT`, or nothing) and polls once.  The wanted octet ends the loop;
/// anything else or a timeout costs one protocol error, and reaching `max`
/// gives up.  A fault ends the transfer.
pub open spec fn await_byte(
    s: Seq<ReadEvent>,
    target: u8,
    attempt: Seq<u8>,
    errors: int,
    max: int,
) -> AwaitOut
    decreases s.len(), (if errors < max { max - errors } else { 0 }),
{
    let ev = next_event(s).0;
    let rest = next_event(s).1;
    if ev == ReadEvent::Byte(target) {
        AwaitOut { result: AwaitResult::Got, errors, rest, sent: attempt }
    } else if ev == ReadEvent::Fault {
        AwaitOut { result: AwaitResult::Fault, errors, rest, sent: attempt }
    } else {
        let errors2 = errors + 1;
        if errors2 >= max {
            AwaitOut { result: AwaitResult::Exhausted, errors: errors2, rest, sent: attempt }
        } else {
            let o = await_byte(rest, target, attempt, errors2, max);
            AwaitOut { result: o.result, errors: o.errors, rest: o.rest, sent: attempt + o.sent }
        }
    }
}

/// An awaiting loop that ends with the wanted octet never raises the error
/// counter past the budget.
pub proof fn lemma_await_byte_got_bound(
    s: Seq<ReadEvent>,
    target: u8,
    attempt: Seq<u8>,
    errors: int,
    max: int,
)
    requires
        errors <= max,
    ensures
        await_byte(s, target, attempt, errors, max).result == AwaitResult::Got ==> await_byte(
            s,
            target,
            attempt,
            errors,
            max,
        ).errors <= max,
    decreases s.len(), (if errors < max { max - errors } else { 0 }),
{
    let ev = next_event(s).0;
    let rest = next_event(s).1;
    if ev == ReadEvent::Byte(target) {
    } else if ev == ReadEvent::Fault {
    } else {
        let errors2 = errors + 1;
        if errors2 < max {
            lemma_await_byte_got_bound(rest, target, attempt, errors2, max);
        }
    }
}

/// The verdict of a sender's streaming phase.
#[derive(Debug, Clone, Copy, PartialEq, Eq, Structural)]
pub enum StreamResult {
    /// Every payload octet was framed and acknowledged.
    Done,
    /// The error budget ran out.
    Exhausted,
    /// The channel failed.
    Fault,
}

/// The outcome of a sender's streaming phase.
pub ghost struct StreamOut {
    /// The verdict.
    pub result: StreamResult,
    /// The error counter afterwards.
    pub errors: int,
    /// The events left unread.
    pub rest: Seq<ReadEvent>,
    /// The octets written during the phase.
    pub sent: Seq<u8>,
    /// The payload octets not yet read from the producer.
    pub data_left: Seq<u8>,
}

/// The XMODEM streaming phase: while payload octets remain, frame the next
/// `bl` of them (the last block padded with `pad`), write the frame, and
/// await `ACK`, rewriting the same frame on every retry.  The sequence octet
/// starts at `seq_byte` and wraps modulo 256.
pub open spec fn xmodem_stream(
    data: Seq<u8>,
    seq_byte: u8,
    s: Seq<ReadEvent>,
    errors: int,
    max: int,
    crc: bool,
    bl: int,
    pad: u8,
) -> StreamOut
    decreases data.len() when 1 <= bl
{
    if data.len() == 0 {
        StreamOut {
            result: StreamResult::Done,
            errors,
            rest: s,
            sent: Seq::empty(),
            data_left: data,
        }
    } else {
        let take = if data.len() >= bl {
            bl
        } else {
            data.len() as int
        };
        let payload = pad_to(data.take(take), bl, pad);
        let frame = frame_for(seq_byte, payload, crc);
        let o = await_byte(s, ACK, frame, errors, max);
        match o.result {
            AwaitResult::Got => {
                let r = xmodem_stream(
                    data.skip(take),
                    ((seq_byte + 1) % 256) as u8,
                    o.rest,
                    o.errors,
                    max,
                    crc,
                    bl,
                    pad,
                );
                StreamOut {
                    result: r.result,
                    errors: r.errors,
                    rest: r.rest,
                    sent: o.sent + r.sent,
                    data_left: r.data_left,
                }
            }
            AwaitResult::Exhausted => StreamOut {
                result: StreamResult::Exhausted,
                errors: o.errors,
                rest: o.rest,
                sent: o.sent,
                data_left: data.skip(take),
            },
            AwaitResult::Fault => StreamOut {
                result: StreamResult::Fault,
                errors: o.errors,
                rest: o.rest,
                sent: o.sent,
                data_left: data.skip(take),
            },
        }
    }
}

/// The verdict of a receiving phase.
#[derive(Debug, Clone, Copy, PartialEq, Eq, Structural)]
pub enum RecvResult {
    /// The transfer completed.
    Done,
    /// A block failed its sequence check, or two cancel octets arrived.
    Canceled,
    /// The error budget ran out.
    Exhausted,
    /// The channel failed.
    Fault,
}

/// The outcome of a receiving phase.
pub ghost struct RecvOut {
    /// The verdict.
    pub result: RecvResult,
    /// The channel error behind a `Fault` verdict; `TimedOut` otherwise.
    pub fault: ChanError,
    /// The error counter afterwards.
    pub errors: int,
    /// The events left unread.
    pub rest: Seq<ReadEvent>,
    /// The octets written during the phase.
    pub sent: Seq<u8>,
    /// The payload octets handed to the consumer.
    pub delivered: Seq<u8>,
}

/// The XMODEM receiver's packet loop.  A `SOH` or `STX` opens a block whose
/// sequence octets, payload and trailer must all arrive as octets; a wrong
/// sequence pair cancels the transfer with two `CAN` octets; a wrong trailer
/// draws a `NAK` and one protocol error; a good block draws an `ACK`, is
/// delivered whole, and advances the expected sequence number modulo 256.
/// `EOT` draws an `ACK` and completes the transfer.  A timeout costs one
/// protocol error; any other octet is ignored.  After each handled event,
/// an error count at or beyond `max` writes one `CAN` and gives up.
pub open spec fn xmodem_recv(
    s: Seq<ReadEvent>,
    expected: u8,
    errors: int,
    max: int,
    crc: bool,
) -> RecvOut
    decreases s.len(), (if errors < max { max - errors } else { 0 })
    via xmodem_recv_decreases
{
    let ev = next_event(s).0;
    let rest = next_event(s).1;
    match ev {
        ReadEvent::Fault => RecvOut {
            result: RecvResult::Fault,
            fault: ChanError::Broken,
            errors,
            rest,
            sent: Seq::empty(),
            delivered: Seq::empty(),
        },
        ReadEvent::TimedOut => {
            let errors2 = errors + 1;
            if errors2 >= max {
                RecvOut {
                    result: RecvResult::Exhausted,
                    fault: ChanError::TimedOut,
                    errors: errors2,
                    rest,
                    sent: seq![CAN],
                    delivered: Seq::empty(),
                }
            } else {
                xmodem_recv(rest, expected, errors2, max, crc)
            }
        }
        ReadEvent::Byte(b) => {
            if b == SOH || b == STX {
                let size = if b == SOH {
                    128int
                } else {
                    1024int
                };
                let tl = if crc {
                    2int
                } else {
                    1int
                };
                let t = take_bytes(rest, (2 + size + tl) as nat);
                match t.0 {
                    Err(e) => RecvOut {
                        result: RecvResult::Fault,
                        fault: e,
                        errors,
                        rest: t.1,
                        sent: Seq::empty(),
                        delivered: Seq::empty(),
                    },
                    Ok(bytes) => {
                        let pnum = bytes[0];
                        let comp = bytes[1];
                        let payload = bytes.subrange(2, 2 + size);
                        let trailer = bytes.subrange(2 + size, 2 + size + tl);
                        let cancel = pnum != expected || comp != (255 - pnum) as u8;
                        let good = trailer_matches(crc, payload, trailer);
                        if cancel {
                            RecvOut {
                                result: RecvResult::Canceled,
                                fault: ChanError::TimedOut,
                                errors,
                                rest: t.1,
                                sent: seq![CAN, CAN],
                                delivered: Seq::empty(),
                            }
                        } else if good {
                            if errors >= max {
                                RecvOut {
                                    result: RecvResult::Exhausted,
                                    fault: ChanError::TimedOut,
                                    errors,
                                    rest: t.1,
                                    sent: seq![ACK, CAN],
                                    delivered: payload,
                                }
                            } else {
                                let r = xmodem_recv(
                                    t.1,
                                    ((expected + 1) % 256) as u8,
                                    errors,
                                    max,
                                    crc,
                                );
                                RecvOut {
                                    result: r.result,
                                    fault: r.fault,
                                    errors: r.errors,
                                    rest: r.rest,
                                    sent: seq![ACK] + r.sent,
                                    delivered: payload + r.delivered,
                                }
                            }
                        } else {
                            let errors2 = errors + 1;
                            if errors2 >= max {
                                RecvOut {
                                    result: RecvResult::Exhausted,
                                    fault: ChanError::TimedOut,
                                    errors: errors2,
                                    rest: t.1,
                                    sent: seq![NAK, CAN],
                                    delivered: Seq::empty(),
                                }
                            } else {
                                let r = xmodem_recv(t.1, expected, errors2, max, crc);
                                RecvOut {
                                    result: r.result,
                                    fault: r.fault,
                                    errors: r.errors,
                                    rest: r.rest,
                                    sent: seq![NAK] + r.sent,
                                    delivered: r.delivered,
                                }
                            }
                        }
                    }
                }
            } else if b == EOT {
                RecvOut {
                    result: RecvResult::Done,
                    fault: ChanError::TimedOut,
                    errors,
                    rest,
                    sent: seq![ACK],
                    delivered: Seq::empty(),
                }
            } else {
                if errors >= max {
                    RecvOut {
                        result: RecvResult::Exhausted,
                        fault: ChanError::TimedOut,
                        errors,
                        rest,
                        sent: seq![CAN],
                        delivered: Seq::empty(),
                    }
                } else {
                    xmodem_recv(rest, expected, errors, max, crc)
                }
            }
        }
    }
}

#[via_fn]
proof fn xmodem_recv_decreases(s: Seq<ReadEvent>, expected: u8, errors: int, max: int, crc: bool) {
    let ev = next_event(s).0;
    let rest = next_event(s).1;
    match ev {
        ReadEvent::Byte(b) => {
            if b == SOH || b == STX {
                let size = if b == SOH {
                    128int
                } else {
                    1024int
                };
                let tl = if crc {
                    2int
                } else {
                    1int
                };
                lemma_take_bytes_len(rest, (2 + size + tl) as nat);
            }
        }
        _ => {}
    }
}

/// A negotiation that ends with an accepted request never raises the error
/// counter past the budget.
pub proof fn lemma_negotiate_accept_bound(
    s: Seq<ReadEvent>,
    accept_nak: bool,
    cancels: int,
    errors: int,
    max: int,
)
    requires
        errors <= max,
    ensures
        ({
            let o = negotiate(s, accept_nak, cancels, errors, max);
            (o.result == NegotiateResult::Standard || o.result == NegotiateResult::Crc)
                ==> o.errors <= max
        }),
    decreases s.len(), (if errors < max { max - errors } else { 0 }),
{
    let ev = next_event(s).0;
    let rest = next_event(s).1;
    if ev == ReadEvent::Fault {
    } else if accept_nak && ev == ReadEvent::Byte(NAK) {
    } else if ev == ReadEvent::Byte(CRC) {
    } else {
        let cancels2 = if ev == ReadEvent::Byte(CAN) {
            cancels + 1
        } else {
            cancels
        };
        let errors2 = errors + 1;
        if cancels2 < 2 && errors2 < max {
            lemma_negotiate_accept_bound(rest, accept_nak, cancels2, errors2, max);
        }
    }
}

/// A streaming phase that sends everything never raises the error counter
/// past the budget.
pub proof fn lemma_xmodem_stream_done_bound(
    data: Seq<u8>,
    seq_byte: u8,
    s: Seq<ReadEvent>,
    errors: int,
    max: int,
    crc: bool,
    bl: int,
    pad: u8,
)
    requires
        errors <= max,
        1 <= bl,
    ensures
        ({
            let o = xmodem_stream(data, seq_byte, s, errors, max, crc, bl, pad);
            o.result == StreamResult::Done ==> o.errors <= max
        }),
    decreases data.len(),
{
    if data.len() > 0 {
        let take = if data.len() >= bl {
            bl
        } else {
            data.len() as int
        };
        let payload = pad_to(data.take(take), bl, pad);
        let frame = frame_for(seq_byte, payload, crc);
        let o = await_byte(s, ACK, frame, errors, max);
        if o.result == AwaitResult::Got {
            lemma_await_byte_got_bound(s, ACK, frame, errors, max);
            lemma_xmodem_stream_done_bound(
                data.skip(take),
                ((seq_byte + 1) % 256) as u8,
                o.rest,
                o.errors,
                max,
                crc,
                bl,
                pad,
            );
        }
    }
}

/// The verdict of a whole sender run: negotiation, streaming, then the
/// end-of-transfer exchange.
#[derive(Debug, Clone, Copy, PartialEq, Eq, Structural)]
pub enum SendResult {
    /// Every phase completed.
    Complete,
    /// Two cancel octets arrived during negotiation.
    Canceled,
    /// The error budget ran out.
    Exhausted,
    /// The channel failed.
    Fault,
}

/// The outcome of a whole sender run.
pub ghost struct SendOut {
    /// The verdict.
    pub result: SendResult,
    /// The error counter afterwards.
    pub errors: int,
    /// The events left unread.
    pub rest: Seq<ReadEvent>,
    /// The octets written during the run.
    pub sent: Seq<u8>,
    /// The payload octets not yet read from the producer.
    pub data_left: Seq<u8>,
    /// The checksum mode after the run: the negotiated one once negotiation
    /// has succeeded, else `crc0`, the mode the engine started with.
    pub crc: bool,
}

/// A whole XMODEM sender run with a fresh error counter: negotiate the
/// checksum mode, stream the payload as framed blocks, then send `EOT` until
/// it is acknowledged.
pub open spec fn xmodem_send(
    data: Seq<u8>,
    s: Seq<ReadEvent>,
    max: int,
    bl: int,
    pad: u8,
    crc0: bool,
) -> SendOut {
    let o1 = negotiate(s, true, 0, 0, max);
    if o1.result == NegotiateResult::Canceled {
        SendOut {
            result: SendResult::Canceled,
            errors: o1.errors,
            rest: o1.rest,
            sent: o1.sent,
            data_left: data,
            crc: crc0,
        }
    } else if o1.result == NegotiateResult::Exhausted {
        SendOut {
            result: SendResult::Exhausted,
            errors: o1.errors,
            rest: o1.rest,
            sent: o1.sent,
            data_left: data,
            crc: crc0,
        }
    } else if o1.result == NegotiateResult::Fault {
        SendOut {
            result: SendResult::Fault,
            errors: o1.errors,
            rest: o1.rest,
            sent: o1.sent,
            data_left: data,
            crc: crc0,
        }
    } else {
        let crc = o1.result == NegotiateResult::Crc;
        let o2 = xmodem_stream(data, 1u8, o1.rest, o1.errors, max, crc, bl, pad);
        if o2.result == StreamResult::Exhausted {
            SendOut {
                result: SendResult::Exhausted,
                errors: o2.errors,
                rest: o2.rest,
                sent: o1.sent + o2.sent,
                data_left: o2.data_left,
                crc,
            }
        } else if o2.result == StreamResult::Fault {
            SendOut {
                result: SendResult::Fault,
                errors: o2.errors,
                rest: o2.rest,
                sent: o1.sent + o2.sent,
                data_left: o2.data_left,
                crc,
            }
        } else {
            let o3 = await_byte(o2.rest, ACK, seq![EOT], o2.errors, max);
            SendOut {
                result: match o3.result {
                    AwaitResult::Got => SendResult::Complete,
                    AwaitResult::Exhausted => SendResult::Exhausted,
                    AwaitResult::Fault => SendResult::Fault,
                },
                errors: o3.errors,
                rest: o3.rest,
                sent: o1.sent + o2.sent + o3.sent,
                data_left: o2.data_left,
                crc,
            }
        }
    }
}

} // verus!
