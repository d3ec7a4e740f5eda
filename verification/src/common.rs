//! Checksum units, shared protocol enumerations, the error taxonomy and the
//! single-octet read helpers shared by the transfer engines.

use vstd::prelude::*;

use crate::chan::{ByteSink, ByteSource, ChanError, Channel, ReadEvent, next_event, write_all};
use crate::model::{
    AwaitResult, NegotiateResult, RecvResult, StreamResult, await_byte, frame_for,
    lemma_await_byte_got_bound, lemma_take_bytes_len, negotiate, pad_to, trailer_matches,
    xmodem_recv, xmodem_stream,
};
use crate::variants::xmodem::consts::{ACK, CAN, CRC, EOT, NAK, SOH, STX};

verus! {

/// Which trailer verifies a data block.
#[derive(Clone, Copy, Debug, PartialEq, Eq, Structural)]
pub enum ChecksumKind {
    /// A single octet: the wrapping 8-bit sum of the payload.
    Standard,
    /// Two octets: CRC-16/XMODEM of the payload, high octet first.
    Crc16,
}

/// The two block payload lengths the protocol knows.
#[derive(Clone, Copy, Debug, PartialEq, Eq, Structural)]
pub enum BlockLengthKind {
    /// 128-octet payloads, framed with `SOH`.
    Standard,
    /// 1024-octet payloads, framed with `STX`.
    OneK,
}

impl Default for ChecksumKind {
    fn default() -> (r: Self)
        ensures
            r == ChecksumKind::Standard,
    {
        ChecksumKind::Standard
    }
}

impl Default for BlockLengthKind {
    fn default() -> (r: Self)
        ensures
            r == BlockLengthKind::Standard,
    {
        BlockLengthKind::Standard
    }
}

impl BlockLengthKind {
    /// The payload length in octets.
    pub open spec fn spec_len(self) -> int {
        match self {
            BlockLengthKind::Standard => 128,
            BlockLengthKind::OneK => 1024,
        }
    }

    /// The payload length in octets.
    pub fn len(&self) -> (r: usize)
        ensures
            r as int == self.spec_len(),
    {
        match self {
            BlockLengthKind::Standard => 128,
            BlockLengthKind::OneK => 1024,
        }
    }
}

/// How a transfer can fail.
#[derive(Clone, Copy, Debug, PartialEq, Eq, Structural)]
pub enum ModemError {
    /// The channel failed outside the protocol: a non-timeout read error, or
    /// a timeout in the middle of a frame, where only octets may follow.
    Io(ChanError),
    /// The accumulated protocol-error count reached the configured maximum.
    ExhaustedRetries {
        /// The value of the error counter when the transfer gave up.
        errors: u32,
    },
    /// The peer sent two cancel octets, or a block failed its sequence check.
    Canceled,
}

impl ModemError {
    /// A short description of the failure.
    pub fn describe(&self) -> &'static str {
        match self {
            ModemError::Io(ChanError::TimedOut) => "channel timed out mid-frame",
            ModemError::Io(ChanError::Broken) => "channel I/O failure",
            ModemError::ExhaustedRetries { errors: _ } => "too many protocol errors",
            ModemError::Canceled => "canceled by the peer",
        }
    }
}

/// The result type the transfer engines return.
pub type ModemResult<T> = Result<T, ModemError>;

/// The wrapping 8-bit sum of a sequence of octets.
pub open spec fn sum8(s: Seq<u8>) -> u8
    decreases s.len(),
{
    if s.len() == 0 {
        0u8
    } else {
        ((sum8(s.drop_last()) + s.last()) % 256) as u8
    }
}

/// Calculate the single-octet standard checksum: the wrapping 8-bit sum.
pub fn calc_checksum(data: &[u8]) -> (r: u8)
    ensures
        r == sum8(data@),
{
    let mut acc: u8 = 0;
    let mut i: usize = 0;
    while i < data.len()
        invariant
            i <= data@.len(),
            acc == sum8(data@.take(i as int)),
        decreases data@.len() - i,
    {
        proof {
            assert(data@.take(i + 1).drop_last() =~= data@.take(i as int));
            assert(data@.take(i + 1).last() == data@[i as int]);
        }
        acc = acc.wrapping_add(data[i]);
        i = i + 1;
    }
    proof {
        assert(data@.take(data@.len() as int) =~= data@);
    }
    acc
}

/// CRC-16/XMODEM of a sequence of octets: polynomial 0x1021, initial value
/// 0, no reflection, no final exclusive-or.  The value is fixed by the
/// octets alone; it is not written out here.
pub uninterp spec fn crc16_of(s: Seq<u8>) -> u16;

/// Calculate CRC-16/XMODEM of `data`.
///
/// Relies on `crc16::State::<crc16::XMODEM>::calculate`: a table-driven
/// CRC-16 with polynomial 0x1021, initial value 0 and no reflection, a pure
/// function of the octets given to it.
#[verifier::external_body]
pub fn calc_crc(data: &[u8]) -> (r: u16)
    ensures
        r == crc16_of(data@),
{
    crc16::State::<crc16::XMODEM>::calculate(data)
}

/// The read result a single event stands for.
pub open spec fn event_result(ev: ReadEvent) -> Result<u8, ChanError> {
    match ev {
        ReadEvent::Byte(b) => Ok(b),
        ReadEvent::TimedOut => Err(ChanError::TimedOut),
        ReadEvent::Fault => Err(ChanError::Broken),
    }
}

/// Read one octet; a timeout is an error here, as in the middle of a frame.
pub fn get_byte<C: Channel>(dev: &mut C) -> (r: Result<u8, ChanError>)
    ensures
        final(dev).written() == old(dev).written(),
        final(dev).incoming() == next_event(old(dev).incoming()).1,
        r == event_result(next_event(old(dev).incoming()).0),
{
    match dev.poll() {
        ReadEvent::Byte(b) => Ok(b),
        ReadEvent::TimedOut => Err(ChanError::TimedOut),
        ReadEvent::Fault => Err(ChanError::Broken),
    }
}

/// Read one octet, turning a timeout into `Ok(None)`.
pub fn get_byte_timeout<C: Channel>(dev: &mut C) -> (r: Result<Option<u8>, ChanError>)
    ensures
        final(dev).written() == old(dev).written(),
        final(dev).incoming() == next_event(old(dev).incoming()).1,
        r == match next_event(old(dev).incoming()).0 {
            ReadEvent::Byte(b) => Ok::<Option<u8>, ChanError>(Some(b)),
            ReadEvent::TimedOut => Ok::<Option<u8>, ChanError>(None),
            ReadEvent::Fault => Err::<Option<u8>, ChanError>(ChanError::Broken),
        },
{
    match get_byte(dev) {
        Ok(c) => Ok(Some(c)),
        Err(err) => {
            if err == ChanError::TimedOut {
                Ok(None)
            } else {
                Err(err)
            }
        }
    }
}

/// The octets the next `n` events carry, or the first failure among them,
/// together with the events that remain afterwards.
pub open spec fn take_bytes(s: Seq<ReadEvent>, n: nat) -> (Result<Seq<u8>, ChanError>, Seq<
    ReadEvent,
>)
    decreases n,
{
    if n == 0 {
        (Ok(Seq::empty()), s)
    } else {
        let ev = next_event(s).0;
        let rest = next_event(s).1;
        match ev {
            ReadEvent::Byte(b) => {
                let t = take_bytes(rest, (n - 1) as nat);
                match t.0 {
                    Ok(bs) => (Ok(seq![b] + bs), t.1),
                    Err(e) => (Err(e), t.1),
                }
            }
            ReadEvent::TimedOut => (Err(ChanError::TimedOut), rest),
            ReadEvent::Fault => (Err(ChanError::Broken), rest),
        }
    }
}

/// Read exactly `n` octets, failing on the first timeout or fault.
pub fn read_exact<C: Channel>(dev: &mut C, n: usize) -> (r: Result<Vec<u8>, ChanError>)
    ensures
        final(dev).written() == old(dev).written(),
        final(dev).incoming() == take_bytes(old(dev).incoming(), n as nat).1,
        match take_bytes(old(dev).incoming(), n as nat).0 {
            Ok(bs) => r matches Ok(v) && v@ == bs,
            Err(e) => r == Err::<Vec<u8>, ChanError>(e),
        },
{
    let mut acc: Vec<u8> = Vec::new();
    let mut i: usize = 0;
    while i < n
        invariant
            i <= n,
            acc@.len() == i as int,
            dev.written() == old(dev).written(),
            ({
                let t0 = take_bytes(old(dev).incoming(), n as nat);
                let t = take_bytes(dev.incoming(), (n - i) as nat);
                t0.1 == t.1 && match t.0 {
                    Ok(bs) => t0.0 == Ok::<Seq<u8>, ChanError>(acc@ + bs),
                    Err(e) => t0.0 == Err::<Seq<u8>, ChanError>(e),
                }
            }),
        decreases n - i,
    {
        let ghost prev = dev.incoming();
        match get_byte(dev) {
            Ok(b) => {
                proof {
                    let cur = take_bytes(dev.incoming(), (n - i - 1) as nat);
                    match cur.0 {
                        Ok(bs) => {
                            assert(acc@ + (seq![b] + bs) =~= (acc@ + seq![b]) + bs);
                            assert(acc@.push(b) =~= acc@ + seq![b]);
                        }
                        Err(_) => {}
                    }
                }
                acc.push(b);
                i = i + 1;
            }
            Err(e) => {
                return Err(e);
            }
        }
    }
    proof {
        assert(acc@ + Seq::<u8>::empty() =~= acc@);
    }
    Ok(acc)
}

/// Wait for the receiver's opening request octet: `C` selects CRC-16
/// trailers, and, when `accept_nak` holds, `NAK` selects the standard
/// checksum.  Every other octet or timeout costs one protocol error; two
/// cancel octets cancel the phase; when the error count reaches `max`, one
/// best-effort `CAN` is written and the phase gives up.
pub fn negotiate_start<C: Channel>(
    dev: &mut C,
    accept_nak: bool,
    errors: &mut u32,
    max: u32,
) -> (r: NegotiateResult)
    requires
        *old(errors) <= max,
        max < u32::MAX,
    ensures
        ({
            let o = negotiate(old(dev).incoming(), accept_nak, 0, *old(errors) as int, max as int);
            &&& final(dev).incoming() == o.rest
            &&& final(dev).written() == old(dev).written() + o.sent
            &&& *final(errors) as int == o.errors
            &&& r == o.result
        }),
{
    let ghost s0 = old(dev).incoming();
    let ghost w0 = old(dev).written();
    let mut cancels: u32 = 0;
    proof {
        assert(w0 + Seq::<u8>::empty() =~= w0);
    }
    loop
        invariant
            s0 == old(dev).incoming(),
            w0 == old(dev).written(),
            *errors <= max,
            max < u32::MAX,
            cancels < 2,
            dev.written() == w0,
            negotiate(s0, accept_nak, 0, *old(errors) as int, max as int) == negotiate(
                dev.incoming(),
                accept_nak,
                cancels as int,
                *errors as int,
                max as int,
            ),
        decreases dev.incoming().len(), max - *errors,
    {
        match get_byte_timeout(dev) {
            Err(_) => {
                proof {
                    assert(w0 + Seq::<u8>::empty() =~= w0);
                }
                return NegotiateResult::Fault;
            }
            Ok(Some(c)) => {
                if accept_nak && c == NAK {
                    proof {
                        assert(w0 + Seq::<u8>::empty() =~= w0);
                    }
                    return NegotiateResult::Standard;
                } else if c == CRC {
                    proof {
                        assert(w0 + Seq::<u8>::empty() =~= w0);
                    }
                    return NegotiateResult::Crc;
                } else if c == CAN {
                    cancels = cancels + 1;
                }
            }
            Ok(None) => {}
        }

        *errors = *errors + 1;

        if cancels >= 2 {
            proof {
                assert(w0 + Seq::<u8>::empty() =~= w0);
            }
            return NegotiateResult::Canceled;
        }

        if *errors >= max {
            dev.write_byte(CAN);
            proof {
                assert(w0.push(CAN) =~= w0 + seq![CAN]);
            }
            return NegotiateResult::Exhausted;
        }
    }
}

/// Write `attempt` and wait for the single octet `target`, rewriting
/// `attempt` after every unexpected octet or timeout; each retry costs one
/// protocol error, and reaching `max` gives up.
pub fn await_octet<C: Channel>(
    dev: &mut C,
    target: u8,
    attempt: &Vec<u8>,
    errors: &mut u32,
    max: u32,
) -> (r: AwaitResult)
    requires
        *old(errors) <= max,
        max < u32::MAX,
    ensures
        ({
            let o = await_byte(old(dev).incoming(), target, attempt@, *old(errors) as int, max as int);
            &&& final(dev).incoming() == o.rest
            &&& final(dev).written() == old(dev).written() + o.sent
            &&& *final(errors) as int == o.errors
            &&& r == o.result
        }),
{
    let ghost s0 = old(dev).incoming();
    let ghost w0 = old(dev).written();
    let ghost mut sent_acc: Seq<u8> = Seq::empty();
    proof {
        let outer = await_byte(s0, target, attempt@, *old(errors) as int, max as int);
        assert(sent_acc + outer.sent =~= outer.sent);
        assert(w0 + sent_acc =~= w0);
    }
    loop
        invariant
            s0 == old(dev).incoming(),
            w0 == old(dev).written(),
            *errors <= max,
            max < u32::MAX,
            dev.written() == w0 + sent_acc,
            ({
                let outer = await_byte(s0, target, attempt@, *old(errors) as int, max as int);
                let inner = await_byte(dev.incoming(), target, attempt@, *errors as int, max as int);
                outer.result == inner.result && outer.errors == inner.errors && outer.rest
                    == inner.rest && outer.sent == sent_acc + inner.sent
            }),
        decreases dev.incoming().len(), max - *errors,
    {
        let ghost e_head = *errors as int;
        let ghost a_old = sent_acc;
        write_all(dev, attempt);
        proof {
            sent_acc = sent_acc + attempt@;
            assert(dev.written() =~= w0 + sent_acc);
        }
        let ghost s_head = dev.incoming();
        match get_byte_timeout(dev) {
            Err(_) => {
                proof {
                    let inner_head = await_byte(s_head, target, attempt@, e_head, max as int);
                    assert(inner_head.sent =~= attempt@);
                    assert(a_old + attempt@ =~= sent_acc);
                }
                return AwaitResult::Fault;
            }
            Ok(Some(c)) => {
                if c == target {
                    proof {
                        let inner_head = await_byte(s_head, target, attempt@, e_head, max as int);
                        assert(inner_head.sent =~= attempt@);
                        assert(a_old + attempt@ =~= sent_acc);
                    }
                    return AwaitResult::Got;
                }
            }
            Ok(None) => {}
        }

        *errors = *errors + 1;

        if *errors >= max {
            proof {
                let inner_head = await_byte(s_head, target, attempt@, e_head, max as int);
                assert(inner_head.sent =~= attempt@);
                assert(a_old + attempt@ =~= sent_acc);
            }
            return AwaitResult::Exhausted;
        }
        proof {
            let inner_head = await_byte(s_head, target, attempt@, e_head, max as int);
            let inner_now = await_byte(dev.incoming(), target, attempt@, *errors as int, max as int);
            assert(inner_head.sent =~= attempt@ + inner_now.sent);
            assert(a_old + (attempt@ + inner_now.sent) =~= sent_acc + inner_now.sent);
        }
    }
}

/// The receiver's packet loop, shared by the engines.  The caller has
/// already sent the opening request octet that chose `crc`.  The second
/// component of the result is the channel error behind a `Fault` verdict.
#[verifier::rlimit(60)]
pub fn recv_core<C: Channel, W: ByteSink>(
    dev: &mut C,
    out: &mut W,
    crc: bool,
    errors: &mut u32,
    max: u32,
) -> (r: (RecvResult, ChanError))
    requires
        *old(errors) <= max,
        max < u32::MAX,
    ensures
        ({
            let o = xmodem_recv(old(dev).incoming(), 1u8, *old(errors) as int, max as int, crc);
            &&& final(dev).incoming() == o.rest
            &&& final(dev).written() == old(dev).written() + o.sent
            &&& final(out).received() == old(out).received() + o.delivered
            &&& *final(errors) as int == o.errors
            &&& r.0 == o.result
            &&& r.1 == o.fault
        }),
{
    let ghost s0 = old(dev).incoming();
    let ghost w0 = old(dev).written();
    let ghost r0 = old(out).received();
    let ghost mut sent_acc: Seq<u8> = Seq::empty();
    let ghost mut deliv_acc: Seq<u8> = Seq::empty();
    let mut packet_num: u8 = 1;
    proof {
        let outer = xmodem_recv(s0, 1u8, *old(errors) as int, max as int, crc);
        assert(sent_acc + outer.sent =~= outer.sent);
        assert(deliv_acc + outer.delivered =~= outer.delivered);
        assert(w0 + sent_acc =~= w0);
        assert(r0 + deliv_acc =~= r0);
    }
    loop
        invariant
            s0 == old(dev).incoming(),
            w0 == old(dev).written(),
            r0 == old(out).received(),
            *errors <= max,
            max < u32::MAX,
            dev.written() == w0 + sent_acc,
            out.received() == r0 + deliv_acc,
            ({
                let outer = xmodem_recv(s0, 1u8, *old(errors) as int, max as int, crc);
                let inner = xmodem_recv(dev.incoming(), packet_num, *errors as int, max as int, crc);
                outer.result == inner.result && outer.fault == inner.fault && outer.errors
                    == inner.errors && outer.rest == inner.rest && outer.sent == sent_acc
                    + inner.sent && outer.delivered == deliv_acc + inner.delivered
            }),
        decreases dev.incoming().len(), max - *errors,
    {
        let ghost s_head = dev.incoming();
        let ghost e_head = *errors as int;
        let ghost a_old = sent_acc;
        let ghost d_old = deliv_acc;
        let ghost inner_head = xmodem_recv(s_head, packet_num, e_head, max as int, crc);
        match get_byte_timeout(dev) {
            Err(_) => {
                proof {
                    assert(a_old + inner_head.sent =~= a_old);
                    assert(d_old + inner_head.delivered =~= d_old);
                }
                return (RecvResult::Fault, ChanError::Broken);
            }
            Ok(Some(b)) => {
                if b == SOH || b == STX {
                    let size: usize = if b == SOH {
                        128
                    } else {
                        1024
                    };
                    let tl: usize = if crc {
                        2
                    } else {
                        1
                    };
                    let ghost mid = dev.incoming();
                    proof {
                        lemma_take_bytes_len(mid, (2 + size + tl) as nat);
                    }
                    match read_exact(dev, 2 + size + tl) {
                        Err(e) => {
                            proof {
                                assert(a_old + inner_head.sent =~= a_old);
                                assert(d_old + inner_head.delivered =~= d_old);
                            }
                            return (RecvResult::Fault, e);
                        }
                        Ok(bytes) => {
                            let pnum = bytes[0];
                            let comp = bytes[1];
                            let mut payload: Vec<u8> = Vec::new();
                            let mut i: usize = 0;
                            while i < size
                                invariant
                                    i <= size,
                                    size <= 1024,
                                    tl <= 2,
                                    bytes@.len() == 2 + size + tl,
                                    payload@ == bytes@.subrange(2, 2 + i as int),
                                decreases size - i,
                            {
                                proof {
                                    assert(bytes@.subrange(2, 2 + (i + 1) as int) =~= bytes@
                                        .subrange(2, 2 + i as int).push(bytes@[2 + i as int]));
                                }
                                payload.push(bytes[2 + i]);
                                i = i + 1;
                            }
                            let good = if crc {
                                let hi = bytes[2 + size];
                                let lo = bytes[2 + size + 1];
                                let rc = (hi as u16) * 256 + (lo as u16);
                                calc_crc(payload.as_slice()) == rc
                            } else {
                                let c0 = bytes[2 + size];
                                calc_checksum(payload.as_slice()) == c0
                            };
                            proof {
                                let tbytes = bytes@.subrange(2 + size as int, 2 + size as int + tl as int);
                                assert(good == trailer_matches(crc, payload@, tbytes));
                            }
                            let cancel = pnum != packet_num || 255 - pnum != comp;
                            if cancel {
                                dev.write_byte(CAN);
                                dev.write_byte(CAN);
                                proof {
                                    assert(a_old + inner_head.sent =~= a_old + seq![CAN, CAN]);
                                    assert(d_old + inner_head.delivered =~= d_old);
                                    assert(dev.written() =~= w0 + (a_old + seq![CAN, CAN]));
                                }
                                return (RecvResult::Canceled, ChanError::TimedOut);
                            }
                            if good {
                                packet_num = packet_num.wrapping_add(1);
                                dev.write_byte(ACK);
                                out.put(&payload);
                                proof {
                                    sent_acc = sent_acc + seq![ACK];
                                    deliv_acc = deliv_acc + payload@;
                                    assert(dev.written() =~= w0 + sent_acc);
                                    assert(out.received() =~= r0 + deliv_acc);
                                }
                                if *errors >= max {
                                    dev.write_byte(CAN);
                                    proof {
                                        assert(a_old + inner_head.sent =~= a_old + seq![ACK, CAN]);
                                        assert(d_old + inner_head.delivered =~= deliv_acc);
                                        assert(dev.written() =~= w0 + (a_old + seq![ACK, CAN]));
                                    }
                                    return (RecvResult::Exhausted, ChanError::TimedOut);
                                }
                                proof {
                                    let inner_next = xmodem_recv(
                                        dev.incoming(),
                                        packet_num,
                                        *errors as int,
                                        max as int,
                                        crc,
                                    );
                                    assert(a_old + (seq![ACK] + inner_next.sent) =~= sent_acc
                                        + inner_next.sent);
                                    assert(d_old + (payload@ + inner_next.delivered) =~= deliv_acc
                                        + inner_next.delivered);
                                }
                            } else {
                                dev.write_byte(NAK);
                                *errors = *errors + 1;
                                proof {
                                    sent_acc = sent_acc + seq![NAK];
                                    assert(dev.written() =~= w0 + sent_acc);
                                }
                                if *errors >= max {
                                    dev.write_byte(CAN);
                                    proof {
                                        assert(a_old + inner_head.sent =~= a_old + seq![NAK, CAN]);
                                        assert(d_old + inner_head.delivered =~= deliv_acc);
                                        assert(dev.written() =~= w0 + (a_old + seq![NAK, CAN]));
                                    }
                                    return (RecvResult::Exhausted, ChanError::TimedOut);
                                }
                                proof {
                                    let inner_next = xmodem_recv(
                                        dev.incoming(),
                                        packet_num,
                                        *errors as int,
                                        max as int,
                                        crc,
                                    );
                                    assert(a_old + (seq![NAK] + inner_next.sent) =~= sent_acc
                                        + inner_next.sent);
                                    assert(d_old + inner_next.delivered =~= deliv_acc
                                        + inner_next.delivered);
                                }
                            }
                        }
                    }
                } else if b == EOT {
                    dev.write_byte(ACK);
                    proof {
                        assert(a_old + inner_head.sent =~= a_old + seq![ACK]);
                        assert(d_old + inner_head.delivered =~= d_old);
                        assert(dev.written() =~= w0 + (a_old + seq![ACK]));
                    }
                    return (RecvResult::Done, ChanError::TimedOut);
                } else {
                    if *errors >= max {
                        dev.write_byte(CAN);
                        proof {
                            assert(a_old + inner_head.sent =~= a_old + seq![CAN]);
                            assert(d_old + inner_head.delivered =~= d_old);
                            assert(dev.written() =~= w0 + (a_old + seq![CAN]));
                        }
                        return (RecvResult::Exhausted, ChanError::TimedOut);
                    }
                }
            }
            Ok(None) => {
                *errors = *errors + 1;
                if *errors >= max {
                    dev.write_byte(CAN);
                    proof {
                        assert(a_old + inner_head.sent =~= a_old + seq![CAN]);
                        assert(d_old + inner_head.delivered =~= d_old);
                        assert(dev.written() =~= w0 + (a_old + seq![CAN]));
                    }
                    return (RecvResult::Exhausted, ChanError::TimedOut);
                }
            }
        }
    }
}

/// Assemble one framed block: the header octet chosen by the payload
/// length, the sequence octet, its complement, the payload, and the CRC-16
/// or wrapping-sum trailer.
pub fn build_frame(seq_byte: u8, payload: &Vec<u8>, crc: bool) -> (r: Vec<u8>)
    ensures
        r@ == frame_for(seq_byte, payload@, crc),
{
    let mut frame: Vec<u8> = Vec::new();
    frame.push(if payload.len() == 128 {
        SOH
    } else {
        STX
    });
    frame.push(seq_byte);
    frame.push(255 - seq_byte);
    let ghost head = seq![
        if payload@.len() == 128 { SOH } else { STX },
        seq_byte,
        (255 - seq_byte) as u8,
    ];
    proof {
        assert(frame@ =~= head + payload@.take(0));
    }
    let mut i: usize = 0;
    while i < payload.len()
        invariant
            i <= payload@.len(),
            frame@.len() == 3 + i as int,
            frame@ == head + payload@.take(i as int),
        decreases payload@.len() - i,
    {
        proof {
            assert(payload@.take(i + 1) =~= payload@.take(i as int).push(payload@[i as int]));
            assert((head + payload@.take(i as int)).push(payload@[i as int]) =~= head
                + payload@.take(i + 1));
        }
        frame.push(payload[i]);
        i = i + 1;
    }
    if crc {
        let crc16v = calc_crc(payload.as_slice());
        proof {
            assert(crc16v >> 8 == crc16v / 256 && (crc16v & 0xFF) == crc16v % 256) by (bit_vector);
        }
        frame.push((crc16v >> 8) as u8);
        frame.push((crc16v & 0xFF) as u8);
    } else {
        let cks = calc_checksum(payload.as_slice());
        frame.push(cks);
    }
    proof {
        assert(payload@.take(payload@.len() as int) =~= payload@);
        assert(frame@ =~= frame_for(seq_byte, payload@, crc));
    }
    frame
}

/// The sender's streaming phase, shared by the engines: while payload
/// octets remain, frame the next `bl` of them (the last block padded with
/// `pad`), write the frame, and await an acknowledgement for each,
/// resending the same frame after every unexpected octet or timeout.
#[verifier::loop_isolation(false)]
#[verifier::rlimit(60)]
pub fn stream_core<C: Channel, S: ByteSource>(
    dev: &mut C,
    stream: &mut S,
    crc: bool,
    bl: usize,
    pad: u8,
    errors: &mut u32,
    max: u32,
) -> (r: StreamResult)
    requires
        *old(errors) <= max,
        max < u32::MAX,
        bl == 128 || bl == 1024,
    ensures
        ({
            let o = xmodem_stream(
                old(stream).remaining(),
                1u8,
                old(dev).incoming(),
                *old(errors) as int,
                max as int,
                crc,
                bl as int,
                pad,
            );
            &&& final(dev).incoming() == o.rest
            &&& final(dev).written() == old(dev).written() + o.sent
            &&& final(stream).remaining() == o.data_left
            &&& *final(errors) as int == o.errors
            &&& r == o.result
        }),
    {
        let ghost d0 = old(stream).remaining();
        let ghost s0 = old(dev).incoming();
        let ghost w0 = old(dev).written();
        let ghost e0 = *old(errors) as int;
        let ghost maxg = max as int;
        let ghost crcg = crc;
        let ghost blg = bl as int;
        let ghost padg = pad;
        let mut seq_next: u8 = 1;
        let ghost mut sent_acc: Seq<u8> = Seq::empty();
        proof {
            let outer = xmodem_stream(d0, 1u8, s0, e0, maxg, crcg, blg, padg);
            assert(sent_acc + outer.sent =~= outer.sent);
            assert(w0 + sent_acc =~= w0);
        }
        loop
            invariant
                *errors <= max,
                dev.written() == w0 + sent_acc,
                ({
                    let outer = xmodem_stream(d0, 1u8, s0, e0, maxg, crcg, blg, padg);
                    let inner = xmodem_stream(
                        stream.remaining(),
                        seq_next,
                        dev.incoming(),
                        *errors as int,
                        maxg,
                        crcg,
                        blg,
                        padg,
                    );
                    outer.result == inner.result && outer.errors == inner.errors && outer.rest
                        == inner.rest && outer.data_left == inner.data_left && outer.sent
                        == sent_acc + inner.sent
                }),
            decreases stream.remaining().len(),
        {
            let ghost data_head = stream.remaining();
            let ghost s_head = dev.incoming();
            let ghost e_head = *errors as int;
            let ghost a_old = sent_acc;
            let ghost inner_head = xmodem_stream(
                data_head,
                seq_next,
                s_head,
                e_head,
                maxg,
                crcg,
                blg,
                padg,
            );
            let bl_len = bl;
            let chunk = stream.read_chunk(bl_len);
            if chunk.len() == 0 {
                proof {
                    assert(data_head =~= Seq::<u8>::empty());
                    assert(a_old + inner_head.sent =~= a_old);
                }
                return StreamResult::Done;
            }
            let ghost chunk0 = chunk@;
            let mut payload = chunk;
            while payload.len() < bl_len
                invariant
                    chunk0.len() <= payload@.len() <= bl_len as int,
                    payload@.take(chunk0.len() as int) == chunk0,
                    forall|j: int|
                        chunk0.len() <= j < payload@.len() ==> payload@[j] == pad,
                decreases bl_len - payload@.len(),
            {
                proof {
                    assert(payload@.push(pad).take(chunk0.len() as int) =~= payload@.take(
                        chunk0.len() as int,
                    ));
                }
                payload.push(pad);
            }
            proof {
                assert(payload@ =~= pad_to(chunk0, blg, padg));
            }
            let seq_byte = seq_next;
            let comp = 255 - seq_byte;
            let mut frame: Vec<u8> = Vec::new();
            frame.push(if bl == 128 {
                SOH
            } else {
                STX
            });
            frame.push(seq_byte);
            frame.push(comp);
            let mut i: usize = 0;
            while i < payload.len()
                invariant
                    i <= payload@.len(),
                    frame@.len() == 3 + i as int,
                    frame@ == seq![
                        if payload@.len() == 128 { SOH } else { STX },
                        seq_byte,
                        (255 - seq_byte) as u8,
                    ] + payload@.take(i as int),
                decreases payload@.len() - i,
            {
                proof {
                    assert(payload@.take(i + 1) =~= payload@.take(i as int).push(
                        payload@[i as int],
                    ));
                    assert((seq![
                        if payload@.len() == 128 { SOH } else { STX },
                        seq_byte,
                        (255 - seq_byte) as u8,
                    ] + payload@.take(i as int)).push(payload@[i as int]) =~= seq![
                        if payload@.len() == 128 { SOH } else { STX },
                        seq_byte,
                        (255 - seq_byte) as u8,
                    ] + payload@.take(i + 1));
                }
                frame.push(payload[i]);
                i = i + 1;
            }
            if crc {
                let crc16v = calc_crc(payload.as_slice());
                proof {
                    assert(crc16v >> 8 == crc16v / 256 && (crc16v & 0xFF) == crc16v % 256)
                        by (bit_vector);
                }
                frame.push((crc16v >> 8) as u8);
                frame.push((crc16v & 0xFF) as u8);
            } else {
                let cks = calc_checksum(payload.as_slice());
                frame.push(cks);
            }
            proof {
                assert(payload@.take(payload@.len() as int) =~= payload@);
                assert(frame@ =~= frame_for(seq_byte, payload@, crcg));
            }
            let res = await_octet(dev, ACK, &frame, errors, max);
            let ghost ob = await_byte(s_head, ACK, frame@, e_head, maxg);
            match res {
                AwaitResult::Got => {
                    seq_next = seq_next.wrapping_add(1);
                    proof {
                        lemma_await_byte_got_bound(s_head, ACK, frame@, e_head, maxg);
                        sent_acc = sent_acc + ob.sent;
                        assert(dev.written() =~= w0 + sent_acc);
                        let inner_next = xmodem_stream(
                            stream.remaining(),
                            seq_next,
                            dev.incoming(),
                            *errors as int,
                            maxg,
                            crcg,
                            blg,
                            padg,
                        );
                        assert(a_old + (ob.sent + inner_next.sent) =~= sent_acc + inner_next.sent);
                    }
                }
                AwaitResult::Exhausted => {
                    proof {
                        sent_acc = sent_acc + ob.sent;
                        assert(dev.written() =~= w0 + sent_acc);
                        assert(a_old + inner_head.sent =~= sent_acc);
                    }
                    return StreamResult::Exhausted;
                }
                AwaitResult::Fault => {
                    proof {
                        sent_acc = sent_acc + ob.sent;
                        assert(dev.written() =~= w0 + sent_acc);
                        assert(a_old + inner_head.sent =~= sent_acc);
                    }
                    return StreamResult::Fault;
                }
            }
        }
    }

/// The constructor every engine offers.
pub trait ModemTrait {
    /// A new engine with the default configuration.
    fn new() -> Self where Self: Sized;
}

} // verus!
