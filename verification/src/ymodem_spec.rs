//! The mathematical model of the YMODEM protocol: the header block, the
//! file-size field, the block-size schedule, and the outcome of each engine
//! phase as a function of the channel script.

use vstd::prelude::*;

use crate::chan::{ChanError, ReadEvent, next_event};
use crate::common::take_bytes;
use crate::model::{
    AwaitResult, RecvResult, SendResult, StreamOut, StreamResult, await_byte, frame_for,
    lemma_take_bytes_len, negotiate, pad_to, trailer_matches,
};
use crate::model::NegotiateResult;
use crate::variants::xmodem::consts::{ACK, CAN, CRC, EOT, NAK, SOH, STX};

verus! {

/// The octet for one hexadecimal digit, lowercase.
pub open spec fn hex_digit(d: int) -> u8 {
    if d < 10 {
        (0x30 + d) as u8
    } else {
        (0x61 + (d - 10)) as u8
    }
}

/// A number written in lowercase hexadecimal, without leading zeros.
pub open spec fn hex_digits(n: nat) -> Seq<u8>
    decreases n,
{
    if n < 16 {
        seq![hex_digit(n as int)]
    } else {
        hex_digits(n / 16) + seq![hex_digit((n % 16) as int)]
    }
}

/// `n` zero octets.
pub open spec fn zeros(n: int) -> Seq<u8> {
    Seq::new(n as nat, |i: int| 0u8)
}

/// The 128-octet payload of a YMODEM header block: the filename, one NUL,
/// the file size in lowercase hexadecimal, one NUL, and zero padding.
pub open spec fn ymodem_header_payload(name: Seq<u8>, size: u64) -> Seq<u8> {
    let head = name + seq![0u8] + hex_digits(size as nat) + seq![0u8];
    head + zeros(128 - head.len())
}

/// How many data blocks a file of `size` octets needs, by ceiling division
/// into 1024-octet blocks.
pub open spec fn ymodem_packets(size: u64) -> int {
    size as int / 1024 + (if size as int % 1024 == 0 {
        0int
    } else {
        1int
    })
}

/// The payload length of the next block: 128 octets only for the last block
/// of a file whose final fragment fits in it, else 1024.
pub open spec fn ymodem_block_size(packets_left: int, last: int) -> int {
    if packets_left == 1 && last <= 128 {
        128
    } else {
        1024
    }
}

/// The receiver's opening handshake: each attempt writes `C` and polls once.
/// `SOH` ends the handshake; any other octet is ignored; a timeout counts
/// one initial error, and exceeding `max_initial` gives up.
pub ghost struct HandshakeOut {
    /// The verdict.
    pub result: AwaitResult,
    /// The initial-error counter afterwards.
    pub initial_errors: int,
    /// The events left unread.
    pub rest: Seq<ReadEvent>,
    /// The octets written during the phase.
    pub sent: Seq<u8>,
}

/// The outcome of the receiver's opening handshake.
pub open spec fn ymodem_handshake(s: Seq<ReadEvent>, initial: int, max_initial: int) -> HandshakeOut
    decreases s.len(), (if initial <= max_initial { max_initial + 1 - initial } else { 0 }),
{
    let ev = next_event(s).0;
    let rest = next_event(s).1;
    match ev {
        ReadEvent::Fault => HandshakeOut {
            result: AwaitResult::Fault,
            initial_errors: initial,
            rest,
            sent: seq![CRC],
        },
        ReadEvent::Byte(b) => {
            if b == SOH {
                HandshakeOut {
                    result: AwaitResult::Got,
                    initial_errors: initial,
                    rest,
                    sent: seq![CRC],
                }
            } else {
                let o = ymodem_handshake(rest, initial, max_initial);
                HandshakeOut {
                    result: o.result,
                    initial_errors: o.initial_errors,
                    rest: o.rest,
                    sent: seq![CRC] + o.sent,
                }
            }
        }
        ReadEvent::TimedOut => {
            let i2 = initial + 1;
            if i2 > max_initial {
                HandshakeOut {
                    result: AwaitResult::Exhausted,
                    initial_errors: i2,
                    rest,
                    sent: seq![CRC],
                }
            } else {
                let o = ymodem_handshake(rest, i2, max_initial);
                HandshakeOut {
                    result: o.result,
                    initial_errors: o.initial_errors,
                    rest: o.rest,
                    sent: seq![CRC] + o.sent,
                }
            }
        }
    }
}

/// Whether an octet is an ASCII decimal digit.
pub open spec fn ascii_digit(b: u8) -> bool {
    0x30 <= b <= 0x39
}

/// The digits of a field, with everything else dropped.
pub open spec fn digits_filter(s: Seq<u8>) -> Seq<u8>
    decreases s.len(),
{
    if s.len() == 0 {
        Seq::empty()
    } else {
        (if ascii_digit(s[0]) {
            seq![s[0]]
        } else {
            Seq::empty()
        }) + digits_filter(s.drop_first())
    }
}

/// Whether every octet of a field is an ASCII decimal digit.
pub open spec fn all_digits(s: Seq<u8>) -> bool {
    forall|i: int| 0 <= i < s.len() ==> ascii_digit(s[i])
}

/// The number a field of decimal digits writes.
pub open spec fn dec_value(s: Seq<u8>) -> int
    decreases s.len(),
{
    if s.len() == 0 {
        0
    } else {
        dec_value(s.drop_last()) * 10 + (s.last() - 0x30)
    }
}

/// The prefix of a field before the first occurrence of `b`; the whole
/// field when `b` does not occur.
pub open spec fn until_byte(s: Seq<u8>, b: u8) -> Seq<u8>
    decreases s.len(),
{
    if s.len() == 0 {
        s
    } else if s[0] == b {
        Seq::empty()
    } else {
        seq![s[0]] + until_byte(s.drop_first(), b)
    }
}

/// The filename and file-size fields of a header payload: the filename runs
/// to the first NUL, the size field runs from there to the next NUL.
pub open spec fn header_fields(payload: Seq<u8>) -> (Seq<u8>, Seq<u8>) {
    let name = until_byte(payload, 0);
    let rest = if name.len() < payload.len() {
        payload.skip(name.len() as int + 1)
    } else {
        Seq::empty()
    };
    (name, until_byte(rest, 0))
}

/// A nonempty all-digit field below the 32-bit bound, as a number.
pub open spec fn parse_decimal(s: Seq<u8>) -> Option<u32> {
    if s.len() > 0 && all_digits(s) && dec_value(s) <= u32::MAX {
        Some(dec_value(s) as u32)
    } else {
        None
    }
}

/// The file size a header's size field names: the field itself (first
/// filtered to its digits when `ignore_non_digits` is set) parsed as an
/// unsigned decimal number, or, failing that, its prefix up to the first
/// space.
pub open spec fn parse_size(field: Seq<u8>, ignore_non_digits: bool) -> Option<u32> {
    let f = if ignore_non_digits {
        digits_filter(field)
    } else {
        field
    };
    match parse_decimal(f) {
        Some(v) => Some(v),
        None => parse_decimal(until_byte(f, 0x20)),
    }
}

/// The YMODEM sender's streaming phase: like the XMODEM one, but with the
/// trailer always CRC-16 and the payload length of each block chosen by the
/// schedule: 128 octets only for the last scheduled block of a file whose
/// final fragment fits in it.  The sequence octet starts at `seq_byte` and
/// wraps modulo 256.
pub open spec fn ymodem_stream(
    data: Seq<u8>,
    seq_byte: u8,
    packets_left: int,
    last: int,
    s: Seq<ReadEvent>,
    errors: int,
    max: int,
    pad: u8,
) -> StreamOut
    decreases data.len(),
{
    if data.len() == 0 {
        StreamOut {
            result: StreamResult::Done,
            errors,
            rest: s,
            sent: Seq::empty(),
            data_left: data,
        }
    } else {
        let bl = ymodem_block_size(packets_left, last);
        let take = if data.len() >= bl {
            bl
        } else {
            data.len() as int
        };
        let payload = pad_to(data.take(take), bl, pad);
        let frame = frame_for(seq_byte, payload, true);
        let o = await_byte(s, ACK, frame, errors, max);
        match o.result {
            AwaitResult::Got => {
                let r = ymodem_stream(
                    data.skip(take),
                    ((seq_byte + 1) % 256) as u8,
                    packets_left - 1,
                    last,
                    o.rest,
                    o.errors,
                    max,
                    pad,
                );
                StreamOut {
                    result: r.result,
                    errors: r.errors,
                    rest: r.rest,
                    sent: o.sent + r.sent,
                    data_left: r.data_left,
                }
            }
            AwaitResult::Exhausted => StreamOut {
                result: StreamResult::Exhausted,
                errors: o.errors,
                rest: o.rest,
                sent: o.sent,
                data_left: data.skip(take),
            },
            AwaitResult::Fault => StreamOut {
                result: StreamResult::Fault,
                errors: o.errors,
                rest: o.rest,
                sent: o.sent,
                data_left: data.skip(take),
            },
        }
    }
}

/// A YMODEM streaming phase that sends everything never raises the error
/// counter past the budget.
pub proof fn lemma_ymodem_stream_done_bound(
    data: Seq<u8>,
    seq_byte: u8,
    packets_left: int,
    last: int,
    s: Seq<ReadEvent>,
    errors: int,
    max: int,
    pad: u8,
)
    requires
        errors <= max,
    ensures
        ({
            let o = ymodem_stream(data, seq_byte, packets_left, last, s, errors, max, pad);
            o.result == StreamResult::Done ==> o.errors <= max
        }),
    decreases data.len(),
{
    if data.len() > 0 {
        let bl = ymodem_block_size(packets_left, last);
        let take = if data.len() >= bl {
            bl
        } else {
            data.len() as int
        };
        let payload = pad_to(data.take(take), bl, pad);
        let frame = frame_for(seq_byte, payload, true);
        let o = await_byte(s, ACK, frame, errors, max);
        if o.result == AwaitResult::Got {
            crate::model::lemma_await_byte_got_bound(s, ACK, frame, errors, max);
            lemma_ymodem_stream_done_bound(
                data.skip(take),
                ((seq_byte + 1) % 256) as u8,
                packets_left - 1,
                last,
                o.rest,
                o.errors,
                max,
                pad,
            );
        }
    }
}

/// The outcome of the receiver's header phase.
pub ghost struct HeaderOut {
    /// The verdict; the header loop retries a bad block without a budget,
    /// so `Exhausted` arises only through the shared error counter.
    pub result: RecvResult,
    /// The channel error behind a `Fault` verdict; `TimedOut` otherwise.
    pub fault: ChanError,
    /// The error counter afterwards.
    pub errors: int,
    /// The events left unread.
    pub rest: Seq<ReadEvent>,
    /// The octets written during the phase.
    pub sent: Seq<u8>,
    /// The filename the accepted header carried.
    pub name: Seq<u8>,
    /// The file size the accepted header carried.
    pub size: u32,
}

/// The receiver's header phase.  The opening `SOH` has already been
/// consumed by the handshake; each attempt reads the sequence pair, the
/// 128-octet payload and the CRC-16 trailer.  A wrong sequence pair cancels
/// the transfer with two `CAN` octets; a wrong trailer or an unparsable
/// size field draws a `NAK` and one protocol error, and reaching `max`
/// gives up; a good header draws `ACK` then `C`.
pub open spec fn ymodem_header(
    s: Seq<ReadEvent>,
    errors: int,
    max: int,
    ignore_non_digits: bool,
) -> HeaderOut
    decreases s.len(), (if errors < max { max - errors } else { 0 })
    via ymodem_header_decreases
{
    let t = take_bytes(s, 132);
    match t.0 {
        Err(e) => HeaderOut {
            result: RecvResult::Fault,
            fault: e,
            errors,
            rest: t.1,
            sent: Seq::empty(),
            name: Seq::empty(),
            size: 0,
        },
        Ok(bytes) => {
            let pnum = bytes[0];
            let comp = bytes[1];
            let payload = bytes.subrange(2, 130);
            let trailer = bytes.subrange(130, 132);
            let cancel = pnum != 0 || comp != 255;
            let good = trailer_matches(true, payload, trailer);
            let fields = header_fields(payload);
            let parsed = parse_size(fields.1, ignore_non_digits);
            if cancel {
                HeaderOut {
                    result: RecvResult::Canceled,
                    fault: ChanError::TimedOut,
                    errors,
                    rest: t.1,
                    sent: seq![CAN, CAN],
                    name: Seq::empty(),
                    size: 0,
                }
            } else if good && parsed is Some {
                HeaderOut {
                    result: RecvResult::Done,
                    fault: ChanError::TimedOut,
                    errors,
                    rest: t.1,
                    sent: seq![ACK, CRC],
                    name: fields.0,
                    size: parsed.unwrap(),
                }
            } else {
                let errors2 = errors + 1;
                if errors2 >= max {
                    HeaderOut {
                        result: RecvResult::Exhausted,
                        fault: ChanError::TimedOut,
                        errors: errors2,
                        rest: t.1,
                        sent: seq![NAK],
                        name: Seq::empty(),
                        size: 0,
                    }
                } else {
                    let o = ymodem_header(t.1, errors2, max, ignore_non_digits);
                    HeaderOut {
                        result: o.result,
                        fault: o.fault,
                        errors: o.errors,
                        rest: o.rest,
                        sent: seq![NAK] + o.sent,
                        name: o.name,
                        size: o.size,
                    }
                }
            }
        }
    }
}

#[via_fn]
proof fn ymodem_header_decreases(s: Seq<ReadEvent>, errors: int, max: int, ignore_non_digits: bool) {
    lemma_take_bytes_len(s, 132);
}

/// The outcome of the receiver's data phase.
pub ghost struct YRecvOut {
    /// The verdict.
    pub result: RecvResult,
    /// The channel error behind a `Fault` verdict; `TimedOut` otherwise.
    pub fault: ChanError,
    /// The error counter afterwards.
    pub errors: int,
    /// The events left unread.
    pub rest: Seq<ReadEvent>,
    /// The octets written during the phase.
    pub sent: Seq<u8>,
    /// The payload octets of the accepted data blocks, in order.
    pub buffered: Seq<u8>,
}

/// The receiver's data phase.  Data blocks are verified as in XMODEM with
/// CRC-16 trailers and buffered whole; a wrong sequence pair cancels the
/// transfer; a wrong trailer draws a `NAK` and one protocol error; the
/// first `EOT` draws a `NAK`, the second an `ACK` and a `C`; after the
/// second `EOT` the only expected block is the end-of-batch header with
/// sequence zero, which draws an `ACK` and completes the batch without
/// being buffered.  A timeout costs one protocol error; any other octet is
/// ignored.
pub open spec fn ymodem_data(
    s: Seq<ReadEvent>,
    expected: u8,
    eots: int,
    errors: int,
    max: int,
) -> YRecvOut
    decreases s.len(), (if errors < max { max - errors } else { 0 })
    via ymodem_data_decreases
{
    let ev = next_event(s).0;
    let rest = next_event(s).1;
    match ev {
        ReadEvent::Fault => YRecvOut {
            result: RecvResult::Fault,
            fault: ChanError::Broken,
            errors,
            rest,
            sent: Seq::empty(),
            buffered: Seq::empty(),
        },
        ReadEvent::TimedOut => {
            let errors2 = errors + 1;
            if errors2 >= max {
                YRecvOut {
                    result: RecvResult::Exhausted,
                    fault: ChanError::TimedOut,
                    errors: errors2,
                    rest,
                    sent: Seq::empty(),
                    buffered: Seq::empty(),
                }
            } else {
                ymodem_data(rest, expected, eots, errors2, max)
            }
        }
        ReadEvent::Byte(b) => {
            if b == SOH || b == STX {
                let size = if b == SOH {
                    128int
                } else {
                    1024int
                };
                let t = take_bytes(rest, (2 + size + 2) as nat);
                match t.0 {
                    Err(e) => YRecvOut {
                        result: RecvResult::Fault,
                        fault: e,
                        errors,
                        rest: t.1,
                        sent: Seq::empty(),
                        buffered: Seq::empty(),
                    },
                    Ok(bytes) => {
                        let pnum = bytes[0];
                        let comp = bytes[1];
                        let payload = bytes.subrange(2, 2 + size);
                        let trailer = bytes.subrange(2 + size, 4 + size);
                        let want = if eots >= 2 {
                            0u8
                        } else {
                            expected
                        };
                        let cancel = pnum != want || comp != (255 - pnum) as u8;
                        let good = trailer_matches(true, payload, trailer);
                        if cancel {
                            YRecvOut {
                                result: RecvResult::Canceled,
                                fault: ChanError::TimedOut,
                                errors,
                                rest: t.1,
                                sent: seq![CAN, CAN],
                                buffered: Seq::empty(),
                            }
                        } else if good {
                            if eots >= 2 {
                                YRecvOut {
                                    result: RecvResult::Done,
                                    fault: ChanError::TimedOut,
                                    errors,
                                    rest: t.1,
                                    sent: seq![ACK],
                                    buffered: Seq::empty(),
                                }
                            } else {
                                let r = ymodem_data(
                                    t.1,
                                    ((expected + 1) % 256) as u8,
                                    eots,
                                    errors,
                                    max,
                                );
                                YRecvOut {
                                    result: r.result,
                                    fault: r.fault,
                                    errors: r.errors,
                                    rest: r.rest,
                                    sent: seq![ACK] + r.sent,
                                    buffered: payload + r.buffered,
                                }
                            }
                        } else {
                            let errors2 = errors + 1;
                            if errors2 >= max {
                                YRecvOut {
                                    result: RecvResult::Exhausted,
                                    fault: ChanError::TimedOut,
                                    errors: errors2,
                                    rest: t.1,
                                    sent: seq![NAK],
                                    buffered: Seq::empty(),
                                }
                            } else {
                                let r = ymodem_data(t.1, expected, eots, errors2, max);
                                YRecvOut {
                                    result: r.result,
                                    fault: r.fault,
                                    errors: r.errors,
                                    rest: r.rest,
                                    sent: seq![NAK] + r.sent,
                                    buffered: r.buffered,
                                }
                            }
                        }
                    }
                }
            } else if b == EOT {
                if eots == 0 {
                    let r = ymodem_data(rest, expected, 1, errors, max);
                    YRecvOut {
                        result: r.result,
                        fault: r.fault,
                        errors: r.errors,
                        rest: r.rest,
                        sent: seq![NAK] + r.sent,
                        buffered: r.buffered,
                    }
                } else {
                    let r = ymodem_data(rest, expected, 2, errors, max);
                    YRecvOut {
                        result: r.result,
                        fault: r.fault,
                        errors: r.errors,
                        rest: r.rest,
                        sent: seq![ACK, CRC] + r.sent,
                        buffered: r.buffered,
                    }
                }
            } else {
                ymodem_data(rest, expected, eots, errors, max)
            }
        }
    }
}

#[via_fn]
proof fn ymodem_data_decreases(s: Seq<ReadEvent>, expected: u8, eots: int, errors: int, max: int) {
    let ev = next_event(s).0;
    let rest = next_event(s).1;
    match ev {
        ReadEvent::Byte(b) => {
            if b == SOH || b == STX {
                let size = if b == SOH {
                    128int
                } else {
                    1024int
                };
                lemma_take_bytes_len(rest, (2 + size + 2) as nat);
            }
        }
        _ => {}
    }
}

/// Sixteen to the `k`.
pub open spec fn pow16(k: nat) -> int
    decreases k,
{
    if k == 0 {
        1
    } else {
        16 * pow16((k - 1) as nat)
    }
}

/// A number below sixteen to the `k` is written in at most `k` digits.
pub proof fn lemma_hex_digits_len_bound(n: nat, k: nat)
    requires
        k >= 1,
        n < pow16(k),
    ensures
        1 <= hex_digits(n).len() <= k,
    decreases k,
{
    if n >= 16 {
        assert(pow16(k) == 16 * pow16((k - 1) as nat));
        assert(n / 16 < pow16((k - 1) as nat)) by (nonlinear_arith)
            requires n < 16 * pow16((k - 1) as nat);
        assert(k >= 2) by {
            if k == 1 {
                assert(pow16(1) == 16);
            }
        }
        lemma_hex_digits_len_bound(n / 16, (k - 1) as nat);
    }
}

/// A hexadecimal rendering is never empty and never longer than 16 digits
/// for a 64-bit number.
pub proof fn lemma_hex_digits_len(n: nat)
    requires
        n < 0x1_0000_0000_0000_0000,
    ensures
        1 <= hex_digits(n).len() <= 16,
{
    assert(pow16(16) == 0x1_0000_0000_0000_0000) by {
        reveal_with_fuel(pow16, 17);
    }
    lemma_hex_digits_len_bound(n, 16);
}

/// Filtering for digits distributes over appending one octet.
pub proof fn lemma_digits_filter_push(s: Seq<u8>, b: u8)
    ensures
        digits_filter(s.push(b)) == digits_filter(s) + (if ascii_digit(b) {
            seq![b]
        } else {
            Seq::<u8>::empty()
        }),
    decreases s.len(),
{
    let part = (if ascii_digit(b) {
        seq![b]
    } else {
        Seq::<u8>::empty()
    });
    if s.len() == 0 {
        assert(s.push(b)[0] == b);
        assert(s.push(b).drop_first() =~= Seq::<u8>::empty());
        assert(digits_filter(s.push(b).drop_first()) == Seq::<u8>::empty());
        assert(digits_filter(s.push(b)) =~= digits_filter(s) + part);
    } else {
        assert(s.push(b)[0] == s[0]);
        assert(s.push(b).drop_first() =~= s.drop_first().push(b));
        lemma_digits_filter_push(s.drop_first(), b);
        let head = (if ascii_digit(s[0]) {
            seq![s[0]]
        } else {
            Seq::<u8>::empty()
        });
        assert(digits_filter(s.push(b)) == head + digits_filter(s.drop_first().push(b)));
        assert(head + (digits_filter(s.drop_first()) + part) =~= (head + digits_filter(
            s.drop_first(),
        )) + part);
        assert(digits_filter(s.push(b)) =~= digits_filter(s) + part);
    }
}

/// The value of a field of digits is never negative.
pub proof fn lemma_dec_value_nonneg(s: Seq<u8>)
    requires
        all_digits(s),
    ensures
        dec_value(s) >= 0,
    decreases s.len(),
{
    if s.len() > 0 {
        assert(all_digits(s.drop_last()));
        lemma_dec_value_nonneg(s.drop_last());
    }
}

/// Extending a field of digits never lowers its value.
pub proof fn lemma_dec_value_prefix(s: Seq<u8>, i: int)
    requires
        all_digits(s),
        0 <= i <= s.len(),
    ensures
        dec_value(s.take(i)) <= dec_value(s),
    decreases s.len() - i,
{
    assert(all_digits(s.take(i)));
    if i < s.len() {
        lemma_dec_value_prefix(s, i + 1);
        assert(s.take(i + 1).drop_last() =~= s.take(i));
        lemma_dec_value_nonneg(s.take(i));
        assert(dec_value(s.take(i + 1)) == dec_value(s.take(i)) * 10 + (s.take(i + 1).last()
            - 0x30));
        assert(dec_value(s.take(i)) * 10 >= dec_value(s.take(i))) by (nonlinear_arith)
            requires dec_value(s.take(i)) >= 0;
    } else {
        assert(s.take(i) =~= s);
    }
}

/// The prefix before the first occurrence of `b` is the prefix up to the
/// first index that holds `b`, or the whole field when none does.
pub proof fn lemma_until_byte_take(s: Seq<u8>, b: u8, i: int)
    requires
        0 <= i <= s.len(),
        forall|k: int| 0 <= k < i ==> s[k] != b,
        i == s.len() || s[i] == b,
    ensures
        until_byte(s, b) == s.take(i),
    decreases i,
{
    if s.len() == 0 {
        assert(s.take(i) =~= s);
    } else if s[0] == b {
        assert(s.take(0) =~= Seq::<u8>::empty());
    } else {
        lemma_until_byte_take(s.drop_first(), b, i - 1);
        assert(seq![s[0]] + s.drop_first().take(i - 1) =~= s.take(i));
    }
}

/// The whole run of a YMODEM sender: the outcome field `reported` is the
/// count a retry exhaustion names in its error.
pub ghost struct YSendOut {
    /// The verdict.
    pub result: SendResult,
    /// The error counter afterwards.
    pub errors: int,
    /// The count reported with an exhausted-retries failure.
    pub reported: int,
    /// The events left unread.
    pub rest: Seq<ReadEvent>,
    /// The octets written during the run.
    pub sent: Seq<u8>,
    /// The payload octets not yet read from the producer.
    pub data_left: Seq<u8>,
}

/// The verdict an awaiting phase maps to.
pub open spec fn await_send_result(r: AwaitResult) -> SendResult {
    match r {
        AwaitResult::Got => SendResult::Complete,
        AwaitResult::Exhausted => SendResult::Exhausted,
        AwaitResult::Fault => SendResult::Fault,
    }
}

/// A whole YMODEM sender run with a fresh error counter: wait for the
/// receiver's CRC request, send the header block and await its `ACK` and the
/// following `C`, stream the data blocks, run the double-`EOT` exchange,
/// await the final `C`, and send the end-of-batch block.
pub open spec fn ymodem_send_run(
    data: Seq<u8>,
    name: Seq<u8>,
    size: u64,
    s: Seq<ReadEvent>,
    max: int,
    pad: u8,
) -> YSendOut {
    let o1 = negotiate(s, false, 0, 0, max);
    if o1.result == NegotiateResult::Canceled {
        YSendOut {
            result: SendResult::Canceled,
            errors: o1.errors,
            reported: o1.errors,
            rest: o1.rest,
            sent: o1.sent,
            data_left: data,
        }
    } else if o1.result == NegotiateResult::Exhausted {
        YSendOut {
            result: SendResult::Exhausted,
            errors: o1.errors,
            reported: o1.errors,
            rest: o1.rest,
            sent: o1.sent,
            data_left: data,
        }
    } else if o1.result == NegotiateResult::Fault {
        YSendOut {
            result: SendResult::Fault,
            errors: o1.errors,
            reported: o1.errors,
            rest: o1.rest,
            sent: o1.sent,
            data_left: data,
        }
    } else {
        let hf = frame_for(0u8, ymodem_header_payload(name, size), true);
        let a1 = await_byte(o1.rest, ACK, Seq::empty(), o1.errors, max);
        if a1.result != AwaitResult::Got {
            YSendOut {
                result: await_send_result(a1.result),
                errors: a1.errors,
                reported: max,
                rest: a1.rest,
                sent: o1.sent + hf + a1.sent,
                data_left: data,
            }
        } else {
            let c1 = await_byte(a1.rest, CRC, Seq::empty(), a1.errors, max);
            if c1.result != AwaitResult::Got {
                YSendOut {
                    result: await_send_result(c1.result),
                    errors: c1.errors,
                    reported: max,
                    rest: c1.rest,
                    sent: o1.sent + hf + a1.sent + c1.sent,
                    data_left: data,
                }
            } else {
                let st = ymodem_stream(
                    data,
                    1u8,
                    ymodem_packets(size),
                    size as int % 1024,
                    c1.rest,
                    c1.errors,
                    max,
                    pad,
                );
                if st.result != StreamResult::Done {
                    YSendOut {
                        result: (if st.result == StreamResult::Exhausted {
                            SendResult::Exhausted
                        } else {
                            SendResult::Fault
                        }),
                        errors: st.errors,
                        reported: max,
                        rest: st.rest,
                        sent: o1.sent + hf + a1.sent + c1.sent + st.sent,
                        data_left: st.data_left,
                    }
                } else {
                    let e1 = await_byte(st.rest, NAK, seq![EOT], st.errors, max);
                    if e1.result != AwaitResult::Got {
                        YSendOut {
                            result: await_send_result(e1.result),
                            errors: e1.errors,
                            reported: max,
                            rest: e1.rest,
                            sent: o1.sent + hf + a1.sent + c1.sent + st.sent + e1.sent,
                            data_left: st.data_left,
                        }
                    } else {
                        let e2 = await_byte(e1.rest, ACK, seq![EOT], e1.errors, max);
                        if e2.result != AwaitResult::Got {
                            YSendOut {
                                result: await_send_result(e2.result),
                                errors: e2.errors,
                                reported: max,
                                rest: e2.rest,
                                sent: o1.sent + hf + a1.sent + c1.sent + st.sent + e1.sent
                                    + e2.sent,
                                data_left: st.data_left,
                            }
                        } else {
                            let e3 = await_byte(e2.rest, CRC, Seq::empty(), e2.errors, max);
                            if e3.result != AwaitResult::Got {
                                YSendOut {
                                    result: await_send_result(e3.result),
                                    errors: e3.errors,
                                    reported: max,
                                    rest: e3.rest,
                                    sent: o1.sent + hf + a1.sent + c1.sent + st.sent + e1.sent
                                        + e2.sent + e3.sent,
                                    data_left: st.data_left,
                                }
                            } else {
                                let ef = frame_for(0u8, zeros(128), true);
                                let a2 = await_byte(e3.rest, ACK, Seq::empty(), e3.errors, max);
                                YSendOut {
                                    result: await_send_result(a2.result),
                                    errors: a2.errors,
                                    reported: max,
                                    rest: a2.rest,
                                    sent: o1.sent + hf + a1.sent + c1.sent + st.sent + e1.sent
                                        + e2.sent + e3.sent + ef + a2.sent,
                                    data_left: st.data_left,
                                }
                            }
                        }
                    }
                }
            }
        }
    }
}

/// The whole run of a YMODEM receiver.
pub ghost struct YRecvRunOut {
    /// The verdict.
    pub result: RecvResult,
    /// The channel error behind a `Fault` verdict; `TimedOut` otherwise.
    pub fault: ChanError,
    /// The error counter afterwards.
    pub errors: int,
    /// The initial-error counter afterwards.
    pub initial_errors: int,
    /// The count reported with an exhausted-retries failure.
    pub reported: int,
    /// The events left unread.
    pub rest: Seq<ReadEvent>,
    /// The octets written during the run.
    pub sent: Seq<u8>,
    /// Whether a header block was accepted, so that the filename and file
    /// size were reported.
    pub named: bool,
    /// The filename the header carried.
    pub name: Seq<u8>,
    /// The file size the header carried.
    pub size: u32,
    /// The octets handed to the consumer: the first `size` of the buffered
    /// data blocks, or all of them when fewer arrived.
    pub delivered: Seq<u8>,
}

/// A whole YMODEM receiver run with a fresh error counter: the `C`
/// handshake, the header block, the data blocks with the double-`EOT`
/// exchange and the end-of-batch block, and the delivery of exactly the
/// advertised number of octets.
pub open spec fn ymodem_recv_run(
    s: Seq<ReadEvent>,
    initial0: int,
    max_initial: int,
    max: int,
    ignore_non_digits: bool,
) -> YRecvRunOut {
    let h = ymodem_handshake(s, initial0, max_initial);
    if h.result != AwaitResult::Got {
        YRecvRunOut {
            result: (if h.result == AwaitResult::Fault {
                RecvResult::Fault
            } else {
                RecvResult::Exhausted
            }),
            fault: (if h.result == AwaitResult::Fault {
                ChanError::Broken
            } else {
                ChanError::TimedOut
            }),
            errors: 0,
            initial_errors: h.initial_errors,
            reported: 0,
            rest: h.rest,
            sent: h.sent,
            named: false,
            name: Seq::empty(),
            size: 0,
            delivered: Seq::empty(),
        }
    } else {
        let hd = ymodem_header(h.rest, 0, max, ignore_non_digits);
        if hd.result != RecvResult::Done {
            YRecvRunOut {
                result: hd.result,
                fault: hd.fault,
                errors: hd.errors,
                initial_errors: h.initial_errors,
                reported: max,
                rest: hd.rest,
                sent: h.sent + hd.sent,
                named: false,
                name: Seq::empty(),
                size: 0,
                delivered: Seq::empty(),
            }
        } else {
            let d = ymodem_data(hd.rest, 1u8, 0, hd.errors, max);
            let delivered = (if d.result == RecvResult::Done {
                d.buffered.take(vstd::math::min(hd.size as int, d.buffered.len() as int))
            } else {
                Seq::<u8>::empty()
            });
            YRecvRunOut {
                result: d.result,
                fault: d.fault,
                errors: d.errors,
                initial_errors: h.initial_errors,
                reported: max,
                rest: d.rest,
                sent: h.sent + hd.sent + d.sent,
                named: true,
                name: hd.name,
                size: hd.size,
                delivered,
            }
        }
    }
}

} // verus!
