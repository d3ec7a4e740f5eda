//! The batch-capable YMODEM engine of the variant API.

use vstd::prelude::*;

use crate::chan::{ByteSink, ByteSource, ChanError, Channel, write_all};
use crate::common::{
    ModemError, ModemResult, ModemTrait, await_octet, build_frame, calc_crc, get_byte_timeout,
    negotiate_start, read_exact,
};
use crate::model::{
    AwaitResult, NegotiateResult, RecvResult, SendResult, StreamResult, await_byte, frame_for,
    lemma_await_byte_got_bound, lemma_negotiate_accept_bound, negotiate, pad_to, trailer_matches,
};
use crate::variants::xmodem::consts::{ACK, CAN, CRC, EOT, NAK, SOH, STX};
use crate::ymodem_spec::{
    all_digits, ascii_digit, dec_value, digits_filter, header_fields, hex_digit, hex_digits,
    lemma_dec_value_prefix, lemma_hex_digits_len, lemma_until_byte_take,
    lemma_ymodem_stream_done_bound, parse_decimal, parse_size, until_byte, ymodem_block_size,
    ymodem_data, ymodem_handshake, ymodem_header, ymodem_header_payload, ymodem_packets,
    ymodem_recv_run, ymodem_send_run, ymodem_stream, zeros,
};

verus! {

/// `YModem` acts as state for YMODEM transfers.
#[derive(Debug, Clone, Copy)]
pub struct YModem {
    /// The number of errors that can occur before the communication is
    /// considered a failure.  Errors include unexpected octets and timeouts
    /// waiting for octets.
    pub max_errors: u32,

    /// The number of *initial errors* that can occur while waiting for the
    /// receiver's first CRC request before the communication is considered a
    /// failure.
    pub max_initial_errors: u32,

    /// The octet used to pad the last block.  YMODEM can only send blocks of
    /// a certain size, so if the message is not a multiple of that size the
    /// last block needs to be padded.
    pub pad_byte: u8,

    /// Whether octets other than digits are dropped from the file-size field
    /// of the header block before it is parsed.
    pub ignore_non_digits_on_file_size: bool,

    /// The running protocol-error counter.
    pub errors: u32,

    /// The running handshake-error counter.
    pub initial_errors: u32,
}

impl Default for YModem {
    fn default() -> (r: Self)
        ensures
            r.max_errors == 0,
            r.max_initial_errors == 0,
            r.pad_byte == 0,
            r.ignore_non_digits_on_file_size == false,
            r.errors == 0,
            r.initial_errors == 0,
    {
        YModem {
            max_errors: 0,
            max_initial_errors: 0,
            pad_byte: 0,
            ignore_non_digits_on_file_size: false,
            errors: 0,
            initial_errors: 0,
        }
    }
}

impl ModemTrait for YModem {
    fn new() -> (r: Self)
        ensures
            r.max_errors == 16,
            r.max_initial_errors == 16,
            r.pad_byte == 0x1a,
            r.ignore_non_digits_on_file_size == false,
            r.errors == 0,
            r.initial_errors == 0,
    {
        Self {
            max_errors: 16,
            max_initial_errors: 16,
            pad_byte: 0x1a,
            ignore_non_digits_on_file_size: false,
            errors: 0,
            initial_errors: 0,
        }
    }
}

/// A number written in lowercase hexadecimal, without leading zeros.
pub fn hex_bytes(n: u64) -> (r: Vec<u8>)
    ensures
        r@ == hex_digits(n as nat),
    decreases n,
{
    let d = (n % 16) as u8;
    let digit: u8 = if d < 10 {
        0x30 + d
    } else {
        0x61 + (d - 10)
    };
    proof {
        assert(digit == hex_digit((n as nat % 16) as int));
    }
    if n < 16 {
        let mut v: Vec<u8> = Vec::new();
        v.push(digit);
        proof {
            assert(v@ =~= hex_digits(n as nat));
        }
        v
    } else {
        let mut v = hex_bytes(n / 16);
        v.push(digit);
        proof {
            assert(v@ =~= hex_digits((n as nat) / 16) + seq![hex_digit((n as nat % 16) as int)]);
        }
        v
    }
}

/// The 128-octet payload of a YMODEM header block: the filename, one NUL,
/// the file size in lowercase hexadecimal, one NUL, and zero padding.
pub fn build_header_payload(file_name: &Vec<u8>, file_size: u64) -> (r: Vec<u8>)
    requires
        file_name@.len() <= 32,
    ensures
        r@ == ymodem_header_payload(file_name@, file_size),
        r@.len() == 128,
{
    proof {
        lemma_hex_digits_len(file_size as nat);
    }
    let mut buf: Vec<u8> = Vec::new();
    let mut i: usize = 0;
    while i < file_name.len()
        invariant
            i <= file_name@.len(),
            buf@ == file_name@.take(i as int),
        decreases file_name@.len() - i,
    {
        proof {
            assert(file_name@.take(i + 1) =~= file_name@.take(i as int).push(
                file_name@[i as int],
            ));
        }
        buf.push(file_name[i]);
        i = i + 1;
    }
    proof {
        assert(buf@ =~= file_name@);
    }
    buf.push(0);
    let hx = hex_bytes(file_size);
    let ghost pre = file_name@ + seq![0u8];
    proof {
        assert(buf@ =~= pre + hx@.take(0));
    }
    let mut j: usize = 0;
    while j < hx.len()
        invariant
            j <= hx@.len(),
            buf@ == pre + hx@.take(j as int),
        decreases hx@.len() - j,
    {
        proof {
            assert(hx@.take(j + 1) =~= hx@.take(j as int).push(hx@[j as int]));
            assert((pre + hx@.take(j as int)).push(hx@[j as int]) =~= pre + hx@.take(j + 1));
        }
        buf.push(hx[j]);
        j = j + 1;
    }
    buf.push(0);
    let ghost head = file_name@ + seq![0u8] + hx@ + seq![0u8];
    proof {
        assert(hx@.take(hx@.len() as int) =~= hx@);
        assert(buf@ =~= head);
        assert(head.len() <= 51);
    }
    while buf.len() < 128
        invariant
            head.len() <= buf@.len() <= 128,
            buf@.take(head.len() as int) == head,
            forall|k: int| head.len() <= k < buf@.len() ==> buf@[k] == 0u8,
        decreases 128 - buf@.len(),
    {
        proof {
            assert(buf@.push(0u8).take(head.len() as int) =~= buf@.take(head.len() as int));
        }
        buf.push(0);
    }
    proof {
        assert(buf@ =~= head + zeros(128 - head.len()));
    }
    buf
}

/// The prefix of a field before the first occurrence of `term`; the whole
/// field when `term` does not occur.
pub fn prefix_until(v: &Vec<u8>, term: u8) -> (r: Vec<u8>)
    ensures
        r@ == until_byte(v@, term),
{
    let mut i: usize = 0;
    while i < v.len() && v[i] != term
        invariant
            i <= v@.len(),
            forall|k: int| 0 <= k < i ==> v@[k] != term,
        decreases v@.len() - i,
    {
        i = i + 1;
    }
    proof {
        lemma_until_byte_take(v@, term, i as int);
    }
    let mut r: Vec<u8> = Vec::new();
    let mut k: usize = 0;
    while k < i
        invariant
            k <= i <= v@.len(),
            r@ == v@.take(i as int).take(k as int),
        decreases i - k,
    {
        proof {
            assert(v@.take(i as int).take(k + 1) =~= v@.take(i as int).take(k as int).push(
                v@[k as int],
            ));
        }
        r.push(v[k]);
        k = k + 1;
    }
    proof {
        assert(r@ =~= v@.take(i as int));
    }
    r
}

/// A copy of the field from `start` on.
fn suffix_from(v: &Vec<u8>, start: usize) -> (r: Vec<u8>)
    requires
        start <= v@.len(),
    ensures
        r@ == v@.skip(start as int),
{
    let mut r: Vec<u8> = Vec::new();
    let mut k: usize = start;
    while k < v.len()
        invariant
            start <= k <= v@.len(),
            r@ == v@.skip(start as int).take(k - start),
        decreases v@.len() - k,
    {
        proof {
            assert(v@.skip(start as int).take(k - start + 1) =~= v@.skip(start as int).take(
                k - start,
            ).push(v@[k as int]));
        }
        r.push(v[k]);
        k = k + 1;
    }
    proof {
        assert(r@ =~= v@.skip(start as int));
    }
    r
}

/// The filename and file-size fields of a header payload: the filename runs
/// to the first NUL, the size field runs from there to the next NUL.
pub fn split_header(payload: &Vec<u8>) -> (r: (Vec<u8>, Vec<u8>))
    ensures
        r.0@ == header_fields(payload@).0,
        r.1@ == header_fields(payload@).1,
{
    let name = prefix_until(payload, 0);
    proof {
        if name@.len() < payload@.len() {
        } else {
            assert(header_fields(payload@).1 =~= until_byte(Seq::<u8>::empty(), 0));
        }
    }
    let rest = if name.len() < payload.len() {
        suffix_from(payload, name.len() + 1)
    } else {
        Vec::new()
    };
    proof {
        if name@.len() >= payload@.len() {
            assert(rest@ =~= Seq::<u8>::empty());
        }
    }
    let size_field = prefix_until(&rest, 0);
    (name, size_field)
}

/// The digits of a field, with everything else dropped.
pub fn filter_digits(v: &Vec<u8>) -> (r: Vec<u8>)
    ensures
        r@ == digits_filter(v@),
{
    let mut r: Vec<u8> = Vec::new();
    let mut i: usize = 0;
    while i < v.len()
        invariant
            i <= v@.len(),
            r@ == digits_filter(v@.take(i as int)),
        decreases v@.len() - i,
    {
        let b = v[i];
        proof {
            crate::ymodem_spec::lemma_digits_filter_push(v@.take(i as int), v@[i as int]);
            assert(v@.take(i + 1) =~= v@.take(i as int).push(v@[i as int]));
        }
        if 0x30 <= b && b <= 0x39 {
            r.push(b);
            proof {
                assert(r@ =~= digits_filter(v@.take(i + 1)));
            }
        } else {
            proof {
                assert(r@ + Seq::<u8>::empty() =~= r@);
                assert(r@ =~= digits_filter(v@.take(i + 1)));
            }
        }
        i = i + 1;
    }
    proof {
        assert(v@.take(v@.len() as int) =~= v@);
    }
    r
}

/// A nonempty all-digit field below the 32-bit bound, as a number.
pub fn parse_decimal_field(s: &Vec<u8>) -> (r: Option<u32>)
    ensures
        r == parse_decimal(s@),
{
    if s.len() == 0 {
        return None;
    }
    let mut i: usize = 0;
    while i < s.len()
        invariant
            i <= s@.len(),
            forall|k: int| 0 <= k < i ==> ascii_digit(s@[k]),
        decreases s@.len() - i,
    {
        let b = s[i];
        if b < 0x30 || b > 0x39 {
            proof {
                assert(!all_digits(s@));
            }
            return None;
        }
        i = i + 1;
    }
    proof {
        assert(all_digits(s@));
    }
    let mut acc: u64 = 0;
    let mut j: usize = 0;
    while j < s.len()
        invariant
            j <= s@.len(),
            all_digits(s@),
            acc as int == dec_value(s@.take(j as int)),
            acc <= u32::MAX,
        decreases s@.len() - j,
    {
        let d = s[j] - 0x30;
        acc = acc * 10 + (d as u64);
        proof {
            assert(s@.take(j + 1).drop_last() =~= s@.take(j as int));
            assert(s@.take(j + 1).last() == s@[j as int]);
        }
        if acc > 0xFFFF_FFFF {
            proof {
                lemma_dec_value_prefix(s@, j + 1);
            }
            return None;
        }
        j = j + 1;
    }
    proof {
        assert(s@.take(s@.len() as int) =~= s@);
    }
    Some(acc as u32)
}

/// The file size a header's size field names: the field itself (first
/// filtered to its digits when `ignore_non_digits` is set) parsed as an
/// unsigned decimal number, or, failing that, its prefix up to the first
/// space.
pub fn parse_file_size(field: &Vec<u8>, ignore_non_digits: bool) -> (r: Option<u32>)
    ensures
        r == parse_size(field@, ignore_non_digits),
{
    let f = if ignore_non_digits {
        filter_digits(field)
    } else {
        suffix_from(field, 0)
    };
    proof {
        if !ignore_non_digits {
            assert(f@ =~= field@);
        }
    }
    match parse_decimal_field(&f) {
        Some(v) => Some(v),
        None => {
            let p = prefix_until(&f, 0x20);
            parse_decimal_field(&p)
        }
    }
}

impl YModem {
    /// Whether the engine's configuration is left untouched by a call.
    pub open spec fn config_eq(self, other: YModem) -> bool {
        &&& self.max_errors == other.max_errors
        &&& self.max_initial_errors == other.max_initial_errors
        &&& self.pad_byte == other.pad_byte
        &&& self.ignore_non_digits_on_file_size == other.ignore_non_digits_on_file_size
    }

    /// Count one protocol error; reaching `max_errors` gives the transfer up.
    fn add_error(&mut self) -> (r: ModemResult<()>)
        requires
            old(self).errors < u32::MAX,
        ensures
            final(self).errors == old(self).errors + 1,
            final(self).initial_errors == old(self).initial_errors,
            final(self).config_eq(*old(self)),
            r == (if old(self).errors + 1 >= old(self).max_errors {
                Err::<(), ModemError>(ModemError::ExhaustedRetries { errors: old(self).max_errors })
            } else {
                Ok::<(), ModemError>(())
            }),
    {
        self.errors = self.errors + 1;
        if self.errors >= self.max_errors {
            Err(ModemError::ExhaustedRetries { errors: self.max_errors })
        } else {
            Ok(())
        }
    }

    /// Wait for the receiver's opening CRC request.
    pub fn start_send<C: Channel>(&mut self, dev: &mut C) -> (r: ModemResult<()>)
        requires
            old(self).errors <= old(self).max_errors,
            old(self).max_errors < u32::MAX,
        ensures
            ({
                let o = negotiate(
                    old(dev).incoming(),
                    false,
                    0,
                    old(self).errors as int,
                    old(self).max_errors as int,
                );
                &&& final(dev).incoming() == o.rest
                &&& final(dev).written() == old(dev).written() + o.sent
                &&& final(self).errors as int == o.errors
                &&& final(self).initial_errors == old(self).initial_errors
                &&& final(self).config_eq(*old(self))
                &&& match o.result {
                    NegotiateResult::Standard => r == Ok::<(), ModemError>(()),
                    NegotiateResult::Crc => r == Ok::<(), ModemError>(()),
                    NegotiateResult::Canceled => r == Err::<(), ModemError>(ModemError::Canceled),
                    NegotiateResult::Exhausted => r == Err::<(), ModemError>(
                        ModemError::ExhaustedRetries { errors: o.errors as u32 },
                    ),
                    NegotiateResult::Fault => r == Err::<(), ModemError>(
                        ModemError::Io(ChanError::Broken),
                    ),
                }
            }),
    {
        match negotiate_start(dev, false, &mut self.errors, self.max_errors) {
            NegotiateResult::Standard => Ok(()),
            NegotiateResult::Crc => Ok(()),
            NegotiateResult::Canceled => Err(ModemError::Canceled),
            NegotiateResult::Exhausted => Err(ModemError::ExhaustedRetries { errors: self.errors }),
            NegotiateResult::Fault => Err(ModemError::Io(ChanError::Broken)),
        }
    }

    /// Send the header block carrying the filename and the file size, and
    /// wait for its acknowledgement and the following CRC request.
    pub fn send_start_frame<C: Channel>(
        &mut self,
        dev: &mut C,
        file_name: &Vec<u8>,
        file_size: u64,
    ) -> (r: ModemResult<()>)
        requires
            old(self).errors <= old(self).max_errors,
            old(self).max_errors < u32::MAX,
            file_name@.len() <= 32,
        ensures
            ({
                let hf = frame_for(0u8, ymodem_header_payload(file_name@, file_size), true);
                let a1 = await_byte(
                    old(dev).incoming(),
                    ACK,
                    Seq::empty(),
                    old(self).errors as int,
                    old(self).max_errors as int,
                );
                &&& final(self).initial_errors == old(self).initial_errors
                &&& final(self).config_eq(*old(self))
                &&& if a1.result != AwaitResult::Got {
                    &&& final(dev).incoming() == a1.rest
                    &&& final(dev).written() == old(dev).written() + hf + a1.sent
                    &&& final(self).errors as int == a1.errors
                    &&& r == (if a1.result == AwaitResult::Exhausted {
                        Err::<(), ModemError>(
                            ModemError::ExhaustedRetries { errors: old(self).max_errors },
                        )
                    } else {
                        Err::<(), ModemError>(ModemError::Io(ChanError::Broken))
                    })
                } else {
                    let c1 = await_byte(
                        a1.rest,
                        CRC,
                        Seq::empty(),
                        a1.errors,
                        old(self).max_errors as int,
                    );
                    &&& final(dev).incoming() == c1.rest
                    &&& final(dev).written() == old(dev).written() + hf + a1.sent + c1.sent
                    &&& final(self).errors as int == c1.errors
                    &&& r == (match c1.result {
                        AwaitResult::Got => Ok::<(), ModemError>(()),
                        AwaitResult::Exhausted => Err::<(), ModemError>(
                            ModemError::ExhaustedRetries { errors: old(self).max_errors },
                        ),
                        AwaitResult::Fault => Err::<(), ModemError>(
                            ModemError::Io(ChanError::Broken),
                        ),
                    })
                }
            }),
    {
        let payload = build_header_payload(file_name, file_size);
        let frame = build_frame(0, &payload, true);
        write_all(dev, &frame);
        let empty: Vec<u8> = Vec::new();
        proof {
            assert(empty@ =~= Seq::<u8>::empty());
        }
        match await_octet(dev, ACK, &empty, &mut self.errors, self.max_errors) {
            AwaitResult::Got => {}
            AwaitResult::Exhausted => {
                return Err(ModemError::ExhaustedRetries { errors: self.max_errors });
            }
            AwaitResult::Fault => {
                return Err(ModemError::Io(ChanError::Broken));
            }
        }
        proof {
            lemma_await_byte_got_bound(
                old(dev).incoming().skip(0),
                ACK,
                Seq::empty(),
                old(self).errors as int,
                old(self).max_errors as int,
            );
            assert(old(dev).incoming().skip(0) =~= old(dev).incoming());
        }
        match await_octet(dev, CRC, &empty, &mut self.errors, self.max_errors) {
            AwaitResult::Got => Ok(()),
            AwaitResult::Exhausted => Err(ModemError::ExhaustedRetries {
                errors: self.max_errors,
            }),
            AwaitResult::Fault => Err(ModemError::Io(ChanError::Broken)),
        }
    }

    /// Send the end-of-batch block: a sequence-zero header with an all-zero
    /// payload, and wait for its acknowledgement.
    pub fn send_end_frame<C: Channel>(&mut self, dev: &mut C) -> (r: ModemResult<()>)
        requires
            old(self).errors <= old(self).max_errors,
            old(self).max_errors < u32::MAX,
        ensures
            ({
                let ef = frame_for(0u8, zeros(128), true);
                let a2 = await_byte(
                    old(dev).incoming(),
                    ACK,
                    Seq::empty(),
                    old(self).errors as int,
                    old(self).max_errors as int,
                );
                &&& final(dev).incoming() == a2.rest
                &&& final(dev).written() == old(dev).written() + ef + a2.sent
                &&& final(self).errors as int == a2.errors
                &&& final(self).initial_errors == old(self).initial_errors
                &&& final(self).config_eq(*old(self))
                &&& r == (match a2.result {
                    AwaitResult::Got => Ok::<(), ModemError>(()),
                    AwaitResult::Exhausted => Err::<(), ModemError>(
                        ModemError::ExhaustedRetries { errors: old(self).max_errors },
                    ),
                    AwaitResult::Fault => Err::<(), ModemError>(ModemError::Io(ChanError::Broken)),
                })
            }),
    {
        let mut z: Vec<u8> = Vec::new();
        while z.len() < 128
            invariant
                z@.len() <= 128,
                forall|k: int| 0 <= k < z@.len() ==> z@[k] == 0u8,
            decreases 128 - z@.len(),
        {
            z.push(0);
        }
        proof {
            assert(z@ =~= zeros(128));
        }
        let frame = build_frame(0, &z, true);
        write_all(dev, &frame);
        let empty: Vec<u8> = Vec::new();
        proof {
            assert(empty@ =~= Seq::<u8>::empty());
        }
        match await_octet(dev, ACK, &empty, &mut self.errors, self.max_errors) {
            AwaitResult::Got => Ok(()),
            AwaitResult::Exhausted => Err(ModemError::ExhaustedRetries {
                errors: self.max_errors,
            }),
            AwaitResult::Fault => Err(ModemError::Io(ChanError::Broken)),
        }
    }

    /// Run the end-of-transfer exchange: `EOT` until the peer answers `NAK`,
    /// `EOT` again until it answers `ACK`, wait for the final CRC request,
    /// and send the end-of-batch block.
    pub fn finish_send<C: Channel>(&mut self, dev: &mut C) -> (r: ModemResult<()>)
        requires
            old(self).errors <= old(self).max_errors,
            old(self).max_errors < u32::MAX,
        ensures
            ({
                let maxi = old(self).max_errors as int;
                let e1 = await_byte(
                    old(dev).incoming(),
                    NAK,
                    seq![EOT],
                    old(self).errors as int,
                    maxi,
                );
                &&& final(self).initial_errors == old(self).initial_errors
                &&& final(self).config_eq(*old(self))
                &&& if e1.result != AwaitResult::Got {
                    &&& final(dev).incoming() == e1.rest
                    &&& final(dev).written() == old(dev).written() + e1.sent
                    &&& final(self).errors as int == e1.errors
                    &&& r == (if e1.result == AwaitResult::Exhausted {
                        Err::<(), ModemError>(
                            ModemError::ExhaustedRetries { errors: old(self).max_errors },
                        )
                    } else {
                        Err::<(), ModemError>(ModemError::Io(ChanError::Broken))
                    })
                } else {
                    let e2 = await_byte(e1.rest, ACK, seq![EOT], e1.errors, maxi);
                    if e2.result != AwaitResult::Got {
                        &&& final(dev).incoming() == e2.rest
                        &&& final(dev).written() == old(dev).written() + e1.sent + e2.sent
                        &&& final(self).errors as int == e2.errors
                        &&& r == (if e2.result == AwaitResult::Exhausted {
                            Err::<(), ModemError>(
                                ModemError::ExhaustedRetries { errors: old(self).max_errors },
                            )
                        } else {
                            Err::<(), ModemError>(ModemError::Io(ChanError::Broken))
                        })
                    } else {
                        let e3 = await_byte(e2.rest, CRC, Seq::empty(), e2.errors, maxi);
                        if e3.result != AwaitResult::Got {
                            &&& final(dev).incoming() == e3.rest
                            &&& final(dev).written() == old(dev).written() + e1.sent + e2.sent
                                + e3.sent
                            &&& final(self).errors as int == e3.errors
                            &&& r == (if e3.result == AwaitResult::Exhausted {
                                Err::<(), ModemError>(
                                    ModemError::ExhaustedRetries { errors: old(self).max_errors },
                                )
                            } else {
                                Err::<(), ModemError>(ModemError::Io(ChanError::Broken))
                            })
                        } else {
                            let ef = frame_for(0u8, zeros(128), true);
                            let a2 = await_byte(e3.rest, ACK, Seq::empty(), e3.errors, maxi);
                            &&& final(dev).incoming() == a2.rest
                            &&& final(dev).written() == old(dev).written() + e1.sent + e2.sent
                                + e3.sent + ef + a2.sent
                            &&& final(self).errors as int == a2.errors
                            &&& r == (match a2.result {
                                AwaitResult::Got => Ok::<(), ModemError>(()),
                                AwaitResult::Exhausted => Err::<(), ModemError>(
                                    ModemError::ExhaustedRetries { errors: old(self).max_errors },
                                ),
                                AwaitResult::Fault => Err::<(), ModemError>(
                                    ModemError::Io(ChanError::Broken),
                                ),
                            })
                        }
                    }
                }
            }),
    {
        let mut eot: Vec<u8> = Vec::new();
        eot.push(EOT);
        proof {
            assert(eot@ =~= seq![EOT]);
        }
        let ghost s0 = old(dev).incoming();
        let ghost maxi = old(self).max_errors as int;
        match await_octet(dev, NAK, &eot, &mut self.errors, self.max_errors) {
            AwaitResult::Got => {}
            AwaitResult::Exhausted => {
                return Err(ModemError::ExhaustedRetries { errors: self.max_errors });
            }
            AwaitResult::Fault => {
                return Err(ModemError::Io(ChanError::Broken));
            }
        }
        proof {
            lemma_await_byte_got_bound(s0, NAK, seq![EOT], old(self).errors as int, maxi);
        }
        let ghost e1 = await_byte(s0, NAK, seq![EOT], old(self).errors as int, maxi);
        match await_octet(dev, ACK, &eot, &mut self.errors, self.max_errors) {
            AwaitResult::Got => {}
            AwaitResult::Exhausted => {
                return Err(ModemError::ExhaustedRetries { errors: self.max_errors });
            }
            AwaitResult::Fault => {
                return Err(ModemError::Io(ChanError::Broken));
            }
        }
        proof {
            lemma_await_byte_got_bound(e1.rest, ACK, seq![EOT], e1.errors, maxi);
        }
        let ghost e2 = await_byte(e1.rest, ACK, seq![EOT], e1.errors, maxi);
        let empty: Vec<u8> = Vec::new();
        proof {
            assert(empty@ =~= Seq::<u8>::empty());
        }
        match await_octet(dev, CRC, &empty, &mut self.errors, self.max_errors) {
            AwaitResult::Got => {}
            AwaitResult::Exhausted => {
                return Err(ModemError::ExhaustedRetries { errors: self.max_errors });
            }
            AwaitResult::Fault => {
                return Err(ModemError::Io(ChanError::Broken));
            }
        }
        proof {
            lemma_await_byte_got_bound(e2.rest, CRC, Seq::empty(), e2.errors, maxi);
        }
        let r = self.send_end_frame(dev);
        r
    }
}

impl YModem {
    /// Stream the payload as framed blocks with CRC-16 trailers: the block
    /// length follows the schedule derived from the file size, the last
    /// block is padded, and each block awaits an acknowledgement, resent
    /// after every unexpected octet or timeout.
    #[verifier::loop_isolation(false)]
    #[verifier::rlimit(60)]
    pub fn send_stream<C: Channel, S: ByteSource>(
        &mut self,
        dev: &mut C,
        stream: &mut S,
        packets_to_send: u32,
        last_packet_size: u64,
    ) -> (r: ModemResult<()>)
        requires
            old(self).errors <= old(self).max_errors,
            old(self).max_errors < u32::MAX,
        ensures
            ({
                let o = ymodem_stream(
                    old(stream).remaining(),
                    1u8,
                    packets_to_send as int,
                    last_packet_size as int,
                    old(dev).incoming(),
                    old(self).errors as int,
                    old(self).max_errors as int,
                    old(self).pad_byte,
                );
                &&& final(dev).incoming() == o.rest
                &&& final(dev).written() == old(dev).written() + o.sent
                &&& final(stream).remaining() == o.data_left
                &&& final(self).errors as int == o.errors
                &&& final(self).initial_errors == old(self).initial_errors
                &&& final(self).config_eq(*old(self))
                &&& match o.result {
                    StreamResult::Done => r == Ok::<(), ModemError>(()),
                    StreamResult::Exhausted => r == Err::<(), ModemError>(
                        ModemError::ExhaustedRetries { errors: old(self).max_errors },
                    ),
                    StreamResult::Fault => r == Err::<(), ModemError>(
                        ModemError::Io(ChanError::Broken),
                    ),
                }
            }),
    {
        let ghost d0 = old(stream).remaining();
        let ghost s0 = old(dev).incoming();
        let ghost w0 = old(dev).written();
        let ghost e0 = old(self).errors as int;
        let ghost maxg = old(self).max_errors as int;
        let ghost lastg = last_packet_size as int;
        let ghost padg = old(self).pad_byte;
        let mut seq_next: u8 = 1;
        let mut packets_left: u32 = packets_to_send;
        let ghost mut pl: int = packets_to_send as int;
        let ghost mut sent_acc: Seq<u8> = Seq::empty();
        proof {
            let outer = ymodem_stream(d0, 1u8, packets_to_send as int, lastg, s0, e0, maxg, padg);
            assert(sent_acc + outer.sent =~= outer.sent);
            assert(w0 + sent_acc =~= w0);
        }
        loop
            invariant
                self.config_eq(*old(self)),
                self.initial_errors == old(self).initial_errors,
                self.errors <= self.max_errors,
                dev.written() == w0 + sent_acc,
                packets_left as int == (if pl < 0 {
                    0int
                } else {
                    pl
                }),
                ({
                    let outer = ymodem_stream(
                        d0,
                        1u8,
                        packets_to_send as int,
                        lastg,
                        s0,
                        e0,
                        maxg,
                        padg,
                    );
                    let inner = ymodem_stream(
                        stream.remaining(),
                        seq_next,
                        pl,
                        lastg,
                        dev.incoming(),
                        self.errors as int,
                        maxg,
                        padg,
                    );
                    outer.result == inner.result && outer.errors == inner.errors && outer.rest
                        == inner.rest && outer.data_left == inner.data_left && outer.sent
                        == sent_acc + inner.sent
                }),
            decreases stream.remaining().len(),
        {
            let ghost data_head = stream.remaining();
            let ghost s_head = dev.incoming();
            let ghost e_head = self.errors as int;
            let ghost a_old = sent_acc;
            let ghost inner_head = ymodem_stream(
                data_head,
                seq_next,
                pl,
                lastg,
                s_head,
                e_head,
                maxg,
                padg,
            );
            let bl_len: usize = if packets_left == 1 && last_packet_size <= 128 {
                128
            } else {
                1024
            };
            proof {
                assert(bl_len as int == ymodem_block_size(pl, lastg));
            }
            let chunk = stream.read_chunk(bl_len);
            if chunk.len() == 0 {
                proof {
                    assert(data_head =~= Seq::<u8>::empty());
                    assert(a_old + inner_head.sent =~= a_old);
                }
                return Ok(());
            }
            let ghost chunk0 = chunk@;
            let mut payload = chunk;
            while payload.len() < bl_len
                invariant
                    chunk0.len() <= payload@.len() <= bl_len as int,
                    payload@.take(chunk0.len() as int) == chunk0,
                    forall|j: int|
                        chunk0.len() <= j < payload@.len() ==> payload@[j] == self.pad_byte,
                decreases bl_len - payload@.len(),
            {
                proof {
                    assert(payload@.push(self.pad_byte).take(chunk0.len() as int) =~= payload@.take(
                        chunk0.len() as int,
                    ));
                }
                payload.push(self.pad_byte);
            }
            proof {
                assert(payload@ =~= pad_to(chunk0, bl_len as int, padg));
            }
            let frame = build_frame(seq_next, &payload, true);
            let res = await_octet(dev, ACK, &frame, &mut self.errors, self.max_errors);
            let ghost ob = await_byte(s_head, ACK, frame@, e_head, maxg);
            match res {
                AwaitResult::Got => {
                    seq_next = seq_next.wrapping_add(1);
                    if packets_left > 0 {
                        packets_left = packets_left - 1;
                    }
                    proof {
                        pl = pl - 1;
                        lemma_await_byte_got_bound(s_head, ACK, frame@, e_head, maxg);
                        sent_acc = sent_acc + ob.sent;
                        assert(dev.written() =~= w0 + sent_acc);
                        let inner_next = ymodem_stream(
                            stream.remaining(),
                            seq_next,
                            pl,
                            lastg,
                            dev.incoming(),
                            self.errors as int,
                            maxg,
                            padg,
                        );
                        assert(a_old + (ob.sent + inner_next.sent) =~= sent_acc + inner_next.sent);
                    }
                }
                AwaitResult::Exhausted => {
                    proof {
                        sent_acc = sent_acc + ob.sent;
                        assert(dev.written() =~= w0 + sent_acc);
                        assert(a_old + inner_head.sent =~= sent_acc);
                    }
                    return Err(ModemError::ExhaustedRetries { errors: self.max_errors });
                }
                AwaitResult::Fault => {
                    proof {
                        sent_acc = sent_acc + ob.sent;
                        assert(dev.written() =~= w0 + sent_acc);
                        assert(a_old + inner_head.sent =~= sent_acc);
                    }
                    return Err(ModemError::Io(ChanError::Broken));
                }
            }
        }
    }

    /// Starts the YMODEM transmission.
    ///
    /// `dev` should be the serial communication channel (e.g. the serial
    /// device).  `inp` should be the message to send (e.g. a file).
    ///
    /// # Timeouts
    /// This method has no way of setting the timeout of `dev`, so it's up to
    /// the caller to set the timeout of the device before calling this
    /// method.  Timeouts on receiving octets will be counted against
    /// `max_errors`, but timeouts on transmitting octets will be considered
    /// a fatal error.
    #[verifier::rlimit(100)]
    #[verifier::spinoff_prover]
    pub fn send<C: Channel, S: ByteSource>(
        &mut self,
        dev: &mut C,
        inp: &mut S,
        file_name: &Vec<u8>,
        file_size: u64,
    ) -> (r: ModemResult<()>)
        requires
            old(self).max_errors < u32::MAX,
            file_name@.len() <= 32,
            ymodem_packets(file_size) <= u32::MAX,
        ensures
            ({
                let o = ymodem_send_run(
                    old(inp).remaining(),
                    file_name@,
                    file_size,
                    old(dev).incoming(),
                    old(self).max_errors as int,
                    old(self).pad_byte,
                );
                &&& final(dev).incoming() == o.rest
                &&& final(dev).written() == old(dev).written() + o.sent
                &&& final(inp).remaining() == o.data_left
                &&& final(self).errors as int == o.errors
                &&& final(self).initial_errors == old(self).initial_errors
                &&& final(self).config_eq(*old(self))
                &&& match o.result {
                    SendResult::Complete => r == Ok::<(), ModemError>(()),
                    SendResult::Canceled => r == Err::<(), ModemError>(ModemError::Canceled),
                    SendResult::Exhausted => r == Err::<(), ModemError>(
                        ModemError::ExhaustedRetries { errors: o.reported as u32 },
                    ),
                    SendResult::Fault => r == Err::<(), ModemError>(
                        ModemError::Io(ChanError::Broken),
                    ),
                }
            }),
    {
        self.errors = 0;
        let packets64: u64 = file_size / 1024 + (if file_size % 1024 != 0 {
            1u64
        } else {
            0u64
        });
        let packets_to_send: u32 = packets64 as u32;
        let last_packet_size: u64 = file_size % 1024;
        proof {
            assert(packets_to_send as int == ymodem_packets(file_size));
        }

        let ghost s0 = old(dev).incoming();
        let ghost w0 = old(dev).written();
        let ghost maxg = old(self).max_errors as int;
        let ghost o1 = negotiate(s0, false, 0, 0, maxg);
        match self.start_send(dev) {
            Err(e) => {
                return Err(e);
            }
            Ok(()) => {}
        }
        proof {
            lemma_negotiate_accept_bound(s0, false, 0, 0, maxg);
        }
        let ghost hf = frame_for(0u8, ymodem_header_payload(file_name@, file_size), true);
        let ghost a1 = await_byte(o1.rest, ACK, Seq::empty(), o1.errors, maxg);
        let ghost c1 = await_byte(a1.rest, CRC, Seq::empty(), a1.errors, maxg);
        match self.send_start_frame(dev, file_name, file_size) {
            Err(e) => {
                proof {
                    if a1.result != AwaitResult::Got {
                        assert(w0 + o1.sent + hf + a1.sent =~= w0 + (o1.sent + hf + a1.sent));
                    } else {
                        assert(w0 + o1.sent + hf + a1.sent + c1.sent =~= w0 + (o1.sent + hf
                            + a1.sent + c1.sent));
                    }
                }
                return Err(e);
            }
            Ok(()) => {}
        }
        proof {
            lemma_await_byte_got_bound(o1.rest, ACK, Seq::empty(), o1.errors, maxg);
            lemma_await_byte_got_bound(a1.rest, CRC, Seq::empty(), a1.errors, maxg);
        }
        let ghost st = ymodem_stream(
            old(inp).remaining(),
            1u8,
            packets_to_send as int,
            last_packet_size as int,
            c1.rest,
            c1.errors,
            maxg,
            old(self).pad_byte,
        );
        match self.send_stream(dev, inp, packets_to_send, last_packet_size) {
            Err(e) => {
                proof {
                    assert(w0 + o1.sent + hf + a1.sent + c1.sent + st.sent =~= w0 + (o1.sent + hf
                        + a1.sent + c1.sent + st.sent));
                }
                return Err(e);
            }
            Ok(()) => {}
        }
        proof {
            lemma_ymodem_stream_done_bound(
                old(inp).remaining(),
                1u8,
                packets_to_send as int,
                last_packet_size as int,
                c1.rest,
                c1.errors,
                maxg,
                old(self).pad_byte,
            );
        }
        let r = self.finish_send(dev);
        proof {
            let e1 = await_byte(st.rest, NAK, seq![EOT], st.errors, maxg);
            let e2 = await_byte(e1.rest, ACK, seq![EOT], e1.errors, maxg);
            let e3 = await_byte(e2.rest, CRC, Seq::empty(), e2.errors, maxg);
            let ef = frame_for(0u8, zeros(128), true);
            let a2 = await_byte(e3.rest, ACK, Seq::empty(), e3.errors, maxg);
            if e1.result != AwaitResult::Got {
                assert(w0 + o1.sent + hf + a1.sent + c1.sent + st.sent + e1.sent =~= w0 + (o1.sent
                    + hf + a1.sent + c1.sent + st.sent + e1.sent));
            } else if e2.result != AwaitResult::Got {
                assert(w0 + o1.sent + hf + a1.sent + c1.sent + st.sent + e1.sent + e2.sent =~= w0
                    + (o1.sent + hf + a1.sent + c1.sent + st.sent + e1.sent + e2.sent));
            } else if e3.result != AwaitResult::Got {
                assert(w0 + o1.sent + hf + a1.sent + c1.sent + st.sent + e1.sent + e2.sent
                    + e3.sent =~= w0 + (o1.sent + hf + a1.sent + c1.sent + st.sent + e1.sent
                    + e2.sent + e3.sent));
            } else {
                assert(w0 + o1.sent + hf + a1.sent + c1.sent + st.sent + e1.sent + e2.sent
                    + e3.sent + ef + a2.sent =~= w0 + (o1.sent + hf + a1.sent + c1.sent + st.sent
                    + e1.sent + e2.sent + e3.sent + ef + a2.sent));
            }
        }
        r
    }
}

impl YModem {
    /// Receive a YMODEM transmission.
    ///
    /// `dev` should be the serial communication channel (e.g. the serial
    /// device).  The received data will be written to `out`; the filename
    /// and file size of the header block are stored in `file_name` and
    /// `file_size`.
    ///
    /// # Timeouts
    /// This method has no way of setting the timeout of `dev`, so it's up to
    /// the caller to set the timeout of the device before calling this
    /// method.  Timeouts on receiving octets will be counted against
    /// `max_errors` (against `max_initial_errors` during the opening
    /// handshake), but timeouts on transmitting octets will be considered a
    /// fatal error.
    #[verifier::rlimit(100)]
    #[verifier::spinoff_prover]
    pub fn recv<C: Channel, W: ByteSink>(
        &mut self,
        dev: &mut C,
        out: &mut W,
        file_name: &mut Vec<u8>,
        file_size: &mut u32,
    ) -> (r: ModemResult<()>)
        requires
            old(self).initial_errors <= old(self).max_initial_errors,
            old(self).max_initial_errors < u32::MAX,
            old(self).max_errors < u32::MAX,
        ensures
            ({
                let o = ymodem_recv_run(
                    old(dev).incoming(),
                    old(self).initial_errors as int,
                    old(self).max_initial_errors as int,
                    old(self).max_errors as int,
                    old(self).ignore_non_digits_on_file_size,
                );
                &&& final(dev).incoming() == o.rest
                &&& final(dev).written() == old(dev).written() + o.sent
                &&& final(out).received() == old(out).received() + o.delivered
                &&& final(self).errors as int == o.errors
                &&& final(self).initial_errors as int == o.initial_errors
                &&& final(self).config_eq(*old(self))
                &&& (if o.named {
                    final(file_name)@ == o.name && *final(file_size) == o.size
                } else {
                    *final(file_name) == *old(file_name) && *final(file_size) == *old(file_size)
                })
                &&& match o.result {
                    RecvResult::Done => r == Ok::<(), ModemError>(()),
                    RecvResult::Canceled => r == Err::<(), ModemError>(ModemError::Canceled),
                    RecvResult::Exhausted => r == Err::<(), ModemError>(
                        ModemError::ExhaustedRetries { errors: o.reported as u32 },
                    ),
                    RecvResult::Fault => r == Err::<(), ModemError>(ModemError::Io(o.fault)),
                }
            }),
    {
        self.errors = 0;
        let ghost s0 = old(dev).incoming();
        let ghost w0 = old(dev).written();
        let ghost r0 = old(out).received();
        let ghost i0 = old(self).initial_errors as int;
        let ghost maxi = old(self).max_initial_errors as int;
        let ghost maxg = old(self).max_errors as int;
        let ghost ig = old(self).ignore_non_digits_on_file_size;

        // Opening handshake: request CRC-16 trailers until the first block
        // header arrives.
        let ghost mut sent_acc: Seq<u8> = Seq::empty();
        proof {
            let outer = ymodem_handshake(s0, i0, maxi);
            assert(sent_acc + outer.sent =~= outer.sent);
            assert(w0 + sent_acc =~= w0);
        }
        loop
            invariant_except_break
                s0 == old(dev).incoming(),
                w0 == old(dev).written(),
                i0 == old(self).initial_errors as int,
                maxi == old(self).max_initial_errors as int,
                r0 == old(out).received(),
                self.config_eq(*old(self)),
                self.errors == 0,
                self.initial_errors <= self.max_initial_errors,
                self.max_initial_errors < u32::MAX,
                dev.written() == w0 + sent_acc,
                out.received() == r0,
                *file_name == *old(file_name),
                *file_size == *old(file_size),
                ({
                    let outer = ymodem_handshake(s0, i0, maxi);
                    let inner = ymodem_handshake(dev.incoming(), self.initial_errors as int, maxi);
                    outer.result == inner.result && outer.initial_errors == inner.initial_errors
                        && outer.rest == inner.rest && outer.sent == sent_acc + inner.sent
                }),
            ensures
                ({
                    let outer = ymodem_handshake(s0, i0, maxi);
                    &&& outer.result == AwaitResult::Got
                    &&& dev.incoming() == outer.rest
                    &&& dev.written() == w0 + outer.sent
                    &&& self.initial_errors as int == outer.initial_errors
                    &&& self.errors == 0
                    &&& self.config_eq(*old(self))
                    &&& self.initial_errors <= self.max_initial_errors
                    &&& self.max_initial_errors < u32::MAX
                    &&& out.received() == r0
                    &&& *file_name == *old(file_name)
                    &&& *file_size == *old(file_size)
                }),
            decreases dev.incoming().len(), maxi + 1 - self.initial_errors,
        {
            let ghost i_head = self.initial_errors as int;
            let ghost a_old = sent_acc;
            dev.write_byte(CRC);
            proof {
                sent_acc = sent_acc + seq![CRC];
                assert(dev.written() =~= w0 + sent_acc);
            }
            let ghost s_head = dev.incoming();
            let ghost inner_head = ymodem_handshake(s_head, i_head, maxi);
            match get_byte_timeout(dev) {
                Err(_) => {
                    proof {
                        assert(inner_head.sent =~= seq![CRC]);
                        assert(a_old + seq![CRC] =~= sent_acc);
                    }
                    return Err(ModemError::Io(ChanError::Broken));
                }
                Ok(Some(b)) => {
                    if b == SOH {
                        proof {
                            assert(inner_head.sent =~= seq![CRC]);
                            assert(a_old + seq![CRC] =~= sent_acc);
                        }
                        break;
                    }
                    proof {
                        let inner_next = ymodem_handshake(dev.incoming(), i_head, maxi);
                        assert(inner_head.sent =~= seq![CRC] + inner_next.sent);
                        assert(a_old + (seq![CRC] + inner_next.sent) =~= sent_acc
                            + inner_next.sent);
                    }
                }
                Ok(None) => {
                    self.initial_errors = self.initial_errors + 1;
                    if self.initial_errors > self.max_initial_errors {
                        proof {
                            assert(inner_head.sent =~= seq![CRC]);
                            assert(a_old + seq![CRC] =~= sent_acc);
                        }
                        return Err(ModemError::ExhaustedRetries { errors: self.errors });
                    }
                    proof {
                        let inner_next = ymodem_handshake(
                            dev.incoming(),
                            self.initial_errors as int,
                            maxi,
                        );
                        assert(inner_head.sent =~= seq![CRC] + inner_next.sent);
                        assert(a_old + (seq![CRC] + inner_next.sent) =~= sent_acc
                            + inner_next.sent);
                    }
                }
            }
        }
        let ghost h = ymodem_handshake(s0, i0, maxi);

        // Header block: sequence zero, the filename and size fields, and a
        // CRC-16 trailer; retried with a NAK until it verifies and parses.
        let ghost mut hd_acc: Seq<u8> = Seq::empty();
        proof {
            let outer = ymodem_header(h.rest, 0, maxg, ig);
            assert(hd_acc + outer.sent =~= outer.sent);
            assert(h.sent + hd_acc =~= h.sent);
        }
        let mut got_name: Vec<u8> = Vec::new();
        let mut got_size: u32 = 0;
        loop
            invariant_except_break
                s0 == old(dev).incoming(),
                w0 == old(dev).written(),
                r0 == old(out).received(),
                i0 == old(self).initial_errors as int,
                maxi == old(self).max_initial_errors as int,
                h == ymodem_handshake(s0, i0, maxi),
                h.result == AwaitResult::Got,
                maxg == old(self).max_errors as int,
                ig == old(self).ignore_non_digits_on_file_size,
                self.config_eq(*old(self)),
                self.errors <= self.max_errors,
                self.max_errors < u32::MAX,
                self.initial_errors as int == h.initial_errors,
                dev.written() == w0 + (h.sent + hd_acc),
                out.received() == r0,
                *file_name == *old(file_name),
                *file_size == *old(file_size),
                ({
                    let outer = ymodem_header(h.rest, 0, maxg, ig);
                    let inner = ymodem_header(dev.incoming(), self.errors as int, maxg, ig);
                    outer.result == inner.result && outer.fault == inner.fault && outer.errors
                        == inner.errors && outer.rest == inner.rest && outer.sent == hd_acc
                        + inner.sent && outer.name == inner.name && outer.size == inner.size
                }),
            ensures
                ({
                    let outer = ymodem_header(h.rest, 0, maxg, ig);
                    &&& outer.result == RecvResult::Done
                    &&& dev.incoming() == outer.rest
                    &&& dev.written() == w0 + (h.sent + outer.sent)
                    &&& self.errors as int == outer.errors
                    &&& got_name@ == outer.name
                    &&& got_size == outer.size
                    &&& self.config_eq(*old(self))
                    &&& self.errors <= self.max_errors
                    &&& self.max_errors < u32::MAX
                    &&& self.initial_errors as int == h.initial_errors
                    &&& out.received() == r0
                    &&& *file_name == *old(file_name)
                    &&& *file_size == *old(file_size)
                }),
            decreases dev.incoming().len(), self.max_errors - self.errors,
        {
            let ghost s_head = dev.incoming();
            let ghost e_head = self.errors as int;
            let ghost a_old = hd_acc;
            let ghost inner_head = ymodem_header(s_head, e_head, maxg, ig);
            proof {
                crate::model::lemma_take_bytes_len(s_head, 132);
            }
            match read_exact(dev, 132) {
                Err(e) => {
                    proof {
                        assert(a_old + inner_head.sent =~= a_old);
                        assert(w0 + (h.sent + a_old) =~= w0 + (h.sent + a_old));
                    }
                    return Err(ModemError::Io(e));
                }
                Ok(bytes) => {
                    let pnum = bytes[0];
                    let comp = bytes[1];
                    let mut payload: Vec<u8> = Vec::new();
                    let mut i: usize = 0;
                    while i < 128
                        invariant
                            i <= 128,
                            bytes@.len() == 132,
                            payload@ == bytes@.subrange(2, 2 + i as int),
                        decreases 128 - i,
                    {
                        proof {
                            assert(bytes@.subrange(2, 2 + (i + 1) as int) =~= bytes@.subrange(
                                2,
                                2 + i as int,
                            ).push(bytes@[2 + i as int]));
                        }
                        payload.push(bytes[2 + i]);
                        i = i + 1;
                    }
                    let hi = bytes[130];
                    let lo = bytes[131];
                    let rc = (hi as u16) * 256 + (lo as u16);
                    let good = calc_crc(payload.as_slice()) == rc;
                    proof {
                        assert(good == trailer_matches(true, payload@, bytes@.subrange(130, 132)));
                    }
                    if pnum != 0 || comp != 255 {
                        dev.write_byte(CAN);
                        dev.write_byte(CAN);
                        proof {
                            assert(a_old + inner_head.sent =~= a_old + seq![CAN, CAN]);
                            assert(dev.written() =~= w0 + (h.sent + (a_old + seq![CAN, CAN])));
                        }
                        return Err(ModemError::Canceled);
                    }
                    let (name_v, size_field) = split_header(&payload);
                    let parsed = parse_file_size(&size_field, self.ignore_non_digits_on_file_size);
                    if good && parsed.is_some() {
                        dev.write_byte(ACK);
                        dev.write_byte(CRC);
                        got_name = name_v;
                        got_size = parsed.unwrap();
                        proof {
                            hd_acc = hd_acc + seq![ACK, CRC];
                            assert(a_old + inner_head.sent =~= hd_acc);
                            assert(dev.written() =~= w0 + (h.sent + hd_acc));
                        }
                        break;
                    } else {
                        dev.write_byte(NAK);
                        self.errors = self.errors + 1;
                        proof {
                            hd_acc = hd_acc + seq![NAK];
                            assert(dev.written() =~= w0 + (h.sent + hd_acc));
                        }
                        if self.errors >= self.max_errors {
                            proof {
                                assert(a_old + inner_head.sent =~= hd_acc);
                            }
                            return Err(ModemError::ExhaustedRetries {
                                errors: self.max_errors,
                            });
                        }
                        proof {
                            let inner_next = ymodem_header(
                                dev.incoming(),
                                self.errors as int,
                                maxg,
                                ig,
                            );
                            assert(a_old + (seq![NAK] + inner_next.sent) =~= hd_acc
                                + inner_next.sent);
                        }
                    }
                }
            }
        }
        let ghost hd = ymodem_header(h.rest, 0, maxg, ig);
        *file_name = got_name;
        *file_size = got_size;

        // Data blocks, the double-EOT exchange, and the end-of-batch block.
        let mut file_buf: Vec<u8> = Vec::new();
        let mut packet_num: u8 = 1;
        let mut eots: u8 = 0;
        let ghost mut d_acc: Seq<u8> = Seq::empty();
        proof {
            let outer = ymodem_data(hd.rest, 1u8, 0, hd.errors, maxg);
            assert(d_acc + outer.sent =~= outer.sent);
            assert(file_buf@ + outer.buffered =~= outer.buffered);
            assert((h.sent + hd.sent) + d_acc =~= h.sent + hd.sent);
        }
        loop
            invariant_except_break
                s0 == old(dev).incoming(),
                w0 == old(dev).written(),
                r0 == old(out).received(),
                i0 == old(self).initial_errors as int,
                maxi == old(self).max_initial_errors as int,
                h == ymodem_handshake(s0, i0, maxi),
                h.result == AwaitResult::Got,
                ig == old(self).ignore_non_digits_on_file_size,
                hd == ymodem_header(h.rest, 0, maxg, ig),
                hd.result == RecvResult::Done,
                maxg == old(self).max_errors as int,
                self.config_eq(*old(self)),
                self.errors <= self.max_errors,
                self.max_errors < u32::MAX,
                self.initial_errors as int == h.initial_errors,
                eots <= 2,
                dev.written() == w0 + ((h.sent + hd.sent) + d_acc),
                out.received() == r0,
                *file_name == got_name,
                *file_size == got_size,
                got_name@ == hd.name,
                got_size == hd.size,
                ({
                    let outer = ymodem_data(hd.rest, 1u8, 0, hd.errors, maxg);
                    let inner = ymodem_data(
                        dev.incoming(),
                        packet_num,
                        eots as int,
                        self.errors as int,
                        maxg,
                    );
                    outer.result == inner.result && outer.fault == inner.fault && outer.errors
                        == inner.errors && outer.rest == inner.rest && outer.sent == d_acc
                        + inner.sent && outer.buffered == file_buf@ + inner.buffered
                }),
            ensures
                ({
                    let outer = ymodem_data(hd.rest, 1u8, 0, hd.errors, maxg);
                    &&& outer.result == RecvResult::Done
                    &&& dev.incoming() == outer.rest
                    &&& dev.written() == w0 + ((h.sent + hd.sent) + outer.sent)
                    &&& self.errors as int == outer.errors
                    &&& file_buf@ == outer.buffered
                    &&& self.config_eq(*old(self))
                    &&& self.initial_errors as int == h.initial_errors
                    &&& out.received() == r0
                    &&& *file_name == got_name
                    &&& *file_size == got_size
                    &&& got_name@ == hd.name
                    &&& got_size == hd.size
                }),
            decreases dev.incoming().len(), self.max_errors - self.errors,
        {
            let ghost s_head = dev.incoming();
            let ghost e_head = self.errors as int;
            let ghost a_old = d_acc;
            let ghost b_old = file_buf@;
            let ghost inner_head = ymodem_data(s_head, packet_num, eots as int, e_head, maxg);
            match get_byte_timeout(dev) {
                Err(_) => {
                    proof {
                        assert(a_old + inner_head.sent =~= a_old);
                        assert(b_old + inner_head.buffered =~= b_old);
                    }
                    return Err(ModemError::Io(ChanError::Broken));
                }
                Ok(Some(b)) => {
                    if b == SOH || b == STX {
                        let size: usize = if b == SOH {
                            128
                        } else {
                            1024
                        };
                        let ghost mid = dev.incoming();
                        proof {
                            crate::model::lemma_take_bytes_len(mid, (2 + size + 2) as nat);
                        }
                        match read_exact(dev, 2 + size + 2) {
                            Err(e) => {
                                proof {
                                    assert(a_old + inner_head.sent =~= a_old);
                                    assert(b_old + inner_head.buffered =~= b_old);
                                }
                                return Err(ModemError::Io(e));
                            }
                            Ok(bytes) => {
                                let pnum = bytes[0];
                                let comp = bytes[1];
                                let mut payload: Vec<u8> = Vec::new();
                                let mut i: usize = 0;
                                while i < size
                                    invariant
                                        i <= size,
                                        size <= 1024,
                                        bytes@.len() == 2 + size + 2,
                                        payload@ == bytes@.subrange(2, 2 + i as int),
                                    decreases size - i,
                                {
                                    proof {
                                        assert(bytes@.subrange(2, 2 + (i + 1) as int) =~= bytes@
                                            .subrange(2, 2 + i as int).push(
                                            bytes@[2 + i as int],
                                        ));
                                    }
                                    payload.push(bytes[2 + i]);
                                    i = i + 1;
                                }
                                let hi = bytes[2 + size];
                                let lo = bytes[2 + size + 1];
                                let rc = (hi as u16) * 256 + (lo as u16);
                                let good = calc_crc(payload.as_slice()) == rc;
                                proof {
                                    assert(good == trailer_matches(
                                        true,
                                        payload@,
                                        bytes@.subrange(2 + size as int, 4 + size as int),
                                    ));
                                }
                                let want: u8 = if eots >= 2 {
                                    0
                                } else {
                                    packet_num
                                };
                                if pnum != want || 255 - pnum != comp {
                                    dev.write_byte(CAN);
                                    dev.write_byte(CAN);
                                    proof {
                                        assert(a_old + inner_head.sent =~= a_old + seq![CAN, CAN]);
                                        assert(b_old + inner_head.buffered =~= b_old);
                                        assert(dev.written() =~= w0 + ((h.sent + hd.sent) + (a_old
                                            + seq![CAN, CAN])));
                                    }
                                    return Err(ModemError::Canceled);
                                }
                                if good {
                                    if eots >= 2 {
                                        dev.write_byte(ACK);
                                        proof {
                                            d_acc = d_acc + seq![ACK];
                                            assert(a_old + inner_head.sent =~= d_acc);
                                            assert(b_old + inner_head.buffered =~= b_old);
                                            assert(dev.written() =~= w0 + ((h.sent + hd.sent)
                                                + d_acc));
                                        }
                                        break;
                                    }
                                    packet_num = packet_num.wrapping_add(1);
                                    dev.write_byte(ACK);
                                    let mut k: usize = 0;
                                    while k < payload.len()
                                        invariant
                                            k <= payload@.len(),
                                            file_buf@ == b_old + payload@.take(k as int),
                                        decreases payload@.len() - k,
                                    {
                                        proof {
                                            assert(payload@.take(k + 1) =~= payload@.take(
                                                k as int,
                                            ).push(payload@[k as int]));
                                            assert((b_old + payload@.take(k as int)).push(
                                                payload@[k as int],
                                            ) =~= b_old + payload@.take(k + 1));
                                        }
                                        file_buf.push(payload[k]);
                                        k = k + 1;
                                    }
                                    proof {
                                        assert(payload@.take(payload@.len() as int) =~= payload@);
                                        assert(file_buf@ =~= b_old + payload@);
                                        d_acc = d_acc + seq![ACK];
                                        assert(dev.written() =~= w0 + ((h.sent + hd.sent)
                                            + d_acc));
                                        let inner_next = ymodem_data(
                                            dev.incoming(),
                                            packet_num,
                                            eots as int,
                                            self.errors as int,
                                            maxg,
                                        );
                                        assert(a_old + (seq![ACK] + inner_next.sent) =~= d_acc
                                            + inner_next.sent);
                                        assert(b_old + (payload@ + inner_next.buffered) =~=
                                            file_buf@ + inner_next.buffered);
                                    }
                                } else {
                                    dev.write_byte(NAK);
                                    proof {
                                        d_acc = d_acc + seq![NAK];
                                        assert(dev.written() =~= w0 + ((h.sent + hd.sent)
                                            + d_acc));
                                    }
                                    match self.add_error() {
                                        Err(e) => {
                                            proof {
                                                assert(a_old + inner_head.sent =~= d_acc);
                                                assert(b_old + inner_head.buffered =~= b_old);
                                            }
                                            return Err(e);
                                        }
                                        Ok(()) => {
                                            proof {
                                                let inner_next = ymodem_data(
                                                    dev.incoming(),
                                                    packet_num,
                                                    eots as int,
                                                    self.errors as int,
                                                    maxg,
                                                );
                                                assert(a_old + (seq![NAK] + inner_next.sent) =~=
                                                    d_acc + inner_next.sent);
                                                assert(b_old + inner_next.buffered =~= file_buf@
                                                    + inner_next.buffered);
                                            }
                                        }
                                    }
                                }
                            }
                        }
                    } else if b == EOT {
                        if eots == 0 {
                            dev.write_byte(NAK);
                            eots = 1;
                            proof {
                                d_acc = d_acc + seq![NAK];
                                assert(dev.written() =~= w0 + ((h.sent + hd.sent) + d_acc));
                                let inner_next = ymodem_data(
                                    dev.incoming(),
                                    packet_num,
                                    1,
                                    self.errors as int,
                                    maxg,
                                );
                                assert(a_old + (seq![NAK] + inner_next.sent) =~= d_acc
                                    + inner_next.sent);
                                assert(b_old + inner_next.buffered =~= file_buf@
                                    + inner_next.buffered);
                            }
                        } else {
                            dev.write_byte(ACK);
                            dev.write_byte(CRC);
                            eots = 2;
                            proof {
                                d_acc = d_acc + seq![ACK, CRC];
                                assert(dev.written() =~= w0 + ((h.sent + hd.sent) + d_acc));
                                let inner_next = ymodem_data(
                                    dev.incoming(),
                                    packet_num,
                                    2,
                                    self.errors as int,
                                    maxg,
                                );
                                assert(a_old + (seq![ACK, CRC] + inner_next.sent) =~= d_acc
                                    + inner_next.sent);
                                assert(b_old + inner_next.buffered =~= file_buf@
                                    + inner_next.buffered);
                            }
                        }
                    }
                }
                Ok(None) => {
                    match self.add_error() {
                        Err(e) => {
                            proof {
                                assert(a_old + inner_head.sent =~= a_old);
                                assert(b_old + inner_head.buffered =~= b_old);
                            }
                            return Err(e);
                        }
                        Ok(()) => {}
                    }
                }
            }
        }

        // Delivery: exactly the advertised number of octets; trailing pad
        // octets of the final data block are discarded.
        let n: usize = if (got_size as usize) < file_buf.len() {
            got_size as usize
        } else {
            file_buf.len()
        };
        let mut prefix: Vec<u8> = Vec::new();
        let mut k: usize = 0;
        while k < n
            invariant
                k <= n,
                n <= file_buf@.len(),
                prefix@ == file_buf@.take(n as int).take(k as int),
            decreases n - k,
        {
            proof {
                assert(file_buf@.take(n as int).take(k + 1) =~= file_buf@.take(n as int).take(
                    k as int,
                ).push(file_buf@[k as int]));
            }
            prefix.push(file_buf[k]);
            k = k + 1;
        }
        proof {
            assert(prefix@ =~= file_buf@.take(n as int));
        }
        out.put(&prefix);
        proof {
            let d = ymodem_data(hd.rest, 1u8, 0, hd.errors, maxg);
            assert(file_buf@ + Seq::<u8>::empty() =~= file_buf@);
            assert(prefix@ =~= d.buffered.take(
                vstd::math::min(hd.size as int, d.buffered.len() as int),
            ));
        }
        Ok(())
    }
}

} // verus!
