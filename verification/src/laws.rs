//! The laws the protocol engines obey, proved against the spec-level
//! interpreters that the engines' contracts are stated over.

use vstd::prelude::*;

use crate::chan::{ReadEvent, next_event};
use crate::common::{sum8, take_bytes};
use crate::model::{
    AwaitResult, NegotiateResult, RecvResult, SendResult, StreamResult, await_byte, byte_events,
    frame_for, negotiate, pad_to, trailer_matches, trailer_of, xmodem_recv, xmodem_send,
    xmodem_stream,
};
use crate::variants::xmodem::consts::{ACK, CAN, CRC, EOT, NAK, SOH};
use crate::ymodem_spec::{
    digits_filter, header_fields, hex_digits, parse_size, until_byte, ymodem_data,
    ymodem_handshake, ymodem_header, ymodem_header_payload, ymodem_recv_run, ymodem_send_run,
    ymodem_stream, zeros,
};

verus! {

/// The wrapping 8-bit sum after one octet of the payload is replaced.
pub proof fn lemma_sum8_update(p: Seq<u8>, i: int, b: u8)
    requires
        0 <= i < p.len(),
    ensures
        sum8(p.update(i, b)) == ((sum8(p) + 256 + b - p[i]) % 256) as u8,
    decreases p.len(),
{
    if i == p.len() - 1 {
        assert(p.update(i, b).drop_last() =~= p.drop_last());
        assert(p.update(i, b).last() == b);
        let x = sum8(p.drop_last()) as int;
        let ob = p[i] as int;
        assert(sum8(p) as int == (x + ob) % 256);
        assert(((((x + ob) % 256) + 256 + b - ob) % 256) == ((x + b) % 256)) by (nonlinear_arith)
            requires
                0 <= x < 256,
                0 <= ob < 256,
                0 <= b < 256,
        ;
    } else {
        assert(p.update(i, b).drop_last() =~= p.drop_last().update(i, b));
        assert(p.update(i, b).last() == p.last());
        lemma_sum8_update(p.drop_last(), i, b);
        let x = sum8(p.drop_last()) as int;
        let l = p.last() as int;
        let ob = p[i] as int;
        assert(sum8(p) as int == (x + l) % 256);
        assert(sum8(p.update(i, b)) as int == (((x + 256 + b - ob) % 256) + l) % 256);
        assert(((((x + 256 + b - ob) % 256) + l) % 256) == ((((x + l) % 256) + 256 + b - ob)
            % 256)) by (nonlinear_arith)
            requires
                0 <= x < 256,
                0 <= l < 256,
                0 <= ob < 256,
                0 <= b < 256,
        ;
    }
}

/// Law: in standard-checksum mode, flipping any single bit of a data
/// block's payload changes the checksum, so the receiver rejects the block:
/// a trailer that matched the payload does not match the flipped payload.
pub proof fn checksum_rejects_payload_bit_flip(p: Seq<u8>, i: int, k: u8, trailer: Seq<u8>)
    requires
        0 <= i < p.len(),
        k < 8,
        trailer.len() == 1,
        trailer_matches(false, p, trailer),
    ensures
        !trailer_matches(false, p.update(i, (p[i] ^ (1u8 << k)) as u8), trailer),
{
    let b = (p[i] ^ (1u8 << k)) as u8;
    let old_b = p[i];
    lemma_sum8_update(p, i, b);
    assert(b != old_b && (b - old_b < 256) && (old_b - b < 256) && b - old_b != 0) by (bit_vector)
        requires
            b == (old_b ^ (1u8 << k)) as u8,
            k < 8,
    ;
    assert(((sum8(p) + 256 + b - old_b) % 256) != (sum8(p) as int) % 256);
    assert((sum8(p) as int) % 256 == sum8(p) as int) by {
        assert(sum8(p) < 256);
    }
}

/// Law: in standard-checksum mode, flipping any single bit of a data
/// block's trailer makes it disagree with the payload, so the receiver
/// rejects the block.
pub proof fn checksum_rejects_trailer_bit_flip(p: Seq<u8>, k: u8, trailer: Seq<u8>)
    requires
        k < 8,
        trailer.len() == 1,
        trailer_matches(false, p, trailer),
    ensures
        !trailer_matches(false, p, trailer.update(0, (trailer[0] ^ (1u8 << k)) as u8)),
{
    let t = trailer[0];
    assert((t ^ (1u8 << k)) as u8 != t) by (bit_vector)
        requires
            k < 8,
    ;
}

/// Whether an event neither ends a negotiation (`NAK` when accepted, `C`,
/// `CAN`) nor faults.
pub open spec fn neutral_for_negotiation(ev: ReadEvent, accept_nak: bool) -> bool {
    &&& ev != ReadEvent::Fault
    &&& !(accept_nak && ev == ReadEvent::Byte(NAK))
    &&& ev != ReadEvent::Byte(CRC)
    &&& ev != ReadEvent::Byte(CAN)
}

/// Law: two cancel octets during negotiation cancel the transfer, wherever
/// they stand among octets and timeouts the sender ignores, as long as the
/// error budget has not run out strictly before the second one.
pub proof fn negotiation_two_cans_cancel(
    pre: Seq<ReadEvent>,
    mid: Seq<ReadEvent>,
    tail: Seq<ReadEvent>,
    accept_nak: bool,
    errors: int,
    max: int,
)
    requires
        forall|j: int| 0 <= j < pre.len() ==> neutral_for_negotiation(#[trigger] pre[j], accept_nak),
        forall|j: int| 0 <= j < mid.len() ==> neutral_for_negotiation(#[trigger] mid[j], accept_nak),
        errors + pre.len() + mid.len() + 1 < max,
    ensures
        negotiate(
            pre + seq![ReadEvent::Byte(CAN)] + mid + seq![ReadEvent::Byte(CAN)] + tail,
            accept_nak,
            0,
            errors,
            max,
        ).result == NegotiateResult::Canceled,
    decreases pre.len(),
{
    let s = pre + seq![ReadEvent::Byte(CAN)] + mid + seq![ReadEvent::Byte(CAN)] + tail;
    if pre.len() == 0 {
        assert(s[0] == ReadEvent::Byte(CAN));
        let rest = next_event(s).1;
        assert(rest =~= mid + seq![ReadEvent::Byte(CAN)] + tail);
        negotiation_one_can_pending(mid, tail, accept_nak, errors + 1, max);
    } else {
        assert(s[0] == pre[0]);
        assert(neutral_for_negotiation(pre[0], accept_nak));
        let rest = next_event(s).1;
        assert(rest =~= pre.drop_first() + seq![ReadEvent::Byte(CAN)] + mid + seq![
            ReadEvent::Byte(CAN),
        ] + tail);
        assert(forall|j: int|
            0 <= j < pre.drop_first().len() ==> neutral_for_negotiation(
                #[trigger] pre.drop_first()[j],
                accept_nak,
            ));
        negotiation_two_cans_cancel(pre.drop_first(), mid, tail, accept_nak, errors + 1, max);
    }
}

/// After one cancel octet, a second one cancels the negotiation, wherever
/// it stands among ignored events, within the error budget.
proof fn negotiation_one_can_pending(
    mid: Seq<ReadEvent>,
    tail: Seq<ReadEvent>,
    accept_nak: bool,
    errors: int,
    max: int,
)
    requires
        forall|j: int| 0 <= j < mid.len() ==> neutral_for_negotiation(#[trigger] mid[j], accept_nak),
        errors + mid.len() < max,
    ensures
        negotiate(
            mid + seq![ReadEvent::Byte(CAN)] + tail,
            accept_nak,
            1,
            errors,
            max,
        ).result == NegotiateResult::Canceled,
    decreases mid.len(),
{
    let s = mid + seq![ReadEvent::Byte(CAN)] + tail;
    if mid.len() == 0 {
        assert(s[0] == ReadEvent::Byte(CAN));
    } else {
        assert(s[0] == mid[0]);
        assert(neutral_for_negotiation(mid[0], accept_nak));
        let rest = next_event(s).1;
        assert(rest =~= mid.drop_first() + seq![ReadEvent::Byte(CAN)] + tail);
        assert(forall|j: int|
            0 <= j < mid.drop_first().len() ==> neutral_for_negotiation(
                #[trigger] mid.drop_first()[j],
                accept_nak,
            ));
        negotiation_one_can_pending(mid.drop_first(), tail, accept_nak, errors + 1, max);
    }
}

/// Whether an event neither acknowledges (`target`) nor faults.
pub open spec fn neutral_for_await(ev: ReadEvent, target: u8) -> bool {
    ev != ReadEvent::Fault && ev != ReadEvent::Byte(target)
}

/// `n` copies of the `EOT` octet.
pub open spec fn eots(n: int) -> Seq<u8> {
    Seq::new(n as nat, |i: int| EOT)
}

/// Law (end-of-transfer idempotence, success half): an `EOT` that draws an
/// acknowledgement ends the transfer cleanly; until then every unexpected
/// octet or timeout makes the sender send `EOT` again, one octet of budget
/// apiece.
pub proof fn eot_resent_until_ack(
    pre: Seq<ReadEvent>,
    tail: Seq<ReadEvent>,
    errors: int,
    max: int,
)
    requires
        forall|j: int| 0 <= j < pre.len() ==> neutral_for_await(#[trigger] pre[j], ACK),
        errors + pre.len() < max,
    ensures
        ({
            let o = await_byte(pre + seq![ReadEvent::Byte(ACK)] + tail, ACK, seq![EOT], errors, max);
            &&& o.result == AwaitResult::Got
            &&& o.errors == errors + pre.len()
            &&& o.rest == tail
            &&& o.sent == eots(pre.len() as int + 1)
        }),
    decreases pre.len(),
{
    let s = pre + seq![ReadEvent::Byte(ACK)] + tail;
    if pre.len() == 0 {
        assert(s[0] == ReadEvent::Byte(ACK));
        assert(next_event(s).1 =~= tail);
        assert(seq![EOT] =~= eots(1));
    } else {
        assert(s[0] == pre[0]);
        assert(neutral_for_await(pre[0], ACK));
        let rest = next_event(s).1;
        assert(rest =~= pre.drop_first() + seq![ReadEvent::Byte(ACK)] + tail);
        assert(forall|j: int|
            0 <= j < pre.drop_first().len() ==> neutral_for_await(
                #[trigger] pre.drop_first()[j],
                ACK,
            ));
        eot_resent_until_ack(pre.drop_first(), tail, errors + 1, max);
        assert(seq![EOT] + eots(pre.len() as int) =~= eots(pre.len() as int + 1));
    }
}

/// Law (end-of-transfer idempotence, failure half): when no acknowledgement
/// ever arrives and the channel does not fault, the sender resends `EOT`
/// until its error budget is exhausted.
pub proof fn eot_gives_up_without_ack(s: Seq<ReadEvent>, errors: int, max: int)
    requires
        forall|j: int| 0 <= j < s.len() ==> neutral_for_await(#[trigger] s[j], ACK),
    ensures
        await_byte(s, ACK, seq![EOT], errors, max).result == AwaitResult::Exhausted,
    decreases s.len(), (if errors < max { max - errors } else { 0 }),
{
    let ev = next_event(s).0;
    let rest = next_event(s).1;
    if s.len() == 0 {
        if errors + 1 < max {
            eot_gives_up_without_ack(rest, errors + 1, max);
        }
    } else {
        assert(ev == s[0]);
        assert(neutral_for_await(s[0], ACK));
        if errors + 1 < max {
            assert(rest =~= s.drop_first());
            assert(forall|j: int|
                0 <= j < s.drop_first().len() ==> neutral_for_await(
                    #[trigger] s.drop_first()[j],
                    ACK,
                ));
            eot_gives_up_without_ack(rest, errors + 1, max);
        }
    }
}

/// `count` copies of one framed block, as octets.
pub open spec fn repeat_bytes(frame: Seq<u8>, count: int) -> Seq<u8>
    decreases count,
{
    if count <= 0 {
        Seq::empty()
    } else {
        frame + repeat_bytes(frame, count - 1)
    }
}

/// Law (retry budget): a run of data blocks whose trailers do not verify,
/// with no good block in between, drives the receiver's error counter to
/// the maximum and ends the transfer with an exhausted retry budget.
pub proof fn recv_exhausts_on_corrupt_blocks(
    payload: Seq<u8>,
    trailer: Seq<u8>,
    expected: u8,
    tail: Seq<ReadEvent>,
    errors: int,
    max: int,
    crc: bool,
)
    requires
        payload.len() == 128,
        trailer.len() == (if crc {
            2int
        } else {
            1int
        }),
        !trailer_matches(crc, payload, trailer),
        errors < max,
    ensures
        ({
            let frame = seq![SOH, expected, (255 - expected) as u8] + payload + trailer;
            let o = xmodem_recv(
                byte_events(repeat_bytes(frame, max - errors)) + tail,
                expected,
                errors,
                max,
                crc,
            );
            o.result == RecvResult::Exhausted && o.errors == max
        }),
    decreases max - errors,
{
    let frame = seq![SOH, expected, (255 - expected) as u8] + payload + trailer;
    let count = max - errors;
    let s = byte_events(repeat_bytes(frame, count)) + tail;
    let flat = repeat_bytes(frame, count);
    assert(flat == frame + repeat_bytes(frame, count - 1));
    lemma_byte_events_add(frame, repeat_bytes(frame, count - 1));
    assert(s =~= (byte_events(frame) + byte_events(repeat_bytes(frame, count - 1))) + tail);
    assert(s =~= byte_events(frame) + (byte_events(repeat_bytes(frame, count - 1)) + tail));
    let tail2 = byte_events(repeat_bytes(frame, count - 1)) + tail;
    lemma_recv_one_corrupt_block(payload, trailer, expected, tail2, errors, max, crc);
    if errors + 1 < max {
        recv_exhausts_on_corrupt_blocks(payload, trailer, expected, tail, errors + 1, max, crc);
    }
}

/// One corrupted block draws a `NAK` and one protocol error, or exhausts
/// the budget when it was the last error allowed.
pub proof fn lemma_recv_one_corrupt_block(
    payload: Seq<u8>,
    trailer: Seq<u8>,
    expected: u8,
    tail: Seq<ReadEvent>,
    errors: int,
    max: int,
    crc: bool,
)
    requires
        payload.len() == 128,
        trailer.len() == (if crc {
            2int
        } else {
            1int
        }),
        !trailer_matches(crc, payload, trailer),
        errors < max,
    ensures
        ({
            let frame = seq![SOH, expected, (255 - expected) as u8] + payload + trailer;
            let o = xmodem_recv(byte_events(frame) + tail, expected, errors, max, crc);
            &&& (errors + 1 < max ==> ({
                let r = xmodem_recv(tail, expected, errors + 1, max, crc);
                o.result == r.result && o.fault == r.fault && o.errors == r.errors && o.rest
                    == r.rest && o.sent == seq![NAK] + r.sent && o.delivered == r.delivered
            }))
            &&& (errors + 1 >= max ==> o.result == RecvResult::Exhausted && o.errors == errors + 1)
        }),
{
    let frame = seq![SOH, expected, (255 - expected) as u8] + payload + trailer;
    let s = byte_events(frame) + tail;
    let tl = if crc {
        2int
    } else {
        1int
    };
    assert(s.len() == frame.len() + tail.len());
    assert(s[0] == ReadEvent::Byte(SOH));
    assert(next_event(s).0 == ReadEvent::Byte(SOH));
    let rest = next_event(s).1;
    lemma_byte_events_add(seq![SOH], frame.drop_first());
    assert(byte_events(frame) =~= byte_events(seq![SOH]) + byte_events(frame.drop_first()));
    assert(rest =~= byte_events(frame.drop_first()) + tail);
    lemma_take_bytes_of_bytes(frame.drop_first(), tail, (2 + 128 + tl) as nat);
    let t = take_bytes(rest, (2 + 128 + tl) as nat);
    assert(frame.drop_first().len() == 2 + 128 + tl);
    assert(frame.drop_first().take(2 + 128 + tl) =~= frame.drop_first());
    assert(frame.drop_first().skip(2 + 128 + tl) =~= Seq::<u8>::empty());
    assert(byte_events(Seq::<u8>::empty()) =~= Seq::<ReadEvent>::empty());
    assert(t.1 =~= tail);
    let bytes = frame.drop_first();
    assert(bytes[0] == expected);
    assert(bytes[1] == (255 - expected) as u8);
    assert(bytes.subrange(2, 130) =~= payload);
    assert(bytes.subrange(130, 130 + tl) =~= trailer);
}

/// Reading octets off a script of pure octet events succeeds and consumes
/// exactly that many events.
pub proof fn lemma_take_bytes_of_bytes(bs: Seq<u8>, tail: Seq<ReadEvent>, n: nat)
    requires
        n <= bs.len(),
    ensures
        take_bytes(byte_events(bs) + tail, n) == (
            Ok::<Seq<u8>, crate::chan::ChanError>(bs.take(n as int)),
            byte_events(bs.skip(n as int)) + tail,
        ),
    decreases n,
{
    let s = byte_events(bs) + tail;
    if n == 0 {
        assert(bs.take(0) =~= Seq::<u8>::empty());
        assert(bs.skip(0) =~= bs);
        assert(take_bytes(s, 0).0 == Ok::<Seq<u8>, crate::chan::ChanError>(bs.take(0)));
    } else {
        assert(s.len() > 0);
        assert(s[0] == ReadEvent::Byte(bs[0]));
        let rest = next_event(s).1;
        assert(rest =~= byte_events(bs.drop_first()) + tail);
        lemma_take_bytes_of_bytes(bs.drop_first(), tail, (n - 1) as nat);
        assert(seq![bs[0]] + bs.drop_first().take(n - 1) =~= bs.take(n as int));
        assert(bs.drop_first().skip(n - 1) =~= bs.skip(n as int));
    }
}

/// Turning octets into events distributes over concatenation.
pub proof fn lemma_byte_events_add(a: Seq<u8>, b: Seq<u8>)
    ensures
        byte_events(a + b) == byte_events(a) + byte_events(b),
{
    assert(byte_events(a + b) =~= byte_events(a) + byte_events(b));
}

/// The framed blocks a sender emits for a payload, one per chunk of at most
/// `bl` octets, the last one padded, with sequence octets wrapping from
/// `seq_byte` on.
pub open spec fn xmodem_frame_list(
    data: Seq<u8>,
    seq_byte: u8,
    crc: bool,
    bl: int,
    pad: u8,
) -> Seq<Seq<u8>>
    decreases data.len() when 1 <= bl
{
    if data.len() == 0 {
        Seq::empty()
    } else {
        let take = if data.len() >= bl {
            bl
        } else {
            data.len() as int
        };
        seq![frame_for(seq_byte, pad_to(data.take(take), bl, pad), crc)] + xmodem_frame_list(
            data.skip(take),
            ((seq_byte + 1) % 256) as u8,
            crc,
            bl,
            pad,
        )
    }
}

/// All the padded block payloads of a transfer, concatenated: the payload
/// itself, then pad octets filling the last block.
pub open spec fn padded_payloads(data: Seq<u8>, bl: int, pad: u8) -> Seq<u8>
    decreases data.len() when 1 <= bl
{
    if data.len() == 0 {
        Seq::empty()
    } else {
        let take = if data.len() >= bl {
            bl
        } else {
            data.len() as int
        };
        pad_to(data.take(take), bl, pad) + padded_payloads(data.skip(take), bl, pad)
    }
}

/// How many blocks a payload needs.
pub open spec fn chunk_count(len: int, bl: int) -> int
    decreases len when 1 <= bl
{
    if len <= 0 {
        0
    } else if len >= bl {
        1 + chunk_count(len - bl, bl)
    } else {
        1
    }
}

/// A payload needs at least one block, and never a negative number.
pub proof fn lemma_chunk_count_pos(len: int, bl: int)
    requires
        1 <= bl,
    ensures
        chunk_count(len, bl) >= 0,
        len > 0 ==> chunk_count(len, bl) >= 1,
    decreases len,
{
    if len >= bl {
        lemma_chunk_count_pos(len - bl, bl);
    }
}

/// `n` acknowledgement events.
pub open spec fn acks(n: int) -> Seq<ReadEvent> {
    Seq::new(n as nat, |i: int| ReadEvent::Byte(ACK))
}

/// `n` acknowledgement octets.
pub open spec fn ack_bytes(n: int) -> Seq<u8> {
    Seq::new(n as nat, |i: int| ACK)
}

/// A sequence octet advanced `n` blocks, wrapping modulo 256.
pub open spec fn advance(seq_byte: u8, n: int) -> u8
    decreases n when n >= 0
{
    if n <= 0 {
        seq_byte
    } else {
        advance(((seq_byte + 1) % 256) as u8, n - 1)
    }
}

/// The advanced sequence octet in closed form.
pub proof fn lemma_advance(seq_byte: u8, n: int)
    requires
        n >= 0,
    ensures
        advance(seq_byte, n) == ((seq_byte + n) % 256) as u8,
    decreases n,
{
    if n > 0 {
        let s1 = ((seq_byte + 1) % 256) as u8;
        lemma_advance(s1, n - 1);
        vstd::arithmetic::div_mod::lemma_add_mod_noop(seq_byte as int + 1, n - 1, 256);
        vstd::arithmetic::div_mod::lemma_mod_twice(seq_byte as int + 1, 256);
        vstd::arithmetic::div_mod::lemma_add_mod_noop(s1 as int, n - 1, 256);
        assert((n - 1) % 256 == (n - 1) % 256);
        assert((s1 as int + (n - 1)) % 256 == (seq_byte as int + n) % 256) by {
            assert((s1 as int % 256 + (n - 1) % 256) % 256 == (s1 as int + (n - 1)) % 256);
            assert((s1 as int) % 256 == s1 as int);
            assert(((seq_byte as int + 1) % 256 + (n - 1) % 256) % 256 == (seq_byte as int + 1 + (n
                - 1)) % 256);
        }
    }
}

/// Law (sequence wrap): the sequence octets of the framed blocks follow
/// 1, 2, …, 255, 0, 1, …: the block at index `i` carries `(1 + i) % 256`.
/// With the round-trip law, which holds for any number of blocks, a
/// receiver fed such a run accepts every block.
pub proof fn sequence_octets_wrap(data: Seq<u8>, crc: bool, bl: int, pad: u8, i: int)
    requires
        bl == 128 || bl == 1024,
        0 <= i < xmodem_frame_list(data, 1u8, crc, bl, pad).len(),
    ensures
        ({
            let list = xmodem_frame_list(data, 1u8, crc, bl, pad);
            list[i].len() >= 3 && list[i][1] == ((1 + i) % 256) as u8
        }),
{
    lemma_frame_list_seq(data, 1u8, crc, bl, pad, i);
    lemma_advance(1u8, i);
}

/// The block at index `i` carries the start octet advanced by `i`.
proof fn lemma_frame_list_seq(data: Seq<u8>, seq_byte: u8, crc: bool, bl: int, pad: u8, i: int)
    requires
        bl == 128 || bl == 1024,
        0 <= i < xmodem_frame_list(data, seq_byte, crc, bl, pad).len(),
    ensures
        ({
            let list = xmodem_frame_list(data, seq_byte, crc, bl, pad);
            list[i].len() >= 3 && list[i][1] == advance(seq_byte, i)
        }),
    decreases i,
{
    let take = if data.len() >= bl {
        bl
    } else {
        data.len() as int
    };
    if i == 0 {
        assert(pad_to(data.take(take), bl, pad).len() == bl);
    } else {
        lemma_frame_list_seq(data.skip(take), ((seq_byte + 1) % 256) as u8, crc, bl, pad, i - 1);
    }
}

/// A sender whose every block is acknowledged at once streams the whole
/// payload, touches no error budget, and emits exactly the framed blocks.
pub proof fn stream_delivers_all_with_acks(
    data: Seq<u8>,
    seq_byte: u8,
    tail: Seq<ReadEvent>,
    errors: int,
    max: int,
    crc: bool,
    bl: int,
    pad: u8,
)
    requires
        bl == 128 || bl == 1024,
    ensures
        ({
            let n = chunk_count(data.len() as int, bl);
            let o = xmodem_stream(data, seq_byte, acks(n) + tail, errors, max, crc, bl, pad);
            &&& o.result == StreamResult::Done
            &&& o.errors == errors
            &&& o.rest == tail
            &&& o.data_left == Seq::<u8>::empty()
            &&& o.sent == xmodem_frame_list(data, seq_byte, crc, bl, pad).flatten()
        }),
    decreases data.len(),
{
    let n = chunk_count(data.len() as int, bl);
    let s = acks(n) + tail;
    if data.len() == 0 {
        assert(acks(0) =~= Seq::<ReadEvent>::empty());
        assert(acks(0) + tail =~= tail);
        assert(xmodem_frame_list(data, seq_byte, crc, bl, pad).flatten() =~= Seq::<u8>::empty());
        assert(xmodem_stream(data, seq_byte, s, errors, max, crc, bl, pad).data_left =~= Seq::<
            u8,
        >::empty());
    } else {
        let take = if data.len() >= bl {
            bl
        } else {
            data.len() as int
        };
        let payload = pad_to(data.take(take), bl, pad);
        let frame = frame_for(seq_byte, payload, crc);
        proof_chunk_pos(data, bl);
        assert(n >= 1);
        assert(s[0] == ReadEvent::Byte(ACK));
        let ob = await_byte(s, ACK, frame, errors, max);
        assert(ob.result == AwaitResult::Got && ob.errors == errors && ob.sent == frame);
        assert(ob.rest =~= acks(n - 1) + tail);
        assert(chunk_count(data.skip(take).len() as int, bl) == n - 1);
        stream_delivers_all_with_acks(
            data.skip(take),
            ((seq_byte + 1) % 256) as u8,
            tail,
            errors,
            max,
            crc,
            bl,
            pad,
        );
        let list = xmodem_frame_list(data, seq_byte, crc, bl, pad);
        let rest_list = xmodem_frame_list(data.skip(take), ((seq_byte + 1) % 256) as u8, crc, bl, pad);
        assert(list == seq![frame] + rest_list);
        assert(list.len() > 0);
        assert(list.first() == frame);
        assert(list.drop_first() =~= rest_list);
        assert(list.flatten() == frame + rest_list.flatten());
    }
}

/// A payload in hand needs at least one block.
proof fn proof_chunk_pos(data: Seq<u8>, bl: int)
    requires
        1 <= bl,
    ensures
        chunk_count(data.len() as int, bl) >= 0,
        data.len() > 0 ==> chunk_count(data.len() as int, bl) >= 1,
{
    lemma_chunk_count_pos(data.len() as int, bl);
}

/// A receiver fed exactly the framed blocks of a payload accepts every one
/// of them, acknowledges each, delivers every padded payload, and goes on
/// with the rest of its script with its sequence counter advanced.
#[verifier::rlimit(100)]
#[verifier::spinoff_prover]
pub proof fn recv_accepts_frames(
    data: Seq<u8>,
    expected: u8,
    tail: Seq<ReadEvent>,
    errors: int,
    max: int,
    crc: bool,
    bl: int,
    pad: u8,
)
    requires
        bl == 128 || bl == 1024,
        errors < max,
    ensures
        ({
            let n = chunk_count(data.len() as int, bl);
            let o = xmodem_recv(
                byte_events(xmodem_frame_list(data, expected, crc, bl, pad).flatten()) + tail,
                expected,
                errors,
                max,
                crc,
            );
            let r = xmodem_recv(tail, advance(expected, n), errors, max, crc);
            &&& o.result == r.result
            &&& o.fault == r.fault
            &&& o.errors == r.errors
            &&& o.rest == r.rest
            &&& o.sent == ack_bytes(n) + r.sent
            &&& o.delivered == padded_payloads(data, bl, pad) + r.delivered
        }),
    decreases data.len(),
{
    let n = chunk_count(data.len() as int, bl);
    let list = xmodem_frame_list(data, expected, crc, bl, pad);
    if data.len() == 0 {
        assert(list.flatten() =~= Seq::<u8>::empty());
        assert(byte_events(list.flatten()) + tail =~= tail);
        assert(ack_bytes(0) + xmodem_recv(tail, expected, errors, max, crc).sent =~= xmodem_recv(
            tail,
            expected,
            errors,
            max,
            crc,
        ).sent);
        assert(padded_payloads(data, bl, pad) + xmodem_recv(tail, expected, errors, max, crc)
            .delivered =~= xmodem_recv(tail, expected, errors, max, crc).delivered);
    } else {
        let take = if data.len() >= bl {
            bl
        } else {
            data.len() as int
        };
        let payload = pad_to(data.take(take), bl, pad);
        let frame = frame_for(expected, payload, crc);
        let rest_list = xmodem_frame_list(data.skip(take), ((expected + 1) % 256) as u8, crc, bl, pad);
        assert(list == seq![frame] + rest_list);
        assert(list.first() == frame);
        assert(list.drop_first() =~= rest_list);
        assert(list.flatten() == frame + rest_list.flatten());
        lemma_byte_events_add(frame, rest_list.flatten());
        let s = byte_events(list.flatten()) + tail;
        let tail2 = byte_events(rest_list.flatten()) + tail;
        assert(s =~= byte_events(frame) + tail2);
        assert(payload.len() == bl);
        let hdr = if bl == 128 {
            SOH
        } else {
            crate::variants::xmodem::consts::STX
        };
        assert(frame[0] == hdr);
        assert(s[0] == ReadEvent::Byte(hdr));
        let rest = next_event(s).1;
        lemma_byte_events_add(seq![hdr], frame.drop_first());
        assert(byte_events(frame) =~= byte_events(seq![hdr]) + byte_events(frame.drop_first()));
        assert(rest =~= byte_events(frame.drop_first()) + tail2);
        let tl = if crc {
            2int
        } else {
            1int
        };
        assert(frame.drop_first().len() == 2 + bl + tl);
        lemma_take_bytes_of_bytes(frame.drop_first(), tail2, (2 + bl + tl) as nat);
        let t = take_bytes(rest, (2 + bl + tl) as nat);
        assert(frame.drop_first().take(2 + bl + tl) =~= frame.drop_first());
        assert(frame.drop_first().skip(2 + bl + tl) =~= Seq::<u8>::empty());
        assert(byte_events(Seq::<u8>::empty()) =~= Seq::<ReadEvent>::empty());
        assert(t.1 =~= tail2);
        let bytes = frame.drop_first();
        assert(bytes[0] == expected);
        assert(bytes[1] == (255 - expected) as u8);
        assert(bytes.subrange(2, 2 + bl) =~= payload);
        assert(bytes.subrange(2 + bl, 2 + bl + tl) =~= trailer_of(crc, payload));
        lemma_trailer_of_matches(crc, payload);
        recv_accepts_frames(
            data.skip(take),
            ((expected + 1) % 256) as u8,
            tail,
            errors,
            max,
            crc,
            bl,
            pad,
        );
        proof_chunk_pos(data, bl);
        assert(chunk_count(data.skip(take).len() as int, bl) == n - 1);
        let r = xmodem_recv(tail, advance(expected, n), errors, max, crc);
        let o2 = xmodem_recv(tail2, ((expected + 1) % 256) as u8, errors, max, crc);
        assert(advance(((expected + 1) % 256) as u8, n - 1) == advance(expected, n));
        assert(seq![ACK] + (ack_bytes(n - 1) + r.sent) =~= ack_bytes(n) + r.sent);
        assert(payload + (padded_payloads(data.skip(take), bl, pad) + r.delivered) =~=
            padded_payloads(data, bl, pad) + r.delivered);
    }
}

/// The trailer a sender appends verifies its own payload.
pub proof fn lemma_trailer_of_matches(crc: bool, payload: Seq<u8>)
    ensures
        trailer_matches(crc, payload, trailer_of(crc, payload)),
{
    if crc {
        let c = crate::common::crc16_of(payload) as int;
        assert(c == 256 * (c / 256) + c % 256);
        assert(0 <= c / 256 < 256);
        assert(0 <= c % 256 < 256);
    }
}

/// The concatenated padded payloads extend the payload itself by fewer than
/// one block of pad octets.
pub proof fn lemma_padded_payloads_shape(data: Seq<u8>, bl: int, pad: u8)
    requires
        bl == 128 || bl == 1024,
    ensures
        ({
            let q = padded_payloads(data, bl, pad);
            &&& data.is_prefix_of(q)
            &&& q.len() < data.len() + bl
            &&& forall|i: int| data.len() <= i < q.len() ==> q[i] == pad
        }),
    decreases data.len(),
{
    let q = padded_payloads(data, bl, pad);
    if data.len() == 0 {
        assert(data.is_prefix_of(q));
    } else if data.len() >= bl {
        let q2 = padded_payloads(data.skip(bl), bl, pad);
        lemma_padded_payloads_shape(data.skip(bl), bl, pad);
        assert(pad_to(data.take(bl), bl, pad) =~= data.take(bl));
        assert(q == data.take(bl) + q2);
        assert(data.skip(bl).is_prefix_of(q2));
        assert(forall|i: int| 0 <= i < data.len() ==> q[i] == data[i]) by {
            assert(forall|i: int| 0 <= i < bl ==> q[i] == data[i]);
            assert(forall|i: int|
                bl <= i < data.len() ==> q[i] == q2[i - bl] && q2[i - bl] == data.skip(bl)[i - bl]);
        }
        assert(data.is_prefix_of(q)) by {
            assert(q.take(data.len() as int) =~= data);
        }
        assert(forall|i: int| data.len() <= i < q.len() ==> q[i] == pad) by {
            assert(forall|i: int|
                data.len() <= i < q.len() ==> q[i] == q2[i - bl] && data.skip(bl).len() <= i - bl
                    < q2.len());
        }
    } else {
        assert(q == pad_to(data, bl, pad) + padded_payloads(data.skip(data.len() as int), bl, pad));
        assert(data.skip(data.len() as int) =~= Seq::<u8>::empty());
        assert(padded_payloads(Seq::<u8>::empty(), bl, pad) =~= Seq::<u8>::empty());
        assert(q =~= pad_to(data, bl, pad));
        assert(q.take(data.len() as int) =~= data);
    }
}

/// Law (round trip): an XMODEM sender whose peer requests a checksum mode
/// and then acknowledges every block emits a wire image that the XMODEM
/// receiver in the same mode accepts completely: the receiver delivers a
/// string of which the payload is a prefix, less than one block longer,
/// whose tail is pad octets.
pub proof fn xmodem_round_trip(
    data: Seq<u8>,
    crc: bool,
    bl: int,
    pad: u8,
    smax: int,
    rmax: int,
    mode0: bool,
)
    requires
        bl == 128 || bl == 1024,
        smax >= 1,
        rmax >= 1,
    ensures
        ({
            let n = chunk_count(data.len() as int, bl);
            let sender_script = seq![
                if crc { ReadEvent::Byte(CRC) } else { ReadEvent::Byte(NAK) },
            ] + acks(n) + seq![ReadEvent::Byte(ACK)];
            let so = xmodem_send(data, sender_script, smax, bl, pad, mode0);
            let ro = xmodem_recv(byte_events(so.sent), 1u8, 0, rmax, crc);
            &&& so.result == SendResult::Complete
            &&& so.crc == crc
            &&& so.data_left == Seq::<u8>::empty()
            &&& ro.result == RecvResult::Done
            &&& data.is_prefix_of(ro.delivered)
            &&& ro.delivered.len() < data.len() + bl
            &&& forall|i: int| data.len() <= i < ro.delivered.len() ==> ro.delivered[i] == pad
        }),
{
    let n = chunk_count(data.len() as int, bl);
    let first = if crc {
        ReadEvent::Byte(CRC)
    } else {
        ReadEvent::Byte(NAK)
    };
    let sender_script = seq![first] + acks(n) + seq![ReadEvent::Byte(ACK)];
    let o1 = negotiate(sender_script, true, 0, 0, smax);
    assert(sender_script[0] == first);
    assert(next_event(sender_script).1 =~= acks(n) + seq![ReadEvent::Byte(ACK)]);
    assert(o1.result == (if crc {
        NegotiateResult::Crc
    } else {
        NegotiateResult::Standard
    }));
    stream_delivers_all_with_acks(
        data,
        1u8,
        seq![ReadEvent::Byte(ACK)],
        0,
        smax,
        crc,
        bl,
        pad,
    );
    let o2 = xmodem_stream(data, 1u8, acks(n) + seq![ReadEvent::Byte(ACK)], 0, smax, crc, bl, pad);
    let o3 = await_byte(seq![ReadEvent::Byte(ACK)], ACK, seq![EOT], 0, smax);
    assert(o3.result == AwaitResult::Got && o3.sent == seq![EOT]);
    let so = xmodem_send(data, sender_script, smax, bl, pad, mode0);
    assert(so.result == SendResult::Complete);
    let flat = xmodem_frame_list(data, 1u8, crc, bl, pad).flatten();
    assert(so.sent =~= flat + seq![EOT]);
    lemma_byte_events_add(flat, seq![EOT]);
    assert(byte_events(so.sent) =~= byte_events(flat) + byte_events(seq![EOT]));
    recv_accepts_frames(data, 1u8, byte_events(seq![EOT]), 0, rmax, crc, bl, pad);
    let tail = byte_events(seq![EOT]);
    assert(tail[0] == ReadEvent::Byte(EOT));
    let r = xmodem_recv(tail, advance(1u8, n), 0, rmax, crc);
    assert(r.result == RecvResult::Done && r.delivered =~= Seq::<u8>::empty());
    let ro = xmodem_recv(byte_events(so.sent), 1u8, 0, rmax, crc);
    assert(ro.delivered =~= padded_payloads(data, bl, pad));
    lemma_padded_payloads_shape(data, bl, pad);
}

/// A header payload built from a NUL-free filename splits back into that
/// filename and the size field.
pub proof fn lemma_header_fields_of_payload(name: Seq<u8>, size: u64)
    requires
        name.len() <= 32,
        forall|i: int| 0 <= i < name.len() ==> name[i] != 0,
        size <= 9,
    ensures
        header_fields(ymodem_header_payload(name, size)).0 == name,
        header_fields(ymodem_header_payload(name, size)).1 == hex_digits(size as nat),
        hex_digits(size as nat) == seq![(0x30 + size) as u8],
        ymodem_header_payload(name, size).len() == 128,
{
    let hx = hex_digits(size as nat);
    assert(hx =~= seq![(0x30 + size) as u8]);
    let head = name + seq![0u8] + hx + seq![0u8];
    let hp = ymodem_header_payload(name, size);
    assert(head.len() == name.len() + 3);
    assert(hp =~= head + zeros(128 - head.len()));
    assert(hp.len() == 128);
    assert(forall|i: int| 0 <= i < name.len() ==> hp[i] == name[i]);
    assert(hp[name.len() as int] == 0);
    lemma_until_byte_is(hp, 0, name.len() as int);
    assert(until_byte(hp, 0) =~= name);
    let rest = hp.skip(name.len() as int + 1);
    assert(rest[0] == (0x30 + size) as u8);
    assert(rest[1] == 0);
    lemma_until_byte_is(rest, 0, 1);
    assert(until_byte(rest, 0) =~= hx);
}

/// The prefix before the first occurrence, for a field whose earlier octets
/// avoid it and whose octet at `i` is it.
proof fn lemma_until_byte_is(s: Seq<u8>, b: u8, i: int)
    requires
        0 <= i <= s.len(),
        forall|k: int| 0 <= k < i ==> s[k] != b,
        i == s.len() || s[i] == b,
    ensures
        until_byte(s, b) == s.take(i),
{
    crate::ymodem_spec::lemma_until_byte_take(s, b, i);
}

/// A single-digit size field parses back to the size, with or without the
/// digit filter.
pub proof fn lemma_parse_single_digit(size: u64, ignore_non_digits: bool)
    requires
        size <= 9,
    ensures
        parse_size(seq![(0x30 + size) as u8], ignore_non_digits) == Some((size as u32)),
{
    let d = (0x30 + size) as u8;
    let f0 = seq![d];
    assert(f0[0] == d);
    assert(crate::ymodem_spec::ascii_digit(d));
    assert(digits_filter(Seq::<u8>::empty()) =~= Seq::<u8>::empty());
    assert(crate::ymodem_spec::dec_value(Seq::<u8>::empty()) == 0);
    if ignore_non_digits {
        assert(f0.drop_first() =~= Seq::<u8>::empty());
        assert(digits_filter(f0) =~= f0);
    }
    assert(crate::ymodem_spec::all_digits(f0));
    assert(f0.drop_last() =~= Seq::<u8>::empty());
    assert(crate::ymodem_spec::dec_value(f0) == size);
}

/// Law (round trip): a YMODEM sender of a file of at most nine octets,
/// against a receiver that requests, acknowledges and closes the exchange,
/// emits a wire image from which the YMODEM receiver reports exactly the
/// filename and the file size and delivers exactly the payload.  (For sizes
/// of ten octets and more the header is self-inconsistent by construction:
/// the sender writes the size in hexadecimal and the receiver reads it in
/// decimal, so the reported size matches only while the two readings agree.)
#[verifier::rlimit(100)]
#[verifier::spinoff_prover]
pub proof fn ymodem_round_trip(
    data: Seq<u8>,
    name: Seq<u8>,
    pad: u8,
    smax: int,
    rmax: int,
    max_initial: int,
    ignore_non_digits: bool,
)
    requires
        1 <= data.len() <= 9,
        name.len() <= 32,
        forall|i: int| 0 <= i < name.len() ==> name[i] != 0,
        smax >= 1,
        rmax >= 1,
        max_initial >= 0,
    ensures
        ({
            let size = data.len() as u64;
            let sender_script = seq![
                ReadEvent::Byte(CRC),
                ReadEvent::Byte(ACK),
                ReadEvent::Byte(CRC),
                ReadEvent::Byte(ACK),
                ReadEvent::Byte(NAK),
                ReadEvent::Byte(ACK),
                ReadEvent::Byte(CRC),
                ReadEvent::Byte(ACK),
            ];
            let so = ymodem_send_run(data, name, size, sender_script, smax, pad);
            let ro = ymodem_recv_run(byte_events(so.sent), 0, max_initial, rmax, ignore_non_digits);
            &&& so.result == SendResult::Complete
            &&& so.data_left == Seq::<u8>::empty()
            &&& ro.result == RecvResult::Done
            &&& ro.named
            &&& ro.name == name
            &&& ro.size == size as u32
            &&& ro.delivered == data
        }),
{
    let size = data.len() as u64;
    let n = data.len() as int;
    let sender_script = seq![
        ReadEvent::Byte(CRC),
        ReadEvent::Byte(ACK),
        ReadEvent::Byte(CRC),
        ReadEvent::Byte(ACK),
        ReadEvent::Byte(NAK),
        ReadEvent::Byte(ACK),
        ReadEvent::Byte(CRC),
        ReadEvent::Byte(ACK),
    ];
    let hp = ymodem_header_payload(name, size);
    lemma_header_fields_of_payload(name, size);
    let hf = frame_for(0u8, hp, true);
    let ef = frame_for(0u8, zeros(128), true);
    let payload = pad_to(data, 128, pad);
    let df = frame_for(1u8, payload, true);

    // The sender's run, phase by phase: every awaited octet arrives first.
    let o1 = negotiate(sender_script, true, 0, 0, smax);
    assert(sender_script[0] == ReadEvent::Byte(CRC));
    let s1 = next_event(sender_script).1;
    assert(s1 =~= sender_script.skip(1));
    let a1 = await_byte(s1, ACK, Seq::empty(), 0, smax);
    assert(s1[0] == ReadEvent::Byte(ACK));
    assert(a1.rest =~= sender_script.skip(2));
    let c1 = await_byte(a1.rest, CRC, Seq::empty(), 0, smax);
    assert(a1.rest[0] == ReadEvent::Byte(CRC));
    assert(c1.rest =~= sender_script.skip(3));
    // One data block: the whole file fits the last 128-octet block.
    assert(crate::ymodem_spec::ymodem_packets(size) == 1);
    assert(crate::ymodem_spec::ymodem_block_size(1, size as int % 1024) == 128);
    assert(data.take(n) =~= data);
    let st = ymodem_stream(data, 1u8, 1, size as int % 1024, c1.rest, 0, smax, pad);
    assert(c1.rest[0] == ReadEvent::Byte(ACK));
    let ob = await_byte(c1.rest, ACK, df, 0, smax);
    assert(ob.result == AwaitResult::Got);
    assert(ob.rest =~= sender_script.skip(4));
    assert(data.skip(n) =~= Seq::<u8>::empty());
    let st2 = ymodem_stream(
        data.skip(n),
        2u8,
        0,
        size as int % 1024,
        sender_script.skip(4),
        0,
        smax,
        pad,
    );
    assert(st2.result == StreamResult::Done && st2.errors == 0 && st2.sent =~= Seq::<u8>::empty());
    assert(((1u8 + 1) % 256) as u8 == 2u8);
    assert(st.result == StreamResult::Done && st.errors == 0);
    assert(st.sent =~= df);
    assert(st.rest =~= sender_script.skip(4));
    assert(st.data_left =~= Seq::<u8>::empty());
    let e1 = await_byte(st.rest, NAK, seq![EOT], 0, smax);
    assert(st.rest[0] == ReadEvent::Byte(NAK));
    assert(e1.rest =~= sender_script.skip(5));
    let e2 = await_byte(e1.rest, ACK, seq![EOT], 0, smax);
    assert(e1.rest[0] == ReadEvent::Byte(ACK));
    assert(e2.rest =~= sender_script.skip(6));
    let e3 = await_byte(e2.rest, CRC, Seq::empty(), 0, smax);
    assert(e2.rest[0] == ReadEvent::Byte(CRC));
    assert(e3.rest =~= sender_script.skip(7));
    let a2 = await_byte(e3.rest, ACK, Seq::empty(), 0, smax);
    assert(e3.rest[0] == ReadEvent::Byte(ACK));
    let so = ymodem_send_run(data, name, size, sender_script, smax, pad);
    assert(so.result == SendResult::Complete);
    let wire = hf + df + seq![EOT] + seq![EOT] + ef;
    assert(so.sent =~= wire);

    // The receiver's run on that wire image.
    let events = byte_events(so.sent);
    assert(events =~= byte_events(wire));
    lemma_byte_events_add(hf, df + seq![EOT] + seq![EOT] + ef);
    assert(wire =~= hf + (df + seq![EOT] + seq![EOT] + ef));
    let after_hf = byte_events(df + seq![EOT] + seq![EOT] + ef);
    assert(byte_events(wire) =~= byte_events(hf) + after_hf);
    // Handshake: the header's SOH arrives at once.
    assert(hp.len() == 128);
    assert(hf[0] == SOH);
    lemma_byte_events_add(seq![SOH], hf.drop_first());
    assert(byte_events(hf) =~= byte_events(seq![SOH]) + byte_events(hf.drop_first()));
    assert(byte_events(wire)[0] == ReadEvent::Byte(SOH));
    let h = ymodem_handshake(byte_events(wire), 0, max_initial);
    assert(h.result == AwaitResult::Got && h.initial_errors == 0);
    assert(h.rest =~= byte_events(hf.drop_first()) + after_hf);
    // Header block.
    assert(hf.drop_first().len() == 132);
    lemma_take_bytes_of_bytes(hf.drop_first(), after_hf, 132);
    let hd = ymodem_header(h.rest, 0, rmax, ignore_non_digits);
    let hbytes = hf.drop_first();
    assert(hbytes.take(132) =~= hbytes);
    assert(hbytes.skip(132) =~= Seq::<u8>::empty());
    assert(byte_events(Seq::<u8>::empty()) =~= Seq::<ReadEvent>::empty());
    assert(hbytes[0] == 0u8 && hbytes[1] == 255u8);
    assert(hbytes.subrange(2, 130) =~= hp);
    assert(hbytes.subrange(130, 132) =~= trailer_of(true, hp));
    lemma_trailer_of_matches(true, hp);
    lemma_parse_single_digit(size, ignore_non_digits);
    assert(hd.result == RecvResult::Done && hd.errors == 0);
    assert(hd.name == name && hd.size == size as u32);
    assert(hd.rest =~= after_hf);
    // One data block.
    lemma_byte_events_add(df, seq![EOT] + seq![EOT] + ef);
    assert(df + seq![EOT] + seq![EOT] + ef =~= df + (seq![EOT] + seq![EOT] + ef));
    let after_df = byte_events(seq![EOT] + seq![EOT] + ef);
    assert(after_hf =~= byte_events(df) + after_df);
    assert(payload.len() == 128);
    assert(df[0] == SOH);
    lemma_byte_events_add(seq![SOH], df.drop_first());
    assert(byte_events(df) =~= byte_events(seq![SOH]) + byte_events(df.drop_first()));
    assert(after_hf[0] == ReadEvent::Byte(SOH));
    let d = ymodem_data(hd.rest, 1u8, 0, 0, rmax);
    assert(df.drop_first().len() == 132);
    lemma_take_bytes_of_bytes(df.drop_first(), after_df, 132);
    let dbytes = df.drop_first();
    assert(dbytes.take(132) =~= dbytes);
    assert(dbytes.skip(132) =~= Seq::<u8>::empty());
    assert(dbytes[0] == 1u8 && dbytes[1] == 254u8);
    assert(dbytes.subrange(2, 130) =~= payload);
    assert(dbytes.subrange(130, 132) =~= trailer_of(true, payload));
    lemma_trailer_of_matches(true, payload);
    // Two EOT octets, then the end-of-batch block.
    lemma_byte_events_add(seq![EOT], seq![EOT] + ef);
    assert(seq![EOT] + seq![EOT] + ef =~= seq![EOT] + (seq![EOT] + ef));
    lemma_byte_events_add(seq![EOT], ef);
    let after_e1 = byte_events(seq![EOT] + ef);
    assert(after_df =~= byte_events(seq![EOT]) + after_e1);
    assert(after_df[0] == ReadEvent::Byte(EOT));
    assert(after_e1 =~= byte_events(seq![EOT]) + byte_events(ef));
    assert(after_e1[0] == ReadEvent::Byte(EOT));
    let after_e2 = byte_events(ef);
    assert(ef[0] == SOH);
    lemma_byte_events_add(seq![SOH], ef.drop_first());
    assert(byte_events(ef) =~= byte_events(seq![SOH]) + byte_events(ef.drop_first()));
    assert(after_e2[0] == ReadEvent::Byte(SOH));
    assert(ef.drop_first().len() == 132);
    lemma_take_bytes_of_bytes(ef.drop_first(), Seq::empty(), 132);
    assert(byte_events(ef.drop_first()) + Seq::<ReadEvent>::empty() =~= byte_events(
        ef.drop_first(),
    ));
    let ebytes = ef.drop_first();
    assert(ebytes.take(132) =~= ebytes);
    assert(ebytes.skip(132) =~= Seq::<u8>::empty());
    assert(ebytes[0] == 0u8 && ebytes[1] == 255u8);
    assert(ebytes.subrange(2, 130) =~= zeros(128));
    assert(ebytes.subrange(130, 132) =~= trailer_of(true, zeros(128)));
    lemma_trailer_of_matches(true, zeros(128));
    assert(next_event(hd.rest).1 =~= byte_events(df.drop_first()) + after_df);
    assert(next_event(after_df).1 =~= after_e1);
    assert(next_event(after_e1).1 =~= after_e2);
    assert(next_event(after_e2).1 =~= byte_events(ef.drop_first()));
    let d4 = ymodem_data(after_e2, 2u8, 2, 0, rmax);
    assert(d4.result == RecvResult::Done && d4.buffered =~= Seq::<u8>::empty() && d4.errors == 0);
    let d3 = ymodem_data(after_e1, 2u8, 1, 0, rmax);
    assert(d3.result == RecvResult::Done && d3.buffered =~= Seq::<u8>::empty() && d3.errors == 0);
    let d2 = ymodem_data(after_df, 2u8, 0, 0, rmax);
    assert(d2.result == RecvResult::Done && d2.buffered =~= Seq::<u8>::empty() && d2.errors == 0);
    assert(((1u8 + 1) % 256) as u8 == 2u8);
    assert(d.result == RecvResult::Done);
    assert(d.buffered =~= payload + d2.buffered);
    assert(d.buffered =~= payload);
    // Delivery: the first `size` octets of the single padded block.
    let ro = ymodem_recv_run(byte_events(so.sent), 0, max_initial, rmax, ignore_non_digits);
    assert(ro.result == RecvResult::Done && ro.named && ro.name == name && ro.size == size as u32);
    assert(payload.take(n) =~= data);
    assert(ro.delivered =~= data);
}

} // verus!
