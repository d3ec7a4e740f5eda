use txmodems::chan::{ByteSink, ChanError, ReadEvent, ScriptChannel, VecSink, VecSource};
use txmodems::common::{calc_checksum, calc_crc};
use txmodems::xmodem::{BlockLength, Checksum, Error, Xmodem};

fn bytes(bs: &[u8]) -> Vec<ReadEvent> {
    bs.iter().map(|&b| ReadEvent::Byte(b)).collect()
}

#[test]
fn send_three_bytes_standard_checksum() {
    // The peer asks for the standard checksum, acknowledges the block, and
    // acknowledges the end of the transfer.
    let mut chan = ScriptChannel::new(vec![
        ReadEvent::Byte(0x15),
        ReadEvent::Byte(0x06),
        ReadEvent::Byte(0x06),
    ]);
    let mut src = VecSource::new(b"abc".to_vec());
    let mut engine = Xmodem::new();
    let r = engine.send(&mut chan, &mut src);
    assert!(r.is_ok());
    assert_eq!(engine.errors, 0);

    let mut expected: Vec<u8> = vec![0x01, 0x01, 0xFE];
    expected.extend_from_slice(b"abc");
    expected.extend(std::iter::repeat(0x1A).take(125));
    // The checksum is the wrapping 8-bit sum of the padded payload:
    // (0x61 + 0x62 + 0x63 + 0x1A * 125) mod 256.
    let chk = ((0x61u32 + 0x62 + 0x63 + 0x1A * 125) % 256) as u8;
    assert_eq!(chk, 0xD8);
    expected.push(chk);
    expected.push(0x04);
    assert_eq!(chan.sent(), &expected);
}

#[test]
fn send_three_bytes_crc_mode() {
    // The peer's first octet is 'C': the trailer is CRC-16/XMODEM of the
    // whole 128-octet payload, high octet first.
    let mut chan = ScriptChannel::new(vec![
        ReadEvent::Byte(0x43),
        ReadEvent::Byte(0x06),
        ReadEvent::Byte(0x06),
    ]);
    let mut src = VecSource::new(b"abc".to_vec());
    let mut engine = Xmodem::new();
    engine.send(&mut chan, &mut src).unwrap();

    let mut payload: Vec<u8> = b"abc".to_vec();
    payload.extend(std::iter::repeat(0x1A).take(125));
    let crc = crc16::State::<crc16::XMODEM>::calculate(&payload);
    let sent = chan.sent();
    assert_eq!(sent[0..3], [0x01, 0x01, 0xFE]);
    assert_eq!(&sent[3..131], payload.as_slice());
    assert_eq!(sent[131], (crc >> 8) as u8);
    assert_eq!(sent[132], (crc & 0xFF) as u8);
    assert_eq!(sent[133], 0x04);
}

#[test]
fn recv_one_block_then_eot() {
    // One good 128-octet block, then end of transfer: the engine emits NAK
    // (standard mode request), ACK, ACK and delivers the whole block.
    let payload: Vec<u8> = (0..128u32).map(|i| (i % 256) as u8).collect();
    let chk = calc_checksum(&payload);
    let mut script: Vec<u8> = vec![0x01, 0x01, 0xFE];
    script.extend_from_slice(&payload);
    script.push(chk);
    script.push(0x04);
    let mut chan = ScriptChannel::new(bytes(&script));
    let mut sink = VecSink::new();
    let mut engine = Xmodem::new();
    let r = engine.recv(&mut chan, &mut sink, Checksum::Standard);
    assert!(r.is_ok());
    assert_eq!(chan.sent(), &vec![0x15, 0x06, 0x06]);
    assert_eq!(sink.contents(), &payload);
}

#[test]
fn recv_sequence_mismatch_cancels() {
    // The block carries sequence 2 where 1 was expected: the engine emits
    // two CAN octets and reports a canceled transfer.
    let payload: Vec<u8> = vec![0u8; 128];
    let chk = calc_checksum(&payload);
    let mut script: Vec<u8> = vec![0x01, 0x02, 0xFD];
    script.extend_from_slice(&payload);
    script.push(chk);
    let mut chan = ScriptChannel::new(bytes(&script));
    let mut sink = VecSink::new();
    let mut engine = Xmodem::new();
    let r = engine.recv(&mut chan, &mut sink, Checksum::Standard);
    assert_eq!(r, Err(Error::Canceled));
    assert_eq!(chan.sent(), &vec![0x15, 0x18, 0x18]);
    assert_eq!(sink.contents().len(), 0);
}

#[test]
fn recv_bad_checksum_naks_and_retries() {
    // A corrupted trailer draws a NAK; the retransmitted block is accepted.
    let payload: Vec<u8> = vec![7u8; 128];
    let chk = calc_checksum(&payload);
    let mut script: Vec<u8> = vec![0x01, 0x01, 0xFE];
    script.extend_from_slice(&payload);
    script.push(chk.wrapping_add(1));
    script.extend_from_slice(&[0x01, 0x01, 0xFE]);
    script.extend_from_slice(&payload);
    script.push(chk);
    script.push(0x04);
    let mut chan = ScriptChannel::new(bytes(&script));
    let mut sink = VecSink::new();
    let mut engine = Xmodem::new();
    let r = engine.recv(&mut chan, &mut sink, Checksum::Standard);
    assert!(r.is_ok());
    assert_eq!(engine.errors, 1);
    assert_eq!(chan.sent(), &vec![0x15, 0x15, 0x06, 0x06]);
    assert_eq!(sink.contents(), &payload);
}

#[test]
fn send_cancels_after_two_can_octets() {
    let mut chan = ScriptChannel::new(vec![ReadEvent::Byte(0x18), ReadEvent::Byte(0x18)]);
    let mut src = VecSource::new(b"abc".to_vec());
    let mut engine = Xmodem::new();
    let r = engine.send(&mut chan, &mut src);
    assert_eq!(r, Err(Error::Canceled));
}

#[test]
fn send_exhausts_retries_on_silence() {
    // Nothing ever arrives: the negotiation burns through the error budget
    // and gives up with a best-effort CAN.
    let mut chan = ScriptChannel::new(vec![]);
    let mut src = VecSource::new(b"abc".to_vec());
    let mut engine = Xmodem::new();
    let r = engine.send(&mut chan, &mut src);
    assert_eq!(r, Err(Error::ExhaustedRetries(16)));
    assert_eq!(chan.sent(), &vec![0x18]);
}

#[test]
fn send_reports_channel_fault() {
    let mut chan = ScriptChannel::new(vec![ReadEvent::Fault]);
    let mut src = VecSource::new(b"abc".to_vec());
    let mut engine = Xmodem::new();
    let r = engine.send(&mut chan, &mut src);
    assert_eq!(r, Err(Error::Io(ChanError::Broken)));
}

#[test]
fn recv_exhausts_retry_budget_on_corrupt_blocks() {
    // max_errors corrupted blocks with no good block in between exhaust the
    // retry budget.
    let mut engine = Xmodem::new();
    engine.max_errors = 3;
    let payload: Vec<u8> = vec![9u8; 128];
    let bad = calc_checksum(&payload).wrapping_add(1);
    let mut script: Vec<u8> = Vec::new();
    for _ in 0..3 {
        script.extend_from_slice(&[0x01, 0x01, 0xFE]);
        script.extend_from_slice(&payload);
        script.push(bad);
    }
    let mut chan = ScriptChannel::new(bytes(&script));
    let mut sink = VecSink::new();
    let r = engine.recv(&mut chan, &mut sink, Checksum::Standard);
    assert_eq!(r, Err(Error::ExhaustedRetries(3)));
    // NAK request, one NAK per corrupt block but the last, then CAN.
    assert_eq!(chan.sent(), &vec![0x15, 0x15, 0x15, 0x15, 0x18]);
}

#[test]
fn eot_resent_until_acknowledged() {
    // The first two responses to EOT are garbage and a timeout; the third
    // is ACK.  The transfer ends cleanly after three EOTs.
    let mut chan = ScriptChannel::new(vec![
        ReadEvent::Byte(0x15),
        ReadEvent::Byte(0x06), // negotiation NAK, block ACK
        ReadEvent::Byte(0x55),
        ReadEvent::TimedOut,
        ReadEvent::Byte(0x06),
    ]);
    let mut src = VecSource::new(b"x".to_vec());
    let mut engine = Xmodem::new();
    let r = engine.send(&mut chan, &mut src);
    assert!(r.is_ok());
    assert_eq!(engine.errors, 2);
    let sent = chan.sent();
    let tail = &sent[sent.len() - 3..];
    assert_eq!(tail, &[0x04, 0x04, 0x04]);
}

#[test]
fn round_trip_multi_block_standard() {
    // Sender output fed to a receiver: the payload comes back, padded to a
    // whole block.
    let data: Vec<u8> = (0..300u32).map(|i| (i * 7 % 256) as u8).collect();
    let n_blocks = 300usize.div_ceil(128);
    let mut sender_script = vec![ReadEvent::Byte(0x15)];
    sender_script.extend(std::iter::repeat(ReadEvent::Byte(0x06)).take(n_blocks + 1));
    let mut chan = ScriptChannel::new(sender_script);
    let mut src = VecSource::new(data.clone());
    let mut sender = Xmodem::new();
    sender.send(&mut chan, &mut src).unwrap();

    let wire = chan.sent().clone();
    let mut rchan = ScriptChannel::new(bytes(&wire));
    let mut sink = VecSink::new();
    let mut receiver = Xmodem::new();
    receiver.recv(&mut rchan, &mut sink, Checksum::Standard).unwrap();

    let delivered = sink.contents();
    assert_eq!(delivered.len(), n_blocks * 128);
    assert_eq!(&delivered[..300], data.as_slice());
    assert!(delivered[300..].iter().all(|&b| b == 0x1A));
}

#[test]
fn round_trip_one_kilobyte_blocks_crc() {
    let data: Vec<u8> = (0..2500u32).map(|i| (i % 251) as u8).collect();
    let n_blocks = 2500usize.div_ceil(1024);
    let mut sender_script = vec![ReadEvent::Byte(0x43)];
    sender_script.extend(std::iter::repeat(ReadEvent::Byte(0x06)).take(n_blocks + 1));
    let mut chan = ScriptChannel::new(sender_script);
    let mut src = VecSource::new(data.clone());
    let mut sender = Xmodem::new();
    sender.block_length = BlockLength::OneK;
    sender.send(&mut chan, &mut src).unwrap();

    let wire = chan.sent().clone();
    let mut rchan = ScriptChannel::new(bytes(&wire));
    let mut sink = VecSink::new();
    let mut receiver = Xmodem::new();
    receiver.recv(&mut rchan, &mut sink, Checksum::CRC16).unwrap();

    let delivered = sink.contents();
    assert_eq!(delivered.len(), n_blocks * 1024);
    assert_eq!(&delivered[..2500], data.as_slice());
    assert!(delivered[2500..].iter().all(|&b| b == 0x1A));
}

#[test]
fn sequence_numbers_wrap_after_255() {
    // 300 blocks of 128 octets: delivered block indices follow 1, 2, ...,
    // 255, 0, 1, ... and every block is accepted.
    let data: Vec<u8> = vec![0xAB; 300 * 128];
    let mut sender_script = vec![ReadEvent::Byte(0x15)];
    sender_script.extend(std::iter::repeat(ReadEvent::Byte(0x06)).take(301));
    let mut chan = ScriptChannel::new(sender_script);
    let mut src = VecSource::new(data.clone());
    let mut sender = Xmodem::new();
    sender.send(&mut chan, &mut src).unwrap();

    let wire = chan.sent().clone();
    for i in 0..300usize {
        let frame = &wire[i * 132..(i + 1) * 132];
        assert_eq!(frame[0], 0x01);
        assert_eq!(frame[1], ((i + 1) % 256) as u8);
        assert_eq!(frame[2], 0xFF - ((i + 1) % 256) as u8);
    }

    let mut rchan = ScriptChannel::new(bytes(&wire));
    let mut sink = VecSink::new();
    let mut receiver = Xmodem::new();
    receiver.recv(&mut rchan, &mut sink, Checksum::Standard).unwrap();
    assert_eq!(sink.contents(), &data);
}

#[test]
fn single_bit_flip_is_rejected_standard() {
    // Flip one payload bit of a good block at the receiver's input: the
    // receiver NAKs it (and with no retransmission, exhausts its budget).
    let payload: Vec<u8> = vec![0x31; 128];
    let chk = calc_checksum(&payload);
    let mut corrupted = payload.clone();
    corrupted[77] ^= 0x10;
    let mut script: Vec<u8> = vec![0x01, 0x01, 0xFE];
    script.extend_from_slice(&corrupted);
    script.push(chk);
    let mut chan = ScriptChannel::new(bytes(&script));
    let mut sink = VecSink::new();
    let mut engine = Xmodem::new();
    engine.max_errors = 1;
    let r = engine.recv(&mut chan, &mut sink, Checksum::Standard);
    assert_eq!(r, Err(Error::ExhaustedRetries(1)));
    assert_eq!(chan.sent(), &vec![0x15, 0x15, 0x18]);
    assert_eq!(sink.contents().len(), 0);
}

#[test]
fn single_bit_flip_is_rejected_crc() {
    let payload: Vec<u8> = vec![0x42; 128];
    let crc = calc_crc(&payload);
    let mut script: Vec<u8> = vec![0x01, 0x01, 0xFE];
    let mut corrupted = payload.clone();
    corrupted[0] ^= 0x01;
    script.extend_from_slice(&corrupted);
    script.push((crc >> 8) as u8);
    script.push((crc & 0xFF) as u8);
    let mut chan = ScriptChannel::new(bytes(&script));
    let mut sink = VecSink::new();
    let mut engine = Xmodem::new();
    engine.max_errors = 1;
    let r = engine.recv(&mut chan, &mut sink, Checksum::CRC16);
    assert_eq!(r, Err(Error::ExhaustedRetries(1)));
    assert_eq!(sink.contents().len(), 0);
}

#[test]
fn default_config_matches_new() {
    let d = Xmodem::default();
    assert_eq!(d.max_errors, 16);
    assert_eq!(d.pad_byte, 0x1A);
    assert!(matches!(d.block_length, BlockLength::Standard));
    assert!(matches!(d.checksum_mode, Checksum::Standard));
    assert_eq!(d.errors, 0);
    assert_eq!(BlockLength::Standard.len(), 128);
    assert_eq!(BlockLength::OneK.len(), 1024);
}

#[test]
fn error_descriptions_are_stable() {
    assert_eq!(Error::Canceled.describe(), "canceled by the other party");
    assert_eq!(
        Error::ExhaustedRetries(3).describe(),
        "too many protocol errors"
    );
    assert_eq!(Error::Io(ChanError::Broken).describe(), "channel I/O failure");
    assert_eq!(
        Error::Io(ChanError::TimedOut).describe(),
        "channel timed out mid-frame"
    );
}
