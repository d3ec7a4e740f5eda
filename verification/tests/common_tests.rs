use txmodems::chan::{ByteSink, ByteSource, ChanError, Channel, ReadEvent, ScriptChannel, VecSink, VecSource};
use txmodems::common::{BlockLengthKind, ChecksumKind, ModemError, ModemTrait, calc_checksum, calc_crc};
use txmodems::variants::xmodem::{Consts as XConsts, consts};
use txmodems::variants::ymodem::Consts as YConsts;
use txmodems::variants::xmodem::XModem;
use txmodems::chan::write_all;

#[test]
fn checksum_is_wrapping_sum() {
    assert_eq!(calc_checksum(&[]), 0);
    assert_eq!(calc_checksum(&[1, 2, 3]), 6);
    assert_eq!(calc_checksum(&[0xFF, 0x02]), 0x01);
    assert_eq!(calc_checksum(&[0x80, 0x80, 0x01]), 0x01);
}

#[test]
fn crc16_matches_the_xmodem_reference_value() {
    // The classical check value for CRC-16/XMODEM; it also shows the
    // calculation really depends on the octets given.
    assert_eq!(calc_crc(b"123456789"), 0x31C3);
    assert_eq!(calc_crc(&[]), 0x0000);
    assert_ne!(calc_crc(b"123456789"), calc_crc(b"123456780"));
}

#[test]
fn script_channel_replays_and_records() {
    let mut chan = ScriptChannel::new(vec![
        ReadEvent::Byte(0x41),
        ReadEvent::TimedOut,
        ReadEvent::Fault,
    ]);
    assert_eq!(chan.poll(), ReadEvent::Byte(0x41));
    assert_eq!(chan.poll(), ReadEvent::TimedOut);
    assert_eq!(chan.poll(), ReadEvent::Fault);
    // An exhausted script behaves as endless timeouts.
    assert_eq!(chan.poll(), ReadEvent::TimedOut);
    chan.write_byte(0x15);
    write_all(&mut chan, &vec![1, 2, 3]);
    assert_eq!(chan.sent(), &vec![0x15, 1, 2, 3]);
}

#[test]
fn vec_source_reads_forward_in_chunks() {
    let mut src = VecSource::new(vec![1, 2, 3, 4, 5]);
    assert_eq!(src.read_chunk(2), vec![1, 2]);
    assert_eq!(src.read_chunk(2), vec![3, 4]);
    assert_eq!(src.read_chunk(2), vec![5]);
    assert_eq!(src.read_chunk(2), Vec::<u8>::new());
}

#[test]
fn vec_sink_accumulates() {
    let mut sink = VecSink::new();
    sink.put(&vec![1, 2]);
    sink.put(&vec![3]);
    assert_eq!(sink.contents(), &vec![1, 2, 3]);
}

#[test]
fn xmodem_control_octets_round_trip_through_consts() {
    assert_eq!(u8::from(XConsts::SOH), 0x01);
    assert_eq!(u8::from(XConsts::STX), 0x02);
    assert_eq!(u8::from(XConsts::EOT), 0x04);
    assert_eq!(u8::from(XConsts::ACK), 0x06);
    assert_eq!(u8::from(XConsts::NAK), 0x15);
    assert_eq!(u8::from(XConsts::CAN), 0x18);
    assert_eq!(u8::from(XConsts::CRC), 0x43);
    assert_eq!(u8::from(XConsts::Unknown), 0x99);
    assert_eq!(XConsts::from(0x01), XConsts::SOH);
    assert_eq!(XConsts::from(0x15), XConsts::NAK);
    assert_eq!(XConsts::from(0x61), XConsts::ABT);
    assert_eq!(XConsts::from(0x7F), XConsts::Unknown);
    assert_eq!(XConsts::default(), XConsts::Unknown);
}

#[test]
fn ymodem_control_octets_round_trip_through_consts() {
    assert_eq!(u8::from(YConsts::SOH), 0x01);
    assert_eq!(u8::from(YConsts::CRC), 0x43);
    assert_eq!(YConsts::from(0x04), YConsts::EOT);
    assert_eq!(YConsts::from(0x33), YConsts::Unknown);
    assert_eq!(YConsts::default(), YConsts::Unknown);
}

#[test]
fn named_constants_match_the_wire_octets() {
    assert_eq!(consts::NUL, 0x00);
    assert_eq!(consts::SOH, 0x01);
    assert_eq!(consts::STX, 0x02);
    assert_eq!(consts::EOT, 0x04);
    assert_eq!(consts::ACK, 0x06);
    assert_eq!(consts::NAK, 0x15);
    assert_eq!(consts::CAN, 0x18);
    assert_eq!(consts::CRC, 0x43);
}

#[test]
fn variant_engine_defaults() {
    let engine = XModem::new();
    assert_eq!(engine.max_errors, 16);
    assert_eq!(engine.pad_byte, 0x1A);
    assert!(matches!(engine.block_length, BlockLengthKind::Standard));
    assert!(matches!(engine.checksum_mode, ChecksumKind::Standard));
    assert_eq!(engine.errors, 0);
    assert_eq!(BlockLengthKind::Standard.len(), 128);
    assert_eq!(BlockLengthKind::OneK.len(), 1024);
    assert_eq!(ChecksumKind::default(), ChecksumKind::Standard);
    assert_eq!(BlockLengthKind::default(), BlockLengthKind::Standard);
}

#[test]
fn modem_error_descriptions() {
    assert_eq!(ModemError::Canceled.describe(), "canceled by the peer");
    assert_eq!(
        ModemError::ExhaustedRetries { errors: 16 }.describe(),
        "too many protocol errors"
    );
    assert_eq!(
        ModemError::Io(ChanError::Broken).describe(),
        "channel I/O failure"
    );
}
