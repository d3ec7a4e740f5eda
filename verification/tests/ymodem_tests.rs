use txmodems::chan::{ChanError, ReadEvent, ScriptChannel, VecSink, VecSource};
use txmodems::common::{ModemError, ModemTrait};
use txmodems::variants::ymodem::YModem;
use txmodems::variants::api::ymodem::{
    build_header_payload, hex_bytes, parse_file_size, split_header,
};

fn bytes(bs: &[u8]) -> Vec<ReadEvent> {
    bs.iter().map(|&b| ReadEvent::Byte(b)).collect()
}

#[test]
fn header_payload_for_a_bin_size_five() {
    // 'a' '.' 'b' 'i' 'n' 0x00 '5' 0x00 followed by zero padding, and the
    // CRC-16 computed over exactly these 128 octets.
    let payload = build_header_payload(&b"a.bin".to_vec(), 5);
    assert_eq!(payload.len(), 128);
    assert_eq!(&payload[..8], &[b'a', b'.', b'b', b'i', b'n', 0x00, b'5', 0x00]);
    assert!(payload[8..].iter().all(|&b| b == 0x00));
}

#[test]
fn start_frame_carries_header_and_crc() {
    let mut chan = ScriptChannel::new(vec![ReadEvent::Byte(0x06), ReadEvent::Byte(0x43)]);
    let mut engine = YModem::new();
    engine.send_start_frame(&mut chan, &b"a.bin".to_vec(), 5).unwrap();
    let sent = chan.sent();
    assert_eq!(sent.len(), 133);
    assert_eq!(&sent[0..3], &[0x01, 0x00, 0xFF]);
    let payload = &sent[3..131];
    assert_eq!(&payload[..8], &[b'a', b'.', b'b', b'i', b'n', 0x00, b'5', 0x00]);
    let crc = crc16::State::<crc16::XMODEM>::calculate(payload);
    assert_eq!(sent[131], (crc >> 8) as u8);
    assert_eq!(sent[132], (crc & 0xFF) as u8);
}

#[test]
fn end_frame_has_zero_crc() {
    // SOH 0x00 0xFF, 128 zero octets, and a CRC-16 of 0x0000.
    let mut chan = ScriptChannel::new(vec![ReadEvent::Byte(0x06)]);
    let mut engine = YModem::new();
    engine.send_end_frame(&mut chan).unwrap();
    let sent = chan.sent();
    assert_eq!(sent.len(), 133);
    assert_eq!(&sent[0..3], &[0x01, 0x00, 0xFF]);
    assert!(sent[3..131].iter().all(|&b| b == 0x00));
    assert_eq!(&sent[131..133], &[0x00, 0x00]);
}

#[test]
fn hex_rendering_is_lowercase_without_leading_zeros() {
    assert_eq!(hex_bytes(0), b"0".to_vec());
    assert_eq!(hex_bytes(5), b"5".to_vec());
    assert_eq!(hex_bytes(0x2A), b"2a".to_vec());
    assert_eq!(hex_bytes(0xDEADBEEF), b"deadbeef".to_vec());
}

#[test]
fn split_header_finds_name_and_size_fields() {
    let payload = build_header_payload(&b"a.bin".to_vec(), 5);
    let (name, size_field) = split_header(&payload);
    assert_eq!(name, b"a.bin".to_vec());
    assert_eq!(size_field, b"5".to_vec());
}

#[test]
fn parse_file_size_reads_decimal() {
    assert_eq!(parse_file_size(&b"512".to_vec(), false), Some(512));
    assert_eq!(parse_file_size(&b"0".to_vec(), false), Some(0));
    assert_eq!(parse_file_size(&b"".to_vec(), false), None);
    assert_eq!(parse_file_size(&b"12x".to_vec(), false), None);
}

#[test]
fn parse_file_size_falls_back_to_space_prefix() {
    assert_eq!(parse_file_size(&b"512 130495".to_vec(), false), Some(512));
    assert_eq!(parse_file_size(&b"abc def".to_vec(), false), None);
}

#[test]
fn parse_file_size_can_filter_non_digits() {
    assert_eq!(parse_file_size(&b"5a1".to_vec(), true), Some(51));
    assert_eq!(parse_file_size(&b"5a1".to_vec(), false), None);
}

#[test]
fn parse_file_size_rejects_overflow() {
    assert_eq!(parse_file_size(&b"4294967295".to_vec(), false), Some(u32::MAX));
    assert_eq!(parse_file_size(&b"4294967296".to_vec(), false), None);
    assert_eq!(parse_file_size(&b"99999999999999999999999".to_vec(), false), None);
}

#[test]
fn ymodem_full_send_happy_path() {
    // C; header ACK + C; one data block ACK; EOT -> NAK, EOT -> ACK, C;
    // end-of-batch ACK.
    let script = vec![
        ReadEvent::Byte(0x43),
        ReadEvent::Byte(0x06),
        ReadEvent::Byte(0x43),
        ReadEvent::Byte(0x06),
        ReadEvent::Byte(0x15),
        ReadEvent::Byte(0x06),
        ReadEvent::Byte(0x43),
        ReadEvent::Byte(0x06),
    ];
    let mut chan = ScriptChannel::new(script);
    let mut src = VecSource::new(b"hello".to_vec());
    let mut engine = YModem::new();
    let r = engine.send(&mut chan, &mut src, &b"a.bin".to_vec(), 5);
    assert!(r.is_ok());
    let sent = chan.sent();
    // Header frame, one 128-octet data frame, EOT, EOT, end-of-batch frame.
    assert_eq!(sent.len(), 133 + 133 + 1 + 1 + 133);
    assert_eq!(sent[133], 0x01); // the data frame starts with SOH
    assert_eq!(sent[134], 0x01);
    assert_eq!(sent[135], 0xFE);
    assert_eq!(&sent[136..141], b"hello");
    assert_eq!(sent[266], 0x04);
    assert_eq!(sent[267], 0x04);
}

#[test]
fn ymodem_round_trip_small_file() {
    // Run the sender, feed its wire image to the receiver, and check the
    // name, the size and the payload come back exactly.
    let script = vec![
        ReadEvent::Byte(0x43),
        ReadEvent::Byte(0x06),
        ReadEvent::Byte(0x43),
        ReadEvent::Byte(0x06),
        ReadEvent::Byte(0x15),
        ReadEvent::Byte(0x06),
        ReadEvent::Byte(0x43),
        ReadEvent::Byte(0x06),
    ];
    let mut chan = ScriptChannel::new(script);
    let mut src = VecSource::new(b"hello".to_vec());
    let mut sender = YModem::new();
    sender.send(&mut chan, &mut src, &b"a.bin".to_vec(), 5).unwrap();

    let wire = chan.sent().clone();
    let mut rchan = ScriptChannel::new(bytes(&wire));
    let mut sink = VecSink::new();
    let mut receiver = YModem::new();
    let mut name: Vec<u8> = Vec::new();
    let mut size: u32 = 0;
    let r = receiver.recv(&mut rchan, &mut sink, &mut name, &mut size);
    assert!(r.is_ok());
    assert_eq!(name, b"a.bin".to_vec());
    assert_eq!(size, 5);
    assert_eq!(sink.contents(), &b"hello".to_vec());
    // The receiver's answers are exactly the script the sender was fed.
    assert_eq!(
        rchan.sent(),
        &vec![0x43, 0x06, 0x43, 0x06, 0x15, 0x06, 0x43, 0x06]
    );
}

#[test]
fn ymodem_recv_cancels_on_wrong_header_sequence() {
    // A header whose sequence pair is wrong draws two CAN octets.
    let payload = build_header_payload(&b"f".to_vec(), 1);
    let crc = crc16::State::<crc16::XMODEM>::calculate(&payload);
    let mut wire: Vec<u8> = vec![0x01, 0x01, 0xFE];
    wire.extend_from_slice(&payload);
    wire.push((crc >> 8) as u8);
    wire.push((crc & 0xFF) as u8);
    let mut script = vec![ReadEvent::Byte(0x01)];
    script.extend(bytes(&wire[1..]));
    // The handshake consumes the SOH; the header read then sees seq 1.
    let mut rchan = ScriptChannel::new(script);
    let mut sink = VecSink::new();
    let mut receiver = YModem::new();
    let mut name: Vec<u8> = Vec::new();
    let mut size: u32 = 0;
    let r = receiver.recv(&mut rchan, &mut sink, &mut name, &mut size);
    assert_eq!(r, Err(ModemError::Canceled));
    assert_eq!(rchan.sent(), &vec![0x43, 0x18, 0x18]);
}

#[test]
fn ymodem_recv_times_out_during_handshake() {
    let mut receiver = YModem::new();
    receiver.max_initial_errors = 2;
    let mut rchan = ScriptChannel::new(vec![
        ReadEvent::TimedOut,
        ReadEvent::TimedOut,
        ReadEvent::TimedOut,
    ]);
    let mut sink = VecSink::new();
    let mut name: Vec<u8> = Vec::new();
    let mut size: u32 = 0;
    let r = receiver.recv(&mut rchan, &mut sink, &mut name, &mut size);
    assert_eq!(r, Err(ModemError::ExhaustedRetries { errors: 0 }));
    assert_eq!(rchan.sent(), &vec![0x43, 0x43, 0x43]);
}

#[test]
fn ymodem_new_defaults() {
    let engine = YModem::new();
    assert_eq!(engine.max_errors, 16);
    assert_eq!(engine.max_initial_errors, 16);
    assert_eq!(engine.pad_byte, 0x1A);
    assert!(!engine.ignore_non_digits_on_file_size);
    assert_eq!(engine.errors, 0);
    assert_eq!(engine.initial_errors, 0);
}

#[test]
fn ymodem_send_reports_channel_fault() {
    let mut chan = ScriptChannel::new(vec![ReadEvent::Fault]);
    let mut src = VecSource::new(b"x".to_vec());
    let mut engine = YModem::new();
    let r = engine.send(&mut chan, &mut src, &b"f".to_vec(), 1);
    assert_eq!(r, Err(ModemError::Io(ChanError::Broken)));
}
