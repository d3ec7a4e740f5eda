use txmodems::chan::{ByteSink, ChanError, ReadEvent, ScriptChannel, VecSink, VecSource};
use txmodems::common::{ChecksumKind, ModemError, ModemTrait, calc_checksum};
use txmodems::variants::xmodem::XModem;

fn bytes(bs: &[u8]) -> Vec<ReadEvent> {
    bs.iter().map(|&b| ReadEvent::Byte(b)).collect()
}

#[test]
fn variant_send_three_bytes_standard() {
    let mut chan = ScriptChannel::new(vec![
        ReadEvent::Byte(0x15),
        ReadEvent::Byte(0x06),
        ReadEvent::Byte(0x06),
    ]);
    let mut src = VecSource::new(b"abc".to_vec());
    let mut engine = XModem::new();
    let r = engine.send(&mut chan, &mut src);
    assert!(r.is_ok());
    let sent = chan.sent();
    assert_eq!(&sent[0..3], &[0x01, 0x01, 0xFE]);
    assert_eq!(&sent[3..6], b"abc");
    assert!(sent[6..131].iter().all(|&b| b == 0x1A));
    assert_eq!(sent[131], 0xD8);
    assert_eq!(sent[132], 0x04);
}

#[test]
fn variant_receive_one_block() {
    let payload: Vec<u8> = vec![0x2Au8; 128];
    let chk = calc_checksum(&payload);
    let mut script: Vec<u8> = vec![0x01, 0x01, 0xFE];
    script.extend_from_slice(&payload);
    script.push(chk);
    script.push(0x04);
    let mut chan = ScriptChannel::new(bytes(&script));
    let mut sink = VecSink::new();
    let mut engine = XModem::new();
    let r = engine.receive(&mut chan, &mut sink, ChecksumKind::Standard);
    assert!(r.is_ok());
    assert_eq!(chan.sent(), &vec![0x15, 0x06, 0x06]);
    assert_eq!(sink.contents(), &payload);
}

#[test]
fn variant_receive_cancels_on_bad_complement() {
    let payload: Vec<u8> = vec![0u8; 128];
    let chk = calc_checksum(&payload);
    let mut script: Vec<u8> = vec![0x01, 0x01, 0xFD];
    script.extend_from_slice(&payload);
    script.push(chk);
    let mut chan = ScriptChannel::new(bytes(&script));
    let mut sink = VecSink::new();
    let mut engine = XModem::new();
    let r = engine.receive(&mut chan, &mut sink, ChecksumKind::Standard);
    assert_eq!(r, Err(ModemError::Canceled));
    assert_eq!(chan.sent(), &vec![0x15, 0x18, 0x18]);
}

#[test]
fn variant_init_send_negotiates_crc() {
    let mut chan = ScriptChannel::new(vec![ReadEvent::Byte(0x43)]);
    let mut engine = XModem::new();
    engine.init_send(&mut chan).unwrap();
    let mut chan2 = ScriptChannel::new(vec![ReadEvent::Byte(0x15)]);
    let mut engine2 = XModem::new();
    engine2.init_send(&mut chan2).unwrap();
}

#[test]
fn variant_exhausts_on_silence() {
    let mut chan = ScriptChannel::new(vec![]);
    let mut src = VecSource::new(b"abc".to_vec());
    let mut engine = XModem::new();
    engine.max_errors = 2;
    let r = engine.send(&mut chan, &mut src);
    assert_eq!(r, Err(ModemError::ExhaustedRetries { errors: 2 }));
}

#[test]
fn variant_io_fault_is_fatal() {
    let payload: Vec<u8> = vec![0u8; 64];
    // A frame that breaks off mid-payload with a device fault.
    let mut script = bytes(&[0x01, 0x01, 0xFE]);
    script.extend(bytes(&payload));
    script.push(ReadEvent::Fault);
    let mut chan = ScriptChannel::new(script);
    let mut sink = VecSink::new();
    let mut engine = XModem::new();
    let r = engine.receive(&mut chan, &mut sink, ChecksumKind::Standard);
    assert_eq!(r, Err(ModemError::Io(ChanError::Broken)));
}

#[test]
fn variant_mid_frame_timeout_is_fatal() {
    let mut script = bytes(&[0x01, 0x01, 0xFE, 0x00, 0x00]);
    script.push(ReadEvent::TimedOut);
    let mut chan = ScriptChannel::new(script);
    let mut sink = VecSink::new();
    let mut engine = XModem::new();
    let r = engine.receive(&mut chan, &mut sink, ChecksumKind::Standard);
    assert_eq!(r, Err(ModemError::Io(ChanError::TimedOut)));
}
