use type_expr_compiler::ax25::{Ax25Codec, Ax25Error, Ax25Packet};
use type_expr_compiler::kiss::{DecodeError, KissFrame, FEND};

#[test]
fn kiss_encode_plain_payload() {
    let frame = KissFrame::new(1, 2, vec![0x41, 0x42]);
    assert_eq!(frame.encode(), vec![0xC0, 0x12, 0x41, 0x42, 0xC0]);
}

#[test]
fn kiss_encode_escapes_special_bytes() {
    let frame = KissFrame::new(0, 0, vec![0xC0, 0x01, 0xDB, 0xDC, 0xDD]);
    assert_eq!(
        frame.encode(),
        vec![0xC0, 0x00, 0xDB, 0xDC, 0x01, 0xDB, 0xDD, 0xDC, 0xDD, 0xC0]
    );
}

#[test]
fn kiss_encode_empty_payload() {
    let frame = KissFrame::new(15, 15, Vec::new());
    assert_eq!(frame.encode(), vec![FEND, 0xFF, FEND]);
}

#[test]
fn kiss_header_keeps_four_bits_of_each() {
    let frame = KissFrame { port: 0x1A, cmd: 0x35, payload: Vec::new() };
    assert_eq!(frame.encode(), vec![0xC0, 0xA5, 0xC0]);
}

#[test]
fn kiss_decode_reads_the_first_frame() {
    let frame = KissFrame::decode(&[0x00, 0xC0, 0x12, 0x41, 0xDB, 0xDC, 0xDB, 0xDD, 0xC0, 0x99])
        .ok()
        .expect("a frame");
    assert_eq!(frame.port, 1);
    assert_eq!(frame.cmd, 2);
    assert_eq!(frame.payload, vec![0x41, 0xC0, 0xDB]);
}

#[test]
fn kiss_round_trip() {
    let payload: Vec<u8> = (0u16..=255).map(|b| b as u8).collect();
    let frame = KissFrame::new(3, 7, payload.clone());
    let back = KissFrame::decode(&frame.encode()).ok().expect("a frame");
    assert_eq!(back.port, 3);
    assert_eq!(back.cmd, 7);
    assert_eq!(back.payload, payload);
}

#[test]
fn kiss_decode_errors() {
    assert_eq!(KissFrame::decode(&[]).err(), Some(DecodeError::MissingStart));
    assert_eq!(KissFrame::decode(&[1, 2, 3]).err(), Some(DecodeError::MissingStart));
    assert_eq!(KissFrame::decode(&[0xC0]).err(), Some(DecodeError::TooShort));
    assert_eq!(KissFrame::decode(&[0xC0, 0x00]).err(), Some(DecodeError::TooShort));
    assert_eq!(KissFrame::decode(&[0xC0, 0xC0, 0x00]).err(), Some(DecodeError::TooShort));
    assert_eq!(KissFrame::decode(&[0xC0, 0x00, 0x01]).err(), Some(DecodeError::MissingEnd));
    assert_eq!(
        KissFrame::decode(&[0xC0, 0x00, 0xDB, 0x01, 0xC0]).err(),
        Some(DecodeError::BadEscape)
    );
    assert_eq!(KissFrame::decode(&[0xC0, 0x00, 0xDB, 0xC0]).err(), Some(DecodeError::BadEscape));
}

#[test]
fn kiss_decode_header_only() {
    let frame = KissFrame::decode(&[0xC0, 0xA5, 0xC0]).ok().expect("a frame");
    assert_eq!((frame.port, frame.cmd), (10, 5));
    assert!(frame.payload.is_empty());
}

#[test]
fn ax25_new_checks_callsign_and_ssid() {
    assert!(Ax25Codec::new("N0CALL", 0).is_ok());
    assert!(Ax25Codec::new("abc123", 9).is_ok());
    assert_eq!(Ax25Codec::new("N0CAL", 0).err(), Some(Ax25Error::BadCallsign));
    assert_eq!(Ax25Codec::new("N0CALLS", 0).err(), Some(Ax25Error::BadCallsign));
    assert_eq!(Ax25Codec::new("N0-ALL", 0).err(), Some(Ax25Error::BadCallsign));
    assert_eq!(Ax25Codec::new("N0CÄL", 0).err(), Some(Ax25Error::BadCallsign));
    assert_eq!(Ax25Codec::new("ÄÖÜ", 0).err(), Some(Ax25Error::BadCallsign));
    assert_eq!(Ax25Codec::new("N0CALL", 10).err(), Some(Ax25Error::BadSsid));
    assert_eq!(Ax25Codec::new("bad", 10).err(), Some(Ax25Error::BadCallsign));
}

fn packet(dest: &str, ssid: u8, data: Vec<u8>) -> Ax25Packet {
    Ax25Packet {
        dest_callsign: dest.to_string(),
        dest_ssid: ssid,
        src_callsign: String::new(),
        src_ssid: 0,
        data,
    }
}

#[test]
fn ax25_encode_bytes() {
    let codec = Ax25Codec::new("SRC001", 3).ok().expect("a codec");
    let out = codec.encode(&packet("DEST02", 5, vec![1, 2, 3])).ok().expect("bytes");
    let mut expected: Vec<u8> = "DEST02".bytes().map(|b| b << 1).collect();
    expected.push(0x6A);
    expected.extend("SRC001".bytes().map(|b| b << 1));
    expected.push(0x67);
    expected.extend_from_slice(&[0x03, 0xF0, 1, 2, 3]);
    assert_eq!(out, expected);
    assert_eq!(out[0], 0x88);
}

#[test]
fn ax25_encode_errors() {
    let codec = Ax25Codec::new("SRC001", 3).ok().expect("a codec");
    assert_eq!(codec.encode(&packet("SHORT", 0, vec![])).err(), Some(Ax25Error::BadCallsign));
    assert_eq!(codec.encode(&packet("DEST02", 10, vec![])).err(), Some(Ax25Error::BadSsid));
    assert_eq!(
        codec.encode(&packet("DEST02", 0, vec![0; 257])).err(),
        Some(Ax25Error::PacketTooShortOrLong)
    );
    assert_eq!(codec.encode(&packet("DEST02", 0, vec![0; 256])).ok().map(|v| v.len()), Some(272));
    assert_eq!(codec.encode(&packet("bad", 10, vec![0; 300])).err(), Some(Ax25Error::BadCallsign));
}

#[test]
fn ax25_round_trip() {
    let codec = Ax25Codec::new("SRC001", 3).ok().expect("a codec");
    let bytes = codec.encode(&packet("DEST02", 5, vec![9, 8, 7])).ok().expect("bytes");
    let back = codec.decode(&bytes).ok().expect("a packet");
    assert_eq!(
        back,
        Ax25Packet {
            dest_callsign: "DEST02".to_string(),
            dest_ssid: 5,
            src_callsign: "SRC001".to_string(),
            src_ssid: 3,
            data: vec![9, 8, 7],
        }
    );
}

#[test]
fn ax25_decode_trims_padding() {
    let codec = Ax25Codec::new("SRC001", 0).ok().expect("a codec");
    let mut buf: Vec<u8> = Vec::new();
    buf.extend(" AB \0\0".bytes().map(|b| b << 1));
    buf.push(0x0F << 1);
    buf.extend("X\0 \0\0\0".bytes().map(|b| b << 1));
    buf.push(0xFF);
    buf.extend_from_slice(&[0x03, 0xF0]);
    let p = codec.decode(&buf).ok().expect("a packet");
    assert_eq!(p.dest_callsign, "AB");
    assert_eq!(p.dest_ssid, 15);
    assert_eq!(p.src_callsign, "X\0");
    assert_eq!(p.src_ssid, 15);
    assert!(p.data.is_empty());
}

#[test]
fn ax25_decode_length_limits() {
    let codec = Ax25Codec::new("SRC001", 0).ok().expect("a codec");
    assert_eq!(codec.decode(&[0u8; 15]).err(), Some(Ax25Error::PacketTooShortOrLong));
    assert_eq!(codec.decode(&[0u8; 273]).err(), Some(Ax25Error::PacketTooShortOrLong));
    assert!(codec.decode(&[0u8; 16]).is_ok());
    let p = codec.decode(&[0u8; 272]).ok().expect("a packet");
    assert_eq!(p.data.len(), 256);
    assert_eq!(p.dest_callsign, "");
}

#[test]
fn ax25_error_messages() {
    assert_eq!(Ax25Error::BadCallsign.to_string(), "Callsign must be exactly 6 A-Z0-9");
    assert_eq!(Ax25Error::BadSsid.to_string(), "SSID must be 0..9");
    assert_eq!(Ax25Error::PacketTooShortOrLong.to_string(), "Packet too short or too long");
    assert_eq!(Ax25Error::InvalidUtf8.to_string(), "Invalid UTF-8 in callsign");
}
