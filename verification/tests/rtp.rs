use wsprrs::error::WsprError;
use wsprrs::rtp::parse_rtp_packet;

/// Build a minimal valid RTP header byte vector.
fn make_header(pt: u8, seq: u16, ts: u32, ssrc: u32, csrc_count: u8) -> Vec<u8> {
    let mut v = vec![
        // V=2 P=0 X=0 CC
        (2 << 6) | (csrc_count & 0x0F),
        // M=0 PT
        pt & 0x7F,
    ];
    v.extend_from_slice(&seq.to_be_bytes());
    v.extend_from_slice(&ts.to_be_bytes());
    v.extend_from_slice(&ssrc.to_be_bytes());
    v
}

#[test]
fn parse_any_pt_no_payload() {
    let buf = make_header(123, 1, 0, 0xDEAD_BEEF, 0);
    let pkt = parse_rtp_packet(&buf).unwrap();
    assert_eq!(pkt.header.payload_type, 123);
    assert_eq!(pkt.header.ssrc, 0xDEAD_BEEF);
    assert_eq!(pkt.payload.len(), 0);
}

#[test]
fn parse_returns_full_payload_for_any_pt() {
    let mut buf = make_header(122, 10, 500, 0xABCD_0001, 0);
    buf.extend_from_slice(&[0x01, 0x02, 0x03, 0x04]);
    let pkt = parse_rtp_packet(&buf).unwrap();
    assert_eq!(pkt.header.payload_type, 122);
    assert_eq!(pkt.header.sequence, 10);
    assert_eq!(pkt.payload, &[0x01, 0x02, 0x03, 0x04]);
}

#[test]
fn too_short_returns_error() {
    let buf = [0u8; 11];
    assert!(matches!(
        parse_rtp_packet(&buf),
        Err(WsprError::PacketTooShort(11))
    ));
}

#[test]
fn bad_version_returns_error() {
    let mut buf = make_header(123, 0, 0, 0, 0);
    buf[0] = (1 << 6) | (buf[0] & 0x3F);
    assert!(matches!(
        parse_rtp_packet(&buf),
        Err(WsprError::UnsupportedRtpVersion(1))
    ));
}

#[test]
fn csrc_list_is_skipped() {
    let mut buf = make_header(123, 5, 0, 0, 1);
    buf.extend_from_slice(&[0xCA, 0xFE, 0xBA, 0xBE]); // CSRC entry
    buf.extend_from_slice(&[0xAA, 0xBB]); // actual payload
    let pkt = parse_rtp_packet(&buf).unwrap();
    assert_eq!(pkt.payload, &[0xAA, 0xBB]);
}

#[test]
fn extension_block_is_skipped() {
    let mut buf = vec![
        (2 << 6) | 0x10, // V=2 X=1 CC=0
        123u8,           // M=0 PT=123
        0x00,
        0x01, // seq=1
        0x00,
        0x00,
        0x00,
        0x00, // ts=0
        0x00,
        0x00,
        0x00,
        0x01, // ssrc=1
    ];
    buf.extend_from_slice(&[0x00, 0x00, 0x00, 0x01]); // profile, one word
    buf.extend_from_slice(&[0xFF, 0xFF, 0xFF, 0xFF]); // the word
    buf.extend_from_slice(&[0x11, 0x22]); // actual payload
    let pkt = parse_rtp_packet(&buf).unwrap();
    assert_eq!(pkt.payload, &[0x11, 0x22]);
}

#[test]
fn framed_header_and_payload_come_back() {
    // V=2 P=1 X=1 CC=2, M=1 PT=96.
    let mut buf = vec![0b1011_0010, 0x80 | 96, 0x12, 0x34];
    buf.extend_from_slice(&0x0102_0304u32.to_be_bytes());
    buf.extend_from_slice(&0xCAFE_F00Du32.to_be_bytes());
    buf.extend_from_slice(&[7u8; 8]); // two CSRC entries
    buf.extend_from_slice(&[0xBE, 0xDE, 0x00, 0x02]); // profile, two words
    buf.extend_from_slice(&[9u8; 8]);
    buf.extend_from_slice(&[1, 2, 3]);
    let pkt = parse_rtp_packet(&buf).unwrap();
    assert_eq!(pkt.header.version, 2);
    assert!(pkt.header.padding);
    assert!(pkt.header.extension);
    assert_eq!(pkt.header.csrc_count, 2);
    assert!(pkt.header.marker);
    assert_eq!(pkt.header.payload_type, 96);
    assert_eq!(pkt.header.sequence, 0x1234);
    assert_eq!(pkt.header.timestamp, 0x0102_0304);
    assert_eq!(pkt.header.ssrc, 0xCAFE_F00D);
    assert_eq!(pkt.payload, &[1, 2, 3]);
}

#[test]
fn truncated_csrc_list_is_too_short() {
    let buf = make_header(123, 0, 0, 0, 2);
    assert!(matches!(
        parse_rtp_packet(&buf),
        Err(WsprError::PacketTooShort(12))
    ));
}

#[test]
fn truncated_extension_is_too_short() {
    let mut buf = make_header(123, 0, 0, 0, 0);
    buf[0] |= 0x10;
    buf.extend_from_slice(&[0, 0]);
    assert!(matches!(
        parse_rtp_packet(&buf),
        Err(WsprError::PacketTooShort(14))
    ));
    buf.extend_from_slice(&[0, 1, 5, 5]); // one word promised, half a word there
    assert!(matches!(
        parse_rtp_packet(&buf),
        Err(WsprError::PacketTooShort(18))
    ));
}
