use std::collections::HashMap;

use wsprrs::status::{
    decode_f64, decode_u32, handle_status_datagram, peek_ssrc, process_status_packet, read_tlv_len,
    ChannelInfo, StatusEvent, ENC_S16BE, ENC_S16LE, PKT_STATUS, TAG_OUTPUT_CHANNELS,
    TAG_OUTPUT_ENCODING, TAG_OUTPUT_SAMPRATE, TAG_OUTPUT_SSRC, TAG_RADIO_FREQUENCY, TAG_RTP_PT,
};

/// Build a STATUS packet from tag/value pairs, with an end tag.
fn make_status_packet(fields: &[(u8, &[u8])]) -> Vec<u8> {
    let mut pkt = vec![PKT_STATUS];
    for &(tag, value) in fields {
        pkt.push(tag);
        assert!(
            value.len() < 128,
            "test helper: value too long for short-form length"
        );
        pkt.push(value.len() as u8);
        pkt.extend_from_slice(value);
    }
    pkt.push(0u8);
    pkt
}

fn stripped(bytes: &[u8]) -> Vec<u8> {
    bytes.iter().skip_while(|&&b| b == 0).copied().collect()
}

fn full_packet(ssrc: u32, channels: u8) -> Vec<u8> {
    make_status_packet(&[
        (TAG_OUTPUT_SSRC, &stripped(&ssrc.to_be_bytes())),
        (
            TAG_RADIO_FREQUENCY,
            &stripped(&14_095_600.0f64.to_bits().to_be_bytes()),
        ),
        (TAG_OUTPUT_SAMPRATE, &stripped(&12_000u32.to_be_bytes())),
        (TAG_OUTPUT_CHANNELS, &[channels]),
        (TAG_RTP_PT, &[122u8]),
        (TAG_OUTPUT_ENCODING, &[ENC_S16BE]),
    ])
}

// ---- decode_u32 ----

#[test]
fn decode_u32_empty_is_zero() {
    assert_eq!(decode_u32(&[]), 0);
}

#[test]
fn decode_u32_single_byte() {
    assert_eq!(decode_u32(&[5u8]), 5);
}

#[test]
fn decode_u32_multi_byte() {
    // 12000 = 0x00002EE0, leading zeros suppressed: [0x2E, 0xE0].
    let value = 12_000u32.to_be_bytes();
    let stripped: Vec<u8> = {
        let s = value
            .iter()
            .skip_while(|&&b| b == 0)
            .copied()
            .collect::<Vec<_>>();
        if s.is_empty() {
            vec![0]
        } else {
            s
        }
    };
    let result = decode_u32(&stripped);
    assert_eq!(result, 12_000);
}

#[test]
fn decode_u32_keeps_the_low_bits_of_long_values() {
    assert_eq!(decode_u32(&[0, 0, 0, 0, 0, 7]), 7);
    assert_eq!(decode_u32(&[1, 0xDE, 0xAD, 0xBE, 0xEF]), 0xDEAD_BEEF);
    assert_eq!(
        decode_u32(&[9, 9, 9, 9, 9, 9, 0x01, 0x02, 0x03, 0x04]),
        0x0102_0304
    );
}

// ---- decode_f64 ----

#[test]
fn decode_f64_empty_is_zero() {
    assert_eq!(f64::from_bits(decode_f64(&[])), 0.0);
}

#[test]
fn decode_f64_roundtrips_14097000() {
    let bits = 14_097_000.0f64.to_bits();
    let be_bytes = bits.to_be_bytes();
    let stripped: Vec<u8> = be_bytes.iter().skip_while(|&&b| b == 0).copied().collect();
    let result = f64::from_bits(decode_f64(&stripped));
    assert_eq!(result, 14_097_000.0f64);
}

// ---- read_tlv_len ----

#[test]
fn read_tlv_len_short_form() {
    let buf = [42u8, 0xFF];
    let mut pos = 0;
    let len = read_tlv_len(&buf, &mut pos);
    assert_eq!(len, Some(42));
    assert_eq!(pos, 1);
}

#[test]
fn read_tlv_len_long_form_two_bytes() {
    let buf = [0x82u8, 0x01, 0x00];
    let mut pos = 0;
    let len = read_tlv_len(&buf, &mut pos);
    assert_eq!(len, Some(256));
    assert_eq!(pos, 3);
}

#[test]
fn read_tlv_len_long_form_invalid_n_zero() {
    let buf = [0x80u8];
    let mut pos = 0;
    assert_eq!(read_tlv_len(&buf, &mut pos), None);
}

#[test]
fn read_tlv_len_refuses_more_than_four_bytes_and_cut_off_lengths() {
    let mut pos = 0;
    assert_eq!(read_tlv_len(&[0x85u8, 0, 0, 0, 0, 1], &mut pos), None);
    let mut pos = 0;
    assert_eq!(read_tlv_len(&[0x82u8, 1], &mut pos), None);
    let mut pos = 0;
    assert_eq!(read_tlv_len(&[], &mut pos), None);
    assert_eq!(pos, 0);
    let mut pos = 0;
    assert_eq!(read_tlv_len(&[0x84u8, 0, 0, 1, 2], &mut pos), Some(258));
    assert_eq!(pos, 5);
}

// ---- process_status_packet ----

#[test]
fn ignores_cmd_packets() {
    let pkt = vec![1u8, 0u8]; // CMD + EOL
    let mut map = HashMap::new();
    let result = process_status_packet(&pkt, &mut map);
    assert!(result.is_none());
    assert!(map.is_empty());
}

#[test]
fn eol_only_packet_returns_none() {
    let pkt = vec![PKT_STATUS, 0u8];
    let mut map = HashMap::new();
    let result = process_status_packet(&pkt, &mut map);
    assert!(result.is_none());
}

#[test]
fn partial_packet_ssrc_only() {
    let ssrc_val = 0xDEAD_BEEFu32.to_be_bytes();
    let pkt = make_status_packet(&[(TAG_OUTPUT_SSRC, &ssrc_val)]);
    let mut map = HashMap::new();
    let result = process_status_packet(&pkt, &mut map);
    assert_eq!(result, Some(0xDEAD_BEEF));
    let info = map.get(&0xDEAD_BEEF).expect("entry should exist");
    assert!(!info.is_audio_ready());
}

#[test]
fn parses_full_channel_info() {
    let ssrc: u32 = 0x0000_1234;
    let freq_bits = 14_095_600.0f64.to_bits(); // USB dial frequency
    let ssrc_stripped = stripped(&ssrc.to_be_bytes());
    let freq_stripped = stripped(&freq_bits.to_be_bytes());
    let rate_stripped = stripped(&12_000u32.to_be_bytes());

    let pkt = make_status_packet(&[
        (TAG_OUTPUT_SSRC, &ssrc_stripped),
        (TAG_RADIO_FREQUENCY, &freq_stripped),
        (TAG_OUTPUT_SAMPRATE, &rate_stripped),
        (TAG_OUTPUT_CHANNELS, &[1u8]), // mono audio (USB demod)
        (TAG_RTP_PT, &[122u8]),        // PT 122 = 12 kHz mono
        (TAG_OUTPUT_ENCODING, &[ENC_S16BE]),
    ]);

    let mut map = HashMap::new();
    let result = process_status_packet(&pkt, &mut map);

    assert_eq!(result, Some(0x0000_1234));
    let info = map.get(&0x0000_1234).expect("entry should exist");
    assert_eq!(f64::from_bits(info.center_freq_bits), 14_095_600.0);
    assert_eq!(info.sample_rate_hz, 12_000);
    assert_eq!(info.channels, 1);
    assert_eq!(info.pt, 122);
    assert_eq!(info.encoding, ENC_S16BE);
    assert!(info.is_audio_ready());
}

#[test]
fn unknown_tags_are_skipped() {
    let ssrc_bytes = 42u32.to_be_bytes();
    let pkt = make_status_packet(&[
        (200u8, &[0xDE, 0xAD]), // unknown tag — must be safely skipped
        (TAG_OUTPUT_SSRC, &ssrc_bytes),
    ]);
    let mut map = HashMap::new();
    let result = process_status_packet(&pkt, &mut map);
    assert_eq!(result, Some(42));
}

#[test]
fn is_audio_ready_requires_mono() {
    let mut info = ChannelInfo::default();
    info.channels = 2;
    info.sample_rate_hz = 12_000;
    info.center_freq_bits = 14_095_600.0f64.to_bits();
    assert!(!info.is_audio_ready());
}

#[test]
fn is_audio_ready_requires_nonzero_freq_and_rate() {
    let mut info = ChannelInfo::default();
    info.channels = 1;
    assert!(!info.is_audio_ready());

    // Set only sample_rate.
    info.sample_rate_hz = 12_000;
    assert!(!info.is_audio_ready());

    // Set both.
    info.center_freq_bits = 14_095_600.0f64.to_bits();
    assert!(info.is_audio_ready());
}

#[test]
fn is_audio_ready_agrees_with_float_comparison() {
    for freq in [
        0.0,
        -0.0,
        -1.0,
        f64::MIN_POSITIVE / 2.0,
        1.0,
        f64::MAX,
        f64::INFINITY,
        f64::NEG_INFINITY,
        f64::NAN,
        -f64::NAN,
    ] {
        let info = ChannelInfo {
            channels: 1,
            sample_rate_hz: 12_000,
            center_freq_bits: f64::to_bits(freq),
            ..ChannelInfo::default()
        };
        assert_eq!(info.is_audio_ready(), freq > 0.0, "frequency {freq}");
    }
}

#[test]
fn later_packets_update_only_what_they_carry() {
    let mut map = HashMap::new();
    process_status_packet(&full_packet(7, 1), &mut map);
    let pkt = make_status_packet(&[
        (TAG_OUTPUT_SSRC, &[7]),
        (TAG_OUTPUT_ENCODING, &[ENC_S16LE]),
        (TAG_OUTPUT_CHANNELS, &[]),
    ]);
    assert_eq!(process_status_packet(&pkt, &mut map), Some(7));
    let info = map[&7];
    assert_eq!(info.encoding, ENC_S16LE);
    assert_eq!(info.channels, 0);
    assert_eq!(info.sample_rate_hz, 12_000);
    assert_eq!(info.pt, 122);
}

#[test]
fn other_channels_stay_as_they_were() {
    let mut map = HashMap::new();
    process_status_packet(&full_packet(1, 1), &mut map);
    let before = map[&1];
    process_status_packet(&full_packet(2, 2), &mut map);
    assert_eq!(map.len(), 2);
    assert_eq!(map[&1].channels, before.channels);
    assert_eq!(map[&1].center_freq_bits, before.center_freq_bits);
    assert_eq!(map[&2].channels, 2);
}

#[test]
fn items_before_a_malformed_one_still_count() {
    let mut map = HashMap::new();
    let mut pkt = vec![PKT_STATUS, TAG_OUTPUT_SSRC, 1, 9, TAG_RTP_PT, 200, 1];
    assert_eq!(process_status_packet(&pkt, &mut map), Some(9));
    assert_eq!(map[&9].pt, 0);
    pkt.truncate(4);
    assert_eq!(process_status_packet(&pkt, &mut map), Some(9));
}

#[test]
fn long_form_values_and_trailing_bytes_are_read() {
    let mut pkt = vec![PKT_STATUS, 200, 0x82, 0x01, 0x2C];
    pkt.extend_from_slice(&[0xAA; 300]);
    pkt.extend_from_slice(&[TAG_OUTPUT_SSRC, 0x81, 2, 0x12, 0x34, 0]);
    pkt.extend_from_slice(&[TAG_OUTPUT_SSRC, 1, 9]); // behind the end tag
    let mut map = HashMap::new();
    assert_eq!(process_status_packet(&pkt, &mut map), Some(0x1234));
    assert_eq!(map.len(), 1);
}

// ---- peek_ssrc and readiness ----

#[test]
fn peek_finds_the_ssrc_that_is_applied() {
    let pkt = full_packet(0xDEAD_BEEF, 1);
    let mut map = HashMap::new();
    assert_eq!(peek_ssrc(&pkt), Some(0xDEAD_BEEF));
    assert_eq!(process_status_packet(&pkt, &mut map), peek_ssrc(&pkt));
    assert_eq!(peek_ssrc(&[1, TAG_OUTPUT_SSRC, 1, 9, 0]), None);
    assert_eq!(peek_ssrc(&[PKT_STATUS, 0]), None);
    assert_eq!(peek_ssrc(&[]), None);
}

#[test]
fn readiness_is_announced_once() {
    let mut map = HashMap::new();
    assert!(matches!(
        handle_status_datagram(&[PKT_STATUS, 0], &mut map),
        StatusEvent::Ignored
    ));
    let bare = make_status_packet(&[(TAG_OUTPUT_SSRC, &[5])]);
    assert!(matches!(
        handle_status_datagram(&bare, &mut map),
        StatusEvent::Update { ssrc: 5, .. }
    ));
    let full = full_packet(5, 1);
    match handle_status_datagram(&full, &mut map) {
        StatusEvent::Ready { ssrc, info } => {
            assert_eq!(ssrc, 5);
            assert_eq!(info.sample_rate_hz, 12_000);
        }
        other => panic!("expected Ready, got {other:?}"),
    }
    assert!(matches!(
        handle_status_datagram(&full, &mut map),
        StatusEvent::Update { ssrc: 5, .. }
    ));
    assert!(matches!(
        handle_status_datagram(&full_packet(5, 2), &mut map),
        StatusEvent::Update { ssrc: 5, .. }
    ));
    assert!(matches!(
        handle_status_datagram(&full, &mut map),
        StatusEvent::Ready { ssrc: 5, .. }
    ));
}

#[test]
fn readiness_is_that_of_the_channel_described() {
    let mut map = HashMap::new();
    handle_status_datagram(&full_packet(1, 1), &mut map);
    // A datagram that names the ready channel 1 first and then describes 2.
    let mut pkt = vec![PKT_STATUS, TAG_OUTPUT_SSRC, 1, 1];
    pkt.extend_from_slice(&full_packet(2, 1)[1..]);
    assert_eq!(peek_ssrc(&pkt), Some(1));
    assert!(matches!(
        handle_status_datagram(&pkt, &mut map),
        StatusEvent::Ready { ssrc: 2, .. }
    ));
    assert!(matches!(
        handle_status_datagram(&pkt, &mut map),
        StatusEvent::Update { ssrc: 2, .. }
    ));
    // And one that names an unknown channel before the ready channel 1.
    let mut pkt = vec![PKT_STATUS, TAG_OUTPUT_SSRC, 1, 9];
    pkt.extend_from_slice(&full_packet(1, 1)[1..]);
    assert!(matches!(
        handle_status_datagram(&pkt, &mut map),
        StatusEvent::Update { ssrc: 1, .. }
    ));
    assert!(!map.contains_key(&9));
}

#[test]
fn repeated_status_changes_nothing() {
    let mut map = HashMap::new();
    let pkt = full_packet(3, 1);
    process_status_packet(&pkt, &mut map);
    let first = map[&3];
    process_status_packet(&pkt, &mut map);
    assert_eq!(map.len(), 1);
    assert_eq!(map[&3].center_freq_bits, first.center_freq_bits);
    assert_eq!(map[&3].encoding, first.encoding);
}
