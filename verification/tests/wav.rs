use wsprrs::buffer::AudioWindow;
use wsprrs::status::ENC_S16BE;
use wsprrs::time::Timestamp;
use wsprrs::wav::{fits_wav, wav_bytes};

fn window(sample_rate_hz: u32, capture_seconds: u32) -> AudioWindow {
    AudioWindow::new(
        Timestamp::from_unix_secs(0),
        14_095_600.0f64.to_bits(),
        sample_rate_hz,
        capture_seconds,
    )
}

fn le32(bytes: &[u8]) -> u32 {
    u32::from_le_bytes([bytes[0], bytes[1], bytes[2], bytes[3]])
}

#[test]
fn wav_file_is_written() {
    let window = window(12_000, 116);
    assert!(fits_wav(&window));
    let file = wav_bytes(&window);
    let expected = 44 + 12_000usize * 116 * 2; // 44-byte header + PCM data
    assert_eq!(file.len(), expected);
}

#[test]
fn the_header_is_standard() {
    let file = wav_bytes(&window(12_000, 1));
    let mut expected = Vec::new();
    expected.extend_from_slice(b"RIFF");
    expected.extend_from_slice(&24_036u32.to_le_bytes());
    expected.extend_from_slice(b"WAVEfmt ");
    expected.extend_from_slice(&16u32.to_le_bytes());
    expected.extend_from_slice(&1u16.to_le_bytes());
    expected.extend_from_slice(&1u16.to_le_bytes());
    expected.extend_from_slice(&12_000u32.to_le_bytes());
    expected.extend_from_slice(&24_000u32.to_le_bytes());
    expected.extend_from_slice(&2u16.to_le_bytes());
    expected.extend_from_slice(&16u16.to_le_bytes());
    expected.extend_from_slice(b"data");
    expected.extend_from_slice(&24_000u32.to_le_bytes());
    assert_eq!(&file[..44], &expected[..]);
    assert_eq!(le32(&file[4..]) as usize, file.len() - 8);
    assert_eq!(le32(&file[40..]) as usize, file.len() - 44);
}

#[test]
fn samples_read_back() {
    let mut w = window(5, 1);
    let samples = [1i16, -1, i16::MAX, i16::MIN, 258];
    let payload: Vec<u8> = samples.iter().flat_map(|s| s.to_be_bytes()).collect();
    w.ingest(&payload, 0, 0, 0, 1, ENC_S16BE).unwrap();
    let file = wav_bytes(&w);
    assert_eq!(&file[52..54], &[0x02, 0x01]);
    let back: Vec<i16> = file[44..]
        .chunks_exact(2)
        .map(|c| i16::from_le_bytes([c[0], c[1]]))
        .collect();
    assert_eq!(back, samples);
}

#[test]
fn rates_beyond_the_header_are_refused() {
    assert!(!fits_wav(&window(0x8000_0000, 0)));
    assert!(fits_wav(&window(0x7FFF_FFFF, 0)));
}
