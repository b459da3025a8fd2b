use wsprrs::buffer::{window_fits, AudioWindow};
use wsprrs::error::WsprError;
use wsprrs::status::{ENC_S16BE, ENC_S16LE};
use wsprrs::time::{elapsed_nanos, even_minute_boundary, Timestamp};

fn freq() -> u64 {
    14_095_600.0f64.to_bits()
}

fn epoch() -> Timestamp {
    Timestamp::from_unix_secs(0)
}

// ---- even_minute_boundary ----

#[test]
fn even_minute_boundary_aligns_correctly() {
    // 2024-01-01 00:01:30 UTC = 1704067290 seconds.
    let t = Timestamp::from_unix_secs(1_704_067_290);
    let boundary = even_minute_boundary(t);
    let secs = boundary.secs_since_epoch();
    assert_eq!(
        secs % 120,
        0,
        "boundary must be divisible by 120 (2 minutes)"
    );
    assert!(secs <= 1_704_067_290, "boundary must not exceed now");
    assert_eq!(secs, 1_704_067_200);
}

#[test]
fn even_minute_boundary_on_boundary_is_itself() {
    let secs = 1_704_067_200u64; // already divisible by 120
    let t = Timestamp::from_unix_secs(secs as i64);
    let boundary = even_minute_boundary(t);
    assert_eq!(boundary.secs_since_epoch(), secs as i128);
    assert_eq!(boundary, t);
}

#[test]
fn even_minute_boundary_drops_the_fraction() {
    let t = Timestamp {
        secs: 1_704_067_319,
        nanos: 999_999_999,
    };
    assert_eq!(
        even_minute_boundary(t),
        Timestamp::from_unix_secs(1_704_067_200)
    );
    let t = Timestamp {
        secs: 1_704_067_320,
        nanos: 1,
    };
    assert_eq!(
        even_minute_boundary(t),
        Timestamp::from_unix_secs(1_704_067_320)
    );
}

#[test]
fn even_minute_boundary_before_the_epoch_is_floored() {
    assert_eq!(
        even_minute_boundary(Timestamp::from_unix_secs(-1)),
        Timestamp::from_unix_secs(-120)
    );
    assert_eq!(
        even_minute_boundary(Timestamp::from_unix_secs(-500)),
        Timestamp::from_unix_secs(-600)
    );
    assert_eq!(
        even_minute_boundary(Timestamp::from_unix_secs(-120)),
        Timestamp::from_unix_secs(-120)
    );
    let t = Timestamp {
        secs: -1,
        nanos: 999_999_999,
    };
    assert_eq!(even_minute_boundary(t), Timestamp::from_unix_secs(-120));
}

#[test]
fn even_minute_boundary_is_monotone() {
    let mut last = even_minute_boundary(Timestamp::from_unix_secs(-250));
    assert_eq!(last, Timestamp::from_unix_secs(-360));
    for secs in -250..400 {
        let now = Timestamp::from_unix_secs(secs);
        assert!(now.boundary_fits());
        let next = even_minute_boundary(now);
        assert!(last.secs <= next.secs);
        assert!(next.secs <= secs && secs < next.secs + 120);
        last = next;
    }
    assert_eq!(last, Timestamp::from_unix_secs(360));
}

#[test]
fn even_minutes_are_missing_only_at_the_edge_of_time() {
    assert!(!Timestamp::from_unix_secs(i64::MIN).boundary_fits());
    assert!(!Timestamp::from_unix_secs(i64::MIN + 7).boundary_fits());
    let first = Timestamp::from_unix_secs(i64::MIN + 8);
    assert!(first.boundary_fits());
    assert_eq!(even_minute_boundary(first), first);
    let last = Timestamp {
        secs: i64::MAX,
        nanos: u32::MAX,
    };
    assert!(last.boundary_fits());
    assert_eq!(
        even_minute_boundary(last),
        Timestamp::from_unix_secs(i64::MAX - 7)
    );
}

#[test]
fn seconds_of_the_day_count_from_midnight() {
    assert_eq!(Timestamp::from_unix_secs(0).second_of_day(), 0);
    assert_eq!(Timestamp::from_unix_secs(86_401).second_of_day(), 1);
    assert_eq!(Timestamp::from_unix_secs(-1).second_of_day(), 86_399);
    assert_eq!(Timestamp::from_unix_secs(-86_400).second_of_day(), 0);
}

#[test]
fn elapsed_time_is_never_negative() {
    let a = Timestamp {
        secs: 10,
        nanos: 500_000_000,
    };
    let b = Timestamp::from_unix_secs(12);
    assert_eq!(elapsed_nanos(b, a), 1_500_000_000);
    assert_eq!(elapsed_nanos(a, b), 0);
}

// ---- AudioWindow ----

#[test]
fn window_capacity_is_correct() {
    let start = epoch();
    let w = AudioWindow::new(start, freq(), 12_000, 116);
    // Mono: one i16 per sample, no stereo multiplier.
    assert_eq!(w.capacity_samples, 12_000 * 116);
    assert_eq!(w.samples().len(), 12_000 * 116);
    let (written, capacity) = w.fill_fraction();
    assert_eq!(written as f32 / capacity as f32, 0.0);
}

#[test]
fn ingest_fills_samples_at_correct_offset() {
    let mut w = AudioWindow::new(epoch(), freq(), 12_000, 116);

    // One mono sample: value 1000, encoded as S16BE.
    let payload = 1000i16.to_be_bytes().to_vec();
    w.ingest(&payload, 0, 0, 0, 0xABCD, ENC_S16BE).unwrap();

    let samples = w.samples();
    assert_eq!(samples[0], 1000i16, "first sample must be 1000");
    assert_eq!(w.samples_written, 1);
}

#[test]
fn ingest_detects_gaps() {
    let mut w = AudioWindow::new(epoch(), freq(), 12_000, 116);
    // 2-byte mono payload (one sample)
    let dummy_payload = vec![0u8; 2];

    // Send seq 0 (rtp_ts = 0), then jump to seq 5 (gap of 4).
    w.ingest(&dummy_payload, 0, 0, 0, 0, ENC_S16BE).unwrap();
    w.ingest(&dummy_payload, 2, 0, 5, 0, ENC_S16BE).unwrap();

    assert_eq!(w.gap_count, 1);
}

#[test]
fn ingest_overflow_returns_error() {
    let mut w = AudioWindow::new(epoch(), freq(), 12_000, 116);
    let payload = vec![0u8; 2];

    // First packet: anchors rtp_base = 0, start offset 0.  Must succeed.
    w.ingest(&payload, 0, 0, 0, 0xDEAD, ENC_S16BE).unwrap();

    // Second packet: RTP delta = 200 s × 12000 = 2_400_000 samples, which
    // exceeds capacity_samples (12_000 × 116 = 1_392_000).
    let overflow_ts = 12_000u32 * 200;
    let result = w.ingest(&payload, overflow_ts, 0, 1, 0xDEAD, ENC_S16BE);

    assert!(matches!(
        result,
        Err(WsprError::BufferOverflow { ssrc: 0xDEAD })
    ));
}

#[test]
fn overflow_keeps_the_samples() {
    let mut w = AudioWindow::new(epoch(), freq(), 10, 1);
    w.ingest(&[0, 1, 0, 2], 0, 7, 0, 1, ENC_S16BE).unwrap();
    assert!(w.ingest(&[0, 3, 0, 4], 2, 0, 1, 1, ENC_S16BE).is_err());
    assert_eq!(w.samples(), &[0, 0, 0, 0, 0, 0, 0, 1, 2, 0]);
    assert_eq!(w.samples_written, 9);
    w.ingest(&[0, 3], 2, 0, 2, 1, ENC_S16BE).unwrap();
    assert_eq!(w.samples()[9], 3);
    assert_eq!(w.fill_fraction(), (10, 10));
}

#[test]
fn byte_order_follows_the_encoding() {
    let mut w = AudioWindow::new(epoch(), freq(), 4, 1);
    w.ingest(&[0x12, 0x34, 0xFF, 0xFE], 0, 0, 0, 1, ENC_S16BE)
        .unwrap();
    w.ingest(&[0x12, 0x34, 0xFE, 0xFF], 2, 0, 1, 1, ENC_S16LE)
        .unwrap();
    assert_eq!(w.samples(), &[0x1234, -2, 0x3412, -2]);
}

#[test]
fn an_odd_last_byte_is_no_sample() {
    let mut w = AudioWindow::new(epoch(), freq(), 4, 1);
    w.ingest(&[0, 1, 9], 0, 0, 0, 1, ENC_S16BE).unwrap();
    assert_eq!(w.samples(), &[1, 0, 0, 0]);
    assert_eq!(w.samples_written, 1);
}

#[test]
fn the_first_packet_is_placed_by_the_wall_clock() {
    let mut w = AudioWindow::new(epoch(), freq(), 8, 1);
    w.ingest(&[0, 1], 4_000_000_000, 5, 0, 1, ENC_S16BE)
        .unwrap();
    assert_eq!(w.samples()[5], 1);

    let mut early = AudioWindow::new(epoch(), freq(), 8, 1);
    early.ingest(&[0, 1], 0, -3, 0, 1, ENC_S16BE).unwrap();
    assert_eq!(early.samples()[0], 1);

    let mut late = AudioWindow::new(epoch(), freq(), 8, 1);
    late.ingest(&[0, 1], 0, 1_000_000, 0, 1, ENC_S16BE).unwrap();
    assert_eq!(late.samples()[7], 1);
}

#[test]
fn the_sender_clock_may_start_anywhere_and_wrap() {
    let mut w = AudioWindow::new(epoch(), freq(), 8, 1);
    w.ingest(&[0, 1], 0xFFFF_FFFE, 1, 9, 1, ENC_S16BE).unwrap();
    w.ingest(&[0, 2], 0xFFFF_FFFF, 0, 10, 1, ENC_S16BE).unwrap();
    w.ingest(&[0, 3], 0, 0, 11, 1, ENC_S16BE).unwrap();
    w.ingest(&[0, 4], 3, 0, 12, 1, ENC_S16BE).unwrap();
    assert_eq!(w.samples(), &[0, 1, 2, 3, 0, 0, 4, 0]);
    assert_eq!(w.gap_count, 0);
}

#[test]
fn runs_do_not_depend_on_the_epoch() {
    // Timestamps, offsets into the run, and payloads of one run.
    let run: [(u32, u16, &[u8]); 5] = [
        (0, 10, &[0, 1, 0, 2]),
        (4, 12, &[0, 3]),
        (2, 13, &[0, 4]),
        (7, 14, &[0, 5, 0, 6]), // beyond the end
        (7, 15, &[0, 7]),
    ];
    let capture = |shift: u32| {
        let mut w = AudioWindow::new(epoch(), freq(), 8, 1);
        let results: Vec<bool> = run
            .iter()
            .map(|&(ts, seq, payload)| {
                w.ingest(payload, ts.wrapping_add(shift), 0, seq, 1, ENC_S16BE)
                    .is_ok()
            })
            .collect();
        (
            results,
            w.samples().to_vec(),
            w.samples_written,
            w.gap_count,
            w.last_seq,
        )
    };
    let base = capture(0);
    assert_eq!(base.0, [true, true, true, false, true]);
    assert_eq!(base.1, [1, 2, 4, 0, 3, 0, 0, 7]);
    for shift in [1, 1_000, 0x7FFF_FFFF, 0xFFFF_FFFC, 0xFFFF_FFFF] {
        assert_eq!(capture(shift), base);
    }
}

#[test]
fn packets_before_the_first_are_discarded() {
    let mut w = AudioWindow::new(epoch(), freq(), 8, 1);
    w.ingest(&[0, 1], 100, 4, 0, 1, ENC_S16BE).unwrap();
    w.ingest(&[0, 9], 98, 0, 1, 1, ENC_S16BE).unwrap();
    assert_eq!(w.samples(), &[0, 0, 0, 0, 1, 0, 0, 0]);
    assert_eq!(w.samples_written, 5);
    assert_eq!(w.last_seq, Some(1));
}

#[test]
fn sequence_numbers_wrap_without_a_gap() {
    let mut w = AudioWindow::new(epoch(), freq(), 8, 1);
    w.ingest(&[0, 1], 0, 0, 65_535, 1, ENC_S16BE).unwrap();
    w.ingest(&[0, 2], 1, 0, 0, 1, ENC_S16BE).unwrap();
    w.ingest(&[0, 3], 2, 0, 1, 1, ENC_S16BE).unwrap();
    assert_eq!(w.gap_count, 0);
    w.ingest(&[0, 3], 2, 0, 1, 1, ENC_S16BE).unwrap();
    assert_eq!(w.gap_count, 1);
}

#[test]
fn the_latest_packet_wins_and_gaps_stay_silent() {
    let mut w = AudioWindow::new(epoch(), freq(), 8, 1);
    w.ingest(&[0, 1, 0, 1, 0, 1], 0, 0, 0, 1, ENC_S16BE)
        .unwrap();
    w.ingest(&[0, 2, 0, 2], 5, 0, 1, 1, ENC_S16BE).unwrap();
    w.ingest(&[0, 3, 0, 3], 1, 0, 2, 1, ENC_S16BE).unwrap();
    assert_eq!(w.samples(), &[1, 3, 3, 0, 0, 2, 2, 0]);
    assert_eq!(w.samples_written, 7, "progress never runs backwards");
}

#[test]
fn oversized_windows_are_told_apart() {
    assert!(window_fits(12_000, 116));
    assert!(!window_fits(u32::MAX, u32::MAX));
    assert!(window_fits(0, u32::MAX));
}

#[test]
fn the_gap_counter_limit_is_seen() {
    let mut w = AudioWindow::new(epoch(), freq(), 8, 1);
    assert!(w.can_count(5));
    w.ingest(&[0, 1], 0, 0, 5, 1, ENC_S16BE).unwrap();
    w.gap_count = u64::MAX;
    assert!(w.can_count(6));
    assert!(!w.can_count(7));
}
