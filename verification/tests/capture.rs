use std::collections::HashMap;

use wsprrs::capture::{IngestJob, IngestOutcome, PacketAction, WindowBank};
use wsprrs::error::WsprError;
use wsprrs::status::{ChannelInfo, ENC_S16BE};
use wsprrs::time::Timestamp;

/// An RTP datagram.
fn datagram(ssrc: u32, seq: u16, timestamp: u32, payload: &[u8]) -> Vec<u8> {
    let mut v = vec![2 << 6, 122];
    v.extend_from_slice(&seq.to_be_bytes());
    v.extend_from_slice(&timestamp.to_be_bytes());
    v.extend_from_slice(&ssrc.to_be_bytes());
    v.extend_from_slice(payload);
    v
}

fn mono(sample_rate_hz: u32) -> ChannelInfo {
    ChannelInfo {
        pt: 122,
        center_freq_bits: 14_095_600.0f64.to_bits(),
        sample_rate_hz,
        channels: 1,
        encoding: ENC_S16BE,
    }
}

fn channels(list: &[(u32, ChannelInfo)]) -> HashMap<u32, ChannelInfo> {
    list.iter().copied().collect()
}

fn at(secs: i64) -> Timestamp {
    Timestamp::from_unix_secs(secs)
}

fn job<'a>(action: PacketAction<'a>) -> IngestJob<'a> {
    match action {
        PacketAction::Ingest(job) => job,
        other => panic!("expected a packet to ingest, got {other:?}"),
    }
}

#[test]
fn each_refusal_has_its_input() {
    let mut bank = WindowBank::new(116, Some(7));
    let stereo = ChannelInfo {
        channels: 2,
        ..mono(10)
    };
    let map = channels(&[(7, stereo)]);
    let now = at(1_200);
    assert!(matches!(
        bank.accept(&[0; 5], &map, now),
        PacketAction::Malformed(WsprError::PacketTooShort(5))
    ));
    let other = datagram(8, 0, 0, &[]);
    assert!(matches!(
        bank.accept(&other, &map, now),
        PacketAction::Filtered
    ));
    let own = datagram(7, 0, 0, &[]);
    assert!(matches!(
        bank.accept(&own, &map, now),
        PacketAction::NotReady
    ));
    assert!(matches!(
        bank.accept(&own, &HashMap::new(), now),
        PacketAction::UnknownSsrc {
            ssrc: 7,
            payload_type: 122
        }
    ));
    let map = channels(&[(7, mono(10))]);
    assert!(matches!(
        bank.accept(&own, &map, at(1_200 + 116)),
        PacketAction::LateStart {
            ssrc: 7,
            elapsed_secs: 116
        }
    ));
    let mut long = WindowBank::new(u32::MAX, None);
    let fast = channels(&[(7, mono(u32::MAX))]);
    assert!(matches!(
        long.accept(&own, &fast, now),
        PacketAction::Oversize {
            ssrc: 7,
            sample_rate_hz: u32::MAX
        }
    ));
    assert!(bank.windows.is_empty());
    assert!(long.windows.is_empty());
}

#[test]
fn a_window_opens_on_the_even_minute() {
    let mut bank = WindowBank::new(116, None);
    let map = channels(&[(7, mono(10))]);
    let first = datagram(7, 3, 1_000, &[0, 5]);
    let opened = job(bank.accept(&first, &map, at(1_200 + 115)));
    assert!(opened.opened);
    assert_eq!(opened.window_start, at(1_200));
    assert_eq!(opened.payload, &[0, 5]);
    assert_eq!(opened.sequence, 3);
    assert_eq!(opened.timestamp, 1_000);
    assert_eq!(opened.sample_rate_hz, 10);
    assert_eq!(opened.encoding, ENC_S16BE);
    let window = &bank.windows[&7];
    assert_eq!(window.capacity_samples, 1_160);
    assert!(window.samples().iter().all(|&s| s == 0));

    // The open window goes on past the even minute until it is sealed.
    let second = datagram(7, 4, 1_001, &[0, 6]);
    let next = job(bank.accept(&second, &map, at(1_200 + 119)));
    assert!(!next.opened);
    assert_eq!(next.window_start, at(1_200));
}

#[test]
fn an_even_minute_is_never_late() {
    let map = channels(&[(7, mono(10))]);
    for secs in [0, 120, 1_704_067_200] {
        let mut bank = WindowBank::new(1, None);
        let pkt = datagram(7, 0, 0, &[]);
        assert!(job(bank.accept(&pkt, &map, at(secs))).opened);
    }
}

#[test]
fn packets_fill_their_own_window() {
    let mut bank = WindowBank::new(2, None);
    let map = channels(&[(1, mono(4)), (2, mono(4))]);
    let now = at(120);
    let a = datagram(1, 0, 50, &[0, 1, 0, 2]);
    let b = datagram(2, 0, 90, &[0, 9]);
    let ja = job(bank.accept(&a, &map, now));
    assert!(matches!(
        bank.ingest(&ja, 3),
        IngestOutcome::Progress {
            written: 5,
            capacity: 8
        }
    ));
    let jb = job(bank.accept(&b, &map, now));
    assert!(matches!(
        bank.ingest(&jb, 0),
        IngestOutcome::Progress {
            written: 1,
            capacity: 8
        }
    ));
    assert_eq!(bank.windows[&1].samples(), &[0, 0, 0, 1, 2, 0, 0, 0]);
    assert_eq!(bank.windows[&2].samples(), &[9, 0, 0, 0, 0, 0, 0, 0]);
}

#[test]
fn an_overflow_seals_the_window() {
    let mut bank = WindowBank::new(2, None);
    let map = channels(&[(1, mono(4)), (2, mono(4))]);
    let now = at(120);
    for ssrc in [1, 2] {
        let pkt = datagram(ssrc, 0, 0, &[0, 1]);
        let j = job(bank.accept(&pkt, &map, now));
        bank.ingest(&j, 0);
    }
    let pkt = datagram(1, 1, 8, &[0, 2]);
    let j = job(bank.accept(&pkt, &map, now));
    match bank.ingest(&j, 0) {
        IngestOutcome::Sealed(window) => {
            assert_eq!(window.samples(), &[1, 0, 0, 0, 0, 0, 0, 0]);
            assert_eq!(window.samples_written, 1);
        }
        other => panic!("expected a sealed window, got {other:?}"),
    }
    assert!(!bank.windows.contains_key(&1));
    assert_eq!(bank.windows[&2].samples()[0], 1);
    assert!(matches!(bank.ingest(&j, 0), IngestOutcome::NoWindow));
}

#[test]
fn a_full_gap_counter_is_reported() {
    let mut bank = WindowBank::new(2, None);
    let map = channels(&[(1, mono(4))]);
    let pkt = datagram(1, 0, 0, &[0, 1]);
    let j = job(bank.accept(&pkt, &map, at(0)));
    bank.ingest(&j, 0);
    bank.windows.get_mut(&1).unwrap().gap_count = u64::MAX;
    assert!(matches!(bank.ingest(&j, 0), IngestOutcome::GapCountFull));
    assert_eq!(bank.windows[&1].samples_written, 1);
}

#[test]
fn windows_expire_after_the_capture_time() {
    let mut bank = WindowBank::new(116, None);
    let map = channels(&[(1, mono(4)), (2, mono(4))]);
    let pkt = datagram(1, 0, 0, &[0, 1]);
    bank.accept(&pkt, &map, at(1_200));
    let pkt = datagram(2, 0, 0, &[0, 1]);
    bank.accept(&pkt, &map, at(1_330));
    let almost = Timestamp {
        secs: 1_315,
        nanos: 999_999_999,
    };
    assert!(bank.take_expired(almost).is_empty());
    let sealed = bank.take_expired(at(1_316));
    assert_eq!(sealed.len(), 1);
    assert_eq!(sealed[0].0, 1);
    assert_eq!(sealed[0].1.window_start, at(1_200));
    assert_eq!(bank.windows.len(), 1);
    assert!(bank.take_expired(at(1_316)).is_empty());
    let sealed = bank.take_expired(at(9_999));
    assert_eq!(sealed.len(), 1);
    assert_eq!(sealed[0].0, 2);
    assert!(bank.windows.is_empty());
}

#[test]
fn windows_leave_exactly_once() {
    let mut bank = WindowBank::new(2, None);
    let map = channels(&[(1, mono(4)), (2, mono(4))]);
    let mut opened = 0;
    let mut sealed: Vec<(i64, Vec<i16>)> = Vec::new();
    for step in 0..400i64 {
        let now = at(1_000 + step);
        for (_, window) in bank.take_expired(now).into_iter().filter(|(s, _)| *s == 1) {
            sealed.push((window.window_start.secs, window.samples().to_vec()));
        }
        for ssrc in [1, 2] {
            // The packets of SSRC 1 come twice as fast as its sample rate.
            let ts = step as u32 * if ssrc == 1 { 8 } else { 4 };
            let pkt = datagram(ssrc, step as u16, ts, &[0, 1, 0, 2]);
            let PacketAction::Ingest(job) = bank.accept(&pkt, &map, now) else {
                continue;
            };
            opened += i32::from(ssrc == 1 && job.opened);
            if let IngestOutcome::Sealed(window) = bank.ingest(&job, 0) {
                assert_eq!(ssrc, 1, "only the fast channel overflows");
                sealed.push((window.window_start.secs, window.samples().to_vec()));
            }
        }
    }
    let open = i32::from(bank.windows.contains_key(&1));
    assert_eq!(sealed.len() as i32 + open, opened);
    assert!(opened >= 3);
    assert!(sealed.iter().all(|(start, _)| start % 120 == 0));
    assert!(sealed.iter().all(|(_, pcm)| pcm[..2] == [1, 2]));
}
