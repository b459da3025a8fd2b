//! The set of open capture windows, one per SSRC: which packets are captured,
//! when a window opens, and when it is sealed for decoding.

use std::collections::HashMap;

use vstd::prelude::*;

use crate::buffer::{window_fits, AudioWindow};
use crate::error::WsprError;
use crate::rtp::{parse_rtp_packet, RtpPacket};
use crate::status::ChannelInfo;
use crate::time::{elapsed_nanos, even_minute_boundary, Timestamp, NANOS_PER_SEC};

verus! {

broadcast use vstd::std_specs::hash::group_hash_axioms;

/// The open windows, with the settings that govern them.
#[derive(Debug)]
pub struct WindowBank {
    /// Seconds captured per window.
    pub capture_seconds: u32,
    /// The only SSRC to capture; all of them where it is `None`.
    pub ssrc_filter: Option<u32>,
    /// The open window of each SSRC.
    pub windows: HashMap<u32, AudioWindow>,
}

/// What a bank holds, as mathematical values.
#[verifier::ext_equal]
pub struct BankState {
    pub capture_seconds: u32,
    pub ssrc_filter: Option<u32>,
    pub windows: Map<u32, crate::buffer::WindowState>,
}

/// A packet that belongs into an open window.
#[derive(Debug, Clone, Copy)]
pub struct IngestJob<'a> {
    /// SSRC of the stream.
    pub ssrc: u32,
    /// Whether the window was opened for this packet.
    pub opened: bool,
    /// Start of the window.
    pub window_start: Timestamp,
    /// Current dial frequency of the stream, as the bit pattern of a double.
    pub center_freq_bits: u64,
    /// Current sample rate of the stream.
    pub sample_rate_hz: u32,
    /// Current sample encoding of the stream.
    pub encoding: u8,
    /// RTP timestamp of the packet.
    pub timestamp: u32,
    /// RTP sequence number of the packet.
    pub sequence: u16,
    /// Samples of the packet.
    pub payload: &'a [u8],
}

/// What to do with a datagram.
#[derive(Debug)]
pub enum PacketAction<'a> {
    /// No RTP packet; drop it.
    Malformed(WsprError),
    /// Not the SSRC that the filter asks for; drop it.
    Filtered,
    /// A known channel that is no ready mono audio stream; drop it.
    NotReady,
    /// A channel that the status stream has not described yet; drop it.
    UnknownSsrc { ssrc: u32, payload_type: u8 },
    /// The capture time of the current cycle is over; drop it and wait for the
    /// next even minute.
    LateStart { ssrc: u32, elapsed_secs: u64 },
    /// A window for this sample rate cannot be allocated.
    Oversize { ssrc: u32, sample_rate_hz: u32 },
    /// Hand it to [`WindowBank::ingest`].
    Ingest(IngestJob<'a>),
}

/// What became of a packet handed to [`WindowBank::ingest`].
#[derive(Debug)]
pub enum IngestOutcome {
    /// The SSRC has no open window.
    NoWindow,
    /// The window's gap counter is at its limit; the packet was not taken.
    GapCountFull,
    /// The packet was taken; the window is filled up to `written` samples.
    Progress { written: usize, capacity: usize },
    /// The packet lies beyond the window's end: the window is captured to
    /// capacity and leaves the bank for decoding.
    Sealed(AudioWindow),
}

/// The kinds of [`PacketAction`], with the window opened or already there.
pub enum Disposition {
    Malformed,
    Filtered,
    NotReady,
    UnknownSsrc,
    LateStart,
    Oversize,
    Open,
    Continue,
}

/// Whole seconds of the current cycle that have passed at `now`.
pub open spec fn cycle_secs(now: Timestamp) -> int {
    crate::time::elapsed(now, crate::time::boundary_of(now)) / NANOS_PER_SEC as int
}

/// Whether `capture_seconds` or more have passed since the start of `w`.
pub open spec fn is_expired(
    w: crate::buffer::WindowState,
    now: Timestamp,
    capture_seconds: u32,
) -> bool {
    crate::time::elapsed(now, w.window_start) >= capture_seconds * NANOS_PER_SEC
}

/// A silent window of the current cycle for the channel `info`.
pub open spec fn fresh_window(
    info: ChannelInfo,
    now: Timestamp,
    capture_seconds: u32,
) -> crate::buffer::WindowState {
    crate::buffer::WindowState {
        window_start: crate::time::boundary_of(now),
        center_freq_bits: info.center_freq_bits,
        sample_rate_hz: info.sample_rate_hz,
        pcm: Seq::new((info.sample_rate_hz * capture_seconds) as nat, |i: int| 0i16),
        written: 0,
        last_seq: None,
        gap_count: 0,
        anchor: None,
    }
}

impl BankState {
    /// What is to be done with `datagram` at `now`, given what the status
    /// stream has said about the channels.
    pub open spec fn disposition(
        self,
        datagram: Seq<u8>,
        channels: Map<u32, ChannelInfo>,
        now: Timestamp,
    ) -> Disposition {
        let ssrc = crate::rtp::header_of(datagram).ssrc;
        if !crate::rtp::is_rtp_packet(datagram) {
            Disposition::Malformed
        } else if self.ssrc_filter is Some && self.ssrc_filter != Some(ssrc) {
            Disposition::Filtered
        } else if !channels.contains_key(ssrc) {
            Disposition::UnknownSsrc
        } else if !channels[ssrc].audio_ready() {
            Disposition::NotReady
        } else if self.windows.contains_key(ssrc) {
            Disposition::Continue
        } else if cycle_secs(now) >= self.capture_seconds {
            Disposition::LateStart
        } else if !crate::buffer::window_fits_spec(
            channels[ssrc].sample_rate_hz,
            self.capture_seconds,
        ) {
            Disposition::Oversize
        } else {
            Disposition::Open
        }
    }

    /// The bank after a datagram was looked at.
    pub open spec fn accepted(
        self,
        datagram: Seq<u8>,
        channels: Map<u32, ChannelInfo>,
        now: Timestamp,
    ) -> BankState {
        let ssrc = crate::rtp::header_of(datagram).ssrc;
        if self.disposition(datagram, channels, now) is Open {
            BankState {
                windows: self.windows.insert(
                    ssrc,
                    fresh_window(channels[ssrc], now, self.capture_seconds),
                ),
                ..self
            }
        } else {
            self
        }
    }

    /// The bank without the windows whose capture time is over at `now`.
    pub open spec fn ticked(self, now: Timestamp) -> BankState {
        BankState {
            windows: self.windows.restrict(
                Set::new(|ssrc: u32| !is_expired(self.windows[ssrc], now, self.capture_seconds)),
            ),
            ..self
        }
    }

    /// The bank without `ssrc`.
    pub open spec fn without(self, ssrc: u32) -> BankState {
        BankState { windows: self.windows.remove(ssrc), ..self }
    }

    /// The bank with `w` as the window of `ssrc`.
    pub open spec fn with(self, ssrc: u32, w: crate::buffer::WindowState) -> BankState {
        BankState { windows: self.windows.insert(ssrc, w), ..self }
    }
}

impl View for WindowBank {
    type V = BankState;

    open spec fn view(&self) -> BankState {
        BankState {
            capture_seconds: self.capture_seconds,
            ssrc_filter: self.ssrc_filter,
            windows: self.windows@.map_values(|w: AudioWindow| w@),
        }
    }
}

impl WindowBank {
    /// Every open window is well-formed and starts on an even UTC minute.
    pub open spec fn wf(&self) -> bool {
        forall|ssrc: u32| #[trigger]
            self.windows@.contains_key(ssrc) ==> self.windows@[ssrc].wf()
                && self.windows@[ssrc].window_start.is_even_minute()
    }

    /// A bank without open windows.
    pub fn new(capture_seconds: u32, ssrc_filter: Option<u32>) -> (r: WindowBank)
        ensures
            r.wf(),
            r@ == (BankState { capture_seconds, ssrc_filter, windows: Map::empty() }),
    {
        let r = WindowBank { capture_seconds, ssrc_filter, windows: HashMap::new() };
        assert(r@.windows =~= Map::empty());
        r
    }

    /// Decides what to do with a datagram and opens a window where it needs one.
    ///
    /// Only ready mono audio channels that pass the SSRC filter are captured.
    /// A window opens at the even minute of the current cycle, unless the
    /// capture time of that cycle is already over.
    pub fn accept<'a>(
        &mut self,
        datagram: &'a [u8],
        channels: &HashMap<u32, ChannelInfo>,
        now: Timestamp,
    ) -> (r: PacketAction<'a>)
        requires
            old(self).wf(),
            now.has_boundary(),
        ensures
            final(self).wf(),
            final(self)@ == old(self)@.accepted(datagram@, channels@, now),
            action_matches(r, old(self)@, datagram@, channels@, now),
    {
        let rtp: RtpPacket<'a> = match parse_rtp_packet(datagram) {
            Ok(packet) => packet,
            Err(e) => {
                return PacketAction::Malformed(e);
            },
        };
        let ssrc: u32 = rtp.header.ssrc;
        if let Some(wanted) = self.ssrc_filter {
            if ssrc != wanted {
                return PacketAction::Filtered;
            }
        }
        let info: ChannelInfo = match channels.get(&ssrc) {
            Some(info) => {
                if !info.is_audio_ready() {
                    return PacketAction::NotReady;
                }
                *info
            },
            None => {
                return PacketAction::UnknownSsrc { ssrc, payload_type: rtp.header.payload_type };
            },
        };
        let mut opened: bool = false;
        let window_start: Timestamp = match self.windows.get(&ssrc) {
            Some(window) => window.window_start,
            None => {
                let start: Timestamp = even_minute_boundary(now);
                let elapsed_secs: u128 = elapsed_nanos(now, start) / NANOS_PER_SEC as u128;
                if elapsed_secs >= self.capture_seconds as u128 {
                    return PacketAction::LateStart { ssrc, elapsed_secs: elapsed_secs as u64 };
                }
                if !window_fits(info.sample_rate_hz, self.capture_seconds) {
                    return PacketAction::Oversize { ssrc, sample_rate_hz: info.sample_rate_hz };
                }
                let window: AudioWindow = AudioWindow::new(
                    start,
                    info.center_freq_bits,
                    info.sample_rate_hz,
                    self.capture_seconds,
                );
                self.windows.insert(ssrc, window);
                opened = true;
                assert(self@.windows =~= old(self)@.windows.insert(
                    ssrc,
                    fresh_window(info, now, self.capture_seconds),
                ));
                start
            },
        };
        PacketAction::Ingest(
            IngestJob {
                ssrc,
                opened,
                window_start,
                center_freq_bits: info.center_freq_bits,
                sample_rate_hz: info.sample_rate_hz,
                encoding: info.encoding,
                timestamp: rtp.header.timestamp,
                sequence: rtp.header.sequence,
                payload: rtp.payload,
            },
        )
    }

    /// The SSRCs whose windows have expired, each once.
    fn expired_ssrcs(&self, now: Timestamp) -> (r: Vec<u32>)
        ensures
            r@.no_duplicates(),
            forall|ssrc: u32| #[trigger]
                r@.contains(ssrc) <==> self@.windows.contains_key(ssrc) && is_expired(
                    self@.windows[ssrc],
                    now,
                    self.capture_seconds,
                ),
    {
        let limit: u128 = self.capture_seconds as u128 * NANOS_PER_SEC as u128;
        let mut r: Vec<u32> = Vec::new();
        let keys = self.windows.keys();
        let ghost all = vstd::std_specs::iter::IteratorSpec::remaining(&keys);
        for key in it: keys
            invariant
                limit == self.capture_seconds * NANOS_PER_SEC,
                it.seq() == all,
                all.unref().to_set() == self.windows@.dom(),
                it.seq().no_duplicates(),
                r@.no_duplicates(),
                forall|ssrc: u32| #[trigger]
                    r@.contains(ssrc) <==> it.seq().take(it.index()).unref().contains(ssrc)
                        && is_expired(self@.windows[ssrc], now, self.capture_seconds),
        {
            broadcast use vstd::seq_lib::group_seq_properties;

            let ghost done = it.seq().take(it.index()).unref();
            assert(it.seq().take(it.index() + 1).unref() =~= done.push(*key));
            assert(it.seq().unref()[it.index()] == *key);
            assert(it.seq().unref().to_set().contains(*key));
            assert(!done.contains(*key));
            let ghost before = r@;
            if let Some(window) = self.windows.get(key) {
                if elapsed_nanos(now, window.window_start) >= limit {
                    r.push(*key);
                }
            }
            assert(!before.contains(*key));
            assert(r@ == before || r@ == before.push(*key));
        }
        proof {
            assert(all.take(all.len() as int) =~= all);
            assert forall|ssrc: u32| all.unref().contains(ssrc) == self.windows@.contains_key(
                ssrc,
            ) by {
                assert(all.unref().to_set().contains(ssrc) == self.windows@.dom().contains(ssrc));
            }
        }
        r
    }

    /// Takes out every window whose capture time is over at `now`, for
    /// decoding.  The windows come in no particular order.
    pub fn take_expired(&mut self, now: Timestamp) -> (r: Vec<(u32, AudioWindow)>)
        requires
            old(self).wf(),
        ensures
            final(self).wf(),
            final(self)@ == old(self)@.ticked(now),
            forall|ssrc: u32| #[trigger]
                old(self)@.windows.contains_key(ssrc) && is_expired(
                    old(self)@.windows[ssrc],
                    now,
                    old(self).capture_seconds,
                ) <==> sealed_ssrcs(r@).contains(ssrc),
            sealed_ssrcs(r@).no_duplicates(),
            forall|i: int|
                0 <= i < r@.len() ==> (#[trigger] r@[i]).1.wf() && r@[i].1@ == old(
                    self,
                )@.windows[r@[i].0],
    {
        let expired: Vec<u32> = self.expired_ssrcs(now);
        let mut sealed: Vec<(u32, AudioWindow)> = Vec::new();
        let mut i: usize = 0;
        while i < expired.len()
            invariant
                i <= expired@.len(),
                expired@.no_duplicates(),
                self.wf(),
                old(self).wf(),
                self.capture_seconds == old(self).capture_seconds,
                self.ssrc_filter == old(self).ssrc_filter,
                forall|ssrc: u32| #[trigger]
                    expired@.contains(ssrc) ==> old(self).windows@.contains_key(ssrc),
                forall|ssrc: u32| #[trigger]
                    self.windows@.contains_key(ssrc) <==> old(self).windows@.contains_key(ssrc)
                        && !expired@.take(i as int).contains(ssrc),
                forall|ssrc: u32| #[trigger]
                    self.windows@.contains_key(ssrc) ==> self.windows@[ssrc] == old(
                        self,
                    ).windows@[ssrc],
                sealed_ssrcs(sealed@) == expired@.take(i as int),
                forall|k: int|
                    0 <= k < sealed@.len() ==> (#[trigger] sealed@[k]).1.wf() && old(
                        self,
                    ).windows@.contains_key(sealed@[k].0) && sealed@[k].1 == old(
                        self,
                    ).windows@[sealed@[k].0],
            decreases expired@.len() - i,
        {
            let ssrc: u32 = expired[i];
            let ghost done = expired@.take(i as int);
            assert(expired@.contains(ssrc));
            assert(!done.contains(ssrc));
            broadcast use vstd::seq_lib::group_seq_properties;

            assert(expired@.take(i + 1) =~= done.push(ssrc));
            if let Some(window) = self.windows.remove(&ssrc) {
                sealed.push((ssrc, window));
            }
            assert(sealed_ssrcs(sealed@) =~= expired@.take(i + 1));
            i += 1;
        }
        assert(expired@.take(i as int) =~= expired@);
        assert(self@.windows =~= old(self)@.ticked(now).windows);
        sealed
    }

    /// Puts a packet into its window; `wall_samples` is the wall-clock time
    /// since the window's start, in samples.
    ///
    /// A packet that would end beyond the window seals it: the window leaves
    /// the bank with all samples it holds.
    pub fn ingest(&mut self, job: &IngestJob<'_>, wall_samples: i64) -> (r: IngestOutcome)
        requires
            old(self).wf(),
        ensures
            final(self).wf(),
            outcome_matches(r, old(self)@, final(self)@, *job, wall_samples),
            r matches IngestOutcome::Sealed(window) ==> window.wf(),
    {
        let ghost before = self@;
        let mut window: AudioWindow = match self.windows.remove(&job.ssrc) {
            Some(window) => window,
            None => {
                assert(self@.windows =~= before.windows);
                return IngestOutcome::NoWindow;
            },
        };
        let ghost w = window@;
        assert(w == before.windows[job.ssrc]);
        if !window.can_count(job.sequence) {
            self.windows.insert(job.ssrc, window);
            assert(self@.windows =~= before.windows);
            return IngestOutcome::GapCountFull;
        }
        match window.ingest(
            job.payload,
            job.timestamp,
            wall_samples,
            job.sequence,
            job.ssrc,
            job.encoding,
        ) {
            Ok(()) => {
                let written: usize = window.samples_written;
                let capacity: usize = window.capacity_samples;
                let ghost after = window@;
                self.windows.insert(job.ssrc, window);
                assert(self@.windows =~= before.windows.insert(job.ssrc, after));
                IngestOutcome::Progress { written, capacity }
            },
            Err(_) => {
                // An overflow is the only way for `ingest` to fail.
                assert(self@.windows =~= before.windows.remove(job.ssrc));
                IngestOutcome::Sealed(window)
            },
        }
    }
}

/// The SSRCs of sealed windows, in order.
pub open spec fn sealed_ssrcs(sealed: Seq<(u32, AudioWindow)>) -> Seq<u32> {
    sealed.map_values(|s: (u32, AudioWindow)| s.0)
}

/// How the action for a datagram answers to its disposition.
pub open spec fn action_matches(
    action: PacketAction<'_>,
    bank: BankState,
    datagram: Seq<u8>,
    channels: Map<u32, ChannelInfo>,
    now: Timestamp,
) -> bool {
    let header = crate::rtp::header_of(datagram);
    let disposition = bank.disposition(datagram, channels, now);
    match action {
        PacketAction::Malformed(e) => disposition is Malformed && e == crate::rtp::rtp_error(
            datagram,
        ),
        PacketAction::Filtered => disposition is Filtered,
        PacketAction::NotReady => disposition is NotReady,
        PacketAction::UnknownSsrc { ssrc, payload_type } => {
            &&& disposition is UnknownSsrc
            &&& ssrc == header.ssrc
            &&& payload_type == header.payload_type
        },
        PacketAction::LateStart { ssrc, elapsed_secs } => {
            &&& disposition is LateStart
            &&& ssrc == header.ssrc
            &&& elapsed_secs == cycle_secs(now)
        },
        PacketAction::Oversize { ssrc, sample_rate_hz } => {
            &&& disposition is Oversize
            &&& ssrc == header.ssrc
            &&& sample_rate_hz == channels[ssrc].sample_rate_hz
        },
        PacketAction::Ingest(job) => {
            &&& disposition is Open || disposition is Continue
            &&& job.opened <==> disposition is Open
            &&& job.ssrc == header.ssrc
            &&& job.window_start == bank.accepted(
                datagram,
                channels,
                now,
            ).windows[header.ssrc].window_start
            &&& job.center_freq_bits == channels[header.ssrc].center_freq_bits
            &&& job.sample_rate_hz == channels[header.ssrc].sample_rate_hz
            &&& job.encoding == channels[header.ssrc].encoding
            &&& job.timestamp == header.timestamp
            &&& job.sequence == header.sequence
            &&& job.payload@ == datagram.skip(crate::rtp::payload_start(datagram))
        },
    }
}

/// How the outcome of an ingestion answers to the bank before and after it.
pub open spec fn outcome_matches(
    outcome: IngestOutcome,
    before: BankState,
    after: BankState,
    job: IngestJob<'_>,
    wall_samples: i64,
) -> bool {
    let w = before.windows[job.ssrc];
    let ingested = w.ingested(
        job.payload@,
        job.timestamp,
        wall_samples,
        job.sequence,
        job.encoding,
    );
    if !before.windows.contains_key(job.ssrc) {
        outcome is NoWindow && after == before
    } else if ingested.gap_count > u64::MAX {
        outcome is GapCountFull && after == before
    } else if w.overflows(job.payload@.len(), job.timestamp, wall_samples) {
        outcome matches IngestOutcome::Sealed(window) && window@ == ingested && after
            == before.without(job.ssrc)
    } else {
        outcome matches IngestOutcome::Progress { written, capacity } && written
            == ingested.written && capacity == ingested.capacity() && after == before.with(
            job.ssrc,
            ingested,
        )
    }
}

/// Only ready mono channels that pass the SSRC filter are captured.
pub proof fn law_only_ready_channels_are_captured(
    bank: BankState,
    datagram: Seq<u8>,
    channels: Map<u32, ChannelInfo>,
    now: Timestamp,
)
    requires
        ({
            let disposition = bank.disposition(datagram, channels, now);
            disposition is Open || disposition is Continue
        }),
    ensures
        ({
            let ssrc = crate::rtp::header_of(datagram).ssrc;
            &&& crate::rtp::is_rtp_packet(datagram)
            &&& bank.ssrc_filter matches Some(wanted) ==> ssrc == wanted
            &&& channels.contains_key(ssrc)
            &&& channels[ssrc].channels == 1
            &&& channels[ssrc].audio_ready()
            &&& bank.accepted(datagram, channels, now).windows.contains_key(ssrc)
        }),
{
}

/// A window opens on an even minute, silent and within its capture time.
pub proof fn law_windows_open_on_even_minutes(
    bank: BankState,
    datagram: Seq<u8>,
    channels: Map<u32, ChannelInfo>,
    now: Timestamp,
)
    requires
        now.has_boundary(),
        bank.disposition(datagram, channels, now) is Open,
    ensures
        ({
            let ssrc = crate::rtp::header_of(datagram).ssrc;
            let w = bank.accepted(datagram, channels, now).windows[ssrc];
            &&& w.window_start.is_even_minute()
            &&& !is_expired(w, now, bank.capture_seconds)
            &&& w.capacity() == channels[ssrc].sample_rate_hz * bank.capture_seconds
            &&& forall|i: int| 0 <= i < w.capacity() ==> w.pcm[i] == 0
        }),
{
    let ssrc = crate::rtp::header_of(datagram).ssrc;
    crate::time::law_boundary_is_the_even_minute_before(now);
    assert(0 <= channels[ssrc].sample_rate_hz * bank.capture_seconds) by (nonlinear_arith);
    let elapsed = crate::time::elapsed(now, crate::time::boundary_of(now));
    assert(elapsed / NANOS_PER_SEC as int * NANOS_PER_SEC <= elapsed < (elapsed
        / NANOS_PER_SEC as int + 1) * NANOS_PER_SEC);
}

/// Looking at a datagram, or putting it into its window, touches no other SSRC.
pub proof fn law_other_windows_stay(
    bank: BankState,
    datagram: Seq<u8>,
    channels: Map<u32, ChannelInfo>,
    now: Timestamp,
    other: u32,
)
    requires
        other != crate::rtp::header_of(datagram).ssrc,
    ensures
        ({
            let after = bank.accepted(datagram, channels, now);
            &&& after.windows.contains_key(other) == bank.windows.contains_key(other)
            &&& after.windows[other] == bank.windows[other]
        }),
        forall|outcome: IngestOutcome, after: BankState, job: IngestJob<'_>, wall_samples: i64|
            job.ssrc != other && #[trigger] outcome_matches(outcome, bank, after, job, wall_samples)
                ==> after.windows.contains_key(other) == bank.windows.contains_key(other)
                && after.windows[other] == bank.windows[other],
{
}

/// Once the capture time of a window is over it stays over.
pub proof fn law_expiry_is_final(
    w: crate::buffer::WindowState,
    now: Timestamp,
    later: Timestamp,
    capture_seconds: u32,
)
    requires
        now.total_nanos() <= later.total_nanos(),
        is_expired(w, now, capture_seconds),
    ensures
        is_expired(w, later, capture_seconds),
{
}

/// A late start lasts until the next even minute at the most: on an even minute
/// a bank that captures at all opens a window.
pub proof fn law_even_minute_is_never_late(
    bank: BankState,
    datagram: Seq<u8>,
    channels: Map<u32, ChannelInfo>,
    now: Timestamp,
)
    requires
        now.is_even_minute(),
        bank.capture_seconds > 0,
    ensures
        !(bank.disposition(datagram, channels, now) is LateStart),
{
    crate::time::law_boundary_of_even_minute_is_itself(now);
}

/// The packet that a job puts into its window.
pub open spec fn job_packet(job: IngestJob<'_>, wall_samples: i64) -> crate::buffer::Packet {
    crate::buffer::Packet {
        payload: job.payload@,
        timestamp: job.timestamp,
        wall_samples,
        seq: job.sequence,
        encoding: job.encoding,
    }
}

/// A window holds what was put into it, no more and no less: if it was `fresh`
/// with `packets` replayed into it, then after one more job it is `fresh` with
/// that job's packet replayed behind them, whether it stays in the bank or is
/// sealed.
pub proof fn law_windows_hold_what_was_ingested(
    before: BankState,
    after: BankState,
    outcome: IngestOutcome,
    job: IngestJob<'_>,
    wall_samples: i64,
    fresh: crate::buffer::WindowState,
    packets: Seq<crate::buffer::Packet>,
)
    requires
        outcome_matches(outcome, before, after, job, wall_samples),
        before.windows.contains_key(job.ssrc),
        before.windows[job.ssrc] == fresh.replayed(packets),
    ensures
        outcome is Progress ==> after.windows[job.ssrc] == fresh.replayed(
            packets.push(job_packet(job, wall_samples)),
        ),
        outcome matches IngestOutcome::Sealed(window) ==> window@ == fresh.replayed(
            packets.push(job_packet(job, wall_samples)),
        ),
{
    let packet = job_packet(job, wall_samples);
    assert(packets.push(packet).drop_last() =~= packets);
    assert(packets.push(packet).last() == packet);
}

/// A window that captures no longer than its cycle is over when the next even
/// minute comes.
pub proof fn law_windows_end_with_their_cycle(
    w: crate::buffer::WindowState,
    capture_seconds: u32,
    now: Timestamp,
)
    requires
        capture_seconds <= crate::time::CYCLE_SECS,
        now.total_nanos() >= w.window_start.total_nanos() + crate::time::CYCLE_SECS
            * NANOS_PER_SEC,
    ensures
        is_expired(w, now, capture_seconds),
{
}

/// The SSRC that stands in bytes 8 to 11 of a datagram, most significant first.
pub open spec fn stated_ssrc(datagram: Seq<u8>) -> int {
    datagram[8] * 16_777_216 + datagram[9] * 65_536 + datagram[10] * 256 + datagram[11]
}

/// A window opened for a datagram is of the channel that the map describes under
/// the datagram's SSRC: it has that channel's dial frequency and sample rate, and
/// nothing has come into it yet.
pub proof fn law_opened_windows_are_of_their_channel(
    bank: BankState,
    datagram: Seq<u8>,
    channels: Map<u32, ChannelInfo>,
    now: Timestamp,
    ssrc: u32,
)
    requires
        bank.disposition(datagram, channels, now) is Open,
        ssrc == stated_ssrc(datagram),
    ensures
        ({
            let after = bank.accepted(datagram, channels, now);
            let w = after.windows[ssrc];
            &&& !bank.windows.contains_key(ssrc)
            &&& channels.contains_key(ssrc)
            &&& after.windows.contains_key(ssrc)
            &&& after.capture_seconds == bank.capture_seconds
            &&& after.ssrc_filter == bank.ssrc_filter
            &&& w.window_start == crate::time::boundary_of(now)
            &&& w.center_freq_bits == channels[ssrc].center_freq_bits
            &&& w.sample_rate_hz == channels[ssrc].sample_rate_hz
            &&& w.pcm.len() == channels[ssrc].sample_rate_hz * bank.capture_seconds
            &&& w.written == 0
            &&& w.last_seq is None
            &&& w.gap_count == 0
            &&& w.anchor is None
        }),
{
    crate::rtp::law_header_fields_stand_in_their_places(datagram);
    assert(0 <= channels[ssrc].sample_rate_hz * bank.capture_seconds) by (nonlinear_arith);
}

/// A window is over exactly when as many seconds as are to be captured, or more,
/// have passed since its start.
pub proof fn law_windows_expire_after_their_seconds(
    w: crate::buffer::WindowState,
    now: Timestamp,
    capture_seconds: u32,
)
    requires
        capture_seconds > 0,
    ensures
        is_expired(w, now, capture_seconds) <==> (now.secs - w.window_start.secs) * 1_000_000_000
            + now.nanos - w.window_start.nanos >= capture_seconds * 1_000_000_000,
{
}

/// What is done with a datagram.  It is dropped unless it is an RTP packet, of
/// the SSRC that the filter asks for, from a channel that is known, and is mono
/// with a sample rate and a frequency.  It goes on in the window of its SSRC
/// where there is one.  Otherwise one is opened, unless the seconds to capture
/// of the current cycle are over or the window would be too large.
pub proof fn law_what_is_done_with_a_datagram(
    bank: BankState,
    datagram: Seq<u8>,
    channels: Map<u32, ChannelInfo>,
    now: Timestamp,
    ssrc: u32,
)
    requires
        now.has_boundary(),
        datagram.len() >= 12 ==> ssrc == stated_ssrc(datagram),
    ensures
        ({
            let disposition = bank.disposition(datagram, channels, now);
            let packet = crate::rtp::is_rtp_packet(datagram);
            let wanted = packet && (bank.ssrc_filter is None || bank.ssrc_filter == Some(ssrc));
            let known = wanted && channels.contains_key(ssrc);
            let info = channels[ssrc];
            let ready = known && info.channels == 1 && info.sample_rate_hz >= 1 && 1
                <= info.center_freq_bits <= 0x7FF0_0000_0000_0000;
            let idle = ready && !bank.windows.contains_key(ssrc);
            let start = crate::time::boundary_of(now);
            let late = (now.secs - start.secs) * 1_000_000_000 + now.nanos >= bank.capture_seconds
                * 1_000_000_000;
            let fits = 2 * (info.sample_rate_hz * bank.capture_seconds) <= isize::MAX;
            &&& disposition is Malformed <==> !packet
            &&& disposition is Filtered <==> packet && !wanted
            &&& disposition is UnknownSsrc <==> wanted && !known
            &&& disposition is NotReady <==> known && !ready
            &&& disposition is Continue <==> ready && !idle
            &&& disposition is LateStart <==> idle && late
            &&& disposition is Oversize <==> idle && !late && !fits
            &&& disposition is Open <==> idle && !late && fits
        }),
{
    if datagram.len() >= 12 {
        crate::rtp::law_header_fields_stand_in_their_places(datagram);
    } else {
        assert(!crate::rtp::is_rtp_packet(datagram));
    }
    crate::time::law_boundary_is_the_even_minute_before(now);
    let elapsed = crate::time::elapsed(now, crate::time::boundary_of(now));
    let whole = elapsed / NANOS_PER_SEC as int;
    assert(whole * NANOS_PER_SEC <= elapsed < (whole + 1) * NANOS_PER_SEC);
    assert(cycle_secs(now) == whole);
    let cap = bank.capture_seconds as int;
    assert(whole >= cap <==> elapsed >= cap * 1_000_000_000);
}

/// The action for a datagram is of the kind that its disposition asks for, and
/// tells what the datagram and the channel say.
pub proof fn law_actions_tell_the_datagram(
    action: PacketAction<'_>,
    bank: BankState,
    datagram: Seq<u8>,
    channels: Map<u32, ChannelInfo>,
    now: Timestamp,
)
    requires
        now.has_boundary(),
        action_matches(action, bank, datagram, channels, now),
    ensures
        ({
            let disposition = bank.disposition(datagram, channels, now);
            &&& action is Malformed <==> disposition is Malformed
            &&& action is Filtered <==> disposition is Filtered
            &&& action is NotReady <==> disposition is NotReady
            &&& action is UnknownSsrc <==> disposition is UnknownSsrc
            &&& action is LateStart <==> disposition is LateStart
            &&& action is Oversize <==> disposition is Oversize
            &&& action is Ingest <==> disposition is Open || disposition is Continue
        }),
        match action {
            PacketAction::Malformed(e) => e == crate::rtp::rtp_error(datagram),
            PacketAction::Filtered => true,
            PacketAction::NotReady => true,
            PacketAction::UnknownSsrc { ssrc, payload_type } => ssrc == stated_ssrc(datagram)
                && payload_type == datagram[1] % 128,
            PacketAction::LateStart { ssrc, elapsed_secs } => {
                let start = crate::time::boundary_of(now);
                let passed = (now.secs - start.secs) * 1_000_000_000 + now.nanos;
                &&& ssrc == stated_ssrc(datagram)
                &&& elapsed_secs * 1_000_000_000 <= passed < (elapsed_secs + 1) * 1_000_000_000
            },
            PacketAction::Oversize { ssrc, sample_rate_hz } => ssrc == stated_ssrc(datagram)
                && sample_rate_hz == channels[ssrc].sample_rate_hz,
            PacketAction::Ingest(job) => {
                let info = channels[job.ssrc];
                &&& job.ssrc == stated_ssrc(datagram)
                &&& job.sequence == datagram[2] * 256 + datagram[3]
                &&& job.timestamp == datagram[4] * 16_777_216 + datagram[5] * 65_536 + datagram[6]
                    * 256 + datagram[7]
                &&& job.payload@ == datagram.skip(crate::rtp::payload_start(datagram))
                &&& job.encoding == info.encoding
                &&& job.sample_rate_hz == info.sample_rate_hz
                &&& job.center_freq_bits == info.center_freq_bits
                &&& job.opened <==> !bank.windows.contains_key(job.ssrc)
                &&& job.opened ==> job.window_start == crate::time::boundary_of(now)
                &&& !job.opened ==> job.window_start == bank.windows[job.ssrc].window_start
            },
        },
{
    if crate::rtp::is_rtp_packet(datagram) {
        crate::rtp::law_header_fields_stand_in_their_places(datagram);
    }
    crate::time::law_boundary_is_the_even_minute_before(now);
    let elapsed = crate::time::elapsed(now, crate::time::boundary_of(now));
    let whole = elapsed / NANOS_PER_SEC as int;
    assert(whole * NANOS_PER_SEC <= elapsed < (whole + 1) * NANOS_PER_SEC);
}

/// Only a window that is opened changes a bank, and it changes no other.
pub proof fn law_accepting_opens_at_most_one_window(
    bank: BankState,
    datagram: Seq<u8>,
    channels: Map<u32, ChannelInfo>,
    now: Timestamp,
    any: u32,
)
    ensures
        ({
            let opens = bank.disposition(datagram, channels, now) is Open && any == stated_ssrc(
                datagram,
            );
            let after = bank.accepted(datagram, channels, now);
            &&& after.windows.contains_key(any) <==> bank.windows.contains_key(any) || opens
            &&& bank.windows.contains_key(any) && !opens ==> after.windows[any] == bank.windows[any]
            &&& after.capture_seconds == bank.capture_seconds
            &&& after.ssrc_filter == bank.ssrc_filter
        }),
{
    if crate::rtp::is_rtp_packet(datagram) {
        crate::rtp::law_header_fields_stand_in_their_places(datagram);
    }
}

/// A job puts its own samples into its own window: samples of any number, in the
/// order of the job's encoding, stand behind one another from the place where
/// the packet belongs, and the window's progress is told.  Where they do not fit
/// the window is sealed with the samples it held.
pub proof fn law_jobs_put_their_samples_into_their_window(
    before: BankState,
    after: BankState,
    outcome: IngestOutcome,
    job: IngestJob<'_>,
    wall_samples: i64,
    samples: Seq<i16>,
    odd: Seq<u8>,
    offset: int,
)
    requires
        outcome_matches(outcome, before, after, job, wall_samples),
        before.windows.contains_key(job.ssrc),
        before.windows[job.ssrc].gap_count < u64::MAX,
        before.windows[job.ssrc].placement(job.timestamp, wall_samples) == Some(offset),
        odd.len() <= 1,
        job.payload@ == crate::buffer::written_payload(samples, job.encoding == 2) + odd,
        0 <= offset,
    ensures
        ({
            let w = before.windows[job.ssrc];
            let end = offset + samples.len();
            let now = after.windows[job.ssrc];
            if end > w.pcm.len() {
                &&& outcome matches IngestOutcome::Sealed(window)
                &&& window@.pcm == w.pcm
                &&& window@.written == w.written
                &&& window@.window_start == w.window_start
                &&& window@.center_freq_bits == w.center_freq_bits
                &&& window@.sample_rate_hz == w.sample_rate_hz
                &&& !after.windows.contains_key(job.ssrc)
            } else {
                &&& outcome matches IngestOutcome::Progress { written, capacity }
                &&& after.windows.contains_key(job.ssrc)
                &&& written == now.written
                &&& capacity == w.pcm.len()
                &&& now.written == if end > w.written {
                    end
                } else {
                    w.written
                }
                &&& now.last_seq == Some(job.sequence)
                &&& now.pcm.len() == w.pcm.len()
                &&& forall|k: int|
                    0 <= k < samples.len() ==> now.pcm[offset + k] == #[trigger] samples[k]
                &&& forall|i: int|
                    0 <= i < w.pcm.len() && !(offset <= i < end) ==> #[trigger] now.pcm[i]
                        == w.pcm[i]
                &&& now.window_start == w.window_start
                &&& now.center_freq_bits == w.center_freq_bits
                &&& now.sample_rate_hz == w.sample_rate_hz
            }
        }),
        forall|other: u32|
            other != job.ssrc ==> (#[trigger] after.windows.contains_key(other)
                <==> before.windows.contains_key(other)) && (before.windows.contains_key(other)
                ==> after.windows[other] == before.windows[other]),
{
    let w = before.windows[job.ssrc];
    let p = crate::buffer::Packet {
        payload: job.payload@,
        timestamp: job.timestamp,
        wall_samples,
        seq: job.sequence,
        encoding: job.encoding,
    };
    crate::buffer::law_samples_land_at_their_offset(w, p, samples, odd, offset);
    crate::buffer::law_gaps_are_breaks_of_sequence(w, p);
}

/// A job whose packet lies before the first one of its window changes no
/// samples; a job without a window changes nothing.
pub proof fn law_jobs_without_a_place_change_no_samples(
    before: BankState,
    after: BankState,
    outcome: IngestOutcome,
    job: IngestJob<'_>,
    wall_samples: i64,
)
    requires
        outcome_matches(outcome, before, after, job, wall_samples),
    ensures
        !before.windows.contains_key(job.ssrc) <==> outcome is NoWindow,
        outcome is NoWindow ==> after == before,
        outcome is GapCountFull ==> after == before && before.windows[job.ssrc].gap_count
            >= u64::MAX,
        ({
            let w = before.windows[job.ssrc];
            before.windows.contains_key(job.ssrc) && w.gap_count < u64::MAX && w.placement(
                job.timestamp,
                wall_samples,
            ) is None ==> {
                &&& outcome matches IngestOutcome::Progress { written, capacity }
                &&& written == w.written
                &&& capacity == w.pcm.len()
                &&& after.windows.contains_key(job.ssrc)
                &&& after.windows[job.ssrc].pcm == w.pcm
                &&& after.windows[job.ssrc].written == w.written
                &&& after.windows[job.ssrc].last_seq == Some(job.sequence)
            }
        }),
{
}

/// A tick takes exactly the windows that are over, and leaves the others as they
/// are.
pub proof fn law_ticks_take_what_is_over(bank: BankState, now: Timestamp, ssrc: u32)
    ensures
        ({
            let after = bank.ticked(now);
            let over = is_expired(bank.windows[ssrc], now, bank.capture_seconds);
            &&& after.windows.contains_key(ssrc) <==> bank.windows.contains_key(ssrc) && !over
            &&& after.windows.contains_key(ssrc) ==> after.windows[ssrc] == bank.windows[ssrc]
            &&& after.capture_seconds == bank.capture_seconds
            &&& after.ssrc_filter == bank.ssrc_filter
        }),
{
}

/// The state of a bank is what its fields say.
pub proof fn law_bank_state_is_what_the_fields_say(bank: WindowBank, ssrc: u32)
    ensures
        bank@.capture_seconds == bank.capture_seconds,
        bank@.ssrc_filter == bank.ssrc_filter,
        bank@.windows.contains_key(ssrc) <==> bank.windows@.contains_key(ssrc),
        bank.windows@.contains_key(ssrc) ==> bank@.windows[ssrc] == bank.windows@[ssrc]@,
{
}

/// The SSRCs of sealed windows are those that the windows came with.
pub proof fn law_sealed_ssrcs_are_those_of_the_windows(sealed: Seq<(u32, AudioWindow)>, i: int)
    ensures
        sealed_ssrcs(sealed).len() == sealed.len(),
        0 <= i < sealed.len() ==> sealed_ssrcs(sealed)[i] == sealed[i].0,
{
}

} // verus!
