//! Runs of events: what becomes of a capture window from the moment it opens
//! until it is sealed.
//!
//! A [`WindowBank`](crate::capture::WindowBank) meets two kinds of events, the
//! datagrams of the data stream and the ticks of a clock.

use crate::buffer::{Packet, WindowState};
use crate::capture::{BankState, IngestJob, IngestOutcome, PacketAction};
use crate::status::ChannelInfo;
use crate::time::Timestamp;
use vstd::prelude::*;

verus! {

/// Something that happens to a bank of windows.
pub enum BankEvent {
    /// The clock shows `now`, and expired windows are taken out.
    Tick { now: Timestamp },
    /// A datagram arrives at `now`, with `channels` as the status stream has
    /// described them, `wall_samples` after the start of its window.
    Datagram {
        bytes: Seq<u8>,
        channels: Map<u32, ChannelInfo>,
        now: Timestamp,
        wall_samples: i64,
    },
}

/// The packet that a datagram brings to the window of its SSRC.
pub open spec fn datagram_packet(
    bytes: Seq<u8>,
    channels: Map<u32, ChannelInfo>,
    wall_samples: i64,
) -> Packet {
    let header = crate::rtp::header_of(bytes);
    Packet {
        payload: bytes.skip(crate::rtp::payload_start(bytes)),
        timestamp: header.timestamp,
        wall_samples,
        seq: header.sequence,
        encoding: channels[header.ssrc].encoding,
    }
}

impl BankState {
    /// The bank after `p` was put into the window of `ssrc`: a packet beyond the
    /// end of the window seals it, and one for which the gap counter has no room
    /// is not taken.
    pub open spec fn fed(self, ssrc: u32, p: Packet) -> BankState {
        let w = self.windows[ssrc];
        if !self.windows.contains_key(ssrc) || w.after(p).gap_count > u64::MAX {
            self
        } else if w.overflows(p.payload.len(), p.timestamp, p.wall_samples) {
            self.without(ssrc)
        } else {
            self.with(ssrc, w.after(p))
        }
    }

    /// Whether a datagram goes into a window, opened for it or open already.
    pub open spec fn captures(
        self,
        bytes: Seq<u8>,
        channels: Map<u32, ChannelInfo>,
        now: Timestamp,
    ) -> bool {
        let disposition = self.disposition(bytes, channels, now);
        disposition is Open || disposition is Continue
    }

    /// The bank after an event.
    pub open spec fn after_event(self, e: BankEvent) -> BankState {
        match e {
            BankEvent::Tick { now } => self.ticked(now),
            BankEvent::Datagram { bytes, channels, now, wall_samples } => {
                if self.captures(bytes, channels, now) {
                    self.accepted(bytes, channels, now).fed(
                        crate::rtp::header_of(bytes).ssrc,
                        datagram_packet(bytes, channels, wall_samples),
                    )
                } else {
                    self
                }
            },
        }
    }

    /// The window of `ssrc` that an event seals, as it leaves the bank.
    pub open spec fn sealed_by(self, e: BankEvent, ssrc: u32) -> Option<WindowState> {
        match e {
            BankEvent::Tick { now } => {
                if self.windows.contains_key(ssrc) && crate::capture::is_expired(
                    self.windows[ssrc],
                    now,
                    self.capture_seconds,
                ) {
                    Some(self.windows[ssrc])
                } else {
                    None
                }
            },
            BankEvent::Datagram { bytes, channels, now, wall_samples } => {
                let p = datagram_packet(bytes, channels, wall_samples);
                let w = self.accepted(bytes, channels, now).windows[ssrc];
                if ssrc == crate::rtp::header_of(bytes).ssrc && self.captures(bytes, channels, now)
                    && w.after(p).gap_count <= u64::MAX && w.overflows(
                    p.payload.len(),
                    p.timestamp,
                    p.wall_samples,
                ) {
                    Some(w.after(p))
                } else {
                    None
                }
            },
        }
    }

    /// Whether an event opens a window for `ssrc`.
    pub open spec fn opened_by(self, e: BankEvent, ssrc: u32) -> bool {
        match e {
            BankEvent::Tick { .. } => false,
            BankEvent::Datagram { bytes, channels, now, .. } => {
                ssrc == crate::rtp::header_of(bytes).ssrc && self.disposition(
                    bytes,
                    channels,
                    now,
                ) is Open
            },
        }
    }

    /// The bank after a run of events.
    pub open spec fn ran(self, events: Seq<BankEvent>) -> BankState
        decreases events.len(),
    {
        if events.len() == 0 {
            self
        } else {
            self.ran(events.drop_last()).after_event(events.last())
        }
    }

    /// How many windows of `ssrc` a run seals.
    pub open spec fn sealed_count(self, events: Seq<BankEvent>, ssrc: u32) -> int
        decreases events.len(),
    {
        if events.len() == 0 {
            0
        } else {
            let head = events.drop_last();
            self.sealed_count(head, ssrc) + (if self.ran(head).sealed_by(
                events.last(),
                ssrc,
            ) is Some {
                1int
            } else {
                0
            })
        }
    }

    /// How many windows a run opens for `ssrc`.
    pub open spec fn opened_count(self, events: Seq<BankEvent>, ssrc: u32) -> int
        decreases events.len(),
    {
        if events.len() == 0 {
            0
        } else {
            let head = events.drop_last();
            self.opened_count(head, ssrc) + (if self.ran(head).opened_by(events.last(), ssrc) {
                1int
            } else {
                0
            })
        }
    }

    /// How many windows of `ssrc` are open: one or none.
    pub open spec fn open_count(self, ssrc: u32) -> int {
        if self.windows.contains_key(ssrc) {
            1
        } else {
            0
        }
    }
}

/// Whether an event brings a packet to an open window of `ssrc`: an RTP packet
/// of that SSRC which passes the filter, from a ready mono channel.
pub open spec fn feeds(ssrc_filter: Option<u32>, e: BankEvent, ssrc: u32) -> bool {
    match e {
        BankEvent::Tick { .. } => false,
        BankEvent::Datagram { bytes, channels, .. } => {
            &&& crate::rtp::is_rtp_packet(bytes)
            &&& crate::rtp::header_of(bytes).ssrc == ssrc
            &&& ssrc_filter matches Some(wanted) ==> ssrc == wanted
            &&& channels.contains_key(ssrc)
            &&& channels[ssrc].audio_ready()
        },
    }
}

/// The packet that an event which feeds a window brings.
pub open spec fn event_packet(e: BankEvent) -> Packet
    recommends
        e is Datagram,
{
    datagram_packet(e->bytes, e->channels, e->wall_samples)
}

/// The packets that a run brings to an open window of `ssrc`, in order.
pub open spec fn fed_packets(
    ssrc_filter: Option<u32>,
    events: Seq<BankEvent>,
    ssrc: u32,
) -> Seq<Packet>
    decreases events.len(),
{
    if events.len() == 0 {
        Seq::empty()
    } else {
        let before = fed_packets(ssrc_filter, events.drop_last(), ssrc);
        if feeds(ssrc_filter, events.last(), ssrc) {
            before.push(event_packet(events.last()))
        } else {
            before
        }
    }
}

/// Whether an event is the end of the window `w` of `ssrc`: a tick when its
/// capture time is over, or a packet that does not fit into it.
pub open spec fn ends_window(
    w: WindowState,
    capture_seconds: u32,
    ssrc_filter: Option<u32>,
    e: BankEvent,
    ssrc: u32,
) -> bool {
    match e {
        BankEvent::Tick { now } => crate::capture::is_expired(w, now, capture_seconds),
        BankEvent::Datagram { .. } => feeds(ssrc_filter, e, ssrc) && w.overflows(
            event_packet(e).payload.len(),
            event_packet(e).timestamp,
            event_packet(e).wall_samples,
        ),
    }
}

/// Whether the gap counter of the window `w` of `ssrc` has room for what an event
/// adds to it.
pub open spec fn has_room(w: WindowState, ssrc_filter: Option<u32>, e: BankEvent, ssrc: u32) -> bool {
    feeds(ssrc_filter, e, ssrc) ==> w.after(event_packet(e)).gap_count <= u64::MAX
}

/// Events leave the settings of a bank as they are.
proof fn lemma_settings_stay(bank: BankState, events: Seq<BankEvent>)
    ensures
        bank.ran(events).capture_seconds == bank.capture_seconds,
        bank.ran(events).ssrc_filter == bank.ssrc_filter,
    decreases events.len(),
{
    if events.len() > 0 {
        lemma_settings_stay(bank, events.drop_last());
    }
}

/// One event and an open window: an event that is not the window's end leaves it
/// in the bank, with its packet if it brings one; the window's end takes it out,
/// with the samples it held.
pub proof fn law_event_ends_or_feeds_the_window(bank: BankState, e: BankEvent, ssrc: u32)
    requires
        bank.windows.contains_key(ssrc),
        has_room(bank.windows[ssrc], bank.ssrc_filter, e, ssrc),
    ensures
        ({
            let w = bank.windows[ssrc];
            let fed = if feeds(bank.ssrc_filter, e, ssrc) {
                w.after(event_packet(e))
            } else {
                w
            };
            let after = bank.after_event(e);
            if ends_window(w, bank.capture_seconds, bank.ssrc_filter, e, ssrc) {
                &&& bank.sealed_by(e, ssrc) == Some(fed)
                &&& fed.pcm == w.pcm
                &&& fed.written == w.written
                &&& !after.windows.contains_key(ssrc)
            } else {
                &&& bank.sealed_by(e, ssrc) is None
                &&& after.windows.contains_key(ssrc)
                &&& after.windows[ssrc] == fed
            }
        }),
{
}

/// An open window stays until its end: as long as no event of a run ends it, it
/// is in the bank and holds what it held, with the packets of the run replayed
/// into it, and the run seals no window of that SSRC.  Left out are runs in which
/// the gap counter overflows.
pub proof fn law_windows_stay_until_their_end(bank: BankState, events: Seq<BankEvent>, ssrc: u32)
    requires
        bank.windows.contains_key(ssrc),
        forall|j: int|
            0 <= j < events.len() ==> has_room(
                bank.windows[ssrc].replayed(fed_packets(bank.ssrc_filter, events.take(j), ssrc)),
                bank.ssrc_filter,
                #[trigger] events[j],
                ssrc,
            ),
        forall|j: int|
            0 <= j < events.len() ==> !ends_window(
                bank.windows[ssrc].replayed(fed_packets(bank.ssrc_filter, events.take(j), ssrc)),
                bank.capture_seconds,
                bank.ssrc_filter,
                #[trigger] events[j],
                ssrc,
            ),
    ensures
        bank.ran(events).windows.contains_key(ssrc),
        bank.ran(events).windows[ssrc] == bank.windows[ssrc].replayed(
            fed_packets(bank.ssrc_filter, events, ssrc),
        ),
        bank.sealed_count(events, ssrc) == 0,
        bank.opened_count(events, ssrc) == 0,
    decreases events.len(),
{
    if events.len() > 0 {
        let head = events.drop_last();
        let last = events.last();
        let w = bank.windows[ssrc];
        let packets = fed_packets(bank.ssrc_filter, head, ssrc);
        assert forall|j: int| 0 <= j < head.len() implies has_room(
            w.replayed(fed_packets(bank.ssrc_filter, head.take(j), ssrc)),
            bank.ssrc_filter,
            #[trigger] head[j],
            ssrc,
        ) by {
            assert(head.take(j) =~= events.take(j));
            assert(head[j] == events[j]);
        }
        assert forall|j: int| 0 <= j < head.len() implies !ends_window(
            w.replayed(fed_packets(bank.ssrc_filter, head.take(j), ssrc)),
            bank.capture_seconds,
            bank.ssrc_filter,
            #[trigger] head[j],
            ssrc,
        ) by {
            assert(head.take(j) =~= events.take(j));
            assert(head[j] == events[j]);
        }
        law_windows_stay_until_their_end(bank, head, ssrc);
        lemma_settings_stay(bank, head);
        assert(events.take(events.len() - 1) =~= head);
        assert(events[events.len() - 1] == last);
        law_event_ends_or_feeds_the_window(bank.ran(head), last, ssrc);
        if feeds(bank.ssrc_filter, last, ssrc) {
            assert(packets.push(event_packet(last)).drop_last() =~= packets);
        }
    }
}

/// An open window leaves at its first end, the earlier of the first tick when
/// its capture time is over and the first packet that does not fit: it is sealed
/// then, and not before, with every sample that the run brought it until then.
/// Left out are runs in which the gap counter overflows.
pub proof fn law_windows_leave_at_their_first_end(
    bank: BankState,
    events: Seq<BankEvent>,
    end: BankEvent,
    ssrc: u32,
)
    requires
        bank.windows.contains_key(ssrc),
        forall|j: int|
            0 <= j < events.len() ==> has_room(
                bank.windows[ssrc].replayed(fed_packets(bank.ssrc_filter, events.take(j), ssrc)),
                bank.ssrc_filter,
                #[trigger] events[j],
                ssrc,
            ),
        forall|j: int|
            0 <= j < events.len() ==> !ends_window(
                bank.windows[ssrc].replayed(fed_packets(bank.ssrc_filter, events.take(j), ssrc)),
                bank.capture_seconds,
                bank.ssrc_filter,
                #[trigger] events[j],
                ssrc,
            ),
        has_room(
            bank.windows[ssrc].replayed(fed_packets(bank.ssrc_filter, events, ssrc)),
            bank.ssrc_filter,
            end,
            ssrc,
        ),
        ends_window(
            bank.windows[ssrc].replayed(fed_packets(bank.ssrc_filter, events, ssrc)),
            bank.capture_seconds,
            bank.ssrc_filter,
            end,
            ssrc,
        ),
    ensures
        ({
            let w = bank.windows[ssrc].replayed(fed_packets(bank.ssrc_filter, events, ssrc));
            let sealed = bank.ran(events).sealed_by(end, ssrc);
            &&& sealed is Some
            &&& sealed->0.window_start == w.window_start
            &&& sealed->0.pcm == w.pcm
            &&& sealed->0.written == w.written
            &&& end is Tick ==> sealed->0 == w
            &&& bank.sealed_count(events, ssrc) == 0
            &&& bank.sealed_count(events.push(end), ssrc) == 1
            &&& !bank.ran(events.push(end)).windows.contains_key(ssrc)
        }),
{
    law_windows_stay_until_their_end(bank, events, ssrc);
    lemma_settings_stay(bank, events);
    law_event_ends_or_feeds_the_window(bank.ran(events), end, ssrc);
    assert(events.push(end).drop_last() =~= events);
    assert(events.push(end).last() == end);
}

/// Windows are neither lost nor doubled: over any run, each window of an SSRC
/// that was open or is opened leaves exactly once, or is open still.
pub proof fn law_windows_leave_exactly_once(bank: BankState, events: Seq<BankEvent>, ssrc: u32)
    ensures
        bank.sealed_count(events, ssrc) + bank.ran(events).open_count(ssrc) == bank.open_count(ssrc)
            + bank.opened_count(events, ssrc),
    decreases events.len(),
{
    if events.len() > 0 {
        law_windows_leave_exactly_once(bank, events.drop_last(), ssrc);
    }
}

/// An event touches no other windows: a datagram none but that of its own SSRC,
/// a tick none whose capture time is not over.
pub proof fn law_events_touch_no_other_window(bank: BankState, e: BankEvent, other: u32)
    requires
        match e {
            BankEvent::Tick { now } => bank.windows.contains_key(other)
                ==> !crate::capture::is_expired(bank.windows[other], now, bank.capture_seconds),
            BankEvent::Datagram { bytes, .. } => crate::rtp::header_of(bytes).ssrc != other,
        },
    ensures
        bank.after_event(e).windows.contains_key(other) == bank.windows.contains_key(other),
        bank.windows.contains_key(other) ==> bank.after_event(e).windows[other]
            == bank.windows[other],
        bank.sealed_by(e, other) is None,
        !bank.opened_by(e, other),
{
}

/// Accepting a datagram and ingesting the packet it holds is one event: the bank
/// is the one after that event, and a window comes out exactly when the event
/// seals it.
pub proof fn law_accept_and_ingest_are_one_event(
    before: BankState,
    after: BankState,
    bytes: Seq<u8>,
    channels: Map<u32, ChannelInfo>,
    now: Timestamp,
    wall_samples: i64,
    job: IngestJob<'_>,
    outcome: IngestOutcome,
)
    requires
        crate::capture::action_matches(PacketAction::Ingest(job), before, bytes, channels, now),
        crate::capture::outcome_matches(
            outcome,
            before.accepted(bytes, channels, now),
            after,
            job,
            wall_samples,
        ),
    ensures
        ({
            let e = BankEvent::Datagram { bytes, channels, now, wall_samples };
            &&& after == before.after_event(e)
            &&& job.opened == before.opened_by(e, job.ssrc)
            &&& match outcome {
                IngestOutcome::Sealed(window) => before.sealed_by(e, job.ssrc) == Some(window@),
                _ => before.sealed_by(e, job.ssrc) is None,
            }
        }),
{
}

/// A datagram that is dropped changes nothing and seals nothing.
pub proof fn law_dropped_datagrams_change_nothing(
    bank: BankState,
    bytes: Seq<u8>,
    channels: Map<u32, ChannelInfo>,
    now: Timestamp,
    wall_samples: i64,
    ssrc: u32,
)
    requires
        !bank.captures(bytes, channels, now),
    ensures
        ({
            let e = BankEvent::Datagram { bytes, channels, now, wall_samples };
            &&& bank.accepted(bytes, channels, now) == bank
            &&& bank.after_event(e) == bank
            &&& bank.sealed_by(e, ssrc) is None
        }),
{
}

/// Whatever happens to an open window, it is of its channel until it leaves: an
/// event keeps its start, dial frequency, sample rate and size, whether the
/// window stays or is sealed.
pub proof fn law_windows_stay_of_their_channel(bank: BankState, e: BankEvent, ssrc: u32)
    requires
        bank.windows.contains_key(ssrc),
    ensures
        ({
            let w = bank.windows[ssrc];
            let after = bank.after_event(e).windows;
            let sealed = bank.sealed_by(e, ssrc);
            &&& after.contains_key(ssrc) <==> sealed is None
            &&& after.contains_key(ssrc) ==> {
                &&& after[ssrc].window_start == w.window_start
                &&& after[ssrc].center_freq_bits == w.center_freq_bits
                &&& after[ssrc].sample_rate_hz == w.sample_rate_hz
                &&& after[ssrc].pcm.len() == w.pcm.len()
            }
            &&& sealed matches Some(x) ==> {
                &&& x.window_start == w.window_start
                &&& x.center_freq_bits == w.center_freq_bits
                &&& x.sample_rate_hz == w.sample_rate_hz
                &&& x.pcm.len() == w.pcm.len()
            }
        }),
{
}

/// A window that an event opens is of the channel that the map describes at that
/// moment, whether it stays or is sealed by the same event.
pub proof fn law_windows_open_of_their_channel(
    bank: BankState,
    bytes: Seq<u8>,
    channels: Map<u32, ChannelInfo>,
    now: Timestamp,
    wall_samples: i64,
    ssrc: u32,
)
    requires
        bank.opened_by(BankEvent::Datagram { bytes, channels, now, wall_samples }, ssrc),
    ensures
        ({
            let e = BankEvent::Datagram { bytes, channels, now, wall_samples };
            let info = channels[ssrc];
            let after = bank.after_event(e).windows;
            &&& after.contains_key(ssrc) ==> {
                &&& after[ssrc].window_start == crate::time::boundary_of(now)
                &&& after[ssrc].center_freq_bits == info.center_freq_bits
                &&& after[ssrc].sample_rate_hz == info.sample_rate_hz
            }
            &&& bank.sealed_by(e, ssrc) matches Some(x) ==> {
                &&& x.window_start == crate::time::boundary_of(now)
                &&& x.center_freq_bits == info.center_freq_bits
                &&& x.sample_rate_hz == info.sample_rate_hz
            }
        }),
{
}

} // verus!
