//! Mono audio buffering with 2-minute WSPR window alignment.
//!
//! [`AudioWindow`] holds pre-allocated mono PCM samples for one capture window.
//! Gaps (missing RTP sequence numbers) stay pre-zeroed silence, which `wsprd`
//! handles correctly.

use vstd::prelude::*;

use crate::error::WsprError;
use crate::status::ENC_S16BE;
use crate::time::Timestamp;

verus! {

/// RTP timestamps count modulo this many ticks.
pub const RTP_WRAP: i64 = 0x1_0000_0000;

/// Half the RTP timestamp range: a backwards jump of more than this is taken
/// for a forward wrap.
pub const RTP_HALF: i64 = 0x8000_0000;

/// One mono audio capture window for a single SSRC.
#[derive(Debug)]
pub struct AudioWindow {
    /// UTC start of this window, an even minute.
    pub window_start: Timestamp,
    /// Dial frequency in Hz, as the bit pattern of an IEEE 754 double.
    pub center_freq_bits: u64,
    /// Sample rate in Hz, from the status stream.
    pub sample_rate_hz: u32,
    /// PCM storage of `capacity_samples` values.
    pub samples: Vec<i16>,
    /// Number of samples written so far (high-water mark).
    pub samples_written: usize,
    /// Total sample capacity: sample rate times capture seconds.
    pub capacity_samples: usize,
    /// Last RTP sequence number seen, used for gap detection.
    pub last_seq: Option<u16>,
    /// Number of sequence gaps detected.
    pub gap_count: u64,
    /// RTP timestamp of the first packet; all later offsets are relative to it,
    /// so the epoch of the sender's clock does not matter.
    pub rtp_base: Option<u32>,
    /// Sample index at which the first packet was placed.
    pub start_offset: usize,
}

/// How the sender's RTP clock was tied to the window: the packet with timestamp
/// `rtp_base` starts at sample `offset`.
pub struct Anchor {
    pub rtp_base: u32,
    pub offset: int,
}

/// What a window holds, as mathematical values.
#[verifier::ext_equal]
pub struct WindowState {
    pub window_start: Timestamp,
    pub center_freq_bits: u64,
    pub sample_rate_hz: u32,
    pub pcm: Seq<i16>,
    pub written: int,
    pub last_seq: Option<u16>,
    pub gap_count: int,
    pub anchor: Option<Anchor>,
}

/// Whether the samples of a window fit in one allocation.
pub open spec fn window_fits_spec(sample_rate_hz: u32, capture_seconds: u32) -> bool {
    sample_rate_hz * capture_seconds * 2 <= isize::MAX
}

/// Whether a window of this rate and length can be allocated at all.
pub fn window_fits(sample_rate_hz: u32, capture_seconds: u32) -> (r: bool)
    ensures
        r == window_fits_spec(sample_rate_hz, capture_seconds),
{
    proof {
        assert(sample_rate_hz * capture_seconds <= 0xffff_ffff * 0xffff_ffff) by (nonlinear_arith);
    }
    sample_rate_hz as u128 * capture_seconds as u128 * 2 <= isize::MAX as u128
}

/// The signed 16-bit value of the number `v` read as two's complement.
pub open spec fn signed16(v: int) -> i16 {
    (if v < 0x8000 { v } else { v - 0x1_0000 }) as i16
}

/// The sample that the bytes `first`, `second` encode.
pub open spec fn sample_value(encoding: u8, first: u8, second: u8) -> i16 {
    if encoding == ENC_S16BE {
        signed16(first * 256 + second)
    } else {
        signed16(second * 256 + first)
    }
}

/// The samples in `payload`, two bytes each; an odd last byte is no sample.
pub open spec fn payload_samples(payload: Seq<u8>, encoding: u8) -> Seq<i16> {
    Seq::new(
        payload.len() / 2,
        |i: int| sample_value(encoding, payload[2 * i], payload[2 * i + 1]),
    )
}

/// `pcm` with `values` written over the positions from `offset` on.
pub open spec fn overwritten(pcm: Seq<i16>, offset: int, values: Seq<i16>) -> Seq<i16> {
    Seq::new(
        pcm.len(),
        |i: int|
            if offset <= i < offset + values.len() {
                values[i - offset]
            } else {
                pcm[i]
            },
    )
}

/// `wall_samples` brought into the range of valid sample indices.
pub open spec fn anchor_offset(capacity: int, wall_samples: int) -> int {
    if wall_samples < 0 || capacity == 0 {
        0
    } else if wall_samples < capacity {
        wall_samples
    } else {
        capacity - 1
    }
}

/// Ticks from `base` to `timestamp`, where a backwards jump of more than half
/// the 32-bit range counts as a forward wrap.
pub open spec fn displacement(base: u32, timestamp: u32) -> int {
    if timestamp - base < -RTP_HALF {
        timestamp - base + RTP_WRAP
    } else {
        timestamp - base
    }
}

/// The sequence number after `seq`.
pub open spec fn next_seq(seq: u16) -> u16 {
    if seq == u16::MAX {
        0
    } else {
        (seq + 1) as u16
    }
}

impl WindowState {
    /// Total sample capacity.
    pub open spec fn capacity(self) -> int {
        self.pcm.len() as int
    }

    /// The window after noting a packet's sequence number and, for the first
    /// packet, anchoring the RTP clock; no samples are written.
    pub open spec fn noted(self, timestamp: u32, wall_samples: i64, seq: u16) -> WindowState {
        WindowState {
            last_seq: Some(seq),
            gap_count: match self.last_seq {
                Some(last) if seq != next_seq(last) => self.gap_count + 1,
                _ => self.gap_count,
            },
            anchor: match self.anchor {
                Some(anchor) => Some(anchor),
                None => Some(
                    Anchor {
                        rtp_base: timestamp,
                        offset: anchor_offset(self.capacity(), wall_samples as int),
                    },
                ),
            },
            ..self
        }
    }

    /// The sample index at which a packet belongs; `None` for a packet that
    /// lies before the anchor.
    pub open spec fn placement(self, timestamp: u32, wall_samples: i64) -> Option<int> {
        match self.anchor {
            None => Some(anchor_offset(self.capacity(), wall_samples as int)),
            Some(anchor) => {
                let delta = displacement(anchor.rtp_base, timestamp);
                if delta < 0 {
                    None
                } else {
                    Some(anchor.offset + delta)
                }
            },
        }
    }

    /// Whether a packet of `payload_len` bytes would end beyond the window.
    pub open spec fn overflows(
        self,
        payload_len: nat,
        timestamp: u32,
        wall_samples: i64,
    ) -> bool {
        self.placement(timestamp, wall_samples) matches Some(offset) && offset + payload_len / 2
            > self.capacity()
    }

    /// The window after a packet.
    pub open spec fn ingested(
        self,
        payload: Seq<u8>,
        timestamp: u32,
        wall_samples: i64,
        seq: u16,
        encoding: u8,
    ) -> WindowState {
        let noted = self.noted(timestamp, wall_samples, seq);
        match self.placement(timestamp, wall_samples) {
            Some(offset) if !self.overflows(payload.len(), timestamp, wall_samples) => {
                let end = offset + payload.len() / 2;
                WindowState {
                    pcm: overwritten(self.pcm, offset, payload_samples(payload, encoding)),
                    written: if self.written < end {
                        end
                    } else {
                        self.written
                    },
                    ..noted
                }
            },
            _ => noted,
        }
    }
}

impl View for AudioWindow {
    type V = WindowState;

    open spec fn view(&self) -> WindowState {
        WindowState {
            window_start: self.window_start,
            center_freq_bits: self.center_freq_bits,
            sample_rate_hz: self.sample_rate_hz,
            pcm: self.samples@,
            written: self.samples_written as int,
            last_seq: self.last_seq,
            gap_count: self.gap_count as int,
            anchor: self.anchor(),
        }
    }
}

impl AudioWindow {
    /// The RTP anchor, once there was a packet.
    pub open spec fn anchor(&self) -> Option<Anchor> {
        match self.rtp_base {
            Some(rtp_base) => Some(Anchor { rtp_base, offset: self.start_offset as int }),
            None => None,
        }
    }

    /// What every constructor establishes and every method keeps.
    pub open spec fn wf(&self) -> bool {
        &&& self.samples@.len() == self.capacity_samples
        &&& self.capacity_samples * 2 <= isize::MAX
        &&& self.samples_written <= self.capacity_samples
        &&& self.anchor() matches Some(anchor) ==> 0 <= anchor.offset <= anchor_offset(
            self.capacity_samples as int,
            self.capacity_samples as int,
        )
    }

    /// Allocates a silent window that starts at `window_start`.
    pub fn new(
        window_start: Timestamp,
        center_freq_bits: u64,
        sample_rate_hz: u32,
        capture_seconds: u32,
    ) -> (r: AudioWindow)
        requires
            window_fits_spec(sample_rate_hz, capture_seconds),
        ensures
            r.wf(),
            r.capacity_samples == sample_rate_hz * capture_seconds,
            r@ == (WindowState {
                window_start,
                center_freq_bits,
                sample_rate_hz,
                pcm: Seq::new((sample_rate_hz * capture_seconds) as nat, |i: int| 0i16),
                written: 0,
                last_seq: None,
                gap_count: 0,
                anchor: None,
            }),
    {
        proof {
            assert(0 <= sample_rate_hz * capture_seconds) by (nonlinear_arith);
        }
        let capacity: usize = sample_rate_hz as usize * capture_seconds as usize;
        let samples: Vec<i16> = vec![0i16; capacity];
        let r = AudioWindow {
            window_start,
            center_freq_bits,
            sample_rate_hz,
            samples,
            samples_written: 0,
            capacity_samples: capacity,
            last_seq: None,
            gap_count: 0,
            rtp_base: None,
            start_offset: 0,
        };
        assert(r@.pcm =~= Seq::new((sample_rate_hz * capture_seconds) as nat, |i: int| 0i16));
        r
    }

    /// Whether the gap counter has room for what a packet with this sequence
    /// number adds to it.
    pub fn can_count(&self, rtp_seq: u16) -> (r: bool)
        ensures
            r == (self@.noted(0, 0, rtp_seq).gap_count <= u64::MAX),
    {
        match self.last_seq {
            Some(last) => self.gap_count < u64::MAX || rtp_seq == last.wrapping_add(1),
            None => true,
        }
    }

    /// Ingests the mono PCM bytes of one RTP packet.
    ///
    /// The first packet is placed at `wall_samples`, the wall-clock time since
    /// `window_start` in samples, brought into the window's range.  Every later
    /// packet is placed relative to the first by the difference of their RTP
    /// timestamps; one that lies before the first is discarded.  Positions for
    /// which no packet arrives stay silent.
    ///
    /// # Errors
    ///
    /// [`WsprError::BufferOverflow`] if the samples would end beyond the
    /// window's capacity; none of them is written then.
    pub fn ingest(
        &mut self,
        payload: &[u8],
        rtp_timestamp: u32,
        wall_samples: i64,
        rtp_seq: u16,
        ssrc: u32,
        encoding: u8,
    ) -> (r: Result<(), WsprError>)
        requires
            old(self).wf(),
            old(self)@.noted(rtp_timestamp, wall_samples, rtp_seq).gap_count <= u64::MAX,
        ensures
            final(self).wf(),
            final(self).capacity_samples == old(self).capacity_samples,
            final(self)@ == old(self)@.ingested(
                payload@,
                rtp_timestamp,
                wall_samples,
                rtp_seq,
                encoding,
            ),
            r is Err <==> old(self)@.overflows(payload@.len(), rtp_timestamp, wall_samples),
            r matches Err(e) ==> e == (WsprError::BufferOverflow { ssrc }),
    {
        let ghost before = self@;
        if let Some(last) = self.last_seq {
            let expected: u16 = last.wrapping_add(1);
            if rtp_seq != expected {
                self.gap_count = self.gap_count + 1;
            }
        }
        self.last_seq = Some(rtp_seq);

        let offset: usize = match self.rtp_base {
            None => {
                let last_index: usize = if self.capacity_samples == 0 {
                    0
                } else {
                    self.capacity_samples - 1
                };
                let wall_offset: usize = if wall_samples < 0 {
                    0
                } else if wall_samples as u64 > last_index as u64 {
                    last_index
                } else {
                    wall_samples as usize
                };
                self.rtp_base = Some(rtp_timestamp);
                self.start_offset = wall_offset;
                wall_offset
            },
            Some(base) => {
                let mut delta: i64 = rtp_timestamp as i64 - base as i64;
                if delta < -RTP_HALF {
                    delta = delta + RTP_WRAP;
                }
                if delta < 0 {
                    // Reordered or duplicated packet from before the anchor.
                    return Ok(());
                }
                if delta as u64 > (self.capacity_samples - self.start_offset) as u64 {
                    return Err(WsprError::BufferOverflow { ssrc });
                }
                self.start_offset + delta as usize
            },
        };
        assert(self@ == before.noted(rtp_timestamp, wall_samples, rtp_seq));

        let n_samples: usize = payload.len() / 2;
        if n_samples > self.capacity_samples - offset {
            return Err(WsprError::BufferOverflow { ssrc });
        }
        let ghost values = payload_samples(payload@, encoding);
        let ghost noted = self@;
        let mut i: usize = 0;
        while i < n_samples
            invariant
                i <= n_samples,
                n_samples == payload@.len() / 2,
                values == payload_samples(payload@, encoding),
                self.wf(),
                offset + n_samples <= self.capacity_samples,
                self.capacity_samples == old(self).capacity_samples,
                self@ == (WindowState {
                    pcm: overwritten(noted.pcm, offset as int, values.take(i as int)),
                    ..noted
                }),
                noted.pcm.len() == self.capacity_samples,
            decreases n_samples - i,
        {
            let value: i16 = decode_sample(encoding, payload[2 * i], payload[2 * i + 1]);
            self.samples.set(offset + i, value);
            i += 1;
            assert(self@.pcm =~= overwritten(noted.pcm, offset as int, values.take(i as int)));
        }
        assert(values.take(i as int) =~= values);

        if self.samples_written < offset + n_samples {
            self.samples_written = offset + n_samples;
        }
        Ok(())
    }

    /// The buffered PCM samples, always `capacity_samples` of them; positions
    /// not yet written hold silence.
    pub fn samples(&self) -> (r: &[i16])
        ensures
            r@ == self@.pcm,
    {
        self.samples.as_slice()
    }

    /// The filled fraction of the window, as numerator and denominator.
    pub fn fill_fraction(&self) -> (r: (usize, usize))
        requires
            self.wf(),
        ensures
            r.0 == self@.written,
            r.1 == self@.capacity(),
            r.0 <= r.1,
    {
        (self.samples_written, self.capacity_samples)
    }
}

/// Decodes one 16-bit sample: big-endian for [`ENC_S16BE`], else little-endian.
fn decode_sample(encoding: u8, first: u8, second: u8) -> (r: i16)
    ensures
        r == sample_value(encoding, first, second),
{
    let v: i32 = if encoding == ENC_S16BE {
        first as i32 * 256 + second as i32
    } else {
        second as i32 * 256 + first as i32
    };
    if v < 0x8000 {
        v as i16
    } else {
        (v - 0x1_0000) as i16
    }
}

/// A packet as a window sees it.
pub struct Packet {
    pub payload: Seq<u8>,
    pub timestamp: u32,
    pub wall_samples: i64,
    pub seq: u16,
    pub encoding: u8,
}

impl WindowState {
    /// The window after one packet.
    pub open spec fn after(self, p: Packet) -> WindowState {
        self.ingested(p.payload, p.timestamp, p.wall_samples, p.seq, p.encoding)
    }

    /// The window after a sequence of packets.
    pub open spec fn replayed(self, packets: Seq<Packet>) -> WindowState
        decreases packets.len(),
    {
        if packets.len() == 0 {
            self
        } else {
            self.replayed(packets.drop_last()).after(packets.last())
        }
    }

    /// Whether `p` brings the sample at index `i`.
    pub open spec fn covers(self, p: Packet, i: int) -> bool {
        &&& !self.overflows(p.payload.len(), p.timestamp, p.wall_samples)
        &&& self.placement(p.timestamp, p.wall_samples) matches Some(offset)
        &&& offset <= i < offset + p.payload.len() / 2
    }
}

/// Gaps stay silent: a position that none of the packets covers holds after
/// them all what it held before them.  In a new window that is silence.
pub proof fn law_gaps_stay_silent(w: WindowState, packets: Seq<Packet>, i: int)
    requires
        0 <= i < w.capacity(),
        forall|k: int|
            0 <= k < packets.len() ==> !#[trigger] w.replayed(packets.take(k)).covers(
                packets[k],
                i,
            ),
    ensures
        w.replayed(packets).pcm[i] == w.pcm[i],
        w.replayed(packets).capacity() == w.capacity(),
    decreases packets.len(),
{
    if packets.len() > 0 {
        let head = packets.drop_last();
        assert forall|k: int| 0 <= k < head.len() implies !#[trigger] w.replayed(
            head.take(k),
        ).covers(head[k], i) by {
            assert(head.take(k) =~= packets.take(k));
            assert(!w.replayed(packets.take(k)).covers(packets[k], i));
        }
        law_gaps_stay_silent(w, head, i);
        assert(packets.take(packets.len() - 1) =~= head);
        assert(!w.replayed(packets.take(packets.len() - 1)).covers(packets.last(), i));
    }
}

/// A sample that the latest packet covers is the one the packet carries.
pub proof fn law_covered_sample_is_stored(w: WindowState, p: Packet, i: int)
    requires
        0 <= i < w.capacity(),
        w.covers(p, i),
    ensures
        w.placement(p.timestamp, p.wall_samples) matches Some(offset) && w.after(p).pcm[i]
            == payload_samples(p.payload, p.encoding)[i - offset],
{
}

/// The epoch of the sender's clock does not matter: whatever the timestamp of
/// the first packet, a packet `ahead` ticks later is placed `ahead` samples
/// further on, also where the 32-bit timestamp wraps in between.  Only a wrap
/// over half the timestamp range or more goes unnoticed.
pub proof fn law_rtp_epoch_is_irrelevant(
    w: WindowState,
    anchor: Anchor,
    ahead: u32,
    wall_samples: i64,
)
    requires
        w.anchor == Some(anchor),
        ahead < 0x8000_0000 || anchor.rtp_base + ahead < 0x1_0000_0000,
    ensures
        w.placement(((anchor.rtp_base + ahead) % 0x1_0000_0000) as u32, wall_samples) == Some(
            anchor.offset + ahead,
        ),
{
}

/// A packet sent at most half the timestamp range before the first one is
/// discarded: only its sequence number is noted.
pub proof fn law_packet_before_anchor_is_discarded(w: WindowState, anchor: Anchor, p: Packet)
    requires
        w.anchor == Some(anchor),
        anchor.rtp_base - 0x8000_0000 <= p.timestamp < anchor.rtp_base,
    ensures
        w.placement(p.timestamp, p.wall_samples) is None,
        w.after(p).pcm == w.pcm,
        w.after(p).written == w.written,
        w.after(p).anchor == w.anchor,
        !w.overflows(p.payload.len(), p.timestamp, p.wall_samples),
{
}

/// Progress never runs backwards and never passes the end of the window, and
/// the anchor, once set, stays.
pub proof fn law_progress_is_monotone(w: WindowState, packets: Seq<Packet>)
    requires
        0 <= w.written <= w.capacity(),
    ensures
        w.written <= w.replayed(packets).written <= w.capacity(),
        w.gap_count <= w.replayed(packets).gap_count <= w.gap_count + packets.len(),
        w.replayed(packets).capacity() == w.capacity(),
        w.anchor is Some ==> w.replayed(packets).anchor == w.anchor,
    decreases packets.len(),
{
    if packets.len() > 0 {
        law_progress_is_monotone(w, packets.drop_last());
    }
}

/// A packet that does not fit leaves every sample as it was.
pub proof fn law_overflow_keeps_the_samples(w: WindowState, p: Packet)
    requires
        w.overflows(p.payload.len(), p.timestamp, p.wall_samples),
    ensures
        w.after(p).pcm == w.pcm,
        w.after(p).written == w.written,
{
}

/// Packets whose sequence numbers follow one another, modulo 2^16, count no
/// gap.
pub proof fn law_consecutive_packets_count_no_gap(w: WindowState, packets: Seq<Packet>)
    requires
        packets.len() > 0 ==> (w.last_seq matches Some(last) ==> packets[0].seq == next_seq(last)),
        forall|k: int|
            0 < k < packets.len() ==> (#[trigger] packets[k]).seq == next_seq(packets[k - 1].seq),
    ensures
        w.replayed(packets).gap_count == w.gap_count,
        packets.len() > 0 ==> w.replayed(packets).last_seq == Some(packets.last().seq),
    decreases packets.len(),
{
    if packets.len() > 0 {
        law_consecutive_packets_count_no_gap(w, packets.drop_last());
        let k = packets.len() - 1;
        if k > 0 {
            assert(packets[k].seq == next_seq(packets[k - 1].seq));
        }
    }
}

/// What a position holds in the end was brought by the latest packet that
/// covers it.
pub proof fn law_latest_packet_wins(w: WindowState, packets: Seq<Packet>, k: int, i: int)
    requires
        0 <= i < w.capacity(),
        0 <= k < packets.len(),
        w.replayed(packets.take(k)).covers(packets[k], i),
        forall|j: int|
            k < j < packets.len() ==> !#[trigger] w.replayed(packets.take(j)).covers(packets[j], i),
    ensures
        w.replayed(packets.take(k)).placement(
            packets[k].timestamp,
            packets[k].wall_samples,
        ) matches Some(offset) && w.replayed(packets).pcm[i] == payload_samples(
            packets[k].payload,
            packets[k].encoding,
        )[i - offset],
        w.replayed(packets).capacity() == w.capacity(),
    decreases packets.len(),
{
    let head = packets.drop_last();
    let last = packets.len() - 1;
    assert(packets.take(last) =~= head);
    lemma_capacity_is_kept(w, head);
    if k == last {
        law_covered_sample_is_stored(w.replayed(head), packets.last(), i);
    } else {
        assert(head.take(k) =~= packets.take(k));
        assert forall|j: int| k < j < head.len() implies !#[trigger] w.replayed(
            head.take(j),
        ).covers(head[j], i) by {
            assert(head.take(j) =~= packets.take(j));
            assert(!w.replayed(packets.take(j)).covers(packets[j], i));
        }
        law_latest_packet_wins(w, head, k, i);
        assert(!w.replayed(packets.take(last)).covers(packets[last], i));
    }
}

/// Packets do not change the size of a window.
proof fn lemma_capacity_is_kept(w: WindowState, packets: Seq<Packet>)
    ensures
        w.replayed(packets).capacity() == w.capacity(),
    decreases packets.len(),
{
    if packets.len() > 0 {
        lemma_capacity_is_kept(w, packets.drop_last());
    }
}

/// `p` as a sender whose clock is `shift` ticks ahead stamps it.
pub open spec fn shifted(p: Packet, shift: u32) -> Packet {
    Packet { timestamp: ((p.timestamp + shift) % RTP_WRAP as int) as u32, ..p }
}

/// `packets` as a sender whose clock is `shift` ticks ahead stamps them.
pub open spec fn all_shifted(packets: Seq<Packet>, shift: u32) -> Seq<Packet> {
    packets.map_values(|p: Packet| shifted(p, shift))
}

/// Ticks from `first` to `timestamp`, modulo the timestamp range.
pub open spec fn ticks_since(first: u32, timestamp: u32) -> int {
    (timestamp - first) % RTP_WRAP as int
}

/// Whether two windows hold the same, but for the timestamp of their first
/// packet.
pub open spec fn same_but_epoch(a: WindowState, b: WindowState) -> bool {
    &&& a.window_start == b.window_start
    &&& a.center_freq_bits == b.center_freq_bits
    &&& a.sample_rate_hz == b.sample_rate_hz
    &&& a.pcm == b.pcm
    &&& a.written == b.written
    &&& a.last_seq == b.last_seq
    &&& a.gap_count == b.gap_count
    &&& match (a.anchor, b.anchor) {
        (Some(x), Some(y)) => x.offset == y.offset,
        (None, None) => true,
        _ => false,
    }
}

/// A timestamp less than half the range behind the first is displaced by the
/// ticks between them, whichever clock stamped both.
proof fn lemma_shifted_displacement(first: u32, timestamp: u32, shift: u32)
    requires
        ticks_since(first, timestamp) < RTP_HALF,
    ensures
        displacement(first, timestamp) == ticks_since(first, timestamp),
        displacement(
            ((first + shift) % RTP_WRAP as int) as u32,
            ((timestamp + shift) % RTP_WRAP as int) as u32,
        ) == ticks_since(first, timestamp),
{
}

/// The first `j` packets leave the same window, whichever clock stamped them.
proof fn lemma_shifted_prefix(w: WindowState, packets: Seq<Packet>, shift: u32, j: int)
    requires
        w.anchor is None,
        0 <= j <= packets.len(),
        forall|i: int|
            0 <= i < packets.len() ==> ticks_since(
                packets[0].timestamp,
                (#[trigger] packets[i]).timestamp,
            ) < RTP_HALF,
    ensures
        ({
            let a = w.replayed(packets.take(j));
            let b = w.replayed(all_shifted(packets, shift).take(j));
            &&& same_but_epoch(a, b)
            &&& j == 0 ==> a.anchor is None
            &&& j > 0 ==> a.anchor is Some && a.anchor->0.rtp_base == packets[0].timestamp
            &&& j > 0 ==> b.anchor->0.rtp_base == shifted(packets[0], shift).timestamp
        }),
    decreases j, 0int,
{
    let other = all_shifted(packets, shift);
    if j > 0 {
        lemma_shifted_prefix(w, packets, shift, j - 1);
        lemma_shifted_step(w, packets, shift, j - 1);
        assert(packets.take(j).drop_last() =~= packets.take(j - 1));
        assert(other.take(j).drop_last() =~= other.take(j - 1));
        assert(packets.take(j).last() == packets[j - 1]);
        assert(other.take(j).last() == shifted(packets[j - 1], shift));
    } else {
        assert(packets.take(0) =~= other.take(0));
    }
}

/// Packet `j` belongs to the same place, whichever clock stamped the packets.
proof fn lemma_shifted_step(w: WindowState, packets: Seq<Packet>, shift: u32, j: int)
    requires
        w.anchor is None,
        0 <= j < packets.len(),
        forall|i: int|
            0 <= i < packets.len() ==> ticks_since(
                packets[0].timestamp,
                (#[trigger] packets[i]).timestamp,
            ) < RTP_HALF,
    ensures
        ({
            let p = packets[j];
            let q = shifted(p, shift);
            let a = w.replayed(packets.take(j));
            let b = w.replayed(all_shifted(packets, shift).take(j));
            &&& a.placement(p.timestamp, p.wall_samples) == b.placement(q.timestamp, q.wall_samples)
            &&& a.overflows(p.payload.len(), p.timestamp, p.wall_samples) == b.overflows(
                q.payload.len(),
                q.timestamp,
                q.wall_samples,
            )
        }),
    decreases j, 1int,
{
    lemma_shifted_prefix(w, packets, shift, j);
    lemma_shifted_displacement(packets[0].timestamp, packets[j].timestamp, shift);
}

/// A capture does not depend on the epoch of the sender's clock: two runs of
/// packets that differ only in a shift of all their timestamps, modulo 2^32,
/// overflow at the same packets and leave the same samples, progress, gaps and
/// last sequence number.  The timestamps may wrap on the way; within a run they
/// stay less than half the timestamp range behind the first.
pub proof fn law_runs_do_not_depend_on_the_epoch(
    w: WindowState,
    packets: Seq<Packet>,
    shift: u32,
)
    requires
        w.anchor is None,
        forall|i: int|
            0 <= i < packets.len() ==> ticks_since(
                packets[0].timestamp,
                (#[trigger] packets[i]).timestamp,
            ) < RTP_HALF,
    ensures
        same_but_epoch(w.replayed(packets), w.replayed(all_shifted(packets, shift))),
        forall|j: int|
            #![trigger packets[j]]
            0 <= j < packets.len() ==> {
                let p = packets[j];
                let q = all_shifted(packets, shift)[j];
                let a = w.replayed(packets.take(j));
                let b = w.replayed(all_shifted(packets, shift).take(j));
                &&& same_but_epoch(a.after(p), b.after(q))
                &&& a.overflows(p.payload.len(), p.timestamp, p.wall_samples) == b.overflows(
                    q.payload.len(),
                    q.timestamp,
                    q.wall_samples,
                )
            },
{
    let other = all_shifted(packets, shift);
    lemma_shifted_prefix(w, packets, shift, packets.len() as int);
    assert(packets.take(packets.len() as int) =~= packets);
    assert(other.take(packets.len() as int) =~= other);
    assert forall|j: int|
        #![trigger packets[j]]
        0 <= j < packets.len() implies {
        let p = packets[j];
        let q = other[j];
        let a = w.replayed(packets.take(j));
        let b = w.replayed(other.take(j));
        &&& same_but_epoch(a.after(p), b.after(q))
        &&& a.overflows(p.payload.len(), p.timestamp, p.wall_samples) == b.overflows(
            q.payload.len(),
            q.timestamp,
            q.wall_samples,
        )
    } by {
        lemma_shifted_step(w, packets, shift, j);
        lemma_shifted_prefix(w, packets, shift, j);
        lemma_shifted_prefix(w, packets, shift, j + 1);
        assert(packets.take(j + 1).drop_last() =~= packets.take(j));
        assert(other.take(j + 1).drop_last() =~= other.take(j));
        assert(packets.take(j + 1).last() == packets[j]);
        assert(other.take(j + 1).last() == other[j]);
    }
}

/// `samples` as the bytes of a payload, two for each: the high byte first in
/// big-endian order, else the low byte first.
pub open spec fn written_payload(samples: Seq<i16>, big_endian: bool) -> Seq<u8>
    decreases samples.len(),
{
    if samples.len() == 0 {
        Seq::empty()
    } else {
        let value = samples.last() as int;
        let bits = if value < 0 {
            value + 65_536
        } else {
            value
        };
        let high = (bits / 256) as u8;
        let low = (bits % 256) as u8;
        written_payload(samples.drop_last(), big_endian) + (if big_endian {
            seq![high, low]
        } else {
            seq![low, high]
        })
    }
}

/// Where the bytes of each sample stand in a payload.
proof fn lemma_written_payload(samples: Seq<i16>, big_endian: bool, encoding: u8)
    requires
        big_endian == (encoding == 2),
    ensures
        written_payload(samples, big_endian).len() == 2 * samples.len(),
        forall|i: int|
            0 <= i < samples.len() ==> sample_value(
                encoding,
                written_payload(samples, big_endian)[2 * i],
                written_payload(samples, big_endian)[2 * i + 1],
            ) == #[trigger] samples[i],
    decreases samples.len(),
{
    if samples.len() > 0 {
        let head = samples.drop_last();
        lemma_written_payload(head, big_endian, encoding);
        let all = written_payload(samples, big_endian);
        let before = written_payload(head, big_endian);
        assert forall|i: int| 0 <= i < samples.len() implies sample_value(
            encoding,
            all[2 * i],
            all[2 * i + 1],
        ) == #[trigger] samples[i] by {
            if i < head.len() {
                assert(all[2 * i] == before[2 * i]);
                assert(all[2 * i + 1] == before[2 * i + 1]);
                assert(head[i] == samples[i]);
            }
        }
    }
}

/// Decoding undoes encoding: samples of any number, written as two bytes each in
/// the order of the encoding, decode to themselves, with or without an odd byte
/// behind them.  Encoding 2 is big-endian, every other is little-endian.
pub proof fn law_decoding_undoes_encoding(samples: Seq<i16>, encoding: u8, odd: Seq<u8>)
    requires
        odd.len() <= 1,
    ensures
        payload_samples(written_payload(samples, encoding == 2) + odd, encoding) == samples,
{
    lemma_written_payload(samples, encoding == 2, encoding);
    let bytes = written_payload(samples, encoding == 2);
    let payload = bytes + odd;
    let decoded = payload_samples(payload, encoding);
    assert(decoded.len() == samples.len());
    assert forall|i: int| 0 <= i < samples.len() implies decoded[i] == samples[i] by {
        assert(payload[2 * i] == bytes[2 * i]);
        assert(payload[2 * i + 1] == bytes[2 * i + 1]);
    }
    assert(decoded =~= samples);
}

/// The first packet of a window is placed by the clock: at its sample count,
/// brought between the window's first sample and its last.  Its timestamp and
/// its place are what later packets are measured by.
pub proof fn law_first_packet_is_placed_by_the_clock(w: WindowState, p: Packet)
    requires
        w.anchor is None,
    ensures
        ({
            let placed = w.placement(p.timestamp, p.wall_samples);
            let anchor = w.after(p).anchor;
            &&& placed is Some
            &&& p.wall_samples <= 0 ==> placed->0 == 0
            &&& 0 <= p.wall_samples < w.pcm.len() ==> placed->0 == p.wall_samples
            &&& p.wall_samples >= w.pcm.len() > 0 ==> placed->0 == w.pcm.len() - 1
            &&& w.pcm.len() == 0 ==> placed->0 == 0
            &&& anchor is Some
            &&& anchor->0.rtp_base == p.timestamp
            &&& anchor->0.offset == placed->0
        }),
{
}

/// A packet of any number of samples that belongs at `offset` puts them there,
/// one behind the other, and touches no other sample; one that would reach
/// beyond the last sample puts none.
pub proof fn law_samples_land_at_their_offset(
    w: WindowState,
    p: Packet,
    samples: Seq<i16>,
    odd: Seq<u8>,
    offset: int,
)
    requires
        odd.len() <= 1,
        p.payload == written_payload(samples, p.encoding == 2) + odd,
        w.placement(p.timestamp, p.wall_samples) == Some(offset),
        0 <= offset,
    ensures
        ({
            let after = w.after(p);
            let end = offset + samples.len();
            let overflow = w.overflows(p.payload.len(), p.timestamp, p.wall_samples);
            &&& overflow <==> end > w.pcm.len()
            &&& after.pcm.len() == w.pcm.len()
            &&& !overflow ==> forall|k: int|
                0 <= k < samples.len() ==> after.pcm[offset + k] == #[trigger] samples[k]
            &&& !overflow ==> forall|i: int|
                0 <= i < w.pcm.len() && !(offset <= i < end) ==> #[trigger] after.pcm[i]
                    == w.pcm[i]
            &&& !overflow && end > w.written ==> after.written == end
            &&& overflow || end <= w.written ==> after.written == w.written
            &&& overflow ==> after.pcm == w.pcm
        }),
{
    law_decoding_undoes_encoding(samples, p.encoding, odd);
    lemma_written_payload(samples, p.encoding == 2, p.encoding);
    assert(p.payload.len() / 2 == samples.len());
    let after = w.after(p);
    if offset + samples.len() <= w.pcm.len() {
        assert forall|k: int| 0 <= k < samples.len() implies after.pcm[offset + k]
            == #[trigger] samples[k] by {}
    }
}

/// Every packet is noted: its sequence number is the last one, and it counts a
/// gap exactly where it does not follow the last one, modulo 65536.
pub proof fn law_gaps_are_breaks_of_sequence(w: WindowState, p: Packet)
    ensures
        w.after(p).last_seq == Some(p.seq),
        w.last_seq is None ==> w.after(p).gap_count == w.gap_count,
        w.last_seq matches Some(last) ==> w.after(p).gap_count == w.gap_count + (if p.seq == (last
            + 1) % 65_536 {
            0int
        } else {
            1
        }),
{
}

/// Whatever packets a window takes, it keeps its start, dial frequency, sample
/// rate and size, and what its packets are measured by.
pub proof fn law_packets_keep_what_a_window_is_of(w: WindowState, packets: Seq<Packet>)
    ensures
        w.replayed(packets).window_start == w.window_start,
        w.replayed(packets).center_freq_bits == w.center_freq_bits,
        w.replayed(packets).sample_rate_hz == w.sample_rate_hz,
        w.replayed(packets).pcm.len() == w.pcm.len(),
        w.anchor is Some ==> w.replayed(packets).anchor == w.anchor,
    decreases packets.len(),
{
    if packets.len() > 0 {
        law_packets_keep_what_a_window_is_of(w, packets.drop_last());
    }
}

/// The state of a window is what its fields say.
pub proof fn law_state_is_what_the_fields_say(w: AudioWindow)
    ensures
        w@.window_start == w.window_start,
        w@.center_freq_bits == w.center_freq_bits,
        w@.sample_rate_hz == w.sample_rate_hz,
        w@.pcm == w.samples@,
        w@.written == w.samples_written,
        w@.last_seq == w.last_seq,
        w@.gap_count == w.gap_count,
        w@.anchor is Some <==> w.rtp_base is Some,
        w@.anchor matches Some(anchor) ==> w.rtp_base == Some(anchor.rtp_base) && w.start_offset
            == anchor.offset,
        w.wf() ==> w@.pcm.len() == w.capacity_samples,
{
}

/// A window fits exactly where its samples, two bytes each, fit one allocation.
pub proof fn law_windows_fit_one_allocation(sample_rate_hz: u32, capture_seconds: u32)
    ensures
        window_fits_spec(sample_rate_hz, capture_seconds) <==> 2 * (sample_rate_hz
            * capture_seconds) <= isize::MAX,
{
}

} // verus!
