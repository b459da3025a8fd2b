//! ka9q-radio status stream parser.
//!
//! Status datagrams arrive on a UDP port of their own (default 5006).  Each one
//! is TLV-encoded and describes the state of one output channel:
//!
//! ```text
//! byte 0:    packet type (0 = STATUS, 1 = CMD; only STATUS is processed)
//! bytes 1+:  TLV chain
//!            [tag: u8] [length: variable] [value: big-endian, leading zeros suppressed]
//!            tag 0 ends the chain (no length or value follows)
//! ```
//!
//! A first length byte below 0x80 is the length itself.  Else its low 7 bits
//! give the number of following big-endian bytes (1 to 4) that hold it.
//!
//! A zero value is a zero-length field.  Doubles are stored as their 64-bit
//! pattern, and this module keeps them so.

use std::collections::HashMap;

use vstd::prelude::*;

use crate::bytes::be_low64;

verus! {

broadcast use vstd::std_specs::hash::group_hash_axioms;

/// Encoding identifier for 16-bit signed little-endian PCM.
pub const ENC_S16LE: u8 = 1;

/// Encoding identifier for 16-bit signed big-endian PCM, used by ka9q-radio
/// audio output.
pub const ENC_S16BE: u8 = 2;

/// Packet type of a status datagram.
pub const PKT_STATUS: u8 = 0;

/// Tag that ends a TLV chain.
pub const TAG_EOL: u8 = 0;

/// SSRC of the data stream that the packet describes.
pub const TAG_OUTPUT_SSRC: u8 = 18;

/// Output sample rate in Hz.
pub const TAG_OUTPUT_SAMPRATE: u8 = 20;

/// Centre frequency in Hz, a double.
pub const TAG_RADIO_FREQUENCY: u8 = 33;

/// Number of output channels.
pub const TAG_OUTPUT_CHANNELS: u8 = 49;

/// RTP payload type of the data stream.
pub const TAG_RTP_PT: u8 = 105;

/// Sample encoding of the data stream.
pub const TAG_OUTPUT_ENCODING: u8 = 107;

/// Bit pattern of the double +infinity: the largest pattern of a positive
/// double, with every pattern of a positive double at or below it.
pub const F64_INFINITY_BITS: u64 = 0x7FF0_0000_0000_0000;

/// Per-channel metadata from the status stream; one is kept per SSRC.
#[derive(Debug, Clone, Copy, PartialEq, Eq, Structural)]
pub struct ChannelInfo {
    /// RTP payload type in use on the data stream.
    pub pt: u8,
    /// Centre frequency in Hz, as the bit pattern of an IEEE 754 double.
    pub center_freq_bits: u64,
    /// Output sample rate in Hz.
    pub sample_rate_hz: u32,
    /// Number of channels: 1 = mono (demodulated audio), 2 = stereo IQ.
    pub channels: u8,
    /// Sample encoding, [`ENC_S16BE`] or another.
    pub encoding: u8,
}

/// The metadata of a channel of which nothing is known yet.
pub open spec fn unknown_channel() -> ChannelInfo {
    ChannelInfo { pt: 0, center_freq_bits: 0, sample_rate_hz: 0, channels: 0, encoding: 0 }
}

impl Default for ChannelInfo {
    fn default() -> (r: ChannelInfo)
        ensures
            r == unknown_channel(),
    {
        ChannelInfo { pt: 0, center_freq_bits: 0, sample_rate_hz: 0, channels: 0, encoding: 0 }
    }
}

/// Whether a double with this bit pattern is greater than zero: its sign bit is
/// clear, and it is neither zero nor a NaN.
pub open spec fn is_positive_f64(bits: u64) -> bool {
    0 < bits <= F64_INFINITY_BITS
}

impl ChannelInfo {
    /// Whether the channel is mono with a known rate and frequency.
    pub open spec fn audio_ready(self) -> bool {
        &&& self.channels == 1
        &&& self.sample_rate_hz > 0
        &&& is_positive_f64(self.center_freq_bits)
    }

    /// Whether enough is known to begin audio ingestion: a mono channel with a
    /// positive sample rate and a positive centre frequency.
    pub fn is_audio_ready(&self) -> (r: bool)
        ensures
            r == self.audio_ready(),
    {
        self.channels == 1 && self.sample_rate_hz > 0 && 0 < self.center_freq_bits
            && self.center_freq_bits <= F64_INFINITY_BITS
    }

    /// This metadata with every field that `update` brings replaced.
    pub open spec fn updated(self, update: StatusUpdate) -> ChannelInfo {
        ChannelInfo {
            pt: match update.pt {
                Some(v) => v,
                None => self.pt,
            },
            center_freq_bits: match update.center_freq_bits {
                Some(v) => v,
                None => self.center_freq_bits,
            },
            sample_rate_hz: match update.sample_rate_hz {
                Some(v) => v,
                None => self.sample_rate_hz,
            },
            channels: match update.channels {
                Some(v) => v,
                None => self.channels,
            },
            encoding: match update.encoding {
                Some(v) => v,
                None => self.encoding,
            },
        }
    }
}

/// What one status packet says; a field is `None` where its tag was absent.
#[derive(Debug, Clone, Copy)]
pub struct StatusUpdate {
    pub ssrc: Option<u32>,
    pub center_freq_bits: Option<u64>,
    pub sample_rate_hz: Option<u32>,
    pub channels: Option<u8>,
    pub pt: Option<u8>,
    pub encoding: Option<u8>,
}

/// The length field at `pos` and the position behind it; `None` where it is
/// malformed or cut off.
pub open spec fn tlv_len(buf: Seq<u8>, pos: int) -> Option<(int, int)> {
    if pos >= buf.len() {
        None
    } else if buf[pos] < 0x80 {
        Some((buf[pos] as int, pos + 1))
    } else {
        let n = buf[pos] - 0x80;
        if n == 0 || n > 4 || pos + 1 + n > buf.len() {
            None
        } else {
            Some((crate::bytes::be_value(buf.subrange(pos + 1, pos + 1 + n)) as int, pos + 1 + n))
        }
    }
}

/// The tags and values of the TLV chain at `pos`, up to its end tag, the end of
/// the buffer or the first malformed item.
pub open spec fn tlv_items(buf: Seq<u8>, pos: int) -> Seq<(u8, Seq<u8>)>
    decreases buf.len() - pos,
{
    if pos < 0 || pos >= buf.len() || buf[pos] == TAG_EOL {
        Seq::empty()
    } else {
        match tlv_len(buf, pos + 1) {
            Some((len, at)) if at + len <= buf.len() => seq![
                (buf[pos], buf.subrange(at, at + len)),
            ] + tlv_items(buf, at + len),
            _ => Seq::empty(),
        }
    }
}

/// The items of a status datagram; none where it is of another type.
pub open spec fn status_items(buf: Seq<u8>) -> Seq<(u8, Seq<u8>)> {
    if buf.len() > 0 && buf[0] == PKT_STATUS {
        tlv_items(buf, 1)
    } else {
        Seq::empty()
    }
}

/// The value of the last item with this tag.
pub open spec fn last_value(items: Seq<(u8, Seq<u8>)>, tag: u8) -> Option<Seq<u8>>
    decreases items.len(),
{
    if items.len() == 0 {
        None
    } else if items.last().0 == tag {
        Some(items.last().1)
    } else {
        last_value(items.drop_last(), tag)
    }
}

/// The value of the first item with this tag.
pub open spec fn first_value(items: Seq<(u8, Seq<u8>)>, tag: u8) -> Option<Seq<u8>>
    decreases items.len(),
{
    if items.len() == 0 {
        None
    } else if items[0].0 == tag {
        Some(items[0].1)
    } else {
        first_value(items.drop_first(), tag)
    }
}

/// The lowest 32 bits of a value.
pub open spec fn low32(value: Seq<u8>) -> u32 {
    (crate::bytes::be_value(value) % 0x1_0000_0000) as u32
}

/// The lowest 64 bits of a value.
pub open spec fn low64(value: Seq<u8>) -> u64 {
    (crate::bytes::be_value(value) % 0x1_0000_0000_0000_0000) as u64
}

/// The lowest 8 bits of a value.
pub open spec fn low8(value: Seq<u8>) -> u8 {
    (crate::bytes::be_value(value) % 0x100) as u8
}

/// The last 32-bit value under `tag`.
pub open spec fn last_u32(items: Seq<(u8, Seq<u8>)>, tag: u8) -> Option<u32> {
    match last_value(items, tag) {
        Some(value) => Some(low32(value)),
        None => None,
    }
}

/// The last 64-bit value under `tag`.
pub open spec fn last_u64(items: Seq<(u8, Seq<u8>)>, tag: u8) -> Option<u64> {
    match last_value(items, tag) {
        Some(value) => Some(low64(value)),
        None => None,
    }
}

/// The last 8-bit value under `tag`.
pub open spec fn last_u8(items: Seq<(u8, Seq<u8>)>, tag: u8) -> Option<u8> {
    match last_value(items, tag) {
        Some(value) => Some(low8(value)),
        None => None,
    }
}

/// What a chain of items says; of a tag that occurs more than once, the last
/// value counts.
pub open spec fn update_from(items: Seq<(u8, Seq<u8>)>) -> StatusUpdate {
    StatusUpdate {
        ssrc: last_u32(items, TAG_OUTPUT_SSRC),
        center_freq_bits: last_u64(items, TAG_RADIO_FREQUENCY),
        sample_rate_hz: last_u32(items, TAG_OUTPUT_SAMPRATE),
        channels: last_u8(items, TAG_OUTPUT_CHANNELS),
        pt: last_u8(items, TAG_RTP_PT),
        encoding: last_u8(items, TAG_OUTPUT_ENCODING),
    }
}

/// The first SSRC in a chain of items.
pub open spec fn peeked(items: Seq<(u8, Seq<u8>)>) -> Option<u32> {
    match first_value(items, TAG_OUTPUT_SSRC) {
        Some(value) => Some(low32(value)),
        None => None,
    }
}

/// The channel map after a status packet: the entry of the packet's SSRC,
/// created if it is new, takes the fields that the packet brings.
pub open spec fn map_after(
    map: Map<u32, ChannelInfo>,
    update: StatusUpdate,
) -> Map<u32, ChannelInfo> {
    match update.ssrc {
        None => map,
        Some(ssrc) => {
            let known = if map.contains_key(ssrc) {
                map[ssrc]
            } else {
                unknown_channel()
            };
            map.insert(ssrc, known.updated(update))
        },
    }
}

/// What the arrival of a status datagram amounts to.
#[derive(Debug, Clone, Copy)]
pub enum StatusEvent {
    /// No STATUS datagram, or one without an SSRC.
    Ignored,
    /// The channel has become ready for audio ingestion.
    Ready { ssrc: u32, info: ChannelInfo },
    /// Another update of a channel.
    Update { ssrc: u32, info: ChannelInfo },
}

/// Whether `ssrc` is known and ready.
pub open spec fn ready_in(map: Map<u32, ChannelInfo>, ssrc: u32) -> bool {
    map.contains_key(ssrc) && map[ssrc].audio_ready()
}

/// The event for a chain of items that meets the channel map `map`.
pub open spec fn event_for(
    map: Map<u32, ChannelInfo>,
    items: Seq<(u8, Seq<u8>)>,
) -> StatusEvent {
    let update = update_from(items);
    match update.ssrc {
        None => StatusEvent::Ignored,
        Some(ssrc) => {
            let info = map_after(map, update)[ssrc];
            if info.audio_ready() && !ready_in(map, ssrc) {
                StatusEvent::Ready { ssrc, info }
            } else {
                StatusEvent::Update { ssrc, info }
            }
        },
    }
}

/// Decodes the variable-length length field at `buf[*pos]` and advances `*pos`
/// past the bytes consumed.
///
/// Returns `None` if the encoding is invalid or the buffer is too short; a
/// first byte that was there is consumed all the same.
pub fn read_tlv_len(buf: &[u8], pos: &mut usize) -> (r: Option<usize>)
    ensures
        match tlv_len(buf@, *old(pos) as int) {
            Some((len, at)) => r == Some(len as usize) && len <= usize::MAX && *final(pos) == at,
            None => r is None && *final(pos) == (if *old(pos) < buf@.len() {
                *old(pos) + 1
            } else {
                *old(pos) as int
            }),
        },
{
    if *pos >= buf.len() {
        return None;
    }
    let first: u8 = buf[*pos];
    *pos = *pos + 1;

    if first < 0x80 {
        return Some(first as usize);
    }
    let n: usize = (first & 0x7F) as usize;
    proof {
        assert(first >= 0x80 ==> first & 0x7F == first - 0x80) by (bit_vector);
    }
    if n == 0 || n > 4 || n > buf.len() - *pos {
        return None;
    }
    let bytes: &[u8] = vstd::slice::slice_subrange(buf, *pos, *pos + n);
    proof {
        reveal_with_fuel(crate::bytes::byte_range, 5);
        crate::bytes::lemma_be_value_bound(bytes@);
    }
    let len: usize = be_low64(bytes) as usize;
    *pos = *pos + n;
    Some(len)
}

/// Decodes a big-endian unsigned integer whose leading zero bytes may be
/// suppressed.  An empty value is 0; only the lowest 32 bits are kept.
pub fn decode_u32(value: &[u8]) -> (r: u32)
    ensures
        r == low32(value@),
{
    let acc: u64 = be_low64(value);
    proof {
        assert(acc as u32 == acc % 0x1_0000_0000) by (bit_vector);
    }
    acc as u32
}

/// Decodes the bit pattern of a double whose leading zero bytes may be
/// suppressed.  An empty value is the pattern of 0.0.
pub fn decode_f64(value: &[u8]) -> (r: u64)
    ensures
        r == low64(value@),
{
    be_low64(value)
}

/// Decodes a number of which only the lowest 8 bits are kept.
fn decode_u8(value: &[u8]) -> (r: u8)
    ensures
        r == low8(value@),
{
    let wide: u32 = decode_u32(value);
    proof {
        assert(wide as u8 == wide % 0x100) by (bit_vector);
    }
    wide as u8
}

/// Walks the TLV chain of a status datagram and collects what it says.
fn read_status(buf: &[u8]) -> (r: StatusUpdate)
    requires
        buf@.len() > 0,
        buf@[0] == PKT_STATUS,
    ensures
        r == update_from(status_items(buf@)),
{
    let mut pos: usize = 1;
    let mut update = StatusUpdate {
        ssrc: None,
        center_freq_bits: None,
        sample_rate_hz: None,
        channels: None,
        pt: None,
        encoding: None,
    };
    let ghost mut seen: Seq<(u8, Seq<u8>)> = Seq::empty();
    assert(seen + tlv_items(buf@, 1) =~= tlv_items(buf@, 1));

    while pos < buf.len()
        invariant_except_break
            0 < pos <= buf@.len(),
            seen + tlv_items(buf@, pos as int) == tlv_items(buf@, 1),
        invariant
            update == update_from(seen),
        ensures
            seen =~= tlv_items(buf@, 1),
        decreases buf@.len() - pos,
    {
        let ghost start = pos as int;
        let tag: u8 = buf[pos];
        pos = pos + 1;
        if tag == TAG_EOL {
            break;
        }
        let len: usize = match read_tlv_len(buf, &mut pos) {
            Some(l) => l,
            None => {
                break;
            },
        };
        if len > buf.len() - pos {
            break;
        }
        let value: &[u8] = vstd::slice::slice_subrange(buf, pos, pos + len);
        pos = pos + len;

        if tag == TAG_OUTPUT_SSRC {
            update.ssrc = Some(decode_u32(value));
        } else if tag == TAG_OUTPUT_SAMPRATE {
            update.sample_rate_hz = Some(decode_u32(value));
        } else if tag == TAG_RADIO_FREQUENCY {
            update.center_freq_bits = Some(decode_f64(value));
        } else if tag == TAG_OUTPUT_CHANNELS {
            update.channels = Some(decode_u8(value));
        } else if tag == TAG_RTP_PT {
            update.pt = Some(decode_u8(value));
        } else if tag == TAG_OUTPUT_ENCODING {
            update.encoding = Some(decode_u8(value));
        }
        proof {
            let item = (tag, value@);
            assert(tlv_items(buf@, start) == seq![item] + tlv_items(buf@, pos as int));
            let next = seen.push(item);
            assert(next.drop_last() =~= seen);
            assert(next + tlv_items(buf@, pos as int) =~= seen + tlv_items(buf@, start));
            seen = next;
        }
    }
    update
}

/// Applies what a status packet says to the channel that it names.
fn apply_update(update: StatusUpdate, map: &mut HashMap<u32, ChannelInfo>) -> (r: Option<u32>)
    ensures
        r == update.ssrc,
        final(map)@ == map_after(old(map)@, update),
{
    let ssrc: u32 = match update.ssrc {
        Some(ssrc) => ssrc,
        None => {
            return None;
        },
    };
    let mut info: ChannelInfo = match map.get(&ssrc) {
        Some(known) => *known,
        None => ChannelInfo::default(),
    };
    if let Some(v) = update.center_freq_bits {
        info.center_freq_bits = v;
    }
    if let Some(v) = update.sample_rate_hz {
        info.sample_rate_hz = v;
    }
    if let Some(v) = update.channels {
        info.channels = v;
    }
    if let Some(v) = update.pt {
        info.pt = v;
    }
    if let Some(v) = update.encoding {
        info.encoding = v;
    }
    map.insert(ssrc, info);
    Some(ssrc)
}

/// Parses a status datagram and applies it to `map`.
///
/// Returns the SSRC found in the packet, or `None`, with `map` left alone, if
/// the packet is no STATUS datagram or has no `OUTPUT_SSRC` tag.
pub fn process_status_packet(buf: &[u8], map: &mut HashMap<u32, ChannelInfo>) -> (r: Option<u32>)
    ensures
        r == update_from(status_items(buf@)).ssrc,
        final(map)@ == map_after(old(map)@, update_from(status_items(buf@))),
{
    if buf.len() == 0 || buf[0] != PKT_STATUS {
        return None;
    }
    apply_update(read_status(buf), map)
}

/// The first SSRC that a status datagram names, without applying it.
///
/// Returns `None` if the packet is no STATUS datagram or has no `OUTPUT_SSRC`
/// tag.
pub fn peek_ssrc(buf: &[u8]) -> (r: Option<u32>)
    ensures
        r == peeked(status_items(buf@)),
{
    if buf.len() == 0 || buf[0] != PKT_STATUS {
        return None;
    }
    let mut pos: usize = 1;
    while pos < buf.len()
        invariant_except_break
            0 < pos <= buf@.len(),
            peeked(tlv_items(buf@, pos as int)) == peeked(tlv_items(buf@, 1)),
        invariant
            status_items(buf@) == tlv_items(buf@, 1),
        ensures
            peeked(tlv_items(buf@, 1)) is None,
        decreases buf@.len() - pos,
    {
        let ghost start = pos as int;
        let tag: u8 = buf[pos];
        pos = pos + 1;
        if tag == TAG_EOL {
            break;
        }
        let len: usize = match read_tlv_len(buf, &mut pos) {
            Some(l) => l,
            None => {
                return None;
            },
        };
        if len > buf.len() - pos {
            break;
        }
        let value: &[u8] = vstd::slice::slice_subrange(buf, pos, pos + len);
        pos = pos + len;
        proof {
            let rest = tlv_items(buf@, pos as int);
            assert(tlv_items(buf@, start) == seq![(tag, value@)] + rest);
            assert((seq![(tag, value@)] + rest).drop_first() =~= rest);
        }
        if tag == TAG_OUTPUT_SSRC {
            return Some(decode_u32(value));
        }
    }
    None
}

/// Applies a status datagram to `map` and tells a channel's change from not
/// ready to ready from the heartbeats that follow it.
pub fn handle_status_datagram(buf: &[u8], map: &mut HashMap<u32, ChannelInfo>) -> (r: StatusEvent)
    ensures
        r == event_for(old(map)@, status_items(buf@)),
        final(map)@ == map_after(old(map)@, update_from(status_items(buf@))),
{
    if buf.len() == 0 || buf[0] != PKT_STATUS {
        return StatusEvent::Ignored;
    }
    let update: StatusUpdate = read_status(buf);
    let was_ready: bool = match update.ssrc {
        Some(ssrc) => match map.get(&ssrc) {
            Some(info) => info.is_audio_ready(),
            None => false,
        },
        None => false,
    };
    match apply_update(update, map) {
        None => StatusEvent::Ignored,
        Some(ssrc) => match map.get(&ssrc) {
            Some(info) => {
                if info.is_audio_ready() && !was_ready {
                    StatusEvent::Ready { ssrc, info: *info }
                } else {
                    StatusEvent::Update { ssrc, info: *info }
                }
            },
            None => StatusEvent::Ignored,
        },
    }
}

/// The last value in a chain of two parts.
proof fn lemma_last_value_concat(a: Seq<(u8, Seq<u8>)>, b: Seq<(u8, Seq<u8>)>, tag: u8)
    ensures
        last_value(a + b, tag) == (match last_value(b, tag) {
            Some(value) => Some(value),
            None => last_value(a, tag),
        }),
    decreases b.len(),
{
    if b.len() == 0 {
        assert(a + b =~= a);
    } else {
        assert((a + b).drop_last() =~= a + b.drop_last());
        lemma_last_value_concat(a, b.drop_last(), tag);
    }
}

/// First and last value of a tag exist together, and are one where the tag
/// occurs once.
proof fn lemma_first_and_last_value(items: Seq<(u8, Seq<u8>)>, tag: u8)
    ensures
        first_value(items, tag) is Some <==> last_value(items, tag) is Some,
        (forall|i: int, j: int|
            0 <= i < j < items.len() ==> !(items[i].0 == tag && items[j].0 == tag))
            ==> first_value(items, tag) == last_value(items, tag),
    decreases items.len(),
{
    if items.len() > 0 {
        let head = seq![items[0]];
        let rest = items.drop_first();
        assert(items =~= head + rest);
        lemma_last_value_concat(head, rest, tag);
        lemma_first_and_last_value(rest, tag);
        reveal_with_fuel(last_value, 2);
        if items[0].0 == tag && last_value(rest, tag) is Some {
            lemma_last_value_witness(rest, tag);
            let k = choose|k: int| 0 <= k < rest.len() && #[trigger] rest[k].0 == tag;
            assert(items[0].0 == tag && items[k + 1].0 == tag);
        }
        assert forall|i: int, j: int|
            0 <= i < j < rest.len() && rest[i].0 == tag && rest[j].0 == tag implies (exists|
            p: int,
            q: int,
        |
            0 <= p < q < items.len() && items[p].0 == tag && items[q].0 == tag) by {
            assert(items[i + 1].0 == tag && items[j + 1].0 == tag);
        }
    }
}

/// A last value comes from an item with that tag.
proof fn lemma_last_value_witness(items: Seq<(u8, Seq<u8>)>, tag: u8)
    requires
        last_value(items, tag) is Some,
    ensures
        exists|k: int| 0 <= k < items.len() && #[trigger] items[k].0 == tag,
    decreases items.len(),
{
    if items.last().0 == tag {
        assert(items[items.len() - 1].0 == tag);
    } else {
        lemma_last_value_witness(items.drop_last(), tag);
        let k = choose|k: int|
            0 <= k < items.drop_last().len() && #[trigger] items.drop_last()[k].0 == tag;
        assert(items[k].0 == tag);
    }
}

/// Peeking agrees with applying: a packet has an SSRC for the one exactly when
/// it has one for the other, and they are the same where the packet names its
/// SSRC once.
pub proof fn law_peek_agrees_with_apply(items: Seq<(u8, Seq<u8>)>)
    ensures
        peeked(items) is Some <==> update_from(items).ssrc is Some,
        (forall|i: int, j: int|
            0 <= i < j < items.len() ==> !(items[i].0 == TAG_OUTPUT_SSRC && items[j].0
                == TAG_OUTPUT_SSRC)) ==> peeked(items) == update_from(items).ssrc,
{
    lemma_first_and_last_value(items, TAG_OUTPUT_SSRC);
}

/// A channel's readiness is announced once: a packet raises
/// [`StatusEvent::Ready`] exactly when its channel was not ready before it and
/// is ready after it.
pub proof fn law_ready_is_announced_once(
    map: Map<u32, ChannelInfo>,
    items: Seq<(u8, Seq<u8>)>,
    ssrc: u32,
)
    requires
        update_from(items).ssrc == Some(ssrc),
    ensures
        event_for(map, items) is Ready <==> !ready_in(map, ssrc) && ready_in(
            map_after(map, update_from(items)),
            ssrc,
        ),
        event_for(map, items) matches StatusEvent::Ready { ssrc: announced, .. } ==> announced
            == ssrc,
{
}

/// A status packet touches no channel but its own, and none at all where it has
/// no SSRC.
pub proof fn law_other_channels_stay(
    map: Map<u32, ChannelInfo>,
    update: StatusUpdate,
    other: u32,
)
    requires
        update.ssrc != Some(other),
    ensures
        map_after(map, update).contains_key(other) <==> map.contains_key(other),
        map.contains_key(other) ==> map_after(map, update)[other] == map[other],
{
}

/// Heartbeats change nothing: applying a packet a second time leaves the map as
/// the first time did.
pub proof fn law_repeated_status_is_idempotent(
    map: Map<u32, ChannelInfo>,
    update: StatusUpdate,
)
    ensures
        map_after(map_after(map, update), update) == map_after(map, update),
{
    assert(map_after(map_after(map, update), update) =~= map_after(map, update));
}

/// Whether `tag` is one that this module reads.
pub open spec fn is_known_tag(tag: u8) -> bool {
    ||| tag == TAG_OUTPUT_SSRC
    ||| tag == TAG_OUTPUT_SAMPRATE
    ||| tag == TAG_RADIO_FREQUENCY
    ||| tag == TAG_OUTPUT_CHANNELS
    ||| tag == TAG_RTP_PT
    ||| tag == TAG_OUTPUT_ENCODING
}

/// Unknown tags are skipped: an item with one changes nothing, wherever in the
/// chain it stands.
pub proof fn law_unknown_tags_are_skipped(
    before: Seq<(u8, Seq<u8>)>,
    unknown: (u8, Seq<u8>),
    behind: Seq<(u8, Seq<u8>)>,
)
    requires
        !is_known_tag(unknown.0),
    ensures
        update_from(before.push(unknown) + behind) == update_from(before + behind),
{
    let with = before.push(unknown);
    assert(with.drop_last() =~= before);
    lemma_last_value_concat(with, behind, TAG_OUTPUT_SSRC);
    lemma_last_value_concat(before, behind, TAG_OUTPUT_SSRC);
    lemma_last_value_concat(with, behind, TAG_OUTPUT_SAMPRATE);
    lemma_last_value_concat(before, behind, TAG_OUTPUT_SAMPRATE);
    lemma_last_value_concat(with, behind, TAG_RADIO_FREQUENCY);
    lemma_last_value_concat(before, behind, TAG_RADIO_FREQUENCY);
    lemma_last_value_concat(with, behind, TAG_OUTPUT_CHANNELS);
    lemma_last_value_concat(before, behind, TAG_OUTPUT_CHANNELS);
    lemma_last_value_concat(with, behind, TAG_RTP_PT);
    lemma_last_value_concat(before, behind, TAG_RTP_PT);
    lemma_last_value_concat(with, behind, TAG_OUTPUT_ENCODING);
    lemma_last_value_concat(before, behind, TAG_OUTPUT_ENCODING);
}

/// A length field for `n`: one byte below 0x80, else a count of 4 and the four
/// big-endian bytes of `n`.
pub open spec fn encoded_len(n: nat) -> Seq<u8> {
    if n < 0x80 {
        seq![n as u8]
    } else {
        seq![0x84u8] + crate::bytes::be_bytes(n, 4)
    }
}

/// The TLV chain of `items`, without an end tag.
pub open spec fn encoded_items(items: Seq<(u8, Seq<u8>)>) -> Seq<u8>
    decreases items.len(),
{
    if items.len() == 0 {
        Seq::empty()
    } else {
        seq![items[0].0] + encoded_len(items[0].1.len()) + items[0].1 + encoded_items(
            items.drop_first(),
        )
    }
}

/// The status datagram of `items`, with `trailer` behind the end tag.
pub open spec fn status_datagram(items: Seq<(u8, Seq<u8>)>, trailer: Seq<u8>) -> Seq<u8> {
    seq![PKT_STATUS] + encoded_items(items) + seq![TAG_EOL] + trailer
}

/// One item that stands behind `prefix` is found there.
proof fn lemma_item_at(prefix: Seq<u8>, tag: u8, value: Seq<u8>, tail: Seq<u8>)
    requires
        value.len() < 0x1_0000_0000,
    ensures
        ({
            let item = prefix + seq![tag] + encoded_len(value.len()) + value;
            let buf = item + tail;
            &&& buf[prefix.len() as int] == tag
            &&& tlv_len(buf, prefix.len() as int + 1) == Some(
                (value.len() as int, item.len() - value.len()),
            )
            &&& buf.subrange(item.len() - value.len(), item.len() as int) == value
        }),
{
    let n = value.len();
    let item = prefix + seq![tag] + encoded_len(n) + value;
    let buf = item + tail;
    let at = prefix.len() as int;
    reveal_with_fuel(crate::bytes::byte_range, 5);
    crate::bytes::lemma_be_round_trip(n, 4);
    if n < 0x80 {
        assert(buf[at + 1] == n);
    } else {
        assert(buf[at + 1] == 0x84);
        assert(buf.subrange(at + 2, at + 6) =~= crate::bytes::be_bytes(n, 4));
    }
    assert(buf.subrange(item.len() - n, item.len() as int) =~= value);
}

/// A chain behind `prefix` is its first item followed by the rest.
proof fn lemma_chain_split(prefix: Seq<u8>, items: Seq<(u8, Seq<u8>)>, tail: Seq<u8>)
    requires
        items.len() > 0,
    ensures
        prefix + encoded_items(items) + tail == (prefix + seq![items[0].0] + encoded_len(
            items[0].1.len(),
        ) + items[0].1) + (encoded_items(items.drop_first()) + tail),
{
    let head = seq![items[0].0];
    let len = encoded_len(items[0].1.len());
    let value = items[0].1;
    let rest = encoded_items(items.drop_first());
    assert(encoded_items(items) == head + len + value + rest);
    assert(prefix + (head + len + value + rest) + tail =~= (prefix + head + len + value) + (rest
        + tail));
}

/// The items of a chain that stands behind `prefix`.
proof fn lemma_items_round_trip(prefix: Seq<u8>, items: Seq<(u8, Seq<u8>)>, tail: Seq<u8>)
    requires
        tail.len() > 0,
        tail[0] == TAG_EOL,
        forall|i: int|
            0 <= i < items.len() ==> (#[trigger] items[i]).0 != TAG_EOL && items[i].1.len()
                < 0x1_0000_0000,
    ensures
        tlv_items(prefix + encoded_items(items) + tail, prefix.len() as int) == items,
    decreases items.len(),
{
    let buf = prefix + encoded_items(items) + tail;
    let at = prefix.len() as int;
    if items.len() == 0 {
        assert(buf[at] == TAG_EOL);
        assert(tlv_items(buf, at) =~= items);
    } else {
        let (tag, value) = items[0];
        let rest = items.drop_first();
        assert(items[0].0 != TAG_EOL && items[0].1.len() < 0x1_0000_0000);
        assert forall|i: int| 0 <= i < rest.len() implies (#[trigger] rest[i]).0 != TAG_EOL
            && rest[i].1.len() < 0x1_0000_0000 by {
            assert(rest[i] == items[i + 1]);
        }
        let longer = prefix + seq![tag] + encoded_len(value.len()) + value;
        let behind = encoded_items(rest) + tail;
        lemma_chain_split(prefix, items, tail);
        lemma_item_at(prefix, tag, value, behind);
        lemma_items_round_trip(longer, rest, tail);
        assert(longer + encoded_items(rest) + tail =~= longer + behind);
        assert(tlv_items(buf, longer.len() as int) == rest);
        assert(seq![(tag, value)] + rest =~= items);
    }
}

/// Reading a status datagram gives back the items it was made of: values of any
/// length that the format can state, in short or long form, and whatever
/// follows the end tag.
pub proof fn law_status_round_trip(items: Seq<(u8, Seq<u8>)>, trailer: Seq<u8>)
    requires
        forall|i: int|
            0 <= i < items.len() ==> (#[trigger] items[i]).0 != TAG_EOL && items[i].1.len()
                < 0x1_0000_0000,
    ensures
        status_items(status_datagram(items, trailer)) == items,
{
    let start = seq![PKT_STATUS];
    let tail = seq![TAG_EOL] + trailer;
    lemma_items_round_trip(start, items, tail);
    assert(status_datagram(items, trailer) =~= start + encoded_items(items) + tail);
}

/// The big-endian bytes of `n` with leading zero bytes suppressed; none for 0.
pub open spec fn suppressed(n: nat) -> Seq<u8>
    decreases n,
{
    if n == 0 {
        Seq::empty()
    } else {
        suppressed(n / 256).push((n % 256) as u8)
    }
}

/// Leading-zero suppression loses nothing: with its leading zeros suppressed or
/// any number of them kept, a value decodes to itself.
pub proof fn law_suppressed_value_decodes(n: nat, zeros: nat)
    ensures
        crate::bytes::be_value(Seq::new(zeros, |i: int| 0u8) + suppressed(n)) == n,
        n < 0x1_0000_0000 ==> low32(Seq::new(zeros, |i: int| 0u8) + suppressed(n)) == n,
        n < 0x1_0000_0000_0000_0000 ==> low64(Seq::new(zeros, |i: int| 0u8) + suppressed(n)) == n,
        n < 0x100 ==> low8(Seq::new(zeros, |i: int| 0u8) + suppressed(n)) == n,
    decreases n, zeros,
{
    let pad = Seq::new(zeros, |i: int| 0u8);
    let all = pad + suppressed(n);
    if n > 0 {
        law_suppressed_value_decodes(n / 256, zeros);
        assert(all.drop_last() =~= pad + suppressed(n / 256));
    } else if zeros > 0 {
        law_suppressed_value_decodes(n, (zeros - 1) as nat);
        assert(all.drop_last() =~= Seq::new((zeros - 1) as nat, |i: int| 0u8) + suppressed(n));
    } else {
        assert(all =~= Seq::empty());
    }
}

/// After a packet each field of its channel is what the packet brings for it,
/// whatever was there before; a field that the packet does not bring stays, or is
/// zero where the channel is new.
pub proof fn law_packets_replace_what_they_bring(
    map: Map<u32, ChannelInfo>,
    update: StatusUpdate,
    ssrc: u32,
)
    requires
        update.ssrc == Some(ssrc),
    ensures
        ({
            let after = map_after(map, update);
            let now = after[ssrc];
            let new = !map.contains_key(ssrc);
            let was = map[ssrc];
            &&& after.contains_key(ssrc)
            &&& update.pt matches Some(v) ==> now.pt == v
            &&& update.center_freq_bits matches Some(v) ==> now.center_freq_bits == v
            &&& update.sample_rate_hz matches Some(v) ==> now.sample_rate_hz == v
            &&& update.channels matches Some(v) ==> now.channels == v
            &&& update.encoding matches Some(v) ==> now.encoding == v
            &&& update.pt is None ==> now.pt == if new {
                0
            } else {
                was.pt
            }
            &&& update.center_freq_bits is None ==> now.center_freq_bits == if new {
                0
            } else {
                was.center_freq_bits
            }
            &&& update.sample_rate_hz is None ==> now.sample_rate_hz == if new {
                0
            } else {
                was.sample_rate_hz
            }
            &&& update.channels is None ==> now.channels == if new {
                0
            } else {
                was.channels
            }
            &&& update.encoding is None ==> now.encoding == if new {
                0
            } else {
                was.encoding
            }
        }),
{
}

/// The last item with a tag gives that tag's value.
proof fn lemma_last_value_is(items: Seq<(u8, Seq<u8>)>, k: int)
    requires
        0 <= k < items.len(),
        forall|j: int| k < j < items.len() ==> (#[trigger] items[j]).0 != items[k].0,
    ensures
        last_value(items, items[k].0) == Some(items[k].1),
    decreases items.len(),
{
    if k < items.len() - 1 {
        let head = items.drop_last();
        assert(items[items.len() - 1].0 != items[k].0);
        assert forall|j: int| k < j < head.len() implies (#[trigger] head[j]).0 != head[k].0 by {
            assert(items[j].0 != items[k].0);
        }
        lemma_last_value_is(head, k);
    }
}

/// The first item with a tag gives that tag's first value.
proof fn lemma_first_value_is(items: Seq<(u8, Seq<u8>)>, k: int)
    requires
        0 <= k < items.len(),
        forall|j: int| 0 <= j < k ==> (#[trigger] items[j]).0 != items[k].0,
    ensures
        first_value(items, items[k].0) == Some(items[k].1),
    decreases items.len(),
{
    if k > 0 {
        let rest = items.drop_first();
        assert(items[0].0 != items[k].0);
        assert forall|j: int| 0 <= j < k - 1 implies (#[trigger] rest[j]).0 != rest[k - 1].0 by {
            assert(items[j + 1].0 != items[k].0);
        }
        lemma_first_value_is(rest, k - 1);
    }
}

/// A tag that occurs in no item has no value.
proof fn lemma_no_value(items: Seq<(u8, Seq<u8>)>, tag: u8)
    requires
        forall|j: int| 0 <= j < items.len() ==> (#[trigger] items[j]).0 != tag,
    ensures
        last_value(items, tag) is None,
        first_value(items, tag) is None,
    decreases items.len(),
{
    lemma_first_and_last_value(items, tag);
    if last_value(items, tag) is Some {
        lemma_last_value_witness(items, tag);
    }
}

/// Each field of an update comes from the last item with its tag: 18 is the
/// SSRC, 20 the sample rate, 33 the frequency, 49 the channel count, 105 the
/// payload type and 107 the encoding.  The value is the item's number, kept to
/// the width of the field.
pub proof fn law_fields_come_from_their_tags(items: Seq<(u8, Seq<u8>)>, k: int)
    requires
        0 <= k < items.len(),
        forall|j: int| k < j < items.len() ==> (#[trigger] items[j]).0 != items[k].0,
    ensures
        ({
            let (tag, bytes) = items[k];
            let value = crate::bytes::be_value(bytes) as int;
            let update = update_from(items);
            &&& tag == 18 ==> update.ssrc is Some && update.ssrc->0 == value % 0x1_0000_0000
            &&& tag == 20 ==> update.sample_rate_hz is Some && update.sample_rate_hz->0 == value % 0x1_0000_0000
            &&& tag == 33 ==> update.center_freq_bits is Some && update.center_freq_bits->0 == value % 0x1_0000_0000_0000_0000
            &&& tag == 49 ==> update.channels is Some && update.channels->0 == value % 0x100
            &&& tag == 105 ==> update.pt is Some && update.pt->0 == value % 0x100
            &&& tag == 107 ==> update.encoding is Some && update.encoding->0 == value % 0x100
        }),
{
    lemma_last_value_is(items, k);
}

/// A field whose tag occurs in no item is not brought.
pub proof fn law_absent_tags_bring_nothing(items: Seq<(u8, Seq<u8>)>, tag: u8)
    requires
        forall|j: int| 0 <= j < items.len() ==> (#[trigger] items[j]).0 != tag,
    ensures
        tag == 18 ==> update_from(items).ssrc is None && peeked(items) is None,
        tag == 20 ==> update_from(items).sample_rate_hz is None,
        tag == 33 ==> update_from(items).center_freq_bits is None,
        tag == 49 ==> update_from(items).channels is None,
        tag == 105 ==> update_from(items).pt is None,
        tag == 107 ==> update_from(items).encoding is None,
{
    lemma_no_value(items, tag);
}

/// Peeking finds the first SSRC.
pub proof fn law_peek_finds_the_first_ssrc(items: Seq<(u8, Seq<u8>)>, k: int)
    requires
        0 <= k < items.len(),
        items[k].0 == 18,
        forall|j: int| 0 <= j < k ==> (#[trigger] items[j]).0 != 18,
    ensures
        peeked(items) matches Some(v) && v == crate::bytes::be_value(items[k].1) as int
            % 0x1_0000_0000,
{
    lemma_first_value_is(items, k);
}

/// A length field for `n` in one of its forms: the number itself, or the count
/// of its bytes, 1 to 4, with the top bit set, and the bytes.
pub open spec fn length_field(n: nat, form: nat) -> Seq<u8> {
    if form == 0 {
        seq![n as u8]
    } else {
        seq![(128 + form) as u8] + crate::bytes::be_bytes(n, form)
    }
}

/// Whether `n` can be written in a form.
pub open spec fn form_holds(n: nat, form: nat) -> bool {
    ||| form == 0 && n < 0x80
    ||| form == 1 && n < 0x100
    ||| form == 2 && n < 0x1_0000
    ||| form == 3 && n < 0x100_0000
    ||| form == 4 && n < 0x1_0000_0000
}

/// An item, with the form of its length field.
pub struct WrittenItem {
    pub tag: u8,
    pub form: nat,
    pub value: Seq<u8>,
}

/// The bytes of an item: its tag, its length and its value.
pub open spec fn item_bytes(item: WrittenItem) -> Seq<u8> {
    seq![item.tag] + length_field(item.value.len(), item.form) + item.value
}

/// The bytes of a chain of items, one behind the other.
pub open spec fn chain_bytes(chain: Seq<WrittenItem>) -> Seq<u8>
    decreases chain.len(),
{
    if chain.len() == 0 {
        Seq::empty()
    } else {
        item_bytes(chain[0]) + chain_bytes(chain.drop_first())
    }
}

/// The tags and values of a chain.
pub open spec fn chain_items(chain: Seq<WrittenItem>) -> Seq<(u8, Seq<u8>)> {
    chain.map_values(|item: WrittenItem| (item.tag, item.value))
}

/// Whether a chain ends before `tail`: nothing follows, or the end tag 0, or an
/// item whose length field is cut off or malformed, or whose value is cut off.
pub open spec fn chain_ends(tail: Seq<u8>) -> bool {
    let first = tail[1];
    let count = first - 128;
    ||| tail.len() == 0
    ||| tail[0] == 0
    ||| tail.len() == 1
    ||| first < 128 && 2 + first > tail.len()
    ||| first == 128
    ||| first > 132
    ||| first > 128 && 2 + count > tail.len()
    ||| first > 128 && 2 + count + crate::bytes::be_value(tail.subrange(2, 2 + count))
        > tail.len()
}

/// A length field that stands anywhere in a buffer is read in every form, and
/// reading goes on behind it.
pub proof fn law_length_fields_read_back(
    before: Seq<u8>,
    n: nat,
    form: nat,
    behind: Seq<u8>,
)
    requires
        form_holds(n, form),
    ensures
        tlv_len(before + length_field(n, form) + behind, before.len() as int) == Some(
            (n as int, (before.len() + 1 + form) as int),
        ),
{
    let buf = before + length_field(n, form) + behind;
    let at = before.len() as int;
    reveal_with_fuel(crate::bytes::byte_range, 5);
    if form > 0 {
        crate::bytes::lemma_be_round_trip(n, form);
        assert(buf[at] == 128 + form);
        assert(buf.subrange(at + 1, at + 1 + form) =~= crate::bytes::be_bytes(n, form));
    } else {
        assert(buf[at] == n);
    }
}

/// A length field is refused exactly where it is cut off, counts no bytes, or
/// counts more than 4.
pub proof fn law_bad_length_fields_are_refused(buf: Seq<u8>, pos: int)
    requires
        0 <= pos,
    ensures
        tlv_len(buf, pos) is None <==> {
            ||| pos >= buf.len()
            ||| buf[pos] == 128
            ||| buf[pos] > 132
            ||| buf[pos] > 128 && pos + 1 + (buf[pos] - 128) > buf.len()
        },
{
}

/// One item that stands behind `before` is read as its tag and its value.
proof fn lemma_item_reads_back(before: Seq<u8>, item: WrittenItem, behind: Seq<u8>)
    requires
        item.tag != 0,
        form_holds(item.value.len(), item.form),
    ensures
        ({
            let buf = before + item_bytes(item) + behind;
            let next = (before + item_bytes(item)).len() as int;
            tlv_items(buf, before.len() as int) == seq![(item.tag, item.value)] + tlv_items(buf, next)
        }),
{
    let n = item.value.len();
    let field = length_field(n, item.form);
    let buf = before + item_bytes(item) + behind;
    let at = before.len() as int;
    reveal_with_fuel(crate::bytes::byte_range, 5);
    if item.form > 0 {
        crate::bytes::lemma_be_round_trip(n, item.form);
    }
    assert(field.len() == 1 + item.form);
    law_length_fields_read_back(before + seq![item.tag], n, item.form, item.value + behind);
    assert(buf =~= (before + seq![item.tag]) + field + (item.value + behind));
    let value_at = at + 1 + field.len();
    assert(buf[at] == item.tag);
    assert(tlv_len(buf, at + 1) == Some((n as int, value_at)));
    assert(buf.subrange(value_at, value_at + n) =~= item.value);
}

/// Where a chain ends, nothing more is read.
proof fn lemma_chain_stops(before: Seq<u8>, tail: Seq<u8>)
    requires
        chain_ends(tail),
    ensures
        tlv_items(before + tail, before.len() as int).len() == 0,
{
    let buf = before + tail;
    let at = before.len() as int;
    if tail.len() > 0 {
        assert(buf[at] == tail[0]);
    }
    if tail.len() > 1 {
        assert(buf[at + 1] == tail[1]);
        let count = tail[1] - 128;
        if 0 < count <= 4 && 2 + count <= tail.len() {
            assert(buf.subrange(at + 2, at + 2 + count) =~= tail.subrange(2, 2 + count));
        }
    }
}

/// A chain that stands behind `before` is read as its items.
proof fn lemma_chain_reads_back(before: Seq<u8>, chain: Seq<WrittenItem>, tail: Seq<u8>)
    requires
        chain_ends(tail),
        forall|i: int|
            0 <= i < chain.len() ==> (#[trigger] chain[i]).tag != 0 && form_holds(
                chain[i].value.len(),
                chain[i].form,
            ),
    ensures
        tlv_items(before + chain_bytes(chain) + tail, before.len() as int) == chain_items(chain),
    decreases chain.len(),
{
    let buf = before + chain_bytes(chain) + tail;
    let at = before.len() as int;
    if chain.len() == 0 {
        assert(buf =~= before + tail);
        lemma_chain_stops(before, tail);
        assert(tlv_items(buf, at) =~= chain_items(chain));
    } else {
        let item = chain[0];
        let rest = chain.drop_first();
        assert(chain[0].tag != 0 && form_holds(chain[0].value.len(), chain[0].form));
        assert forall|i: int| 0 <= i < rest.len() implies (#[trigger] rest[i]).tag != 0
            && form_holds(rest[i].value.len(), rest[i].form) by {
            assert(rest[i] == chain[i + 1]);
        }
        let longer = before + item_bytes(item);
        let behind = chain_bytes(rest) + tail;
        lemma_chain_reads_back(longer, rest, tail);
        lemma_item_reads_back(before, item, behind);
        assert(chain_bytes(chain) == item_bytes(item) + chain_bytes(rest));
        assert(buf =~= longer + chain_bytes(rest) + tail);
        assert(buf =~= longer + behind);
        assert(chain_items(chain) =~= seq![(item.tag, item.value)] + chain_items(rest));
    }
}

/// A status datagram reads back as the items it was written from: type byte 0,
/// then the items, with their lengths in any form, up to where the chain ends.
pub proof fn law_written_chains_read_back(chain: Seq<WrittenItem>, tail: Seq<u8>)
    requires
        chain_ends(tail),
        forall|i: int|
            0 <= i < chain.len() ==> (#[trigger] chain[i]).tag != 0 && form_holds(
                chain[i].value.len(),
                chain[i].form,
            ),
    ensures
        status_items(seq![0u8] + chain_bytes(chain) + tail) == chain_items(chain),
{
    lemma_chain_reads_back(seq![0u8], chain, tail);
}

/// A datagram of another type than 0 has no items.
pub proof fn law_other_datagrams_say_nothing(buf: Seq<u8>)
    requires
        buf.len() == 0 || buf[0] != 0,
    ensures
        status_items(buf).len() == 0,
{
}

/// A channel is ready exactly where it is mono, with a sample rate and with a
/// frequency that is a positive double: its bits are above those of zero and at
/// most those of infinity.
pub proof fn law_ready_channels_are_mono_and_tuned(info: ChannelInfo)
    ensures
        info.audio_ready() <==> info.channels == 1 && info.sample_rate_hz >= 1 && 1
            <= info.center_freq_bits <= 0x7FF0_0000_0000_0000,
{
}

/// An event tells the channel that a packet described, as the map holds it
/// afterwards; a packet without an SSRC is ignored and leaves the map alone.
pub proof fn law_events_tell_the_channel(map: Map<u32, ChannelInfo>, items: Seq<(u8, Seq<u8>)>)
    ensures
        ({
            let update = update_from(items);
            let after = map_after(map, update);
            match event_for(map, items) {
                StatusEvent::Ignored => update.ssrc is None && after == map,
                StatusEvent::Ready { ssrc, info } => update.ssrc == Some(ssrc)
                    && after.contains_key(ssrc) && info == after[ssrc] && info.audio_ready(),
                StatusEvent::Update { ssrc, info } => update.ssrc == Some(ssrc)
                    && after.contains_key(ssrc) && info == after[ssrc],
            }
        }),
{
}

} // verus!
