//! RTP packet parsing for ka9q-radio audio streams.
//!
//! Every payload type is accepted; which streams are captured is decided from
//! the per-SSRC metadata of the status stream.  The fixed header is 12 bytes
//! (RFC 3550, section 5.1).  A CSRC list and a header extension are skipped.

use vstd::prelude::*;

use crate::bytes::{be16, be32};
use crate::error::WsprError;

verus! {

/// Length of the RTP fixed header in bytes.
pub const FIXED_HEADER_LEN: usize = 12;

/// Decoded RTP fixed header fields.
#[derive(Debug, Clone, Copy, PartialEq, Eq, Structural)]
pub struct RtpHeader {
    /// RTP version, always 2 in an accepted packet.
    pub version: u8,
    /// Padding bit.
    pub padding: bool,
    /// Extension bit.
    pub extension: bool,
    /// Number of CSRC identifiers following the fixed header.
    pub csrc_count: u8,
    /// Marker bit.
    pub marker: bool,
    /// Payload type identifier.
    pub payload_type: u8,
    /// Sequence number (wraps at 65535).
    pub sequence: u16,
    /// Timestamp in sample clock ticks.
    pub timestamp: u32,
    /// Synchronisation source identifier.
    pub ssrc: u32,
}

/// A parsed RTP packet; `payload` points into the datagram it came from.
#[derive(Debug)]
pub struct RtpPacket<'buf> {
    /// Decoded fixed header.
    pub header: RtpHeader,
    /// Raw payload bytes.
    pub payload: &'buf [u8],
}

/// The header that the first 12 bytes of `buf` hold.
pub open spec fn header_of(buf: Seq<u8>) -> RtpHeader {
    RtpHeader {
        version: (buf[0] / 64) as u8,
        padding: buf[0] / 32 % 2 == 1,
        extension: buf[0] / 16 % 2 == 1,
        csrc_count: (buf[0] % 16) as u8,
        marker: buf[1] / 128 == 1,
        payload_type: (buf[1] % 128) as u8,
        sequence: crate::bytes::be_value(buf.subrange(2, 4)) as u16,
        timestamp: crate::bytes::be_value(buf.subrange(4, 8)) as u32,
        ssrc: crate::bytes::be_value(buf.subrange(8, 12)) as u32,
    }
}

/// Where the CSRC list ends.
pub open spec fn csrc_end(buf: Seq<u8>) -> int {
    FIXED_HEADER_LEN + header_of(buf).csrc_count * 4
}

/// Whether the 4-byte extension header, where one is announced, lies in `buf`.
pub open spec fn extension_header_fits(buf: Seq<u8>) -> bool {
    header_of(buf).extension ==> csrc_end(buf) + 4 <= buf.len()
}

/// Where the payload starts: behind the fixed header, the CSRC list and the
/// extension block, whose length is a count of 32-bit words.
pub open spec fn payload_start(buf: Seq<u8>) -> int {
    if header_of(buf).extension {
        let words = crate::bytes::be_value(
            buf.subrange(csrc_end(buf) + 2, csrc_end(buf) + 4),
        ) as int;
        csrc_end(buf) + 4 + words * 4
    } else {
        csrc_end(buf)
    }
}

/// Whether `buf` is a complete version 2 packet.
pub open spec fn is_rtp_packet(buf: Seq<u8>) -> bool {
    &&& buf.len() >= FIXED_HEADER_LEN
    &&& header_of(buf).version == 2
    &&& extension_header_fits(buf)
    &&& payload_start(buf) <= buf.len()
}

/// The error for a datagram that is no RTP packet.
pub open spec fn rtp_error(buf: Seq<u8>) -> WsprError {
    if buf.len() >= FIXED_HEADER_LEN && header_of(buf).version != 2 {
        WsprError::UnsupportedRtpVersion(header_of(buf).version)
    } else {
        WsprError::PacketTooShort(buf.len() as usize)
    }
}

/// Parses a raw UDP datagram into an [`RtpPacket`], whatever its payload type.
///
/// # Errors
///
/// * [`WsprError::PacketTooShort`] if the buffer is shorter than 12 bytes or
///   the CSRC or extension block overruns it
/// * [`WsprError::UnsupportedRtpVersion`] if the version field is not 2
pub fn parse_rtp_packet(buf: &[u8]) -> (r: Result<RtpPacket<'_>, WsprError>)
    ensures
        r is Ok <==> is_rtp_packet(buf@),
        r matches Ok(packet) ==> {
            &&& packet.header == header_of(buf@)
            &&& packet.payload@ == buf@.skip(payload_start(buf@))
        },
        r matches Err(e) ==> e == rtp_error(buf@),
{
    if buf.len() < FIXED_HEADER_LEN {
        return Err(WsprError::PacketTooShort(buf.len()));
    }
    let b0: u8 = buf[0];
    let b1: u8 = buf[1];
    proof {
        assert((b0 >> 6) & 0x03 == b0 / 64 && ((b0 & 0x20) != 0 <==> b0 / 32 % 2 == 1) && ((b0
            & 0x10) != 0 <==> b0 / 16 % 2 == 1) && b0 & 0x0F == b0 % 16) by (bit_vector);
        assert(((b1 & 0x80) != 0 <==> b1 / 128 == 1) && b1 & 0x7F == b1 % 128) by (bit_vector);
    }
    // Byte 0: V(2) P(1) X(1) CC(4)
    let version: u8 = (b0 >> 6) & 0x03;
    let padding: bool = (b0 & 0x20) != 0;
    let extension: bool = (b0 & 0x10) != 0;
    let csrc_count: u8 = b0 & 0x0F;

    if version != 2 {
        return Err(WsprError::UnsupportedRtpVersion(version));
    }
    // Byte 1: M(1) PT(7)
    let marker: bool = (b1 & 0x80) != 0;
    let payload_type: u8 = b1 & 0x7F;

    let header = RtpHeader {
        version,
        padding,
        extension,
        csrc_count,
        marker,
        payload_type,
        sequence: be16(buf, 2),
        timestamp: be32(buf, 4),
        ssrc: be32(buf, 8),
    };
    assert(header == header_of(buf@));

    let mut pos: usize = FIXED_HEADER_LEN + csrc_count as usize * 4;

    if extension {
        if pos + 4 > buf.len() {
            return Err(WsprError::PacketTooShort(buf.len()));
        }
        // The extension's length in 32-bit words is in bytes 2 and 3 of its header.
        let words: usize = be16(buf, pos + 2) as usize;
        pos = pos + 4 + words * 4;
    }
    if pos > buf.len() {
        return Err(WsprError::PacketTooShort(buf.len()));
    }
    let payload: &[u8] = vstd::slice::slice_subrange(buf, pos, buf.len());
    Ok(RtpPacket { header, payload })
}

/// The datagram with header `h`, CSRC entries `csrcs`, extension block
/// `extension` (2 profile bytes and its words) and `payload`.
pub open spec fn rtp_datagram(
    h: RtpHeader,
    csrcs: Seq<u8>,
    extension: Option<(Seq<u8>, Seq<u8>)>,
    payload: Seq<u8>,
) -> Seq<u8> {
    let flags = h.version * 64 + (if h.padding { 32int } else { 0 }) + (if h.extension {
        16int
    } else {
        0
    }) + h.csrc_count;
    let kind = (if h.marker { 128int } else { 0 }) + h.payload_type;
    let block = match extension {
        Some((profile, words)) => profile + crate::bytes::be_bytes(words.len() / 4, 2) + words,
        None => Seq::<u8>::empty(),
    };
    seq![flags as u8, kind as u8] + crate::bytes::be_bytes(h.sequence as nat, 2)
        + crate::bytes::be_bytes(h.timestamp as nat, 4) + crate::bytes::be_bytes(h.ssrc as nat, 4)
        + csrcs + block + payload
}

/// Parsing undoes framing: a datagram made of a version 2 header, a CSRC list,
/// an optional extension block and a payload is accepted, and the parser finds
/// that header and exactly that payload in it.
pub proof fn law_parse_undoes_framing(
    h: RtpHeader,
    csrcs: Seq<u8>,
    extension: Option<(Seq<u8>, Seq<u8>)>,
    payload: Seq<u8>,
)
    requires
        h.version == 2,
        h.csrc_count < 16,
        h.payload_type < 128,
        csrcs.len() == h.csrc_count * 4,
        h.extension <==> extension is Some,
        extension matches Some((profile, words)) ==> {
            &&& profile.len() == 2
            &&& words.len() % 4 == 0
            &&& words.len() / 4 < 0x1_0000
        },
    ensures
        is_rtp_packet(rtp_datagram(h, csrcs, extension, payload)),
        header_of(rtp_datagram(h, csrcs, extension, payload)) == h,
        rtp_datagram(h, csrcs, extension, payload).skip(
            payload_start(rtp_datagram(h, csrcs, extension, payload)),
        ) == payload,
{
    let d = rtp_datagram(h, csrcs, extension, payload);
    reveal_with_fuel(crate::bytes::byte_range, 5);
    crate::bytes::lemma_be_round_trip(h.sequence as nat, 2);
    crate::bytes::lemma_be_round_trip(h.timestamp as nat, 4);
    crate::bytes::lemma_be_round_trip(h.ssrc as nat, 4);
    assert(d.subrange(2, 4) =~= crate::bytes::be_bytes(h.sequence as nat, 2));
    assert(d.subrange(4, 8) =~= crate::bytes::be_bytes(h.timestamp as nat, 4));
    assert(d.subrange(8, 12) =~= crate::bytes::be_bytes(h.ssrc as nat, 4));
    assert(header_of(d) == h);
    if let Some((profile, words)) = extension {
        crate::bytes::lemma_be_round_trip(words.len() / 4, 2);
        let at = csrc_end(d);
        assert(d.subrange(at + 2, at + 4) =~= crate::bytes::be_bytes(words.len() / 4, 2));
    }
    assert(d.skip(payload_start(d)) =~= payload);
}

/// Only framed packets are accepted: every accepted datagram is a version 2
/// header, its CSRC list, its extension block where it has one, and the payload
/// that the parser finds.
pub proof fn law_accepted_packets_are_framed(buf: Seq<u8>)
    requires
        is_rtp_packet(buf),
    ensures
        ({
            let h = header_of(buf);
            let csrcs_end = 12 + 4 * h.csrc_count;
            let csrcs = buf.subrange(12, csrcs_end);
            let payload = buf.skip(payload_start(buf));
            let extension = if h.extension {
                Some(
                    (
                        buf.subrange(csrcs_end, csrcs_end + 2),
                        buf.subrange(csrcs_end + 4, payload_start(buf)),
                    ),
                )
            } else {
                None
            };
            &&& h.version == 2
            &&& h.csrc_count < 16
            &&& h.payload_type < 128
            &&& csrcs_end <= payload_start(buf) <= buf.len()
            &&& h.extension ==> csrcs_end + 4 <= payload_start(buf)
            &&& buf == rtp_datagram(h, csrcs, extension, payload)
        }),
{
    let h = header_of(buf);
    let end = 12 + 4 * h.csrc_count;
    crate::bytes::law_be_bytes_undo_be_value(buf.subrange(2, 4));
    crate::bytes::law_be_bytes_undo_be_value(buf.subrange(4, 8));
    crate::bytes::law_be_bytes_undo_be_value(buf.subrange(8, 12));
    reveal_with_fuel(crate::bytes::byte_range, 5);
    crate::bytes::lemma_be_value_bound(buf.subrange(2, 4));
    crate::bytes::lemma_be_value_bound(buf.subrange(4, 8));
    crate::bytes::lemma_be_value_bound(buf.subrange(8, 12));
    let csrcs = buf.subrange(12, end);
    let payload = buf.skip(payload_start(buf));
    let start = seq![buf[0], buf[1]] + buf.subrange(2, 4) + buf.subrange(4, 8) + buf.subrange(8, 12);
    if h.extension {
        let count = buf.subrange(end + 2, end + 4);
        crate::bytes::law_be_bytes_undo_be_value(count);
        let profile = buf.subrange(end, end + 2);
        let words = buf.subrange(end + 4, payload_start(buf));
        assert(words.len() / 4 == crate::bytes::be_value(count));
        assert(buf =~= start + csrcs + (profile + count + words) + payload);
    } else {
        assert(buf =~= start + csrcs + Seq::<u8>::empty() + payload);
    }
}

/// What is refused, and why: fewer than 12 bytes are too short, another version
/// than 2 is unsupported, and whatever else is refused is too short for what its
/// header announces.
pub proof fn law_refusals_tell_their_reason(buf: Seq<u8>)
    requires
        buf.len() <= usize::MAX,
    ensures
        buf.len() < 12 ==> !is_rtp_packet(buf) && rtp_error(buf) == WsprError::PacketTooShort(
            buf.len() as usize,
        ),
        buf.len() >= 12 && buf[0] / 64 != 2 ==> !is_rtp_packet(buf) && rtp_error(buf)
            == WsprError::UnsupportedRtpVersion((buf[0] / 64) as u8),
        buf.len() >= 12 && buf[0] / 64 == 2 && !is_rtp_packet(buf) ==> rtp_error(buf)
            == WsprError::PacketTooShort(buf.len() as usize),
{
}

/// Each field of a header stands in its own bits of the first 12 bytes, numbers
/// of more than a byte with the most significant first.
pub proof fn law_header_fields_stand_in_their_places(buf: Seq<u8>)
    requires
        buf.len() >= 12,
    ensures
        ({
            let h = header_of(buf);
            &&& h.version * 64 + (if h.padding {
                32int
            } else {
                0
            }) + (if h.extension {
                16int
            } else {
                0
            }) + h.csrc_count == buf[0]
            &&& h.version < 4 && h.csrc_count < 16
            &&& (if h.marker {
                128int
            } else {
                0
            }) + h.payload_type == buf[1]
            &&& h.payload_type < 128
            &&& h.sequence == buf[2] * 256 + buf[3]
            &&& h.timestamp == buf[4] * 16_777_216 + buf[5] * 65_536 + buf[6] * 256 + buf[7]
            &&& h.ssrc == buf[8] * 16_777_216 + buf[9] * 65_536 + buf[10] * 256 + buf[11]
        }),
{
    reveal_with_fuel(crate::bytes::be_value, 5);
    let seq2 = buf.subrange(2, 4);
    let ts = buf.subrange(4, 8);
    let id = buf.subrange(8, 12);
    assert(seq2.drop_last().last() == buf[2]);
    assert(ts.drop_last().last() == buf[6]);
    assert(ts.drop_last().drop_last().last() == buf[5]);
    assert(ts.drop_last().drop_last().drop_last().last() == buf[4]);
    assert(id.drop_last().last() == buf[10]);
    assert(id.drop_last().drop_last().last() == buf[9]);
    assert(id.drop_last().drop_last().drop_last().last() == buf[8]);
}

/// The payload starts behind the 12 bytes of the header, 4 bytes for each CSRC
/// entry and, where there is an extension, its 4 bytes and the words that it
/// counts in the last two of them.
pub proof fn law_payload_starts_behind_the_header(buf: Seq<u8>)
    requires
        buf.len() >= 12,
    ensures
        ({
            let at = 12 + 4 * (buf[0] as int % 16);
            &&& buf[0] / 16 % 2 == 0 ==> payload_start(buf) == at
            &&& buf[0] / 16 % 2 == 1 && at + 4 <= buf.len() ==> payload_start(buf) == at + 4 + 4 * (
            buf[at + 2] * 256 + buf[at + 3])
            &&& is_rtp_packet(buf) <==> buf[0] / 64 == 2 && payload_start(buf) <= buf.len() && (
            buf[0] / 16 % 2 == 1 ==> at + 4 <= buf.len())
        }),
{
    let at = 12 + 4 * (buf[0] as int % 16);
    reveal_with_fuel(crate::bytes::be_value, 3);
    if at + 4 <= buf.len() {
        let count = buf.subrange(at + 2, at + 4);
        assert(count.drop_last().last() == buf[at + 2]);
    }
}

} // verus!
