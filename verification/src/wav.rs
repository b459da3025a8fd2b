//! RIFF/WAVE files: the form in which `wsprd` takes its audio.

use crate::buffer::AudioWindow;
use crate::bytes::{push_le16, push_le32};
use vstd::prelude::*;

verus! {

/// Bytes of the header that stands before the samples.
pub const HEADER_LEN: usize = 44;

/// Bytes of the header that the RIFF size counts.
pub const RIFF_OVERHEAD: u32 = 36;

/// Bytes of the format chunk.
pub const FORMAT_LEN: u32 = 16;

/// Format tag of linear PCM.
pub const FORMAT_PCM: u16 = 1;

/// Channels: mono.
pub const NUM_CHANNELS: u16 = 1;

/// Bits of one sample.
pub const BITS_PER_SAMPLE: u16 = 16;

/// Bytes of one sample.
pub const BLOCK_ALIGN: u16 = 2;

/// The number whose bits are those of `sample`.
pub open spec fn sample_bits(sample: i16) -> nat {
    (if sample < 0 {
        sample + 0x1_0000
    } else {
        sample as int
    }) as nat
}

/// The samples, two little-endian bytes each.
pub open spec fn pcm_bytes(pcm: Seq<i16>) -> Seq<u8> {
    Seq::new(
        2 * pcm.len(),
        |i: int| crate::bytes::le_bytes(sample_bits(pcm[i / 2]), 2)[i % 2],
    )
}

/// The header of a mono 16-bit file of `data_size` bytes of samples.
pub open spec fn wav_header(sample_rate_hz: nat, data_size: nat) -> Seq<u8> {
    seq!['R' as u8, 'I' as u8, 'F' as u8, 'F' as u8]
        + crate::bytes::le_bytes(RIFF_OVERHEAD as nat + data_size, 4)
        + seq!['W' as u8, 'A' as u8, 'V' as u8, 'E' as u8]
        + seq!['f' as u8, 'm' as u8, 't' as u8, ' ' as u8]
        + crate::bytes::le_bytes(FORMAT_LEN as nat, 4)
        + crate::bytes::le_bytes(FORMAT_PCM as nat, 2)
        + crate::bytes::le_bytes(NUM_CHANNELS as nat, 2)
        + crate::bytes::le_bytes(sample_rate_hz, 4)
        + crate::bytes::le_bytes(sample_rate_hz * BLOCK_ALIGN as nat, 4)
        + crate::bytes::le_bytes(BLOCK_ALIGN as nat, 2)
        + crate::bytes::le_bytes(BITS_PER_SAMPLE as nat, 2)
        + seq!['d' as u8, 'a' as u8, 't' as u8, 'a' as u8]
        + crate::bytes::le_bytes(data_size, 4)
}

/// The file that holds the samples `pcm` at `sample_rate_hz`.
pub open spec fn wav_file(sample_rate_hz: nat, pcm: Seq<i16>) -> Seq<u8> {
    wav_header(sample_rate_hz, pcm.len() * BLOCK_ALIGN as nat) + pcm_bytes(pcm)
}

/// Whether the sizes and rates in the header of such a file fit their 32 bits.
pub open spec fn wav_fits(sample_rate_hz: nat, capacity: nat) -> bool {
    &&& sample_rate_hz * BLOCK_ALIGN <= u32::MAX
    &&& capacity * BLOCK_ALIGN + RIFF_OVERHEAD <= u32::MAX
}

/// Whether the header fields for `window` fit their 32 bits.
pub fn fits_wav(window: &AudioWindow) -> (r: bool)
    requires
        window.wf(),
    ensures
        r == wav_fits(window@.sample_rate_hz as nat, window@.pcm.len()),
{
    window.sample_rate_hz as u64 * BLOCK_ALIGN as u64 <= u32::MAX as u64
        && window.capacity_samples as u128 * BLOCK_ALIGN as u128 + RIFF_OVERHEAD as u128
        <= u32::MAX as u128
}

/// Appends four characters as a chunk name.
fn push_tag(out: &mut Vec<u8>, a: u8, b: u8, c: u8, d: u8)
    ensures
        final(out)@ == old(out)@ + seq![a, b, c, d],
{
    out.push(a);
    out.push(b);
    out.push(c);
    out.push(d);
    assert(out@ =~= old(out)@ + seq![a, b, c, d]);
}

/// The bits of `sample` as an unsigned number.
fn bits_of(sample: i16) -> (r: u16)
    ensures
        r == sample_bits(sample),
{
    if sample < 0 {
        (sample as i32 + 0x1_0000) as u16
    } else {
        sample as u16
    }
}

/// The bytes of a standard RIFF/WAVE file with the samples of `window`: 16-bit
/// signed PCM, mono, at the window's sample rate.
pub fn wav_bytes(window: &AudioWindow) -> (r: Vec<u8>)
    requires
        window.wf(),
        wav_fits(window@.sample_rate_hz as nat, window@.pcm.len()),
    ensures
        r@ == wav_file(window@.sample_rate_hz as nat, window@.pcm),
{
    let sample_rate: u32 = window.sample_rate_hz;
    let data_size: u32 = window.capacity_samples as u32 * BLOCK_ALIGN as u32;
    let byte_rate: u32 = sample_rate * BLOCK_ALIGN as u32;
    let mut out: Vec<u8> = Vec::new();
    push_tag(&mut out, 'R' as u8, 'I' as u8, 'F' as u8, 'F' as u8);
    push_le32(&mut out, RIFF_OVERHEAD + data_size);
    push_tag(&mut out, 'W' as u8, 'A' as u8, 'V' as u8, 'E' as u8);
    push_tag(&mut out, 'f' as u8, 'm' as u8, 't' as u8, ' ' as u8);
    push_le32(&mut out, FORMAT_LEN);
    push_le16(&mut out, FORMAT_PCM);
    push_le16(&mut out, NUM_CHANNELS);
    push_le32(&mut out, sample_rate);
    push_le32(&mut out, byte_rate);
    push_le16(&mut out, BLOCK_ALIGN);
    push_le16(&mut out, BITS_PER_SAMPLE);
    push_tag(&mut out, 'd' as u8, 'a' as u8, 't' as u8, 'a' as u8);
    push_le32(&mut out, data_size);
    let ghost header = wav_header(sample_rate as nat, data_size as nat);
    assert(out@ =~= header);
    let samples: &[i16] = window.samples();
    let mut i: usize = 0;
    while i < samples.len()
        invariant
            i <= samples@.len(),
            out@ == header + pcm_bytes(samples@.take(i as int)),
        decreases samples@.len() - i,
    {
        push_le16(&mut out, bits_of(samples[i]));
        proof {
            let done = samples@.take(i as int);
            let next = samples@.take(i + 1);
            reveal_with_fuel(crate::bytes::le_bytes, 3);
            assert(pcm_bytes(next) =~= pcm_bytes(done) + crate::bytes::le_bytes(
                sample_bits(samples@[i as int]),
                2,
            ));
        }
        i += 1;
    }
    assert(samples@.take(i as int) =~= samples@);
    out
}

/// The little-endian bytes of a number are as many as asked for.
proof fn lemma_le_len(n: nat, width: nat)
    ensures
        crate::bytes::le_bytes(n, width).len() == width,
    decreases width,
{
    if width > 0 {
        lemma_le_len(n / 256, (width - 1) as nat);
    }
}

/// The header is 44 bytes long, with its two sizes in their places.
proof fn lemma_header(sample_rate_hz: nat, data_size: nat)
    ensures
        ({
            let header = wav_header(sample_rate_hz, data_size);
            &&& header.len() == HEADER_LEN
            &&& header.subrange(4, 8) == crate::bytes::le_bytes(RIFF_OVERHEAD as nat + data_size, 4)
            &&& header.subrange(40, 44) == crate::bytes::le_bytes(data_size, 4)
        }),
{
    lemma_le_len(RIFF_OVERHEAD as nat + data_size, 4);
    lemma_le_len(FORMAT_LEN as nat, 4);
    lemma_le_len(FORMAT_PCM as nat, 2);
    lemma_le_len(NUM_CHANNELS as nat, 2);
    lemma_le_len(sample_rate_hz, 4);
    lemma_le_len(sample_rate_hz * BLOCK_ALIGN as nat, 4);
    lemma_le_len(BLOCK_ALIGN as nat, 2);
    lemma_le_len(BITS_PER_SAMPLE as nat, 2);
    lemma_le_len(data_size, 4);
    let header = wav_header(sample_rate_hz, data_size);
    assert(header.subrange(4, 8) =~= crate::bytes::le_bytes(RIFF_OVERHEAD as nat + data_size, 4));
    assert(header.subrange(40, 44) =~= crate::bytes::le_bytes(data_size, 4));
}

/// A file is its 44-byte header and two bytes for each sample.
pub proof fn law_wav_length(sample_rate_hz: nat, pcm: Seq<i16>)
    ensures
        wav_file(sample_rate_hz, pcm).len() == HEADER_LEN + 2 * pcm.len(),
{
    lemma_header(sample_rate_hz, pcm.len() * BLOCK_ALIGN as nat);
}

/// The bytes after the header, read as little-endian 16-bit samples, are the
/// samples that were written.
pub proof fn law_wav_samples_read_back(sample_rate_hz: nat, pcm: Seq<i16>, i: int)
    requires
        0 <= i < pcm.len(),
    ensures
        ({
            let file = wav_file(sample_rate_hz, pcm);
            crate::buffer::signed16(
                file[HEADER_LEN + 2 * i + 1] * 256 + file[HEADER_LEN + 2 * i],
            ) == pcm[i]
        }),
{
    lemma_header(sample_rate_hz, pcm.len() * BLOCK_ALIGN as nat);
    reveal_with_fuel(crate::bytes::le_bytes, 3);
    let body = pcm_bytes(pcm);
    let file = wav_file(sample_rate_hz, pcm);
    assert(file[HEADER_LEN + 2 * i] == body[2 * i]);
    assert(file[HEADER_LEN + 2 * i + 1] == body[2 * i + 1]);
    assert((2 * i) / 2 == i && (2 * i + 1) / 2 == i);
}

/// The four little-endian bytes of a number below 2^32 denote it.
proof fn lemma_le32_value(n: nat)
    requires
        n < 0x1_0000_0000,
    ensures
        ({
            let b = crate::bytes::le_bytes(n, 4);
            b[0] + b[1] * 0x100 + b[2] * 0x1_0000 + b[3] * 0x100_0000 == n
        }),
{
    reveal_with_fuel(crate::bytes::le_bytes, 5);
}

/// The two sizes in the header are right: the RIFF size counts everything behind
/// it, the data size counts the bytes of the samples.
pub proof fn law_wav_sizes_are_true(sample_rate_hz: nat, pcm: Seq<i16>)
    requires
        wav_fits(sample_rate_hz, pcm.len()),
    ensures
        ({
            let file = wav_file(sample_rate_hz, pcm);
            &&& file[4] + file[5] * 0x100 + file[6] * 0x1_0000 + file[7] * 0x100_0000 == file.len()
                - 8
            &&& file[40] + file[41] * 0x100 + file[42] * 0x1_0000 + file[43] * 0x100_0000
                == file.len() - HEADER_LEN
        }),
{
    let data_size = pcm.len() * BLOCK_ALIGN as nat;
    let file = wav_file(sample_rate_hz, pcm);
    let riff = crate::bytes::le_bytes(RIFF_OVERHEAD as nat + data_size, 4);
    let data = crate::bytes::le_bytes(data_size, 4);
    law_wav_length(sample_rate_hz, pcm);
    lemma_header(sample_rate_hz, data_size);
    lemma_le32_value(RIFF_OVERHEAD as nat + data_size);
    lemma_le32_value(data_size);
    let header = wav_header(sample_rate_hz, data_size);
    assert(file.subrange(4, 8) =~= header.subrange(4, 8));
    assert(file.subrange(40, 44) =~= header.subrange(40, 44));
    assert(file[4] == riff[0] && file[5] == riff[1] && file[6] == riff[2] && file[7] == riff[3]);
    assert(file[40] == data[0] && file[41] == data[1] && file[42] == data[2] && file[43]
        == data[3]);
}

/// The number in two bytes of `file` from `at` on, least significant first.
pub open spec fn le16_at(file: Seq<u8>, at: int) -> int {
    file[at] + file[at + 1] * 256
}

/// The number in four bytes of `file` from `at` on, least significant first.
pub open spec fn le32_at(file: Seq<u8>, at: int) -> int {
    file[at] + file[at + 1] * 256 + file[at + 2] * 65_536 + file[at + 3] * 16_777_216
}

/// The bytes of a number that stand behind `before` denote it there.
proof fn lemma_le_at(before: Seq<u8>, n: nat, behind: Seq<u8>)
    ensures
        n < 0x1_0000 ==> le16_at(
            before + crate::bytes::le_bytes(n, 2) + behind,
            before.len() as int,
        ) == n,
        n < 0x1_0000_0000 ==> le32_at(
            before + crate::bytes::le_bytes(n, 4) + behind,
            before.len() as int,
        ) == n,
{
    let at = before.len() as int;
    reveal_with_fuel(crate::bytes::le_bytes, 5);
    let b2 = crate::bytes::le_bytes(n, 2);
    let f2 = before + b2 + behind;
    assert(f2[at] == b2[0] && f2[at + 1] == b2[1]);
    let b4 = crate::bytes::le_bytes(n, 4);
    let f4 = before + b4 + behind;
    assert(f4[at] == b4[0] && f4[at + 1] == b4[1] && f4[at + 2] == b4[2] && f4[at + 3] == b4[3]);
    if n < 0x1_0000_0000 {
        lemma_le32_value(n);
    }
}

/// The header of a file says what it holds: a RIFF/WAVE file with a format chunk
/// of 16 bytes for linear PCM, one channel, the sample rate, two bytes of it for
/// each sample, 16 bits in blocks of two bytes, and then the data chunk.  The
/// rates are those of one second, whatever the length of the file.
pub proof fn law_wav_header_says_what_the_file_holds(sample_rate_hz: nat, pcm: Seq<i16>)
    requires
        wav_fits(sample_rate_hz, pcm.len()),
    ensures
        ({
            let file = wav_file(sample_rate_hz, pcm);
            &&& file[0] == 82 && file[1] == 73 && file[2] == 70 && file[3] == 70
            &&& le32_at(file, 4) == 36 + 2 * pcm.len()
            &&& file[8] == 87 && file[9] == 65 && file[10] == 86 && file[11] == 69
            &&& file[12] == 102 && file[13] == 109 && file[14] == 116 && file[15] == 32
            &&& le32_at(file, 16) == 16
            &&& le16_at(file, 20) == 1
            &&& le16_at(file, 22) == 1
            &&& le32_at(file, 24) == sample_rate_hz
            &&& le32_at(file, 28) == 2 * sample_rate_hz
            &&& le16_at(file, 32) == 2
            &&& le16_at(file, 34) == 16
            &&& file[36] == 100 && file[37] == 97 && file[38] == 116 && file[39] == 97
            &&& le32_at(file, 40) == 2 * pcm.len()
            &&& file.len() == 44 + 2 * pcm.len()
        }),
{
    let data_size = pcm.len() * BLOCK_ALIGN as nat;
    let file = wav_file(sample_rate_hz, pcm);
    let riff = seq!['R' as u8, 'I' as u8, 'F' as u8, 'F' as u8];
    let wave = seq!['W' as u8, 'A' as u8, 'V' as u8, 'E' as u8];
    let fmt = seq!['f' as u8, 'm' as u8, 't' as u8, ' ' as u8];
    let data = seq!['d' as u8, 'a' as u8, 't' as u8, 'a' as u8];
    let s4 = crate::bytes::le_bytes(RIFF_OVERHEAD as nat + data_size, 4);
    let s16 = crate::bytes::le_bytes(FORMAT_LEN as nat, 4);
    let s20 = crate::bytes::le_bytes(FORMAT_PCM as nat, 2);
    let s22 = crate::bytes::le_bytes(NUM_CHANNELS as nat, 2);
    let s24 = crate::bytes::le_bytes(sample_rate_hz, 4);
    let s28 = crate::bytes::le_bytes(sample_rate_hz * BLOCK_ALIGN as nat, 4);
    let s32 = crate::bytes::le_bytes(BLOCK_ALIGN as nat, 2);
    let s34 = crate::bytes::le_bytes(BITS_PER_SAMPLE as nat, 2);
    let s40 = crate::bytes::le_bytes(data_size, 4);
    law_wav_length(sample_rate_hz, pcm);
    lemma_le_len(RIFF_OVERHEAD as nat + data_size, 4);
    lemma_le_len(FORMAT_LEN as nat, 4);
    lemma_le_len(FORMAT_PCM as nat, 2);
    lemma_le_len(NUM_CHANNELS as nat, 2);
    lemma_le_len(sample_rate_hz, 4);
    lemma_le_len(sample_rate_hz * BLOCK_ALIGN as nat, 4);
    lemma_le_len(BLOCK_ALIGN as nat, 2);
    lemma_le_len(BITS_PER_SAMPLE as nat, 2);
    lemma_le_len(data_size, 4);
    assert(file =~= riff + s4 + file.skip(8));
    lemma_le_at(riff, RIFF_OVERHEAD as nat + data_size, file.skip(8));
    assert(file.take(16) =~= riff + s4 + wave + fmt);
    assert(file =~= file.take(16) + s16 + file.skip(20));
    lemma_le_at(file.take(16), FORMAT_LEN as nat, file.skip(20));
    assert(file =~= file.take(20) + s20 + file.skip(22));
    lemma_le_at(file.take(20), FORMAT_PCM as nat, file.skip(22));
    assert(file =~= file.take(22) + s22 + file.skip(24));
    lemma_le_at(file.take(22), NUM_CHANNELS as nat, file.skip(24));
    assert(file =~= file.take(24) + s24 + file.skip(28));
    lemma_le_at(file.take(24), sample_rate_hz, file.skip(28));
    assert(file =~= file.take(28) + s28 + file.skip(32));
    lemma_le_at(file.take(28), sample_rate_hz * BLOCK_ALIGN as nat, file.skip(32));
    assert(file =~= file.take(32) + s32 + file.skip(34));
    lemma_le_at(file.take(32), BLOCK_ALIGN as nat, file.skip(34));
    assert(file =~= file.take(34) + s34 + file.skip(36));
    lemma_le_at(file.take(34), BITS_PER_SAMPLE as nat, file.skip(36));
    assert(file.subrange(36, 40) =~= data);
    assert(file[36] == data[0] && file[37] == data[1] && file[38] == data[2] && file[39]
        == data[3]);
    assert(file =~= file.take(40) + s40 + file.skip(44));
    lemma_le_at(file.take(40), data_size, file.skip(44));
    assert('R' as u8 == 82 && 'I' as u8 == 73 && 'F' as u8 == 70);
}

/// The samples stand behind the header in their order, each in two bytes, least
/// significant first, in two's complement.
pub proof fn law_wav_samples_stand_behind_the_header(sample_rate_hz: nat, pcm: Seq<i16>, i: int)
    requires
        0 <= i < pcm.len(),
    ensures
        ({
            let bits = le16_at(wav_file(sample_rate_hz, pcm), 44 + 2 * i);
            pcm[i] == if bits < 32_768 {
                bits
            } else {
                bits - 65_536
            }
        }),
{
    law_wav_samples_read_back(sample_rate_hz, pcm, i);
}

/// A file can be written exactly where twice the sample rate, and the size of the
/// file without its first 8 bytes, are numbers of 32 bits.
pub proof fn law_wav_files_fit_their_header(sample_rate_hz: nat, capacity: nat)
    ensures
        wav_fits(sample_rate_hz, capacity) <==> 2 * sample_rate_hz <= 0xffff_ffff && 36 + 2
            * capacity <= 0xffff_ffff,
{
}

} // verus!
