//! RIFF/WAVE reading and writing for mono PCM16 44.1 kHz assets.
//!
//! The reader walks the chunk list: `fmt `
//! sets the format, every `data` chunk is appended (clipped to the file), any
//! other chunk is skipped, and chunks are word aligned.

use vstd::prelude::*;

verus! {

/// Sample rate required of every bank asset.
pub const SAMPLE_RATE: u32 = 44100;

/// Why a byte string is not an accepted mono PCM16 44.1 kHz WAVE file.
#[derive(Debug, Clone, Copy, PartialEq, Eq, Structural)]
pub enum WavError {
    /// Shorter than a canonical header, or the `RIFF`/`WAVE` tags are missing.
    NotRiffWave,
    /// A `fmt ` chunk ends before its bits-per-sample field.
    TruncatedFmt,
    /// The format is not mono.
    NotMono { channels: u16 },
    /// The samples are not 16-bit.
    Not16Bit { bits: u16 },
    /// The sample rate is not 44.1 kHz.
    WrongSampleRate { sample_rate: u32 },
}

/// Little-endian 16-bit value at `at`.
pub open spec fn le16(bytes: Seq<u8>, at: int) -> int {
    bytes[at] as int + 256 * bytes[at + 1] as int
}

/// Little-endian 32-bit value at `at`.
pub open spec fn le32(bytes: Seq<u8>, at: int) -> int {
    bytes[at] as int + 256 * bytes[at + 1] as int + 65536 * bytes[at + 2] as int
        + 16777216 * bytes[at + 3] as int
}

/// Do the four bytes at `at` spell the given tag?
pub open spec fn tag_at(bytes: Seq<u8>, at: int, tag: Seq<u8>) -> bool {
    bytes.subrange(at, at + 4) == tag
}

pub open spec fn riff_tag() -> Seq<u8> { seq![0x52u8, 0x49u8, 0x46u8, 0x46u8] }
pub open spec fn wave_tag() -> Seq<u8> { seq![0x57u8, 0x41u8, 0x56u8, 0x45u8] }
pub open spec fn fmt_tag() -> Seq<u8> { seq![0x66u8, 0x6du8, 0x74u8, 0x20u8] }
pub open spec fn data_tag() -> Seq<u8> { seq![0x64u8, 0x61u8, 0x74u8, 0x61u8] }

/// Gather one chunk at `pos` into `(channels, sample_rate, bits, data)`; `None`
/// when it is a truncated `fmt ` chunk.
pub open spec fn chunk_step(bytes: Seq<u8>, pos: int, acc: (u16, u32, u16, Seq<u8>)) -> Option<(u16, u32, u16, Seq<u8>)> {
    let size = le32(bytes, pos + 4);
    if tag_at(bytes, pos, fmt_tag()) {
        if pos + 24 > bytes.len() {
            None
        } else {
            Some((le16(bytes, pos + 10) as u16, le32(bytes, pos + 12) as u32, le16(bytes, pos + 22) as u16, acc.3))
        }
    } else if tag_at(bytes, pos, data_tag()) {
        let start = pos + 8;
        let end = if start + size < bytes.len() { start + size } else { bytes.len() as int };
        Some((acc.0, acc.1, acc.2, acc.3 + bytes.subrange(start, end)))
    } else {
        Some(acc)
    }
}

/// Where the chunk after the one at `pos` starts (chunks are word aligned).
pub open spec fn next_chunk(bytes: Seq<u8>, pos: int) -> int {
    let size = le32(bytes, pos + 4);
    pos + 8 + size + size % 2
}

/// Walk the chunk list from `pos`, starting from the format and data gathered
/// so far: `(channels, sample_rate, bits, data)`. `None` when a `fmt ` chunk is
/// truncated.
pub open spec fn scan_chunks(
    bytes: Seq<u8>,
    pos: int,
    acc: (u16, u32, u16, Seq<u8>),
) -> Option<(u16, u32, u16, Seq<u8>)>
    decreases bytes.len() - pos,
{
    if pos < 0 || pos + 8 > bytes.len() {
        Some(acc)
    } else {
        match chunk_step(bytes, pos, acc) {
            None => None,
            Some(acc2) => {
                let next = next_chunk(bytes, pos);
                if next > bytes.len() {
                    Some(acc2)
                } else {
                    scan_chunks(bytes, next, acc2)
                }
            }
        }
    }
}

/// The signed sample of two little-endian bytes.
pub open spec fn sample_of(lo: u8, hi: u8) -> i16 {
    let v = lo as int + 256 * hi as int;
    if v < 32768 { v as i16 } else { (v - 65536) as i16 }
}

/// Samples of a PCM16 byte string; a trailing odd byte is dropped.
pub open spec fn pcm_of(data: Seq<u8>) -> Seq<i16> {
    Seq::new(data.len() / 2, |i: int| sample_of(data[2 * i], data[2 * i + 1]))
}

/// What the reader makes of a whole file.
pub open spec fn wav_mono16(bytes: Seq<u8>) -> Result<Seq<i16>, WavError> {
    if bytes.len() < 44 || !tag_at(bytes, 0, riff_tag()) || !tag_at(bytes, 8, wave_tag()) {
        Err(WavError::NotRiffWave)
    } else {
        match scan_chunks(bytes, 12, (0u16, 0u32, 0u16, Seq::empty())) {
            None => Err(WavError::TruncatedFmt),
            Some(f) => {
                if f.0 != 1 {
                    Err(WavError::NotMono { channels: f.0 })
                } else if f.2 != 16 {
                    Err(WavError::Not16Bit { bits: f.2 })
                } else if f.1 != SAMPLE_RATE {
                    Err(WavError::WrongSampleRate { sample_rate: f.1 })
                } else {
                    Ok(pcm_of(f.3))
                }
            }
        }
    }
}

fn read_le16(bytes: &[u8], at: usize) -> (r: u16)
    requires
        at + 2 <= bytes@.len(),
    ensures
        r as int == le16(bytes@, at as int),
{
    bytes[at] as u16 + 256 * (bytes[at + 1] as u16)
}

fn read_le32(bytes: &[u8], at: usize) -> (r: u32)
    requires
        at + 4 <= bytes@.len(),
    ensures
        r as int == le32(bytes@, at as int),
{
    bytes[at] as u32 + 256 * (bytes[at + 1] as u32) + 65536 * (bytes[at + 2] as u32)
        + 16777216 * (bytes[at + 3] as u32)
}

fn has_tag(bytes: &[u8], at: usize, a: u8, b: u8, c: u8, d: u8) -> (r: bool)
    requires
        at + 4 <= bytes@.len(),
    ensures
        r == tag_at(bytes@, at as int, seq![a, b, c, d]),
{
    let r = bytes[at] == a && bytes[at + 1] == b && bytes[at + 2] == c && bytes[at + 3] == d;
    proof {
        let s = bytes@.subrange(at as int, at + 4);
        if r {
            assert(s =~= seq![a, b, c, d]);
        } else {
            if s == seq![a, b, c, d] {
                assert(s[0] == a && s[1] == b && s[2] == c && s[3] == d);
            }
        }
    }
    r
}

/// Decode a mono PCM16 44.1 kHz WAVE file held in memory.
pub fn parse_wav_mono16(bytes: &[u8]) -> (r: Result<Vec<i16>, WavError>)
    ensures
        match r {
            Ok(pcm) => wav_mono16(bytes@) == Ok::<Seq<i16>, WavError>(pcm@),
            Err(e) => wav_mono16(bytes@) == Err::<Seq<i16>, WavError>(e),
        },
{
    let len = bytes.len();
    if len < 44 || !has_tag(bytes, 0, 0x52, 0x49, 0x46, 0x46) || !has_tag(bytes, 8, 0x57, 0x41, 0x56, 0x45) {
        return Err(WavError::NotRiffWave);
    }
    let mut pos: usize = 12;
    let mut channels: u16 = 0;
    let mut sample_rate: u32 = 0;
    let mut bits: u16 = 0;
    let mut data: Vec<u8> = Vec::new();
    while pos <= len && len - pos >= 8
        invariant
            len == bytes@.len(),
            12 <= pos,
            len >= 44,
            tag_at(bytes@, 0, riff_tag()),
            tag_at(bytes@, 8, wave_tag()),
            scan_chunks(bytes@, 12, (0u16, 0u32, 0u16, Seq::empty())) == scan_chunks(bytes@, pos as int, (channels, sample_rate, bits, data@)),
        decreases len - pos,
    {
        let size = read_le32(bytes, pos + 4);
        let ghost acc0 = (channels, sample_rate, bits, data@);
        let step: u64 = 8 + size as u64 + (size % 2) as u64;
        if has_tag(bytes, pos, 0x66, 0x6d, 0x74, 0x20) {
            if len - pos < 24 {
                proof {
                    assert(scan_chunks(bytes@, pos as int, (channels, sample_rate, bits, data@)).is_none());
                    assert(scan_chunks(bytes@, 12, (0u16, 0u32, 0u16, Seq::empty())).is_none());
                    assert(wav_mono16(bytes@) == Err::<Seq<i16>, WavError>(WavError::TruncatedFmt));
                }
                return Err(WavError::TruncatedFmt);
            }
            channels = read_le16(bytes, pos + 10);
            sample_rate = read_le32(bytes, pos + 12);
            bits = read_le16(bytes, pos + 22);
        } else if has_tag(bytes, pos, 0x64, 0x61, 0x74, 0x61) {
            let start = pos + 8;
            let end: usize = if (size as u64) < (len - start) as u64 { start + size as usize } else { len };
            let ghost before = data@;
            let mut k = start;
            while k < end
                invariant
                    start <= k <= end <= len,
                    len == bytes@.len(),
                    data@ == before + bytes@.subrange(start as int, k as int),
                decreases end - k,
            {
                data.push(bytes[k]);
                proof {
                    assert(bytes@.subrange(start as int, k + 1) =~= bytes@.subrange(start as int, k as int).push(bytes@[k as int]));
                }
                k = k + 1;
            }
        }
        proof {
            assert(chunk_step(bytes@, pos as int, acc0) == Some((channels, sample_rate, bits, data@)));
        }
        if step > (len - pos) as u64 {
            pos = len;
        } else {
            pos = pos + step as usize;
        }
    }
    if channels != 1 {
        return Err(WavError::NotMono { channels });
    }
    if bits != 16 {
        return Err(WavError::Not16Bit { bits });
    }
    if sample_rate != SAMPLE_RATE {
        return Err(WavError::WrongSampleRate { sample_rate });
    }
    let pcm = pcm_from_le_bytes(&data);
    Ok(pcm)
}

/// Samples of a PCM16 little-endian byte string.
pub fn pcm_from_le_bytes(data: &Vec<u8>) -> (pcm: Vec<i16>)
    ensures
        pcm@ == pcm_of(data@),
{
    let dlen = data.len();
    let n = dlen / 2;
    let mut pcm: Vec<i16> = Vec::with_capacity(n);
    let mut i: usize = 0;
    let mut k: usize = 0;
    proof {
        vstd::arithmetic::div_mod::lemma_fundamental_div_mod(data@.len() as int, 2);
    }
    while i < n
        invariant
            n == data@.len() / 2,
            dlen == data@.len(),
            2 * n <= data@.len(),
            i <= n,
            k == 2 * i,
            pcm@.len() == i,
            forall|j: int| 0 <= j < i ==> pcm@[j] == sample_of(data@[2 * j], data@[2 * j + 1]),
        decreases n - i,
    {
        let lo = data[k];
        let hi = data[k + 1];
        let v: u16 = lo as u16 + 256 * (hi as u16);
        let s: i16 = if v < 32768 { v as i16 } else { (v as i32 - 65536) as i16 };
        pcm.push(s);
        i = i + 1;
        k = k + 2;
    }
    assert(pcm@ =~= pcm_of(data@));
    pcm
}

/// Byte `k` (0 = least significant) of a non-negative value.
pub open spec fn byte_of(v: int, k: int) -> u8 {
    if k == 0 {
        (v % 256) as u8
    } else if k == 1 {
        ((v / 256) % 256) as u8
    } else if k == 2 {
        ((v / 65536) % 256) as u8
    } else {
        ((v / 16777216) % 256) as u8
    }
}

/// Canonical 44-byte header of a PCM16 44.1 kHz file with `channels` channels
/// and `frames` frames: `RIFF` size, `WAVE`, a 16-byte PCM `fmt ` chunk, and the
/// `data` chunk header.
pub open spec fn pcm16_header(channels: int, frames: int) -> Seq<u8> {
    let data_bytes = frames * channels * 2;
    let riff_size = 36 + data_bytes;
    let byte_rate = SAMPLE_RATE * channels * 2;
    let block_align = channels * 2;
    seq![
        0x52u8, 0x49u8, 0x46u8, 0x46u8,
        byte_of(riff_size, 0), byte_of(riff_size, 1), byte_of(riff_size, 2), byte_of(riff_size, 3),
        0x57u8, 0x41u8, 0x56u8, 0x45u8,
        0x66u8, 0x6du8, 0x74u8, 0x20u8,
        16u8, 0u8, 0u8, 0u8,
        1u8, 0u8,
        byte_of(channels, 0), byte_of(channels, 1),
        0x44u8, 0xacu8, 0u8, 0u8,
        byte_of(byte_rate, 0), byte_of(byte_rate, 1), byte_of(byte_rate, 2), byte_of(byte_rate, 3),
        byte_of(block_align, 0), byte_of(block_align, 1),
        16u8, 0u8,
        0x64u8, 0x61u8, 0x74u8, 0x61u8,
        byte_of(data_bytes, 0), byte_of(data_bytes, 1), byte_of(data_bytes, 2), byte_of(data_bytes, 3),
    ]
}

/// The two's-complement bit pattern of a sample, as an unsigned 16-bit value.
pub open spec fn sample_bits(s: i16) -> int {
    if s < 0 { s + 65536 } else { s as int }
}

/// Little-endian PCM16 bytes of a run of samples.
pub open spec fn pcm_le_bytes(pcm: Seq<i16>) -> Seq<u8> {
    Seq::new(2 * pcm.len(), |i: int|
        if i % 2 == 0 { (sample_bits(pcm[i / 2]) % 256) as u8 } else { (sample_bits(pcm[i / 2]) / 256) as u8 })
}

fn push_le16(out: &mut Vec<u8>, v: u16)
    ensures
        final(out)@ == old(out)@ + seq![byte_of(v as int, 0), byte_of(v as int, 1)],
{
    out.push((v % 256) as u8);
    out.push(((v / 256) % 256) as u8);
    assert(final(out)@ =~= old(out)@ + seq![byte_of(v as int, 0), byte_of(v as int, 1)]);
}

fn push_le32(out: &mut Vec<u8>, v: u32)
    ensures
        final(out)@ == old(out)@ + seq![byte_of(v as int, 0), byte_of(v as int, 1), byte_of(v as int, 2), byte_of(v as int, 3)],
{
    out.push((v % 256) as u8);
    out.push(((v / 256) % 256) as u8);
    out.push(((v / 65536) % 256) as u8);
    out.push(((v / 16777216) % 256) as u8);
    assert(final(out)@ =~= old(out)@ + seq![byte_of(v as int, 0), byte_of(v as int, 1), byte_of(v as int, 2), byte_of(v as int, 3)]);
}

fn push_tag(out: &mut Vec<u8>, a: u8, b: u8, c: u8, d: u8)
    ensures
        final(out)@ == old(out)@ + seq![a, b, c, d],
{
    out.push(a);
    out.push(b);
    out.push(c);
    out.push(d);
    assert(final(out)@ =~= old(out)@ + seq![a, b, c, d]);
}

fn write_pcm16_header(writer: &mut Vec<u8>, channels: u16, frames: u32)
    requires
        1 <= channels <= 2,
        36 + frames * channels * 2 <= u32::MAX,
    ensures
        final(writer)@ == old(writer)@ + pcm16_header(channels as int, frames as int),
{
    let ghost start = writer@;
    let data_bytes: u32 = frames * channels as u32 * 2;
    push_tag(writer, 0x52, 0x49, 0x46, 0x46);
    push_le32(writer, 36 + data_bytes);
    push_tag(writer, 0x57, 0x41, 0x56, 0x45);
    push_tag(writer, 0x66, 0x6d, 0x74, 0x20);
    let ghost w1 = writer@;
    push_le32(writer, 16);
    push_le16(writer, 1);
    push_le16(writer, channels);
    push_le32(writer, SAMPLE_RATE);
    let ghost w2 = writer@;
    push_le32(writer, SAMPLE_RATE * channels as u32 * 2);
    push_le16(writer, channels * 2);
    push_le16(writer, 16);
    push_tag(writer, 0x64, 0x61, 0x74, 0x61);
    push_le32(writer, data_bytes);
    proof {
        assert(byte_of(16, 0) == 16u8 && byte_of(16, 1) == 0u8 && byte_of(16, 2) == 0u8 && byte_of(16, 3) == 0u8);
        assert(byte_of(1, 0) == 1u8 && byte_of(1, 1) == 0u8);
        assert(byte_of(44100, 0) == 0x44u8 && byte_of(44100, 1) == 0xacu8 && byte_of(44100, 2) == 0u8 && byte_of(44100, 3) == 0u8);
        assert(final(writer)@ =~= start + pcm16_header(channels as int, frames as int));
    }
}

/// Append the header of a stereo PCM16 44.1 kHz file of `frames` frames.
pub fn write_wav_header(writer: &mut Vec<u8>, frames: u32)
    requires
        36 + 4 * frames <= u32::MAX,
    ensures
        final(writer)@ == old(writer)@ + pcm16_header(2, frames as int),
{
    write_pcm16_header(writer, 2, frames);
}

/// Append the header of a mono PCM16 44.1 kHz file of `frames` frames.
pub fn write_mono_header(writer: &mut Vec<u8>, frames: u32)
    requires
        36 + 2 * frames <= u32::MAX,
    ensures
        final(writer)@ == old(writer)@ + pcm16_header(1, frames as int),
{
    write_pcm16_header(writer, 1, frames);
}

/// Append samples as little-endian PCM16 bytes.
pub fn write_pcm16_samples(writer: &mut Vec<u8>, samples: &[i16])
    ensures
        final(writer)@ == old(writer)@ + pcm_le_bytes(samples@),
{
    let ghost start = writer@;
    let mut i: usize = 0;
    while i < samples.len()
        invariant
            i <= samples@.len(),
            writer@ == start + pcm_le_bytes(samples@.subrange(0, i as int)),
        decreases samples@.len() - i,
    {
        let s = samples[i];
        let u: u16 = if s < 0 { (s as i32 + 65536) as u16 } else { s as u16 };
        writer.push((u % 256) as u8);
        writer.push((u / 256) as u8);
        proof {
            let a = pcm_le_bytes(samples@.subrange(0, i as int));
            let b = pcm_le_bytes(samples@.subrange(0, i + 1));
            assert forall|k: int| 0 <= k < b.len() implies #[trigger] b[k] == (a + seq![(u % 256) as u8, (u / 256) as u8])[k] by {
                if k < a.len() {
                    assert(samples@.subrange(0, i + 1)[k / 2] == samples@.subrange(0, i as int)[k / 2]);
                }
            }
            assert(b =~= a + seq![(u % 256) as u8, (u / 256) as u8]);
        }
        i = i + 1;
    }
    assert(samples@.subrange(0, samples@.len() as int) =~= samples@);
}

proof fn lemma_le32_digits(w: u32)
    by (bit_vector)
    ensures
        w % 256 + 256 * ((w / 256) % 256) + 65536 * ((w / 65536) % 256) + 16777216 * ((w / 16777216) % 256) == w,
{
}

proof fn lemma_le16_digits(w: u16)
    by (bit_vector)
    ensures
        w % 256 + 256 * ((w / 256) % 256) == w,
{
}

proof fn lemma_le32_of_bytes(v: int, bytes: Seq<u8>, at: int)
    requires
        0 <= v <= u32::MAX,
        0 <= at,
        at + 4 <= bytes.len(),
        bytes[at] == byte_of(v, 0),
        bytes[at + 1] == byte_of(v, 1),
        bytes[at + 2] == byte_of(v, 2),
        bytes[at + 3] == byte_of(v, 3),
    ensures
        le32(bytes, at) == v,
{
    lemma_le32_digits(v as u32);
}

proof fn lemma_le16_of_bytes(v: int, bytes: Seq<u8>, at: int)
    requires
        0 <= v <= u16::MAX,
        0 <= at,
        at + 2 <= bytes.len(),
        bytes[at] == byte_of(v, 0),
        bytes[at + 1] == byte_of(v, 1),
    ensures
        le16(bytes, at) == v,
{
    lemma_le16_digits(v as u16);
}

proof fn lemma_sample_roundtrip(s: i16)
    ensures
        sample_of((sample_bits(s) % 256) as u8, (sample_bits(s) / 256) as u8) == s,
{
    let u = sample_bits(s);
    vstd::arithmetic::div_mod::lemma_fundamental_div_mod(u, 256);
}

/// Samples written as little-endian PCM16 read back as the same samples.
pub proof fn lemma_pcm_roundtrip(pcm: Seq<i16>)
    ensures
        pcm_of(pcm_le_bytes(pcm)) == pcm,
{
    let b = pcm_le_bytes(pcm);
    assert forall|i: int| 0 <= i < pcm.len() implies #[trigger] pcm_of(b)[i] == pcm[i] by {
        lemma_sample_roundtrip(pcm[i]);
        assert((2 * i) / 2 == i);
        assert((2 * i + 1) / 2 == i);
        assert((2 * i) % 2 == 0);
        assert((2 * i + 1) % 2 == 1);
    }
    assert(pcm_of(b) =~= pcm);
}

/// Reading a file made of a header and the samples that follow it: the format
/// fields come from the header and the data chunk holds exactly the samples.
#[verifier::rlimit(40)]
proof fn lemma_written_file_scan(channels: int, frames: int, body: Seq<u8>)
    requires
        1 <= channels <= 2,
        0 <= frames,
        36 + frames * channels * 2 <= u32::MAX,
        body.len() == frames * channels * 2,
    ensures
        ({
            let bytes = pcm16_header(channels, frames) + body;
            &&& bytes.len() >= 44
            &&& tag_at(bytes, 0, riff_tag())
            &&& tag_at(bytes, 8, wave_tag())
            &&& scan_chunks(bytes, 12, (0u16, 0u32, 0u16, Seq::empty()))
                == Some((channels as u16, SAMPLE_RATE, 16u16, body))
        }),
{
    let h = pcm16_header(channels, frames);
    let bytes = h + body;
    let data_bytes = frames * channels * 2;
    assert(h.len() == 44);
    assert forall|k: int| 0 <= k < 44 implies #[trigger] bytes[k] == h[k] by {}
    assert(bytes.subrange(44, bytes.len() as int) =~= body);
    assert(bytes.subrange(0, 4) =~= riff_tag());
    assert(bytes.subrange(8, 12) =~= wave_tag());
    assert(bytes.subrange(12, 16) =~= fmt_tag());
    assert(bytes.subrange(36, 40) =~= data_tag());
    assert(le32(bytes, 16) == 16);
    assert(le32(bytes, 24) == 44100);
    assert(le16(bytes, 34) == 16);
    lemma_le16_of_bytes(channels, bytes, 22);
    lemma_le32_of_bytes(data_bytes, bytes, 40);
    let fmt = (channels as u16, SAMPLE_RATE, 16u16, Seq::<u8>::empty());
    assert(!tag_at(bytes, 36, fmt_tag())) by {
        assert(bytes.subrange(36, 40)[0] != fmt_tag()[0]);
    }
    assert(chunk_step(bytes, 12, (0u16, 0u32, 0u16, Seq::empty())) == Some(fmt));
    assert(next_chunk(bytes, 12) == 36);
    assert(chunk_step(bytes, 36, fmt) == Some((channels as u16, SAMPLE_RATE, 16u16, body)));
    assert(next_chunk(bytes, 36) == bytes.len());
    assert(scan_chunks(bytes, bytes.len() as int, (channels as u16, SAMPLE_RATE, 16u16, body))
        == Some((channels as u16, SAMPLE_RATE, 16u16, body)));
    assert(scan_chunks(bytes, 36, fmt) == Some((channels as u16, SAMPLE_RATE, 16u16, body)));
}

/// A mono file written by `write_mono_header` followed by `write_pcm16_samples`
/// reads back as exactly the samples that were written.
pub proof fn lemma_mono_file_roundtrip(pcm: Seq<i16>)
    requires
        36 + 2 * pcm.len() <= u32::MAX,
    ensures
        wav_mono16(pcm16_header(1, pcm.len() as int) + pcm_le_bytes(pcm)) == Ok::<Seq<i16>, WavError>(pcm),
{
    lemma_written_file_scan(1, pcm.len() as int, pcm_le_bytes(pcm));
    lemma_pcm_roundtrip(pcm);
}

/// A stereo file written by `write_wav_header` is refused as not mono.
pub proof fn lemma_stereo_file_is_not_mono(frames: int, body: Seq<u8>)
    requires
        0 <= frames,
        36 + 4 * frames <= u32::MAX,
        body.len() == 4 * frames,
    ensures
        wav_mono16(pcm16_header(2, frames) + body) == Err::<Seq<i16>, WavError>(WavError::NotMono { channels: 2 }),
{
    lemma_written_file_scan(2, frames, body);
}

} // verus!
