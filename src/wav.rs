use vstd::arithmetic::div_mod::{lemma_fundamental_div_mod, lemma_fundamental_div_mod_converse, lemma_mod_pos_bound};
use vstd::prelude::*;

verus! {

/// Why a byte sequence was not accepted as a PCM16 WAV file.
#[derive(Debug, Clone, Copy, PartialEq, Eq, Structural)]
pub enum DecodeError {
    TooSmall,
    NotRiff,
    NotWave,
    FmtChunkMissing,
    DataChunkMissing,
    FmtTooSmall,
    NotPcm,
    Not16Bit,
    ZeroChannels,
    BadBlockAlign,
    DataOutOfBounds,
    /// A multi-byte field would be read past the end of the input.
    OutOfBounds,
}

/// Little-endian unsigned 16-bit value of the bytes at `i`, `i + 1`.
pub open spec fn le16(b: Seq<u8>, i: int) -> int {
    b[i] + 256 * b[i + 1]
}

/// Little-endian unsigned 32-bit value of the bytes at `i` .. `i + 4`.
pub open spec fn le32(b: Seq<u8>, i: int) -> int {
    b[i] + 256 * b[i + 1] + 65536 * b[i + 2] + 16777216 * b[i + 3]
}

/// Reads a little-endian `u16` at `off`.
pub fn le_u16(b: &[u8], off: usize) -> (r: Result<u16, DecodeError>)
    ensures
        off + 2 <= b@.len() ==> r == Ok::<u16, DecodeError>(le16(b@, off as int) as u16),
        off + 2 > b@.len() ==> r == Err::<u16, DecodeError>(DecodeError::OutOfBounds),
{
    if off >= b.len() || b.len() - off < 2 {
        return Err(DecodeError::OutOfBounds);
    }
    let lo = b[off] as u16;
    let hi = b[off + 1] as u16;
    Ok(lo + 256 * hi)
}

/// Reads a little-endian `u32` at `off`.
pub fn le_u32(b: &[u8], off: usize) -> (r: Result<u32, DecodeError>)
    ensures
        off + 4 <= b@.len() ==> r == Ok::<u32, DecodeError>(le32(b@, off as int) as u32),
        off + 4 > b@.len() ==> r == Err::<u32, DecodeError>(DecodeError::OutOfBounds),
{
    if off >= b.len() || b.len() - off < 4 {
        return Err(DecodeError::OutOfBounds);
    }
    let b0 = b[off] as u32;
    let b1 = b[off + 1] as u32;
    let b2 = b[off + 2] as u32;
    let b3 = b[off + 3] as u32;
    Ok(b0 + 256 * b1 + 65536 * b2 + 16777216 * b3)
}

/// The fields of a `fmt ` chunk that the decoder reads.
#[derive(Debug, Clone, Copy, PartialEq, Eq, Structural)]
pub struct FmtInfo {
    pub audio_format: u16,
    pub channels: u16,
    pub sample_rate: u32,
    pub block_align: u16,
    pub bits_per_sample: u16,
}

/// Where the payload of a `data` chunk starts and how many bytes it claims.
#[derive(Debug, Clone, Copy, PartialEq, Eq, Structural)]
pub struct DataRef {
    pub offset: usize,
    pub size: u32,
}

/// What a walk over the chunks has found so far.
#[derive(Debug, Clone, Copy, PartialEq, Eq, Structural)]
pub struct ChunkScan {
    pub fmt: Option<FmtInfo>,
    pub data: Option<DataRef>,
}

/// The four bytes at `i` spell the tag `t`.
pub open spec fn is_tag(b: Seq<u8>, i: int, t: Seq<u8>) -> bool {
    b.subrange(i, i + 4) == t
}

/// `RIFF`
pub open spec fn tag_riff() -> Seq<u8> {
    seq![0x52u8, 0x49u8, 0x46u8, 0x46u8]
}

/// `WAVE`
pub open spec fn tag_wave() -> Seq<u8> {
    seq![0x57u8, 0x41u8, 0x56u8, 0x45u8]
}

/// `fmt `
pub open spec fn tag_fmt() -> Seq<u8> {
    seq![0x66u8, 0x6du8, 0x74u8, 0x20u8]
}

/// `data`
pub open spec fn tag_data() -> Seq<u8> {
    seq![0x64u8, 0x61u8, 0x74u8, 0x61u8]
}

/// The `fmt ` fields of a payload that starts at `p`.
pub open spec fn fmt_at(b: Seq<u8>, p: int) -> FmtInfo {
    FmtInfo {
        audio_format: le16(b, p) as u16,
        channels: le16(b, p + 2) as u16,
        sample_rate: le32(b, p + 4) as u32,
        block_align: le16(b, p + 12) as u16,
        bits_per_sample: le16(b, p + 14) as u16,
    }
}

/// The effect of the chunk whose header starts at `off` on the scan state.
pub open spec fn visit_chunk(b: Seq<u8>, off: int, st: ChunkScan) -> Result<ChunkScan, DecodeError> {
    let sz = le32(b, off + 4);
    if is_tag(b, off, tag_fmt()) {
        if sz < 16 {
            Err(DecodeError::FmtTooSmall)
        } else if off + 24 > b.len() {
            Err(DecodeError::OutOfBounds)
        } else {
            Ok(ChunkScan { fmt: Some(fmt_at(b, off + 8)), ..st })
        }
    } else if is_tag(b, off, tag_data()) {
        Ok(ChunkScan { data: Some(DataRef { offset: (off + 8) as usize, size: sz as u32 }), ..st })
    } else {
        Ok(st)
    }
}

/// Offset of the chunk header that follows the one at `off`: payload, then a pad
/// byte when the payload size is odd.
pub open spec fn next_chunk(b: Seq<u8>, off: int) -> int {
    let sz = le32(b, off + 4);
    off + 8 + sz + sz % 2
}

/// Walks the chunks from `off` to the end of the input. The walk stops without
/// error when no full header fits or when the next header would start past the end.
pub open spec fn scan(b: Seq<u8>, off: int, st: ChunkScan) -> Result<ChunkScan, DecodeError>
    decreases b.len() - off,
{
    if off < 0 || off + 8 > b.len() {
        Ok(st)
    } else {
        match visit_chunk(b, off, st) {
            Err(e) => Err(e),
            Ok(s) => if next_chunk(b, off) > b.len() {
                Ok(s)
            } else {
                scan(b, next_chunk(b, off), s)
            },
        }
    }
}

pub open spec fn empty_scan() -> ChunkScan {
    ChunkScan { fmt: None, data: None }
}

/// Whether the four bytes at `off` are `t0 t1 t2 t3`.
fn tag_eq(b: &[u8], off: usize, t0: u8, t1: u8, t2: u8, t3: u8) -> (r: bool)
    requires
        off + 4 <= b@.len(),
    ensures
        r == is_tag(b@, off as int, seq![t0, t1, t2, t3]),
{
    let r = b[off] == t0 && b[off + 1] == t1 && b[off + 2] == t2 && b[off + 3] == t3;
    proof {
        let s = b@.subrange(off as int, off + 4);
        if r {
            assert(s =~= seq![t0, t1, t2, t3]);
        } else {
            assert(s[0] != t0 || s[1] != t1 || s[2] != t2 || s[3] != t3);
        }
    }
    r
}

/// Walks the chunks of `b` from offset 12 on.
pub fn scan_chunks(b: &[u8]) -> (r: Result<ChunkScan, DecodeError>)
    ensures
        r == scan(b@, 12, empty_scan()),
{
    let len = b.len();
    let mut off: usize = 12;
    let mut st = ChunkScan { fmt: None, data: None };
    loop
        invariant
            len == b@.len(),
            scan(b@, off as int, st) == scan(b@, 12, empty_scan()),
        decreases len - off,
    {
        if off > len || len - off < 8 {
            return Ok(st);
        }
        let sz = match le_u32(b, off + 4) {
            Ok(v) => v,
            Err(e) => return Err(e),
        };
        if tag_eq(b, off, 0x66, 0x6d, 0x74, 0x20) {
            if sz < 16 {
                return Err(DecodeError::FmtTooSmall);
            }
            if len - off < 24 {
                return Err(DecodeError::OutOfBounds);
            }
            let audio_format = match le_u16(b, off + 8) {
                Ok(v) => v,
                Err(e) => return Err(e),
            };
            let channels = match le_u16(b, off + 10) {
                Ok(v) => v,
                Err(e) => return Err(e),
            };
            let sample_rate = match le_u32(b, off + 12) {
                Ok(v) => v,
                Err(e) => return Err(e),
            };
            let block_align = match le_u16(b, off + 20) {
                Ok(v) => v,
                Err(e) => return Err(e),
            };
            let bits_per_sample = match le_u16(b, off + 22) {
                Ok(v) => v,
                Err(e) => return Err(e),
            };
            st = ChunkScan {
                fmt: Some(FmtInfo { audio_format, channels, sample_rate, block_align, bits_per_sample }),
                ..st
            };
        } else if tag_eq(b, off, 0x64, 0x61, 0x74, 0x61) {
            st = ChunkScan { data: Some(DataRef { offset: off + 8, size: sz }), ..st };
        }
        let rest: usize = len - off - 8;
        if sz as usize > rest {
            return Ok(st);
        }
        let next: usize = off + 8 + sz as usize;
        if sz % 2 == 1 {
            if next == len {
                return Ok(st);
            }
            off = next + 1;
        } else {
            off = next;
        }
    }
}

/// A decoded PCM16 sample: one sequence of signed 16-bit samples per channel,
/// each `frame_count` long.
#[derive(Debug)]
pub struct SampleBuffer {
    pub channel_count: u16,
    pub sample_rate: u32,
    pub frame_count: u32,
    pub channels: Vec<Vec<i16>>,
}

impl SampleBuffer {
    /// The per-channel samples as sequences.
    pub open spec fn channels_view(&self) -> Seq<Seq<i16>> {
        self.channels@.map_values(|v: Vec<i16>| v@)
    }

    /// At least one channel, one sequence per channel, each `frame_count` long.
    pub open spec fn wf(&self) -> bool {
        &&& self.channel_count > 0
        &&& self.channels@.len() == self.channel_count
        &&& forall|c: int| 0 <= c < self.channel_count ==> #[trigger] self.channels@[c]@.len() == self.frame_count
    }
}

/// What a successful decode reads: the last `fmt ` chunk and the last `data` chunk.
pub open spec fn parse_layout(b: Seq<u8>) -> Result<(FmtInfo, DataRef), DecodeError> {
    if b.len() < 44 {
        Err(DecodeError::TooSmall)
    } else if !is_tag(b, 0, tag_riff()) {
        Err(DecodeError::NotRiff)
    } else if !is_tag(b, 8, tag_wave()) {
        Err(DecodeError::NotWave)
    } else {
        match scan(b, 12, empty_scan()) {
            Err(e) => Err(e),
            Ok(s) => match (s.fmt, s.data) {
                (None, _) => Err(DecodeError::FmtChunkMissing),
                (_, None) => Err(DecodeError::DataChunkMissing),
                (Some(f), Some(d)) => if f.audio_format != 1 {
                    Err(DecodeError::NotPcm)
                } else if f.bits_per_sample != 16 {
                    Err(DecodeError::Not16Bit)
                } else if f.channels == 0 {
                    Err(DecodeError::ZeroChannels)
                } else if f.block_align != 2 * f.channels {
                    Err(DecodeError::BadBlockAlign)
                } else if d.offset + d.size > b.len() {
                    Err(DecodeError::DataOutOfBounds)
                } else {
                    Ok((f, d))
                },
            },
        }
    }
}

/// Two's-complement reading of a 16-bit unsigned value.
pub open spec fn to_i16(v: int) -> i16 {
    if v >= 32768 {
        (v - 65536) as i16
    } else {
        v as i16
    }
}

/// The little-endian signed 16-bit sample stored at byte `i`.
pub open spec fn sample_at(b: Seq<u8>, i: int) -> i16 {
    to_i16(le16(b, i))
}

/// Number of whole frames in a data payload; a partial trailing frame is dropped.
pub open spec fn frames_of(f: FmtInfo, d: DataRef) -> nat {
    (d.size as int / f.block_align as int) as nat
}

/// The interleaved samples of the data payload, `frames * channels` of them.
pub open spec fn interleaved_samples(b: Seq<u8>, f: FmtInfo, d: DataRef) -> Seq<i16> {
    Seq::new((frames_of(f, d) * f.channels) as nat, |k: int| sample_at(b, d.offset + 2 * k))
}

/// Channel `c` of the data payload: the sample of frame `i` is the interleaved
/// sample `i * channels + c`.
pub open spec fn channel_samples(b: Seq<u8>, f: FmtInfo, d: DataRef, c: int) -> Seq<i16> {
    Seq::new(frames_of(f, d), |i: int| sample_at(b, d.offset + 2 * (i * f.channels + c)))
}

/// All channels of the data payload.
pub open spec fn decoded_channels(b: Seq<u8>, f: FmtInfo, d: DataRef) -> Seq<Seq<i16>> {
    Seq::new(f.channels as nat, |c: int| channel_samples(b, f, d, c))
}

/// The buffer that decoding `b` yields, given its layout.
pub open spec fn buffer_matches(buf: SampleBuffer, b: Seq<u8>, f: FmtInfo, d: DataRef) -> bool {
    &&& buf.channel_count == f.channels
    &&& buf.sample_rate == f.sample_rate
    &&& buf.frame_count == frames_of(f, d)
    &&& buf.channels_view() == decoded_channels(b, f, d)
}

/// The signed 16-bit sample at byte `off`.
fn read_i16(b: &[u8], off: usize) -> (r: i16)
    requires
        off + 2 <= b@.len(),
    ensures
        r == sample_at(b@, off as int),
{
    let v: u32 = b[off] as u32 + 256 * (b[off + 1] as u32);
    if v >= 32768 {
        (v as i32 - 65536) as i16
    } else {
        v as i16
    }
}

proof fn lemma_index_in_frame(i: int, ch: int, c: int, frames: int)
    requires
        0 <= i < frames,
        0 <= c < ch,
    ensures
        0 <= i * ch + c,
        i * ch + c + 1 <= frames * ch,
{
    assert(0 <= i * ch) by (nonlinear_arith)
        requires
            0 <= i,
            0 <= ch,
    ;
    assert((i + 1) * ch <= frames * ch) by (nonlinear_arith)
        requires
            i + 1 <= frames,
            0 <= ch,
    ;
    assert((i + 1) * ch == i * ch + ch) by (nonlinear_arith);
}

/// Decodes channel `c` of a data payload that `parse_layout` accepted.
fn decode_channel(b: &[u8], f: FmtInfo, d: DataRef, c: u16) -> (r: Vec<i16>)
    requires
        f.channels > 0,
        f.block_align == 2 * f.channels,
        d.offset + d.size <= b@.len(),
        c < f.channels,
    ensures
        r@ == channel_samples(b@, f, d, c as int),
{
    let frames: u32 = d.size / (f.block_align as u32);
    let step: usize = f.channels as usize;
    let blen: usize = b.len();
    let mut out: Vec<i16> = Vec::new();
    let mut k: usize = c as usize;
    let mut i: u32 = 0;
    proof {
        assert(frames * f.block_align <= d.size) by (nonlinear_arith)
            requires
                frames == d.size / (f.block_align as u32),
                f.block_align > 0,
        ;
    }
    while i < frames
        invariant
            frames == frames_of(f, d),
            frames * f.block_align <= d.size,
            f.channels > 0,
            f.block_align == 2 * f.channels,
            d.offset + d.size <= b@.len(),
            c < f.channels,
            step == f.channels,
            blen == b@.len(),
            i <= frames,
            i < frames ==> k == i * step + c,
            out@.len() == i,
            forall|j: int| 0 <= j < i ==> out@[j] == channel_samples(b@, f, d, c as int)[j],
        decreases frames - i,
    {
        proof {
            lemma_index_in_frame(i as int, step as int, c as int, frames as int);
            assert(frames * f.block_align == 2 * (frames * step)) by (nonlinear_arith)
                requires
                    f.block_align == 2 * step,
            ;
            assert(2 * k + 2 <= d.size);
            assert(d.offset + 2 * k + 2 <= blen);
        }
        let v = read_i16(b, d.offset + 2 * k);
        out.push(v);
        proof {
            assert((i + 1) * step == i * step + step) by (nonlinear_arith);
        }
        if i + 1 < frames {
            proof {
                lemma_index_in_frame(i + 1, step as int, c as int, frames as int);
            }
            k = k + step;
        }
        i = i + 1;
    }
    assert(out@ =~= channel_samples(b@, f, d, c as int));
    out
}

/// Decodes a PCM16 WAV file. On success the buffer holds the channel count and
/// sample rate of the last `fmt ` chunk, `data_size / block_align` frames, and each
/// channel de-interleaved from the last `data` chunk; otherwise the error is the
/// first rule that `b` breaks, in the order `parse_layout` checks them.
pub fn parse_wav_pcm16(b: &[u8]) -> (r: Result<SampleBuffer, DecodeError>)
    ensures
        b@.len() < 44 ==> r == Err::<SampleBuffer, DecodeError>(DecodeError::TooSmall),
        match parse_layout(b@) {
            Ok((f, d)) => r is Ok && r->Ok_0.wf() && buffer_matches(r->Ok_0, b@, f, d),
            Err(e) => r == Err::<SampleBuffer, DecodeError>(e),
        },
{
    let len = b.len();
    if len < 44 {
        return Err(DecodeError::TooSmall);
    }
    if !tag_eq(b, 0, 0x52, 0x49, 0x46, 0x46) {
        return Err(DecodeError::NotRiff);
    }
    if !tag_eq(b, 8, 0x57, 0x41, 0x56, 0x45) {
        return Err(DecodeError::NotWave);
    }
    let st = match scan_chunks(b) {
        Ok(s) => s,
        Err(e) => return Err(e),
    };
    let f = match st.fmt {
        Some(f) => f,
        None => return Err(DecodeError::FmtChunkMissing),
    };
    let d = match st.data {
        Some(d) => d,
        None => return Err(DecodeError::DataChunkMissing),
    };
    if f.audio_format != 1 {
        return Err(DecodeError::NotPcm);
    }
    if f.bits_per_sample != 16 {
        return Err(DecodeError::Not16Bit);
    }
    if f.channels == 0 {
        return Err(DecodeError::ZeroChannels);
    }
    if f.block_align as u32 != 2 * (f.channels as u32) {
        return Err(DecodeError::BadBlockAlign);
    }
    if d.offset > len || (d.size as usize) > len - d.offset {
        return Err(DecodeError::DataOutOfBounds);
    }
    let frame_count: u32 = d.size / (f.block_align as u32);
    let mut channels: Vec<Vec<i16>> = Vec::new();
    let mut c: u16 = 0;
    while c < f.channels
        invariant
            parse_layout(b@) == Ok::<(FmtInfo, DataRef), DecodeError>((f, d)),
            f.channels > 0,
            f.block_align == 2 * f.channels,
            d.offset + d.size <= b@.len(),
            c <= f.channels,
            channels@.len() == c,
            forall|j: int| 0 <= j < c ==> channels@[j]@ == channel_samples(b@, f, d, j),
        decreases f.channels - c,
    {
        let v = decode_channel(b, f, d, c);
        channels.push(v);
        c = c + 1;
    }
    let buf = SampleBuffer { channel_count: f.channels, sample_rate: f.sample_rate, frame_count, channels };
    assert(buf.channels_view() =~= decoded_channels(b@, f, d));
    assert forall|j: int| 0 <= j < buf.channel_count implies #[trigger] buf.channels@[j]@.len() == buf.frame_count by {
        assert(buf.channels_view()[j] == decoded_channels(b@, f, d)[j]);
    }
    Ok(buf)
}

/// Frames laid out one after another, channel by channel within a frame: entry `k`
/// is frame `k / channels` of channel `k % channels`.
pub open spec fn interleave_spec(chs: Seq<Seq<i16>>, frames: nat, channels: nat) -> Seq<i16> {
    Seq::new(frames * channels, |k: int| chs[k % (channels as int)][k / (channels as int)])
}

proof fn lemma_split_index(k: int, ch: int, frames: int)
    requires
        0 < ch,
        0 <= k < frames * ch,
    ensures
        0 <= k % ch < ch,
        0 <= k / ch < frames,
        (k / ch) * ch + k % ch == k,
{
    lemma_fundamental_div_mod(k, ch);
    lemma_mod_pos_bound(k, ch);
    let q = k / ch;
    let r = k % ch;
    assert(q * ch == ch * q) by (nonlinear_arith);
    assert(0 <= q < frames) by (nonlinear_arith)
        requires
            k == ch * q + r,
            0 <= r < ch,
            0 <= k < frames * ch,
            0 < ch,
    ;
}

/// Lays the channels of `buf` out again as interleaved frames.
pub fn interleave(buf: &SampleBuffer) -> (r: Vec<i16>)
    requires
        buf.wf(),
        buf.frame_count * buf.channel_count <= usize::MAX,
    ensures
        r@ == interleave_spec(buf.channels_view(), buf.frame_count as nat, buf.channel_count as nat),
{
    let frames: usize = buf.frame_count as usize;
    let ch: usize = buf.channel_count as usize;
    let ghost target = interleave_spec(buf.channels_view(), frames as nat, ch as nat);
    let mut out: Vec<i16> = Vec::new();
    let mut i: usize = 0;
    while i < frames
        invariant
            buf.wf(),
            frames == buf.frame_count,
            ch == buf.channel_count,
            frames * ch <= usize::MAX,
            target == interleave_spec(buf.channels_view(), frames as nat, ch as nat),
            i <= frames,
            out@.len() == i * ch,
            forall|j: int| 0 <= j < out@.len() ==> out@[j] == target[j],
        decreases frames - i,
    {
        let mut c: usize = 0;
        proof {
            assert(i * ch + ch <= frames * ch) by (nonlinear_arith)
                requires
                    i < frames,
            ;
        }
        while c < ch
            invariant
                buf.wf(),
                frames == buf.frame_count,
                ch == buf.channel_count,
                target == interleave_spec(buf.channels_view(), frames as nat, ch as nat),
                i < frames,
                i * ch + ch <= frames * ch,
                frames * ch <= usize::MAX,
                c <= ch,
                out@.len() == i * ch + c,
                forall|j: int| 0 <= j < out@.len() ==> out@[j] == target[j],
            decreases ch - c,
        {
            let ghost k = i * ch + c;
            proof {
                lemma_fundamental_div_mod_converse(k, ch as int, i as int, c as int);
                assert(buf.channels@[c as int]@.len() == frames);
            }
            let v = buf.channels[c][i];
            out.push(v);
            c = c + 1;
        }
        proof {
            assert((i + 1) * ch == i * ch + ch) by (nonlinear_arith);
        }
        i = i + 1;
    }
    assert(out@ =~= target);
    out
}

/// Decoding a valid PCM16 WAV file and interleaving its channels again gives back
/// exactly the 16-bit samples stored in its data chunk.
pub proof fn lemma_round_trip(b: Seq<u8>)
    requires
        parse_layout(b) is Ok,
    ensures
        ({
            let (f, d) = parse_layout(b)->Ok_0;
            interleave_spec(decoded_channels(b, f, d), frames_of(f, d), f.channels as nat)
                == interleaved_samples(b, f, d)
        }),
{
    let (f, d) = parse_layout(b)->Ok_0;
    let ch = f.channels as int;
    let frames = frames_of(f, d) as int;
    let lhs = interleave_spec(decoded_channels(b, f, d), frames_of(f, d), f.channels as nat);
    let rhs = interleaved_samples(b, f, d);
    assert forall|k: int| 0 <= k < lhs.len() implies lhs[k] == rhs[k] by {
        lemma_split_index(k, ch, frames);
    }
    assert(lhs =~= rhs);
}

/// A file whose `fmt ` chunk names any audio format but PCM is refused as not PCM,
/// whatever its other format fields hold, once the container and both chunks are found.
pub proof fn lemma_not_pcm(b: Seq<u8>)
    requires
        b.len() >= 44,
        is_tag(b, 0, tag_riff()),
        is_tag(b, 8, tag_wave()),
        scan(b, 12, empty_scan()) is Ok,
        scan(b, 12, empty_scan())->Ok_0.fmt is Some,
        scan(b, 12, empty_scan())->Ok_0.data is Some,
        scan(b, 12, empty_scan())->Ok_0.fmt->Some_0.audio_format != 1,
    ensures
        parse_layout(b) == Err::<(FmtInfo, DataRef), DecodeError>(DecodeError::NotPcm),
{
}

/// The frame count is the data size divided by the block size, rounded down, and the
/// frames it counts lie inside the data chunk and the input.
pub proof fn lemma_frame_count(b: Seq<u8>)
    requires
        parse_layout(b) is Ok,
    ensures
        ({
            let (f, d) = parse_layout(b)->Ok_0;
            &&& frames_of(f, d) == d.size as int / f.block_align as int
            &&& frames_of(f, d) * f.block_align <= d.size
            &&& d.offset + d.size <= b.len()
        }),
{
    let (f, d) = parse_layout(b)->Ok_0;
    let q = d.size as int / f.block_align as int;
    assert(q * f.block_align <= d.size) by (nonlinear_arith)
        requires
            q == d.size as int / f.block_align as int,
            f.block_align > 0,
    ;
}

} // verus!
