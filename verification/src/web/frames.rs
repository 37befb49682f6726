//! Binary frames of the live stream. A frame starts with its type byte, the
//! channel id's length (one byte) and its UTF-8 bytes, and the start time in
//! microseconds; then come the frame's own fields, all little-endian. Real
//! numbers travel as the bit patterns of `f32` values, which the library
//! writes unchanged.
use vstd::prelude::*;
use vstd::string::*;

verus! {

/// The two little-endian bytes of `x`.
pub open spec fn le16(x: u16) -> Seq<u8> {
    seq![(x % 256) as u8, (x / 256) as u8]
}

/// The four little-endian bytes of `x`.
pub open spec fn le32(x: u32) -> Seq<u8> {
    seq![(x % 256) as u8, (x / 0x100 % 256) as u8, (x / 0x1_0000 % 256) as u8, (x / 0x100_0000) as u8]
}

/// The eight little-endian bytes of `x`.
pub open spec fn le64(x: u64) -> Seq<u8> {
    le32((x % 0x1_0000_0000) as u32) + le32((x / 0x1_0000_0000) as u32)
}

/// The two's-complement bit pattern of `x`.
pub open spec fn bits64(x: i64) -> u64 {
    if x < 0 {
        (x + 0x1_0000_0000_0000_0000) as u64
    } else {
        x as u64
    }
}

/// The little-endian bytes of each word in turn.
pub open spec fn le_words(v: Seq<u32>) -> Seq<u8>
    decreases v.len(),
{
    if v.len() == 0 {
        seq![]
    } else {
        le_words(v.drop_last()) + le32(v.last())
    }
}

/// The words of each column in turn, as little-endian bytes.
pub open spec fn le_columns(columns: Seq<Seq<u32>>) -> Seq<u8>
    decreases columns.len(),
{
    if columns.len() == 0 {
        seq![]
    } else {
        le_columns(columns.drop_last()) + le_words(columns.last())
    }
}

/// The frame header: type byte, id length (modulo 256), id bytes, start
/// time.
pub open spec fn frame_head(kind: u8, id: Seq<u8>, timestamp_us: i64) -> Seq<u8> {
    seq![kind, (id.len() % 256) as u8] + id + le64(bits64(timestamp_us))
}

/// A waveform frame (type 0): header, sample rate, sample count (modulo
/// 2^32), samples.
pub open spec fn waveform_frame(id: Seq<u8>, timestamp_us: i64, rate: u32, samples: Seq<u32>) -> Seq<u8> {
    frame_head(0, id, timestamp_us) + le32(rate) + le32((samples.len() % 0x1_0000_0000) as u32)
        + le_words(samples)
}

/// A spectrogram frame (type 4): header, sample rate, hop duration,
/// frequency bins, column count (modulo 2^16), then the columns' values.
pub open spec fn spectrogram_frame(
    id: Seq<u8>,
    timestamp_us: i64,
    rate: u32,
    hop: u32,
    bins: u16,
    columns: Seq<Seq<u32>>,
) -> Seq<u8> {
    frame_head(4, id, timestamp_us) + le32(rate) + le32(hop) + le16(bins) + le16(
        (columns.len() % 0x1_0000) as u16,
    ) + le_columns(columns)
}

fn push_le16(buf: &mut Vec<u8>, x: u16)
    ensures
        final(buf)@ == old(buf)@ + le16(x),
{
    buf.push((x % 256) as u8);
    buf.push((x / 256) as u8);
    assert(buf@ =~= old(buf)@ + le16(x));
}

fn push_le32(buf: &mut Vec<u8>, x: u32)
    ensures
        final(buf)@ == old(buf)@ + le32(x),
{
    buf.push((x % 256) as u8);
    buf.push((x / 0x100 % 256) as u8);
    buf.push((x / 0x1_0000 % 256) as u8);
    buf.push((x / 0x100_0000) as u8);
    assert(buf@ =~= old(buf)@ + le32(x));
}

fn push_le64(buf: &mut Vec<u8>, x: u64)
    ensures
        final(buf)@ == old(buf)@ + le64(x),
{
    push_le32(buf, (x % 0x1_0000_0000) as u32);
    push_le32(buf, (x / 0x1_0000_0000) as u32);
    assert(buf@ =~= old(buf)@ + le64(x));
}

fn push_words(buf: &mut Vec<u8>, v: &[u32])
    ensures
        final(buf)@ == old(buf)@ + le_words(v@),
{
    let ghost start = buf@;
    let mut i: usize = 0;
    assert(le_words(v@.take(0)) =~= Seq::<u8>::empty());
    assert(buf@ =~= start + le_words(v@.take(0)));
    while i < v.len()
        invariant
            i <= v@.len(),
            buf@ == start + le_words(v@.take(i as int)),
        decreases v@.len() - i,
    {
        assert(v@.take(i + 1).drop_last() =~= v@.take(i as int));
        push_le32(buf, v[i]);
        assert(buf@ =~= start + le_words(v@.take(i + 1)));
        i = i + 1;
    }
    assert(v@.take(i as int) =~= v@);
}

fn push_head(buf: &mut Vec<u8>, kind: u8, channel_id: &str, timestamp_us: i64)
    requires
        old(buf)@.len() == 0,
    ensures
        final(buf)@ == frame_head(kind, channel_id.spec_bytes(), timestamp_us),
{
    let id = channel_id.as_bytes();
    buf.push(kind);
    buf.push((id.len() % 256) as u8);
    let mut i: usize = 0;
    while i < id.len()
        invariant
            i <= id@.len(),
            buf@ == seq![kind, (id@.len() % 256) as u8] + id@.take(i as int),
        decreases id@.len() - i,
    {
        buf.push(id[i]);
        assert(id@.take(i + 1) =~= id@.take(i as int).push(id@[i as int]));
        i = i + 1;
    }
    assert(id@.take(i as int) =~= id@);
    let bits: u64 = if timestamp_us < 0 {
        (timestamp_us as i128 + 0x1_0000_0000_0000_0000i128) as u64
    } else {
        timestamp_us as u64
    };
    push_le64(buf, bits);
}

/// The waveform frame of a channel's samples, given as `f32` bit patterns.
pub fn serialize_waveform_packet(channel_id: &str, timestamp_us: i64, rate_bits: u32, sample_bits: &[u32]) -> (r: Vec<u8>)
    ensures
        r@ == waveform_frame(channel_id.spec_bytes(), timestamp_us, rate_bits, sample_bits@),
{
    let mut buf: Vec<u8> = Vec::new();
    push_head(&mut buf, 0, channel_id, timestamp_us);
    push_le32(&mut buf, rate_bits);
    push_le32(&mut buf, (sample_bits.len() as u64 % 0x1_0000_0000) as u32);
    push_words(&mut buf, sample_bits);
    buf
}

/// The spectrogram frame of a channel's columns of values, given as `f32`
/// bit patterns, column after column.
pub fn serialize_spectrogram_f32_packet(
    channel_id: &str,
    timestamp_us: i64,
    rate_bits: u32,
    hop_bits: u32,
    frequency_bins: u16,
    columns: &Vec<Vec<u32>>,
) -> (r: Vec<u8>)
    ensures
        r@ == spectrogram_frame(
            channel_id.spec_bytes(),
            timestamp_us,
            rate_bits,
            hop_bits,
            frequency_bins,
            columns@.map_values(|c: Vec<u32>| c@),
        ),
{
    let ghost cols = columns@.map_values(|c: Vec<u32>| c@);
    let mut buf: Vec<u8> = Vec::new();
    push_head(&mut buf, 4, channel_id, timestamp_us);
    push_le32(&mut buf, rate_bits);
    push_le32(&mut buf, hop_bits);
    push_le16(&mut buf, frequency_bins);
    push_le16(&mut buf, (columns.len() % 0x1_0000) as u16);
    let ghost head = buf@;
    let mut i: usize = 0;
    assert(le_columns(cols.take(0)) =~= Seq::<u8>::empty());
    assert(buf@ =~= head + le_columns(cols.take(0)));
    while i < columns.len()
        invariant
            i <= columns@.len(),
            cols == columns@.map_values(|c: Vec<u32>| c@),
            buf@ == head + le_columns(cols.take(i as int)),
        decreases columns@.len() - i,
    {
        assert(cols.take(i + 1).drop_last() =~= cols.take(i as int));
        push_words(&mut buf, columns[i].as_slice());
        assert(buf@ =~= head + le_columns(cols.take(i + 1)));
        i = i + 1;
    }
    assert(cols.take(i as int) =~= cols);
    buf
}

/// One channel's samples for the live view: its id, the time of its first
/// sample in microseconds since the epoch, and the sample rate and samples
/// as `f32` bit patterns.
pub struct WaveformPacket {
    pub channel_id: String,
    pub timestamp_us: i64,
    pub samples: Vec<u32>,
    pub sample_rate: u32,
}

impl WaveformPacket {
    /// The packet as a waveform frame.
    pub fn to_binary(&self) -> (r: Vec<u8>)
        ensures
            r@ == waveform_frame(
                vstd::utf8::encode_utf8(self.channel_id@),
                self.timestamp_us,
                self.sample_rate,
                self.samples@,
            ),
    {
        serialize_waveform_packet(self.channel_id.as_str(), self.timestamp_us, self.sample_rate, self.samples.as_slice())
    }
}

} // verus!
