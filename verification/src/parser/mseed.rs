//! Splitting MiniSEED data into 512-byte records and decoding each one.
use vstd::prelude::*;
use vstd::slice::slice_subrange;
use vstd::string::*;
use crate::parser::header::{header_parsable_check, SeedHeader, HeaderError, btime_valid, be_u16_at, blockette_walk, BLOCKETTE_WALK_LIMIT, field_text, btime_micros, header_parsable, parse_result_matches};
use crate::parser::steim::{SteimDecoder, SteimError, steim2_samples};
use crate::text::decimal_text;

verus! {

/// One decoded record: its channel, start time, integer samples and the
/// sample rate factor and multiplier from which the rate is derived.
#[derive(Debug, Clone)]
pub struct RecordSegment {
    pub network: String,
    pub station: String,
    pub location: String,
    pub channel: String,
    /// Start time in microseconds since 1970-01-01T00:00:00 UTC.
    pub start_time: i64,
    pub samples: Vec<i32>,
    pub sample_rate_factor: i16,
    pub sample_rate_multiplier: i16,
}

/// The mathematical content of a [`RecordSegment`].
pub struct SegmentView {
    pub network: Seq<char>,
    pub station: Seq<char>,
    pub location: Seq<char>,
    pub channel: Seq<char>,
    pub start_time: int,
    pub samples: Seq<i32>,
    pub sample_rate_factor: i16,
    pub sample_rate_multiplier: i16,
}

impl View for RecordSegment {
    type V = SegmentView;

    open spec fn view(&self) -> SegmentView {
        SegmentView {
            network: self.network@,
            station: self.station@,
            location: self.location@,
            channel: self.channel@,
            start_time: self.start_time as int,
            samples: self.samples@,
            sample_rate_factor: self.sample_rate_factor,
            sample_rate_multiplier: self.sample_rate_multiplier,
        }
    }
}

/// Why a record yields no segment.
#[derive(Debug)]
pub enum RecordError {
    /// The fixed header could not be parsed.
    Header(HeaderError),
    /// The data section would start beyond the 512-byte record.
    InvalidDataOffset,
    /// The encoding is not a Steim one.
    Steim(SteimError),
}

impl RecordError {
    /// The error's message (what the application displays).
    pub fn message(&self) -> (r: String)
        ensures
            self is InvalidDataOffset ==> r@ == "Invalid data offset"@,
            self matches RecordError::Header(HeaderError::InvalidBTime(m)) ==> r@ == "Invalid BTIME: "@ + m@,
            self matches RecordError::Header(HeaderError::Io(_)) ==> "IO error: "@.is_prefix_of(r@),
            self matches RecordError::Steim(SteimError::InvalidSteimCode(c)) ==> r@ == "Invalid Steim code: "@
                + decimal_text(c as nat),
            self matches RecordError::Steim(SteimError::Io(_)) ==> "IO error: "@.is_prefix_of(r@),
    {
        match self {
            RecordError::Header(e) => e.message(),
            RecordError::InvalidDataOffset => String::from_str("Invalid data offset"),
            RecordError::Steim(e) => e.message(),
        }
    }
}

/// The size of the records that are decoded.
pub const RECORD_LEN: usize = 512;

/// Whether the record's fixed header parses (long enough, valid BTIME).
pub open spec fn header_ok(record: Seq<u8>) -> bool {
    record.len() >= 48 && btime_valid(record)
}

/// The encoding that the record's blockette chain announces.
pub open spec fn record_encoding(record: Seq<u8>) -> u8 {
    blockette_walk(record, be_u16_at(record, 46) as int, BLOCKETTE_WALK_LIMIT as nat).0
}

/// Whether a record yields a segment: a parsable header, a data offset inside
/// the record, and Steim1 (10) or Steim2 (11) encoding.
pub open spec fn record_decodes(record: Seq<u8>) -> bool {
    header_ok(record) && be_u16_at(record, 44) < 512 && (record_encoding(record) == 10
        || record_encoding(record) == 11)
}

/// The samples of a record with the given encoding: none for Steim1 (it is not
/// decoded), the Steim2 decoding of bytes `data_offset .. 512` otherwise.
pub open spec fn record_samples(record: Seq<u8>) -> Seq<i32> {
    if record_encoding(record) == 10 {
        Seq::empty()
    } else {
        steim2_samples(record.subrange(be_u16_at(record, 44) as int, 512), be_u16_at(record, 30) as nat)
    }
}

/// The segment that a decodable record describes.
pub open spec fn segment_of(record: Seq<u8>) -> SegmentView {
    SegmentView {
        network: field_text(record, 18, 2),
        station: field_text(record, 8, 5),
        location: field_text(record, 13, 2),
        channel: field_text(record, 15, 3),
        start_time: btime_micros(record),
        samples: record_samples(record),
        sample_rate_factor: be_u16_at(record, 32) as i16,
        sample_rate_multiplier: be_u16_at(record, 34) as i16,
    }
}

/// Whether decoding `record` stays within bounds: the header arithmetic fits,
/// and a header that points at data inside the first 512 bytes comes with at
/// least 512 bytes.
pub open spec fn record_decodable_safely(record: Seq<u8>) -> bool {
    header_parsable(record) && (header_ok(record) && be_u16_at(record, 44) < 512 ==> record.len()
        >= 512)
}

/// Whether [`parse_single_record`] can be called on `record`.
pub fn record_decodable_check(record: &[u8]) -> (r: bool)
    ensures
        r == record_decodable_safely(record@),
{
    if !header_parsable_check(record) {
        return false;
    }
    let len = record.len();
    if len < 48 || !(record[24] < 24 && record[25] < 60 && record[26] < 60) {
        return true;
    }
    let off = (record[44] as u16) * 256 + record[45] as u16;
    assert(off == be_u16_at(record@, 44));
    if off < 512 {
        len >= 512
    } else {
        true
    }
}

/// Decodes one 512-byte MiniSEED record into a segment of integer samples.
pub fn parse_single_record(record: &[u8]) -> (r: Result<RecordSegment, RecordError>)
    requires
        record_decodable_safely(record@),
    ensures
        !header_ok(record@) ==> (r matches Err(RecordError::Header(e)) && parse_result_matches(
            record@,
            Err(e),
        )),
        header_ok(record@) && be_u16_at(record@, 44) >= 512 ==> r matches Err(
            RecordError::InvalidDataOffset,
        ),
        header_ok(record@) && be_u16_at(record@, 44) < 512 && !record_decodes(record@) ==> (r matches Err(
            RecordError::Steim(SteimError::InvalidSteimCode(c))) && c == record_encoding(record@)),
        record_decodes(record@) ==> (r matches Ok(seg) && seg@ == segment_of(record@)),
{
    let header = match SeedHeader::parse(record) {
        Ok(h) => h,
        Err(e) => return Err(RecordError::Header(e)),
    };
    let data_start = header.data_offset as usize;
    if data_start >= RECORD_LEN {
        return Err(RecordError::InvalidDataOffset);
    }
    let compressed = slice_subrange(record, data_start, RECORD_LEN);
    let decoded = if header.encoding == 10 {
        SteimDecoder::decode_steim1(compressed, header.num_samples as usize)
    } else if header.encoding == 11 {
        SteimDecoder::decode_steim2(compressed, header.num_samples as usize)
    } else {
        return Err(RecordError::Steim(SteimError::InvalidSteimCode(header.encoding)));
    };
    let samples = match decoded {
        Ok(s) => s,
        Err(e) => return Err(RecordError::Steim(e)),
    };
    proof {
        if header.encoding == 10 {
            assert(samples@ =~= record_samples(record@));
        }
    }
    Ok(RecordSegment {
        network: header.network,
        station: header.station,
        location: header.location,
        channel: header.channel,
        start_time: header.start_time,
        samples,
        sample_rate_factor: header.sample_rate_factor,
        sample_rate_multiplier: header.sample_rate_multiplier,
    })
}

/// The `i`-th 512-byte record of `data`.
pub open spec fn record_at(data: Seq<u8>, i: int) -> Seq<u8> {
    data.subrange(512 * i, 512 * i + 512)
}

/// The segments of the first `k` records, skipping those that do not decode.
pub open spec fn segments_upto(data: Seq<u8>, k: nat) -> Seq<SegmentView>
    decreases k,
{
    if k == 0 {
        Seq::empty()
    } else {
        let prev = segments_upto(data, (k - 1) as nat);
        if record_decodes(record_at(data, k - 1)) {
            prev.push(segment_of(record_at(data, k - 1)))
        } else {
            prev
        }
    }
}

/// The segments of all whole records of `data`.
pub open spec fn mseed_segments(data: Seq<u8>) -> Seq<SegmentView> {
    segments_upto(data, (data.len() / 512) as nat)
}

/// Whether every whole record of `data` decodes within bounds.
pub open spec fn mseed_decodable_safely(data: Seq<u8>) -> bool {
    forall|i: int| 0 <= i < data.len() / 512 ==> header_parsable(#[trigger] record_at(data, i))
}

/// The records of `a` come first in `a + b`.
proof fn lemma_segments_prefix(a: Seq<u8>, b: Seq<u8>, j: nat)
    requires
        512 * j <= a.len(),
    ensures
        segments_upto(a + b, j) == segments_upto(a, j),
    decreases j,
{
    if j > 0 {
        lemma_segments_prefix(a, b, (j - 1) as nat);
        assert(record_at(a + b, j - 1) =~= record_at(a, j - 1));
    }
}

/// After the whole records of `a`, the records of `a + b` are those of `b`.
proof fn lemma_segments_suffix(a: Seq<u8>, b: Seq<u8>, ka: nat, k: nat)
    requires
        a.len() == 512 * ka,
        512 * k <= b.len(),
    ensures
        segments_upto(a + b, ka + k) == segments_upto(a, ka) + segments_upto(b, k),
    decreases k,
{
    if k == 0 {
        lemma_segments_prefix(a, b, ka);
        assert(segments_upto(a, ka) + segments_upto(b, 0) =~= segments_upto(a, ka));
    } else {
        lemma_segments_suffix(a, b, ka, (k - 1) as nat);
        assert(512 * (ka + k - 1) == a.len() + 512 * (k - 1));
        assert(record_at(a + b, ka + k - 1) =~= record_at(b, k - 1));
        let prev = segments_upto(a, ka) + segments_upto(b, (k - 1) as nat);
        if record_decodes(record_at(b, k - 1)) {
            assert(prev.push(segment_of(record_at(b, k - 1))) =~= segments_upto(a, ka)
                + segments_upto(b, (k - 1) as nat).push(segment_of(record_at(b, k - 1))));
        }
    }
}

/// Decoding two pieces of whole records one after the other gives the
/// segments of the first piece, then those of the second.
pub proof fn lemma_mseed_concatenation(a: Seq<u8>, b: Seq<u8>)
    requires
        a.len() % 512 == 0,
    ensures
        mseed_segments(a + b) == mseed_segments(a) + mseed_segments(b),
{
    let ka = (a.len() / 512) as nat;
    let kb = (b.len() / 512) as nat;
    assert(a.len() == 512 * ka);
    assert(512 * kb <= b.len());
    assert((a + b).len() / 512 == ka + kb) by (nonlinear_arith)
        requires
            (a + b).len() == a.len() + b.len(),
            a.len() == 512 * ka,
            kb == b.len() / 512,
    ;
    lemma_segments_suffix(a, b, ka, kb);
}

/// A single record yields its segment when it decodes, and nothing otherwise.
pub proof fn lemma_mseed_single_record(record: Seq<u8>)
    requires
        record.len() == 512,
    ensures
        mseed_segments(record) == (if record_decodes(record) {
            seq![segment_of(record)]
        } else {
            Seq::empty()
        }),
{
    assert(record_at(record, 0) =~= record);
    assert(record.len() / 512 == 1);
    reveal_with_fuel(segments_upto, 2);
    if record_decodes(record) {
        assert(Seq::<SegmentView>::empty().push(segment_of(record)) =~= seq![segment_of(record)]);
    }
}

/// The views of a list of segments.
pub open spec fn segment_views(v: Seq<RecordSegment>) -> Seq<SegmentView> {
    v.map_values(|s: RecordSegment| s@)
}

/// Whether [`parse_mseed_record`] can be called on `data`.
pub fn mseed_decodable_check(data: &[u8]) -> (r: bool)
    ensures
        r == mseed_decodable_safely(data@),
{
    let len = data.len();
    let mut offset: usize = 0;
    let ghost mut k: int = 0;
    while RECORD_LEN <= len - offset
        invariant
            len == data@.len(),
            offset == 512 * k,
            offset <= len,
            0 <= k <= len / 512,
            forall|i: int| 0 <= i < k ==> header_parsable(#[trigger] record_at(data@, i)),
        decreases len - offset,
    {
        let record = slice_subrange(data, offset, offset + RECORD_LEN);
        assert(record@ == record_at(data@, k));
        assert(k < len / 512) by (nonlinear_arith)
            requires
                offset == 512 * k,
                offset + 512 <= len,
        ;
        if !header_parsable_check(record) {
            return false;
        }
        offset = offset + RECORD_LEN;
        proof { k = k + 1; }
    }
    assert(k == len / 512) by (nonlinear_arith)
        requires
            offset == 512 * k,
            offset <= len,
            offset + 512 > len,
    ;
    true
}

/// Decodes every whole 512-byte record of `data`, in order, skipping records
/// whose header does not parse or whose data cannot be decoded.
pub fn parse_mseed_record(data: &[u8]) -> (r: Result<Vec<RecordSegment>, RecordError>)
    requires
        mseed_decodable_safely(data@),
    ensures
        r matches Ok(v) && segment_views(v@) == mseed_segments(data@),
{
    let len = data.len();
    let mut segments: Vec<RecordSegment> = Vec::new();
    let mut offset: usize = 0;
    let ghost mut k: nat = 0;
    while RECORD_LEN <= len - offset
        invariant
            len == data@.len(),
            offset == 512 * k,
            offset <= len,
            k <= len / 512,
            mseed_decodable_safely(data@),
            segment_views(segments@) == segments_upto(data@, k),
        decreases len - offset,
    {
        let record = slice_subrange(data, offset, offset + RECORD_LEN);
        assert(record@ == record_at(data@, k as int));
        assert(k < len / 512) by (nonlinear_arith)
            requires
                offset == 512 * k,
                offset + 512 <= len,
        ;
        let ghost before = segments@;
        match parse_single_record(record) {
            Ok(seg) => {
                segments.push(seg);
                assert(segment_views(segments@) =~= segment_views(before).push(seg@));
            },
            Err(_) => {},
        }
        offset = offset + RECORD_LEN;
        proof { k = k + 1; }
    }
    assert(k == len / 512) by (nonlinear_arith)
        requires
            offset == 512 * k,
            offset <= len,
            offset + 512 > len,
    ;
    Ok(segments)
}

} // verus!
