//! The fixed section of a MiniSEED data record header and its blockette chain.
use vstd::prelude::*;
use vstd::string::*;
use vstd::slice::slice_subrange;
use vstd::arithmetic::power2::pow2;
use vstd::utf8::{valid_utf8, decode_utf8};
use byteorder::{BigEndian, ByteOrder};
use chrono::TimeZone;
use crate::text::{trim_text, trimmed};

verus! {

/// Errors of header parsing.
#[derive(Debug)]
pub enum HeaderError {
    /// The record ends before the fixed header does.
    Io(std::io::Error),
    /// The record start time (BTIME) names no valid time of day.
    InvalidBTime(String),
}

impl HeaderError {
    /// The error's message (what the application displays).
    pub fn message(&self) -> (r: String)
        ensures
            self matches HeaderError::InvalidBTime(m) ==> r@ == "Invalid BTIME: "@ + m@,
            self is Io ==> "IO error: "@.is_prefix_of(r@),
    {
        match self {
            HeaderError::Io(e) => {
                let mut m = String::from_str("IO error: ");
                let ghost head = m@;
                m.append(crate::forward::io_error_text(e).as_str());
                assert(head =~= m@.subrange(0, head.len() as int));
                m
            },
            HeaderError::InvalidBTime(t) => {
                let mut m = String::from_str("Invalid BTIME: ");
                m.append(t.as_str());
                m
            },
        }
    }
}

/// The fields of a MiniSEED fixed header that the station reads.
#[derive(Debug, Clone)]
pub struct SeedHeader {
    pub station: String,
    pub location: String,
    pub channel: String,
    pub network: String,
    /// Record start time, in microseconds since 1970-01-01T00:00:00 UTC.
    pub start_time: i64,
    pub num_samples: u16,
    pub sample_rate_factor: i16,
    pub sample_rate_multiplier: i16,
    pub data_offset: u16,
    pub encoding: u8,
    pub record_size: usize,
}

/// Big-endian 16-bit value of the bytes at `pos` and `pos + 1`.
pub open spec fn be_u16_at(data: Seq<u8>, pos: int) -> u16 {
    (data[pos] as int * 0x100 + data[pos + 1] as int) as u16
}

/// `byteorder::BigEndian::read_u16` on the bytes from `pos` on (it panics when
/// fewer than two bytes remain, hence the `requires`).
#[verifier::external_body]
fn read_be_u16_at(data: &[u8], pos: usize) -> (r: u16)
    requires
        pos + 2 <= data@.len(),
    ensures
        r == be_u16_at(data@, pos as int),
{
    BigEndian::read_u16(&data[pos..])
}

/// `byteorder::BigEndian::read_i16` on the bytes from `pos` on: the same two
/// bytes read as a two's complement number.
#[verifier::external_body]
fn read_be_i16_at(data: &[u8], pos: usize) -> (r: i16)
    requires
        pos + 2 <= data@.len(),
    ensures
        r == be_u16_at(data@, pos as int) as i16,
{
    BigEndian::read_i16(&data[pos..])
}

/// The text that `String::from_utf8_lossy` makes of a byte string.
pub uninterp spec fn lossy_utf8(bytes: Seq<u8>) -> Seq<char>;

/// `String::from_utf8_lossy`: the bytes decoded as UTF-8, each invalid
/// sequence replaced by U+FFFD. On valid UTF-8 it is the plain decoding;
/// how invalid input is replaced is left to the name.
#[verifier::external_body]
fn lossy_text(bytes: &[u8]) -> (r: String)
    ensures
        r@ == lossy_utf8(bytes@),
        valid_utf8(bytes@) ==> r@ == decode_utf8(bytes@),
{
    String::from_utf8_lossy(bytes).into_owned()
}

/// The days from 0000-01-01 to January 1 of `year` in the proleptic
/// Gregorian calendar (year 0 is a leap year).
pub open spec fn days_before_year(year: int) -> int {
    365 * year + (year + 3) / 4 - (year + 99) / 100 + (year + 399) / 400
}

/// The UTC time at `hour:minute:second` on January 1 of `year`, in seconds
/// since the Unix epoch (1970-01-01 is day 719528).
pub open spec fn utc_new_year_seconds(year: int, hour: int, minute: int, second: int) -> int {
    (days_before_year(year) - 719528) * 86400 + hour * 3600 + minute * 60 + second
}

/// `chrono::Utc.with_ymd_and_hms(year, 1, 1, hour, minute, second)` read as
/// a Unix timestamp. January 1 exists in every year that a `u16` holds, so it
/// is `None` exactly when the time of day is invalid; otherwise it is the
/// proleptic Gregorian time of that instant.
#[verifier::external_body]
fn utc_new_year_timestamp(year: u16, hour: u8, minute: u8, second: u8) -> (r: Option<i64>)
    ensures
        r is Some <==> (hour < 24 && minute < 60 && second < 60),
        r matches Some(v) ==> v == utc_new_year_seconds(year as int, hour as int, minute as int, second as int),
{
    chrono::Utc
        .with_ymd_and_hms(year as i32, 1, 1, hour as u32, minute as u32, second as u32)
        .single()
        .map(|d| d.timestamp())
}

/// The new-year times of the years a `u16` holds lie between those of
/// 0000-01-01 and of the end of 65535-01-01.
proof fn lemma_new_year_bounds(year: u16, hour: u8, minute: u8, second: u8)
    requires
        hour < 24 && minute < 60 && second < 60,
    ensures
        -62_167_219_200 <= utc_new_year_seconds(year as int, hour as int, minute as int, second as int)
            < 2_005_917_696_000,
{
    let y = year as int;
    assert(0 <= days_before_year(y) <= 23936167);
}

/// The text of a fixed-width header field: its bytes decoded and trimmed.
pub open spec fn field_text(data: Seq<u8>, from: int, len: int) -> Seq<char> {
    trimmed(lossy_utf8(data.subrange(from, from + len)))
}

fn read_field(data: &[u8], from: usize, len: usize) -> (r: String)
    requires
        from + len <= data@.len(),
    ensures
        r@ == field_text(data@, from as int, len as int),
{
    let n = data.len();
    assert(from + len <= n);
    let bytes = slice_subrange(data, from, from + len);
    let s = lossy_text(bytes);
    trim_text(s.as_str())
}

/// Whether the BTIME time of day of the record (bytes 24..27) is valid.
pub open spec fn btime_valid(data: Seq<u8>) -> bool {
    data[24] < 24 && data[25] < 60 && data[26] < 60
}

/// The record start time in microseconds: BTIME year, day of year, time of
/// day and ticks of 100 microseconds.
pub open spec fn btime_micros(data: Seq<u8>) -> int {
    utc_new_year_seconds(be_u16_at(data, 20) as int, data[24] as int, data[25] as int, data[26] as int) * 1_000_000
        + (be_u16_at(data, 22) - 1) * 86_400_000_000 + be_u16_at(data, 28) * 100
}

/// How many blockettes the chain walk follows at most. A chain without a
/// cycle visits distinct 16-bit offsets, so it ends within this many steps;
/// only a cyclic chain is cut short.
pub const BLOCKETTE_WALK_LIMIT: u32 = 65537;

/// Encoding and record size found by following the blockette chain from
/// offset `cur` for at most `fuel` steps: blockette 1000 gives both, a chain
/// that ends first keeps Steim2 and 512 bytes.
pub open spec fn blockette_walk(data: Seq<u8>, cur: int, fuel: nat) -> (u8, nat)
    decreases fuel,
{
    if fuel == 0 || cur <= 0 || cur + 4 > data.len() {
        (11u8, 512nat)
    } else if be_u16_at(data, cur) == 1000 {
        if cur + 7 <= data.len() {
            (data[cur + 4], pow2(data[cur + 6] as nat))
        } else {
            (11u8, 512nat)
        }
    } else if be_u16_at(data, cur + 2) == 0 {
        (11u8, 512nat)
    } else {
        blockette_walk(data, be_u16_at(data, cur + 2) as int, (fuel - 1) as nat)
    }
}

/// Whether the record length exponent that the walk reaches, if any, names a
/// size that fits in `usize` (a larger one makes the shift overflow).
pub open spec fn blockette_walk_fits(data: Seq<u8>, cur: int, fuel: nat) -> bool
    decreases fuel,
{
    if fuel == 0 || cur <= 0 || cur + 4 > data.len() {
        true
    } else if be_u16_at(data, cur) == 1000 {
        cur + 7 <= data.len() ==> data[cur + 6] < usize::BITS
    } else if be_u16_at(data, cur + 2) == 0 {
        true
    } else {
        blockette_walk_fits(data, be_u16_at(data, cur + 2) as int, (fuel - 1) as nat)
    }
}

/// Whether a header can be parsed from `data` without an arithmetic overflow.
pub open spec fn header_parsable(data: Seq<u8>) -> bool {
    data.len() >= 48 ==> blockette_walk_fits(data, be_u16_at(data, 46) as int, BLOCKETTE_WALK_LIMIT as nat)
}

/// The header that a complete fixed section describes.
pub open spec fn header_of(data: Seq<u8>, h: SeedHeader) -> bool {
    let walk = blockette_walk(data, be_u16_at(data, 46) as int, BLOCKETTE_WALK_LIMIT as nat);
    &&& h.station@ == field_text(data, 8, 5)
    &&& h.location@ == field_text(data, 13, 2)
    &&& h.channel@ == field_text(data, 15, 3)
    &&& h.network@ == field_text(data, 18, 2)
    &&& h.start_time == btime_micros(data)
    &&& h.num_samples == be_u16_at(data, 30)
    &&& h.sample_rate_factor == be_u16_at(data, 32) as i16
    &&& h.sample_rate_multiplier == be_u16_at(data, 34) as i16
    &&& h.data_offset == be_u16_at(data, 44)
    &&& h.encoding == walk.0
    &&& h.record_size == walk.1
}

/// What parsing `data` gives: an I/O error when the record ends inside the
/// fixed header (before the time is read, or after a valid one), a BTIME
/// error for an invalid time of day, otherwise the header.
pub open spec fn parse_result_matches(data: Seq<u8>, r: Result<SeedHeader, HeaderError>) -> bool {
    if data.len() < 30 {
        r is Err && r->Err_0 is Io
    } else if !btime_valid(data) {
        r matches Err(HeaderError::InvalidBTime(m)) && m@ == "Base date invalid"@
    } else if data.len() < 48 {
        r is Err && r->Err_0 is Io
    } else {
        r matches Ok(h) && header_of(data, h)
    }
}

/// `std::io::Error::new(UnexpectedEof, ..)`: the error of a read past the end
/// of the record, with the message that `Read::read_exact` gives.
#[verifier::external_body]
fn end_of_record_error() -> std::io::Error {
    std::io::Error::new(std::io::ErrorKind::UnexpectedEof, "failed to fill whole buffer")
}

proof fn lemma_pow2_shift(e: u8)
    requires
        e < usize::BITS,
    ensures
        (1usize << (e as usize)) == pow2(e as nat),
{
    vstd::bits::lemma_usize_pow2_no_overflow(e as nat);
    vstd::bits::lemma_usize_shl_is_mul(1, e as usize);
}

/// Whether [`SeedHeader::parse`] can be called on `data`: the record length
/// exponent that its blockette chain reaches, if any, fits in `usize`.
pub fn header_parsable_check(data: &[u8]) -> (r: bool)
    ensures
        r == header_parsable(data@),
{
    let len = data.len();
    if len < 48 {
        return true;
    }
    let start = read_be_u16_at(data, 46);
    let mut current_offset: usize = start as usize;
    let mut fuel: u32 = BLOCKETTE_WALK_LIMIT;
    while fuel > 0 && current_offset > 0 && current_offset + 4 <= len
        invariant
            len == data@.len(),
            len >= 48,
            current_offset <= 0xffff,
            header_parsable(data@) == blockette_walk_fits(data@, current_offset as int, fuel as nat),
        decreases fuel,
    {
        let blkt_type = read_be_u16_at(data, current_offset);
        let next_offset = read_be_u16_at(data, current_offset + 2);
        if blkt_type == 1000 {
            if current_offset + 7 <= len {
                return (data[current_offset + 6] as u32) < usize::BITS;
            }
            return true;
        }
        if next_offset == 0 {
            return true;
        }
        current_offset = next_offset as usize;
        fuel = fuel - 1;
    }
    true
}

impl SeedHeader {
    /// Parses the fixed header of a MiniSEED record and follows its blockette
    /// chain to find the encoding and record size of blockette 1000.
    pub fn parse(data: &[u8]) -> (r: Result<SeedHeader, HeaderError>)
        requires
            header_parsable(data@),
        ensures
            parse_result_matches(data@, r),
    {
        let len = data.len();
        if len < 30 {
            return Err(HeaderError::Io(end_of_record_error()));
        }
        let station = read_field(data, 8, 5);
        let location = read_field(data, 13, 2);
        let channel = read_field(data, 15, 3);
        let network = read_field(data, 18, 2);
        let year = read_be_u16_at(data, 20);
        let day = read_be_u16_at(data, 22);
        let hour = data[24];
        let minute = data[25];
        let second = data[26];
        let ticks = read_be_u16_at(data, 28);
        let secs = match utc_new_year_timestamp(year, hour, minute, second) {
            Some(s) => {
                proof { lemma_new_year_bounds(year, hour, minute, second); }
                s
            },
            None => {
                proof { reveal_strlit("Base date invalid"); }
                return Err(HeaderError::InvalidBTime(String::from_str("Base date invalid")));
            },
        };
        if len < 48 {
            return Err(HeaderError::Io(end_of_record_error()));
        }
        let start_time = secs * 1_000_000 + (day as i64 - 1) * 86_400_000_000 + ticks as i64 * 100;
        let num_samples = read_be_u16_at(data, 30);
        let sample_rate_factor = read_be_i16_at(data, 32);
        let sample_rate_multiplier = read_be_i16_at(data, 34);
        let data_offset = read_be_u16_at(data, 44);
        let blockette_offset = read_be_u16_at(data, 46);

        let mut encoding: u8 = 11;
        let mut record_size: usize = 512;
        let mut current_offset: usize = blockette_offset as usize;
        let mut fuel: u32 = BLOCKETTE_WALK_LIMIT;
        while fuel > 0 && current_offset > 0 && current_offset + 4 <= len
            invariant_except_break
                len == data@.len(),
                current_offset <= 0xffff,
                blockette_walk(data@, blockette_offset as int, BLOCKETTE_WALK_LIMIT as nat)
                    == blockette_walk(data@, current_offset as int, fuel as nat),
                blockette_walk_fits(data@, current_offset as int, fuel as nat),
                encoding == 11,
                record_size == 512,
            ensures
                (encoding, record_size as nat) == blockette_walk(data@, blockette_offset as int,
                    BLOCKETTE_WALK_LIMIT as nat),
            decreases fuel,
        {
            let blkt_type = read_be_u16_at(data, current_offset);
            let next_offset = read_be_u16_at(data, current_offset + 2);
            if blkt_type == 1000 {
                if current_offset + 7 <= len {
                    encoding = data[current_offset + 4];
                    let rec_len_exp = data[current_offset + 6];
                    proof { lemma_pow2_shift(rec_len_exp); }
                    record_size = 1usize << rec_len_exp as usize;
                }
                break;
            }
            if next_offset == 0 {
                break;
            }
            current_offset = next_offset as usize;
            fuel = fuel - 1;
        }
        let h = SeedHeader {
            station,
            location,
            channel,
            network,
            start_time,
            num_samples,
            sample_rate_factor,
            sample_rate_multiplier,
            data_offset,
            encoding,
            record_size,
        };
        Ok(h)
    }
}

} // verus!
