use rsudp_rust::parser::header::{HeaderError, SeedHeader};
use rsudp_rust::parser::mseed::{parse_mseed_record, parse_single_record, RecordError};
use rsudp_rust::parser::response::{
    channel_blocks, complex_value_texts, is_empty_reply, poles_zeros_block, sensitivity_text,
    split_pieces, stage_gain_block, station_query_url, station_servers,
};
use rsudp_rust::parser::stationxml::{extract_attr, extract_simple_tag, extract_xml_value};
use rsudp_rust::parser::steim::{extract_bits, SteimDecoder, SteimError};
use rsudp_rust::streamer::index_records;

fn put_u32(buf: &mut [u8], at: usize, v: u32) {
    buf[at..at + 4].copy_from_slice(&v.to_be_bytes());
}

fn put_u16(buf: &mut [u8], at: usize, v: u16) {
    buf[at..at + 2].copy_from_slice(&v.to_be_bytes());
}

/// One 64-byte Steim2 frame: X0 = 100, then words with the codes 1, 2 and 3.
fn steim2_frame() -> Vec<u8> {
    let mut f = vec![0u8; 64];
    put_u32(&mut f, 0, (1 << 24) | (2 << 22) | (3 << 20));
    put_u32(&mut f, 4, 100);
    put_u32(&mut f, 8, 1103);
    f[12..16].copy_from_slice(&[1, 0xFE, 3, 0xFC]);
    put_u32(&mut f, 16, (1 << 30) | 1000);
    put_u32(&mut f, 20, 0x8111_111F);
    f
}

const FRAME_SAMPLES: [i32; 13] = [100, 101, 99, 102, 98, 1098, 1099, 1100, 1101, 1102, 1103, 1104, 1103];

/// A 512-byte record of AM.R6E01.00.EHZ starting 2024, day 330, 09:01:23.7300.
fn record(hour: u8, second: u8, ticks: u16, num_samples: u16) -> Vec<u8> {
    let mut r = vec![0u8; 512];
    r[0..6].copy_from_slice(b"000001");
    r[6] = b'D';
    r[7] = b' ';
    r[8..13].copy_from_slice(b"R6E01");
    r[13..15].copy_from_slice(b"00");
    r[15..18].copy_from_slice(b"EHZ");
    r[18..20].copy_from_slice(b"AM");
    put_u16(&mut r, 20, 2024);
    put_u16(&mut r, 22, 330);
    r[24] = hour;
    r[25] = 1;
    r[26] = second;
    put_u16(&mut r, 28, ticks);
    put_u16(&mut r, 30, num_samples);
    put_u16(&mut r, 32, 100);
    put_u16(&mut r, 34, 1);
    r[39] = 1;
    put_u16(&mut r, 44, 64);
    put_u16(&mut r, 46, 48);
    put_u16(&mut r, 48, 1000);
    put_u16(&mut r, 50, 0);
    r[52] = 11;
    r[53] = 1;
    r[54] = 9;
    r[64..128].copy_from_slice(&steim2_frame());
    r
}

#[test]
fn extract_bits_reads_signed_fields() {
    assert_eq!(extract_bits(0xFE00_0000, 24, 8), -2);
    assert_eq!(extract_bits(0x7F00_0000, 24, 8), 127);
    assert_eq!(extract_bits(0x0000_000F, 0, 4), -1);
    assert_eq!(extract_bits(0x0000_0007, 0, 4), 7);
    assert_eq!(extract_bits(0x2000_0000, 0, 30), -(1 << 29));
    assert_eq!(extract_bits(0x0000_03E8, 0, 30), 1000);
}

#[test]
fn steim2_decodes_all_codes() {
    let frame = steim2_frame();
    let samples = SteimDecoder::decode_steim2(&frame, 13).unwrap();
    assert_eq!(samples, FRAME_SAMPLES.to_vec());
}

#[test]
fn steim2_stops_at_announced_count() {
    let frame = steim2_frame();
    assert_eq!(SteimDecoder::decode_steim2(&frame, 5).unwrap(), FRAME_SAMPLES[..5].to_vec());
    assert_eq!(SteimDecoder::decode_steim2(&frame, 1).unwrap(), vec![100]);
    assert!(SteimDecoder::decode_steim2(&frame, 0).unwrap().is_empty());
}

#[test]
fn steim2_yields_no_more_than_the_data_holds() {
    let frame = steim2_frame();
    assert_eq!(SteimDecoder::decode_steim2(&frame, 40).unwrap(), FRAME_SAMPLES.to_vec());
}

#[test]
fn steim2_short_data_gives_zero_start() {
    assert_eq!(SteimDecoder::decode_steim2(&[0, 0, 0], 3).unwrap(), vec![0]);
}

#[test]
fn steim2_running_sums_wrap() {
    let mut f = vec![0u8; 64];
    put_u32(&mut f, 0, 1 << 24);
    put_u32(&mut f, 4, i32::MAX as u32);
    f[12..16].copy_from_slice(&[1, 0, 0, 0]);
    let samples = SteimDecoder::decode_steim2(&f, 2).unwrap();
    assert_eq!(samples, vec![i32::MAX, i32::MIN]);
}

#[test]
fn steim1_yields_nothing() {
    assert!(SteimDecoder::decode_steim1(&steim2_frame(), 10).unwrap().is_empty());
}

#[test]
fn steim_error_message_names_the_code() {
    assert_eq!(SteimError::InvalidSteimCode(3).message(), "Invalid Steim code: 3");
}

#[test]
fn header_parse_reads_fields_and_time() {
    let r = record(9, 23, 7300, 13);
    let h = SeedHeader::parse(&r).unwrap();
    assert_eq!(h.station, "R6E01");
    assert_eq!(h.location, "00");
    assert_eq!(h.channel, "EHZ");
    assert_eq!(h.network, "AM");
    assert_eq!(h.start_time, 1_732_525_283_730_000);
    assert_eq!(h.num_samples, 13);
    assert_eq!(h.sample_rate_factor, 100);
    assert_eq!(h.sample_rate_multiplier, 1);
    assert_eq!(h.data_offset, 64);
    assert_eq!(h.encoding, 11);
    assert_eq!(h.record_size, 512);
}

#[test]
fn header_without_blockette_defaults() {
    let mut r = record(9, 23, 0, 13);
    put_u16(&mut r, 46, 0);
    let h = SeedHeader::parse(&r).unwrap();
    assert_eq!(h.encoding, 11);
    assert_eq!(h.record_size, 512);
    assert_eq!(h.start_time, 1_732_525_283_000_000);
}

#[test]
fn header_follows_blockette_chain() {
    let mut r = record(9, 23, 0, 13);
    put_u16(&mut r, 46, 48);
    put_u16(&mut r, 48, 100);
    put_u16(&mut r, 50, 56);
    put_u16(&mut r, 56, 1000);
    put_u16(&mut r, 58, 0);
    r[60] = 10;
    r[62] = 12;
    let h = SeedHeader::parse(&r).unwrap();
    assert_eq!(h.encoding, 10);
    assert_eq!(h.record_size, 4096);
}

#[test]
fn header_invalid_time_is_rejected() {
    let r = record(24, 0, 0, 13);
    match SeedHeader::parse(&r) {
        Err(HeaderError::InvalidBTime(m)) => assert_eq!(m, "Base date invalid"),
        other => panic!("unexpected {:?}", other),
    }
}

#[test]
fn header_short_data_is_an_io_error() {
    let r = record(9, 0, 0, 13);
    assert!(matches!(SeedHeader::parse(&r[..20]), Err(HeaderError::Io(_))));
    assert!(matches!(SeedHeader::parse(&r[..40]), Err(HeaderError::Io(_))));
    let e = SeedHeader::parse(&r[..20]).unwrap_err();
    assert_eq!(e.message(), "IO error: failed to fill whole buffer");
}

#[test]
fn single_record_decodes_to_segment() {
    let r = record(9, 23, 7300, 13);
    let seg = parse_single_record(&r).unwrap();
    assert_eq!(seg.network, "AM");
    assert_eq!(seg.station, "R6E01");
    assert_eq!(seg.location, "00");
    assert_eq!(seg.channel, "EHZ");
    assert_eq!(seg.start_time, 1_732_525_283_730_000);
    assert_eq!(seg.samples, FRAME_SAMPLES.to_vec());
    assert_eq!(seg.sample_rate_factor, 100);
    assert_eq!(seg.sample_rate_multiplier, 1);
}

#[test]
fn single_record_errors() {
    let mut r = record(9, 23, 0, 13);
    put_u16(&mut r, 44, 512);
    assert!(matches!(parse_single_record(&r), Err(RecordError::InvalidDataOffset)));
    assert_eq!(parse_single_record(&r).unwrap_err().message(), "Invalid data offset");

    let mut r = record(9, 23, 0, 13);
    r[52] = 3;
    match parse_single_record(&r) {
        Err(RecordError::Steim(SteimError::InvalidSteimCode(c))) => assert_eq!(c, 3),
        other => panic!("unexpected {:?}", other),
    }

    let r = record(25, 0, 0, 13);
    assert!(matches!(parse_single_record(&r), Err(RecordError::Header(HeaderError::InvalidBTime(_)))));
}

#[test]
fn steim1_record_has_no_samples() {
    let mut r = record(9, 23, 0, 13);
    r[52] = 10;
    assert!(parse_single_record(&r).unwrap().samples.is_empty());
}

#[test]
fn mseed_skips_bad_records_and_partial_tail() {
    let mut data = record(9, 23, 0, 13);
    data.extend(record(30, 0, 0, 13));
    data.extend(record(9, 24, 0, 5));
    data.extend(vec![0u8; 100]);
    let segs = parse_mseed_record(&data).unwrap();
    assert_eq!(segs.len(), 2);
    assert_eq!(segs[0].start_time, 1_732_525_283_000_000);
    assert_eq!(segs[0].samples.len(), 13);
    assert_eq!(segs[1].start_time, 1_732_525_284_000_000);
    assert_eq!(segs[1].samples, FRAME_SAMPLES[..5].to_vec());
}

#[test]
fn mseed_concatenation_keeps_order() {
    let a = record(9, 23, 0, 13);
    let b = record(9, 10, 0, 2);
    let mut ab = a.clone();
    ab.extend(b.clone());
    let from_ab = parse_mseed_record(&ab).unwrap();
    let from_a = parse_mseed_record(&a).unwrap();
    let from_b = parse_mseed_record(&b).unwrap();
    assert_eq!(from_ab.len(), from_a.len() + from_b.len());
    assert_eq!(from_ab[0].samples, from_a[0].samples);
    assert_eq!(from_ab[1].samples, from_b[0].samples);
    assert_eq!(from_ab[1].start_time, from_b[0].start_time);
}

#[test]
fn mseed_empty_input_has_no_segments() {
    assert!(parse_mseed_record(&[]).unwrap().is_empty());
    assert!(parse_mseed_record(&[0u8; 511]).unwrap().is_empty());
}

#[test]
fn index_sorts_stably_by_start_time() {
    let mut data = record(10, 5, 0, 13);
    data.extend(record(10, 0, 0, 13));
    data.extend(record(40, 0, 0, 13));
    data.extend(record(10, 0, 0, 13));
    let index = index_records(&data);
    let offsets: Vec<u64> = index.iter().map(|e| e.file_offset).collect();
    assert_eq!(offsets, vec![512, 1536, 0]);
    assert_eq!(index[0].start_time, index[1].start_time);
    assert!(index[1].start_time < index[2].start_time);
}

#[test]
fn simple_tag_is_trimmed() {
    assert_eq!(extract_simple_tag("<Value> 3.99E8 </Value>", "Value"), Some("3.99E8".to_string()));
    assert_eq!(extract_simple_tag("<A>x</B>", "A"), None);
    assert_eq!(extract_simple_tag("no tags", "A"), None);
    assert_eq!(extract_simple_tag("</A><A>first</A><A>second</A>", "A"), Some("first".to_string()));
}

#[test]
fn xml_value_forms() {
    let block = "<InstrumentSensitivity><Value>399000000</Value><Frequency>5</Frequency></InstrumentSensitivity>";
    assert_eq!(
        extract_xml_value(block, "<InstrumentSensitivity>", "<Value>"),
        Some("399000000".to_string())
    );
    assert_eq!(extract_xml_value(block, "", "<Frequency>"), Some("5".to_string()));
    assert_eq!(extract_xml_value("<Real> 0.5 <x>", "<Real>", ""), Some("0.5".to_string()));
    assert_eq!(extract_xml_value(block, "<Missing>", "<Value>"), None);
    assert_eq!(extract_xml_value(block, "<InstrumentSensitivity>", "<Missing>"), None);
}

#[test]
fn attribute_value_up_to_quote() {
    let block = r#"<Channel locationCode="00" code="EHZ" startDate="2020">"#;
    assert_eq!(extract_attr(block, r#"code=""#), Some("EHZ".to_string()));
    assert_eq!(extract_attr(block, r#"locationCode=""#), Some("00".to_string()));
    assert_eq!(extract_attr(block, r#"endDate=""#), None);
    assert_eq!(extract_attr(r#"code="open"#, r#"code=""#), None);
}

#[test]
fn pieces_and_channel_blocks() {
    assert_eq!(split_pieces("a<Channel b<Channel c", "<Channel"), vec!["a", " b", " c"]);
    assert_eq!(split_pieces("", ","), vec![""]);
    assert_eq!(split_pieces(",,", ","), vec!["", "", ""]);
    assert_eq!(split_pieces("aXXb", "XX").join("XX"), "aXXb");
    assert_eq!(channel_blocks("<Station><Channel code=\"EHZ\"/><Channel code=\"ENZ\"/>"), vec![
        " code=\"EHZ\"/>",
        " code=\"ENZ\"/>",
    ]);
    assert!(channel_blocks("<Station/>").is_empty());
}

#[test]
fn stage_blocks() {
    let ch = "x<PolesZeros><StageGain><Value>5</Value></StageGain></PolesZeros>y";
    let pz = poles_zeros_block(ch).unwrap();
    assert_eq!(pz, "<PolesZeros><StageGain><Value>5</Value></StageGain>");
    assert_eq!(stage_gain_block(&pz), Some("<StageGain><Value>5</Value></StageGain>".to_string()));
    assert_eq!(poles_zeros_block("a<PolesZeros>open"), Some("<PolesZeros>open".to_string()));
    assert_eq!(poles_zeros_block("nothing"), None);
    assert_eq!(stage_gain_block("nothing"), None);
}

#[test]
fn complex_elements() {
    let pz = "<Pole number=\"0\"><Real>-0.1</Real><Imaginary>0.2</Imaginary></Pole>\
              <Zero number=\"0\"><Real>0</Real><Imaginary>0</Imaginary></Zero>\
              <Pole number=\"1\"><Real> 3 </Real></Pole><Pole number=\"2\">";
    let poles = complex_value_texts(pz, "Pole");
    assert_eq!(poles, vec![
        (Some("-0.1".to_string()), Some("0.2".to_string())),
        (Some("3".to_string()), None),
    ]);
    let zeros = complex_value_texts(pz, "Zero");
    assert_eq!(zeros, vec![(Some("0".to_string()), Some("0".to_string()))]);
    assert!(complex_value_texts("", "Pole").is_empty());
}

#[test]
fn station_queries() {
    let servers = station_servers();
    assert_eq!(
        station_query_url(servers[0], "AM", "R6E01", "channel"),
        "https://data.raspberryshake.org/fdsnws/station/1/query?net=AM&station=R6E01&level=channel&format=xml"
    );
    assert_eq!(
        station_query_url(servers[1], "AM", "R6E01", "resp"),
        "https://service.iris.edu/fdsnws/station/1/query?net=AM&sta=R6E01&level=resp&format=xml"
    );
    assert!(is_empty_reply(""));
    assert!(is_empty_reply("Error 404 Not Found"));
    assert!(is_empty_reply("No results for query"));
    assert!(!is_empty_reply("<FDSNStationXML/>"));
}

#[test]
fn instrument_sensitivity_text() {
    let ch = " code=\"EHZ\"><Response><InstrumentSensitivity><Value> 3.99E8 </Value></InstrumentSensitivity>";
    assert_eq!(sensitivity_text(ch), Some("3.99E8".to_string()));
    assert_eq!(sensitivity_text("<Value>1</Value>"), None);
}

#[test]
fn new_year_times_follow_the_gregorian_calendar() {
    fn days_before_year(y: i64) -> i64 {
        365 * y + (y + 3) / 4 - (y + 99) / 100 + (y + 399) / 400
    }
    for year in [0u16, 1, 4, 99, 100, 400, 1900, 1969, 1970, 2000, 2024, 2100, 9999, 65535] {
        let mut r = record(0, 0, 0, 0);
        put_u16(&mut r, 20, year);
        put_u16(&mut r, 22, 1);
        let h = SeedHeader::parse(&r).unwrap();
        let expected = ((days_before_year(year as i64) - 719_528) * 86_400 + 60) * 1_000_000;
        assert_eq!(h.start_time, expected, "year {}", year);
    }
}
