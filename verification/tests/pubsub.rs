use rsudp_rust::pubsub::publisher::{publish_attributes, publish_backoff_secs, BatchBuffer, MAX_PUBLISH_RETRIES};
use rsudp_rust::pubsub::subscriber::reconstruct_packet;

#[test]
fn batch_gathers_samples_per_channel_in_arrival_order() {
    let mut buf = BatchBuffer::new(1000);
    assert!(buf.is_empty());
    buf.add_segment("EHZ", &[1, 2], 1500);
    buf.add_segment("ENZ", &[5], 1700);
    buf.add_segment("EHZ", &[3], 1750);
    assert!(!buf.is_empty());
    let batch = buf.take_batch().unwrap();
    assert_eq!(batch.window_start_ms, 1000);
    assert_eq!(batch.window_end_ms, 2000);
    assert_eq!(batch.channels.len(), 2);
    assert_eq!(batch.channels[0].channel, "EHZ");
    assert_eq!(batch.channels[0].samples, vec![1, 2, 3]);
    assert_eq!(batch.channels[0].start_time_ms, 1500);
    assert_eq!(batch.channels[1].channel, "ENZ");
    assert_eq!(batch.channels[1].samples, vec![5]);
    assert_eq!(batch.channels[1].start_time_ms, 1700);
    assert!(buf.is_empty());
    assert!(buf.take_batch().is_none());
}

#[test]
fn batch_window_is_fixed_by_first_segment() {
    let mut buf = BatchBuffer::new(500);
    buf.add_segment("EHZ", &[1], 1_732_525_283_730);
    buf.add_segment("EHZ", &[2], 1_732_525_290_000);
    let batch = buf.take_batch().unwrap();
    assert_eq!(batch.window_start_ms, 1_732_525_283_500);
    assert_eq!(batch.window_end_ms, 1_732_525_284_000);
    buf.add_segment("EHN", &[], 2_100);
    let batch = buf.take_batch().unwrap();
    assert_eq!(batch.window_start_ms, 2_000);
    assert_eq!(batch.channels[0].samples, Vec::<i32>::new());
}

#[test]
fn batch_window_of_negative_start_truncates_toward_zero() {
    let mut buf = BatchBuffer::new(1000);
    buf.add_segment("EHZ", &[1], -1500);
    assert_eq!(buf.take_batch().unwrap().window_start_ms, -1000);
}

#[test]
fn reconstructed_packet_text() {
    let packet = reconstruct_packet("AM.R6E01", "EHZ", &[100, -200, 300], 1_732_525_283_500);
    assert_eq!(String::from_utf8(packet).unwrap(), "{'EHZ', 1732525283.500, 100, -200, 300}");
}

#[test]
fn reconstructed_packet_time_forms() {
    let p = reconstruct_packet("AM.R6E01", "ENE", &[50, 60], 1_732_525_283_730);
    assert_eq!(String::from_utf8(p).unwrap(), "{'ENE', 1732525283.730, 50, 60}");
    let p = reconstruct_packet("X", "ENZ", &[], 5);
    assert_eq!(String::from_utf8(p).unwrap(), "{'ENZ', 0.005}");
    let p = reconstruct_packet("X", "ENZ", &[i32::MIN, i32::MAX], -1500);
    assert_eq!(String::from_utf8(p).unwrap(), "{'ENZ', -1.500, -2147483648, 2147483647}");
    let expected = format!("{:.3}", 1_732_525_283_001i64 as f64 / 1000.0);
    let p = reconstruct_packet("X", "ENZ", &[], 1_732_525_283_001);
    assert_eq!(String::from_utf8(p).unwrap(), format!("{{'ENZ', {}}}", expected));
}

#[test]
fn publish_backoff_doubles() {
    let pauses: Vec<u64> = (1..=MAX_PUBLISH_RETRIES).map(publish_backoff_secs).collect();
    assert_eq!(pauses, vec![1, 2, 4]);
    assert_eq!(publish_backoff_secs(64), 1u64 << 63);
}

#[test]
fn publish_attributes_carry_key_station_and_window_start() {
    let a = publish_attributes("AM.R6E01", 1732525283000);
    assert_eq!(
        a,
        vec![
            ("dedup_key".to_string(), "AM.R6E01:2024-11-25T09:01:23.000Z".to_string()),
            ("station".to_string(), "AM.R6E01".to_string()),
            ("window_start".to_string(), "2024-11-25T09:01:23.000Z".to_string()),
        ]
    );
    // The key is floored to 500 ms; the window start text is not.
    let b = publish_attributes("S", 1732525283730);
    assert_eq!(b[0].1, "S:2024-11-25T09:01:23.500Z");
    assert_eq!(b[2].1, "2024-11-25T09:01:23.730Z");
    // Just below chrono's earliest instant the window start text is empty,
    // while the key (floored towards zero) is still in range.
    let c = publish_attributes("S", -8_334_601_228_800_001);
    assert_eq!(c[2].1, "");
    assert!(c[0].1.starts_with("S:-262143-01-01T00:00:00.000Z"));
}
