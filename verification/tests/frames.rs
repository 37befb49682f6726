use rsudp_rust::web::frames::{serialize_spectrogram_f32_packet, serialize_waveform_packet, WaveformPacket};

fn expected_waveform(channel_id: &str, timestamp_us: i64, sample_rate: f32, samples: &[f64]) -> Vec<u8> {
    let mut buf = vec![0x00, channel_id.len() as u8];
    buf.extend_from_slice(channel_id.as_bytes());
    buf.extend_from_slice(&timestamp_us.to_le_bytes());
    buf.extend_from_slice(&sample_rate.to_le_bytes());
    buf.extend_from_slice(&(samples.len() as u32).to_le_bytes());
    for &s in samples {
        buf.extend_from_slice(&(s as f32).to_le_bytes());
    }
    buf
}

#[test]
fn waveform_frame_layout() {
    let samples = [1.5f64, -2.25, 0.0, 1e6];
    let bits: Vec<u32> = samples.iter().map(|s| (*s as f32).to_bits()).collect();
    let frame = serialize_waveform_packet("AM.R6E01.00.EHZ", 1_732_525_283_730_000, 100f32.to_bits(), &bits);
    assert_eq!(frame, expected_waveform("AM.R6E01.00.EHZ", 1_732_525_283_730_000, 100.0, &samples));
    assert_eq!(&frame[..2], &[0u8, 15]);
    assert_eq!(frame.len(), 2 + 15 + 8 + 4 + 4 + 16);
}

#[test]
fn waveform_frame_negative_time_and_unicode_id() {
    let frame = serialize_waveform_packet("震", -1, 50f32.to_bits(), &[]);
    assert_eq!(frame, expected_waveform("震", -1, 50.0, &[]));
    assert_eq!(frame[1], 3);
    assert_eq!(&frame[5..13], &[0xff; 8]);
}

#[test]
fn spectrogram_frame_layout() {
    let columns: Vec<Vec<f32>> = vec![vec![0.5, 1.0, 2.0], vec![-1.0, 3.5, 0.25]];
    let bits: Vec<Vec<u32>> = columns.iter().map(|c| c.iter().map(|v| v.to_bits()).collect()).collect();
    let frame =
        serialize_spectrogram_f32_packet("EHZ", 42, 100f32.to_bits(), 0.13f32.to_bits(), 3, &bits);
    let mut want = vec![0x04, 3];
    want.extend_from_slice(b"EHZ");
    want.extend_from_slice(&42i64.to_le_bytes());
    want.extend_from_slice(&100f32.to_le_bytes());
    want.extend_from_slice(&0.13f32.to_le_bytes());
    want.extend_from_slice(&3u16.to_le_bytes());
    want.extend_from_slice(&2u16.to_le_bytes());
    for c in &columns {
        for v in c {
            want.extend_from_slice(&v.to_le_bytes());
        }
    }
    assert_eq!(frame, want);
}

#[test]
fn waveform_packet_to_binary_is_its_frame() {
    let p = WaveformPacket {
        channel_id: "ENZ".to_string(),
        timestamp_us: 7,
        samples: vec![1.0f32.to_bits(), (-0.5f32).to_bits()],
        sample_rate: 100f32.to_bits(),
    };
    assert_eq!(p.to_binary(), expected_waveform("ENZ", 7, 100.0, &[1.0, -0.5]));
}
