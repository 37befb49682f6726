// Power-law compression of spectral densities (PSD^0.1) and its mapping to
// display brightness.

#[test]
fn test_linear_psd_compression_pipeline() {
    let compressed_zero = 0.0_f64.powf(0.1);
    assert_eq!(compressed_zero, 0.0, "Zero PSD^0.1 should be 0");

    let compressed_one = 1.0_f64.powf(0.1);
    assert!((compressed_one - 1.0).abs() < 0.001);

    let compressed_strong = 1e6_f64.powf(0.1);
    assert!(compressed_strong > 3.9 && compressed_strong < 4.1, "1e6^0.1 should be ~3.981, got {}", compressed_strong);

    let compressed_tiny = 1e-10_f64.powf(0.1);
    assert!(compressed_tiny < 0.2, "1e-10^0.1 should be small, got {}", compressed_tiny);

    let max_psd = 1e6_f64;
    let max_compressed = max_psd.powf(0.1);

    let u8_peak = ((max_psd.powf(0.1) / max_compressed).clamp(0.0, 1.0) * 255.0).round() as u8;
    assert_eq!(u8_peak, 255, "Peak should map to 255");

    let u8_bg = ((1e-10_f64.powf(0.1) / max_compressed).clamp(0.0, 1.0) * 255.0).round() as u8;
    assert!(u8_bg < 10, "Background should be very low, got {}", u8_bg);

    let mid_psd = 1e-3_f64;
    let mid_ratio = mid_psd.powf(0.1) / max_compressed;
    assert!(mid_ratio > 0.1 && mid_ratio < 0.5, "Mid PSD ratio should be moderate, got {:.3}", mid_ratio);
}
