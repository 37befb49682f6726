use rsudp_rust::pubsub::dedup::{generate_dedup_key, DedupChecker};

#[test]
fn test_generate_dedup_key_floors_to_500ms() {
    // 2024-11-25T09:01:23.730Z -> floored to 2024-11-25T09:01:23.500Z
    let key = generate_dedup_key("AM.R6E01", 1732525283730);
    assert_eq!(key, "AM.R6E01:2024-11-25T09:01:23.500Z");
}

#[test]
fn test_same_window_same_key() {
    let key1 = generate_dedup_key("AM.R6E01", 1732525283500);
    let key2 = generate_dedup_key("AM.R6E01", 1732525283730);
    let key3 = generate_dedup_key("AM.R6E01", 1732525283999);
    assert_eq!(key1, key2);
    assert_eq!(key2, key3);
}

#[test]
fn test_adjacent_windows_different_keys() {
    let key1 = generate_dedup_key("AM.R6E01", 1732525283499);
    let key2 = generate_dedup_key("AM.R6E01", 1732525283500);
    assert_ne!(key1, key2);
}

#[test]
fn dedup_key_of_epoch_and_negative_times() {
    assert_eq!(generate_dedup_key("S", 0), "S:1970-01-01T00:00:00.000Z");
    // Truncating division: -499 ms falls into the window starting at 0.
    assert_eq!(generate_dedup_key("S", -499), "S:1970-01-01T00:00:00.000Z");
    assert_eq!(generate_dedup_key("S", -500), "S:1969-12-31T23:59:59.500Z");
}

#[test]
fn test_dedup_checker_new_key_returns_true() {
    let mut checker = DedupChecker::new(100);
    assert!(checker.check_and_insert("key1"));
    assert_eq!(checker.len(), 1);
}

#[test]
fn test_dedup_checker_duplicate_returns_false() {
    let mut checker = DedupChecker::new(100);
    assert!(checker.check_and_insert("key1"));
    assert!(!checker.check_and_insert("key1"));
    assert_eq!(checker.len(), 1);
}

#[test]
fn test_dedup_checker_lru_eviction() {
    let mut checker = DedupChecker::new(3);
    assert!(checker.check_and_insert("key1"));
    assert!(checker.check_and_insert("key2"));
    assert!(checker.check_and_insert("key3"));
    assert_eq!(checker.len(), 3);

    // Adding key4 should evict key1
    assert!(checker.check_and_insert("key4"));
    assert_eq!(checker.len(), 3);

    // key1 was evicted, so it should be treated as new
    assert!(checker.check_and_insert("key1"));
    // key2 was evicted to make room
    assert!(checker.check_and_insert("key2"));
}

#[test]
fn dedup_checker_starts_empty_and_keeps_recent_keys() {
    let mut checker = DedupChecker::new(2);
    assert!(checker.is_empty());
    assert!(checker.check_and_insert("a"));
    assert!(!checker.is_empty());
    assert!(checker.check_and_insert("b"));
    assert!(checker.check_and_insert("c")); // evicts "a"
    assert!(!checker.check_and_insert("b"));
    assert!(!checker.check_and_insert("c"));
    assert!(checker.check_and_insert("a"));
    assert_eq!(checker.len(), 2);
}

#[test]
fn dedup_checker_with_zero_capacity_keeps_last_key() {
    let mut checker = DedupChecker::new(0);
    assert!(checker.check_and_insert("a"));
    assert_eq!(checker.len(), 1);
    assert!(!checker.check_and_insert("a"));
    assert!(checker.check_and_insert("b"));
    assert_eq!(checker.len(), 1);
    assert!(checker.check_and_insert("a"));
}

/// The calendar text of an instant, computed from the day count with the
/// civil-from-days algorithm, for comparison with the key's text.
fn calendar_text(ms: i64) -> String {
    let days = ms.div_euclid(86_400_000);
    let rem = ms.rem_euclid(86_400_000);
    let z = days + 719_468;
    let era = z.div_euclid(146_097);
    let doe = z - era * 146_097;
    let yoe = (doe - doe / 1460 + doe / 36_524 - doe / 146_096) / 365;
    let y = yoe + era * 400;
    let doy = doe - (365 * yoe + yoe / 4 - yoe / 100);
    let mp = (5 * doy + 2) / 153;
    let d = doy - (153 * mp + 2) / 5 + 1;
    let m = if mp < 10 { mp + 3 } else { mp - 9 };
    let year = if m <= 2 { y + 1 } else { y };
    let year_text = if (0..=9999).contains(&year) {
        format!("{:04}", year)
    } else if year > 9999 {
        format!("+{:04}", year)
    } else {
        format!("-{:04}", -year)
    };
    format!(
        "{}-{:02}-{:02}T{:02}:{:02}:{:02}.{:03}Z",
        year_text,
        m,
        d,
        rem / 3_600_000,
        rem % 3_600_000 / 60_000,
        rem % 60_000 / 1000,
        rem % 1000
    )
}

#[test]
fn dedup_key_text_is_the_gregorian_calendar() {
    let mut samples: Vec<i64> = vec![
        0, -1, -500, 499, 500, 951_782_400_000, 951_868_800_000, 1_732_525_283_730,
        -62_167_219_200_000, -62_167_219_200_001, 253_402_300_799_999, 253_402_300_800_000,
        -8_334_601_228_800_000, -8_334_601_228_799_500, 8_210_266_876_799_999,
    ];
    let mut x: u64 = 0x9E37_79B9_7F4A_7C15;
    for _ in 0..2000 {
        x = x.wrapping_mul(6_364_136_223_846_793_005).wrapping_add(1_442_695_040_888_963_407);
        samples.push((x % 16_544_868_105_600_000) as i64 - 8_334_601_228_800_000);
    }
    for t in samples {
        let window = (t / 500) * 500;
        if window < -8_334_601_228_800_000 || window > 8_210_266_876_799_999 {
            continue;
        }
        assert_eq!(generate_dedup_key("S", t), format!("S:{}", calendar_text(window)), "t = {}", t);
    }
}

#[test]
fn dedup_len_is_new_keys_up_to_capacity() {
    let mut c = DedupChecker::new(2);
    let mut new_keys = 0;
    for (k, want_new) in [("a", true), ("b", true), ("a", false), ("c", true), ("d", true), ("c", false)] {
        let fresh = c.check_and_insert(k);
        assert_eq!(fresh, want_new);
        if fresh {
            new_keys += 1;
        }
        assert_eq!(c.len(), std::cmp::min(new_keys, 2));
    }
    let mut one = DedupChecker::new(100);
    assert!(one.check_and_insert("key1"));
    assert_eq!(one.len(), 1);
}
