use rsudp_rust::web::plot::{get_jma_color, panel_order, shindo_label};
use rsudp_rust::web::sns::messages::{alert_image_key, s3_object_url};
use rsudp_rust::web::alerts::{
    capture_url, reset_email_body, reset_email_subject, trigger_email_body, trigger_email_subject,
};
use rsudp_rust::web::capture::{capture_request, channel_list, CaptureQueryError};
use rsudp_rust::web::history::{retention_cutoff_ms, AlertHistoryManager, HistoryEntry};

fn entry(id: u128, t: i64, what: &str) -> HistoryEntry<String> {
    HistoryEntry { id, trigger_time_ms: t, event: what.to_string() }
}

fn ids(h: &AlertHistoryManager<String>) -> Vec<u128> {
    h.events().iter().map(|e| e.id).collect()
}

#[test]
fn history_forgets_old_alerts_from_the_front() {
    let mut h = AlertHistoryManager::new();
    assert!(h.add_event(entry(1, 1_000, "a"), 0).is_empty());
    assert!(h.add_event(entry(2, 5_000, "b"), 0).is_empty());
    assert!(h.add_event(entry(3, 2_000, "c"), 0).is_empty());
    let removed = h.add_event(entry(4, 9_000, "d"), 3_000);
    let removed_ids: Vec<u128> = removed.iter().map(|e| e.id).collect();
    assert_eq!(removed_ids, vec![1]);
    assert_eq!(ids(&h), vec![2, 3, 4]);
    let removed = h.add_event(entry(5, 1, "e"), 10_000);
    assert_eq!(removed.len(), 4);
    assert!(h.events().is_empty());
}

#[test]
fn history_updates_first_alert_with_id() {
    let mut h = AlertHistoryManager::new();
    h.add_event(entry(7, 10, "first"), 0);
    h.add_event(entry(8, 20, "second"), 0);
    assert_eq!(h.position(8), Some(1));
    assert_eq!(h.position(9), None);
    h.update_event(entry(8, 20, "reset"));
    assert_eq!(h.events()[1].event, "reset");
    h.update_event(entry(9, 30, "unknown"));
    assert_eq!(ids(&h), vec![7, 8]);
}

#[test]
fn alert_email_texts() {
    assert_eq!(trigger_email_subject("EHZ"), "ALERT TRIGGERED: EHZ");
    assert_eq!(
        trigger_email_body("EHZ", "2024-11-25 09:01:23 UTC"),
        "Seismic alert triggered on channel EHZ\nTime: 2024-11-25 09:01:23 UTC\n"
    );
    assert_eq!(reset_email_subject("EHZ"), "ALERT SUMMARY: EHZ");
    let body = reset_email_body("EHZ", "震度 3相当の揺れを検出しました", "T1", "T2", "2.50", None);
    assert_eq!(
        body,
        "Seismic alert RESET on channel EHZ\n\nSummary: 震度 3相当の揺れを検出しました\nTriggered: T1\nReset: T2\nMax STA/LTA Ratio: 2.50\n"
    );
    let body = reset_email_body("EHZ", "s", "T1", "T2", "1.00", Some("http://x/y.png"));
    assert!(body.ends_with("Max STA/LTA Ratio: 1.00\n\nWaveform Snapshot: http://x/y.png"));
}

#[test]
fn image_and_service_locations() {
    assert_eq!(alert_image_key("1234"), "alerts/1234.png");
    assert_eq!(
        s3_object_url("bucket", "ap-northeast-1", "alerts/1234.png"),
        "https://bucket.s3.ap-northeast-1.amazonaws.com/alerts/1234.png"
    );
    assert_eq!(capture_url("http://capture:3000//"), "http://capture:3000/capture");
    assert_eq!(capture_url("http://capture:3000"), "http://capture:3000/capture");
    assert_eq!(capture_url(""), "/capture");
}

#[test]
fn capture_requests_are_checked_in_order() {
    assert_eq!(channel_list(" EHZ, ,ENE,"), vec!["EHZ".to_string(), "ENE".to_string()]);
    let start = Some("2024-11-25T09:01:23.000Z");
    let end = Some("2024-11-25T09:02:23.500+00:00");
    assert_eq!(capture_request(None, start, end).unwrap_err(), CaptureQueryError::MissingChannels);
    assert_eq!(capture_request(Some(" , "), start, end).unwrap_err(), CaptureQueryError::MissingChannels);
    assert_eq!(capture_request(Some("EHZ"), None, end).unwrap_err(), CaptureQueryError::MissingStart);
    assert_eq!(capture_request(Some("EHZ"), start, None).unwrap_err(), CaptureQueryError::MissingEnd);
    assert_eq!(capture_request(Some("EHZ"), Some("yesterday"), Some("x")).unwrap_err(), CaptureQueryError::InvalidStart);
    assert_eq!(capture_request(Some("EHZ"), start, Some("x")).unwrap_err(), CaptureQueryError::InvalidEnd);
    assert_eq!(capture_request(Some("EHZ"), end, start).unwrap_err(), CaptureQueryError::EmptyWindow);
    assert_eq!(
        capture_request(Some("EHZ"), start, Some("2024-11-25T09:01:23.000900Z")).unwrap_err(),
        CaptureQueryError::EmptyWindow
    );
    let q = capture_request(Some("EHZ,ENZ"), start, end).unwrap();
    assert_eq!(q.channels, vec!["EHZ".to_string(), "ENZ".to_string()]);
    assert_eq!(q.start_ns, 1_732_525_283_000_000_000);
    assert_eq!(q.end_ns, 1_732_525_343_500_000_000);
    assert_eq!(CaptureQueryError::EmptyWindow.message(), "end must be after start");
    assert_eq!(CaptureQueryError::MissingChannels.message(), "channels parameter is required");
}

#[test]
fn plot_colors_follow_the_jma_table() {
    assert_eq!(get_jma_color("0"), (242, 242, 255));
    assert_eq!(get_jma_color("3"), (51, 255, 0));
    assert_eq!(get_jma_color("5-"), (255, 153, 0));
    assert_eq!(get_jma_color("5+"), (255, 40, 0));
    assert_eq!(get_jma_color("6+"), (85, 0, 17));
    assert_eq!(get_jma_color("7"), (85, 0, 85));
    assert_eq!(get_jma_color("8"), (255, 255, 255));
    assert_eq!(get_jma_color(""), (255, 255, 255));
}

fn reference_panel_order(channels: &[&str]) -> Vec<String> {
    let order = |s: &str| {
        if s.ends_with('Z') {
            0
        } else if s.ends_with('N') {
            1
        } else if s.ends_with('E') {
            2
        } else {
            3
        }
    };
    let mut v: Vec<String> = channels.iter().map(|s| s.to_string()).collect();
    v.sort_by(|a, b| order(a).cmp(&order(b)).then(a.cmp(b)));
    v
}

#[test]
fn plot_panels_go_vertical_north_east_then_others() {
    let chans = ["EHE", "HDF", "EHN", "ENZ", "EHZ", "ENE", "SHZ", "X", "", "ÉHZ", "EHZ"];
    let v: Vec<String> = chans.iter().map(|s| s.to_string()).collect();
    let got = panel_order(&v);
    assert_eq!(got, reference_panel_order(&chans));
    assert_eq!(
        panel_order(&vec!["EHE".to_string(), "EHN".to_string(), "EHZ".to_string()]),
        vec!["EHZ".to_string(), "EHN".to_string(), "EHE".to_string()]
    );
    assert!(panel_order(&vec![]).is_empty());
}

#[test]
fn plot_label_names_the_class() {
    assert_eq!(shindo_label("3"), "[震度 3相当]");
    assert_eq!(shindo_label("5-"), "[震度 5弱相当]");
    assert_eq!(shindo_label("6+"), "[震度 6強相当]");
    assert_eq!(shindo_label("0"), "[震度 0相当]");
}

#[test]
fn history_keeps_a_day_of_alerts() {
    assert_eq!(retention_cutoff_ms(100_000_000), 13_600_000);
    assert_eq!(retention_cutoff_ms(0), -86_400_000);
    let mut h = AlertHistoryManager::new();
    let day: i64 = 86_400_000;
    assert!(h.record_at(entry(1, 0, "a"), 10).is_empty());
    // Exactly a day after the first alert, it is still kept.
    assert!(h.record_at(entry(2, day, "b"), day).is_empty());
    let removed = h.record_at(entry(3, day + 1, "c"), day + 1);
    assert_eq!(removed.iter().map(|e| e.id).collect::<Vec<_>>(), vec![1]);
    assert_eq!(ids(&h), vec![2, 3]);
}
