use rsudp_rust::forward::{
    destination_text, filter_accepts_upper, should_forward_channel, validate_forward_settings,
    ForwardError, ForwardMsg,
};
use rsudp_rust::settings::ForwardSettings;

#[test]
fn test_should_forward_channel_all() {
    assert!(should_forward_channel("EHZ", &["all".to_string()]));
    assert!(should_forward_channel("EHN", &["ALL".to_string()]));
    assert!(should_forward_channel("anything", &["All".to_string()]));
}

#[test]
fn test_should_forward_channel_suffix_match() {
    let filters = vec!["HZ".to_string()];
    assert!(should_forward_channel("EHZ", &filters));
    assert!(should_forward_channel("SHZ", &filters));
    assert!(should_forward_channel("BHZ", &filters));
    assert!(!should_forward_channel("EHN", &filters));
    assert!(!should_forward_channel("EHE", &filters));
}

#[test]
fn test_should_forward_channel_case_insensitive() {
    let filters = vec!["hz".to_string()];
    assert!(should_forward_channel("EHZ", &filters));
    assert!(should_forward_channel("ehz", &filters));
}

#[test]
fn test_should_forward_channel_exact_match() {
    let filters = vec!["EHZ".to_string()];
    assert!(should_forward_channel("EHZ", &filters));
    assert!(!should_forward_channel("EHN", &filters));
}

#[test]
fn test_should_forward_channel_multiple_filters() {
    let filters = vec!["EHZ".to_string(), "EHN".to_string()];
    assert!(should_forward_channel("EHZ", &filters));
    assert!(should_forward_channel("EHN", &filters));
    assert!(!should_forward_channel("EHE", &filters));
}

#[test]
fn test_should_forward_channel_empty_filters() {
    assert!(should_forward_channel("EHZ", &[]));
    assert!(should_forward_channel("anything", &[]));
}

#[test]
fn test_channel_suffix_matching_hz() {
    // "HZ" filter should match EHZ, SHZ, BHZ but not EHN, EHE
    let filters = vec!["HZ".to_string()];
    assert!(should_forward_channel("EHZ", &filters));
    assert!(should_forward_channel("SHZ", &filters));
    assert!(should_forward_channel("BHZ", &filters));
    assert!(!should_forward_channel("EHN", &filters));
    assert!(!should_forward_channel("EHE", &filters));
}

#[test]
fn test_channel_all_wildcard() {
    let filters = vec!["all".to_string()];
    assert!(should_forward_channel("EHZ", &filters));
    assert!(should_forward_channel("EHN", &filters));
    assert!(should_forward_channel("ENE", &filters));
    assert!(should_forward_channel("anything", &filters));
}

#[test]
fn filter_longer_than_channel_never_matches() {
    assert!(!should_forward_channel("HZ", &["EHZ".to_string()]));
    assert!(!filter_accepts_upper("HZ", "EHZ"));
    assert!(filter_accepts_upper("EHZ", "ALL"));
    assert!(!filter_accepts_upper("EHZ", "all"));
}

#[test]
fn empty_filter_string_matches_every_channel() {
    assert!(should_forward_channel("EHZ", &["".to_string()]));
}

#[test]
fn config_mismatch_is_reported_with_counts() {
    let settings = ForwardSettings {
        enabled: true,
        address: vec!["127.0.0.1".to_string(), "127.0.0.2".to_string()],
        port: vec![8888],
        channels: vec!["all".to_string()],
        fwd_data: true,
        fwd_alarms: false,
    };
    let err = validate_forward_settings(&settings).unwrap_err();
    match &err {
        ForwardError::ConfigMismatch { addresses, ports } => {
            assert_eq!(*addresses, 2);
            assert_eq!(*ports, 1);
        }
        _ => panic!("expected a mismatch"),
    }
    let msg = err.message();
    assert_eq!(msg, "Forward config: address count (2) != port count (1)");
    assert!(msg.contains("address count (2)"));
    assert!(msg.contains("port count (1)"));
}

#[test]
fn matching_counts_validate() {
    let settings = ForwardSettings::default();
    assert!(validate_forward_settings(&settings).is_ok());
}

#[test]
fn destination_text_joins_address_and_port() {
    assert_eq!(destination_text("127.0.0.1", 8888), "127.0.0.1:8888");
    assert_eq!(destination_text("example.org", 0), "example.org:0");
    assert_eq!(destination_text("h", 65535), "h:65535");
}

#[test]
fn address_resolve_message() {
    let e = ForwardError::AddressResolve("bad:1".to_string());
    assert_eq!(e.message(), "Forward: cannot resolve address 'bad:1'");
    let io = ForwardError::SocketBind(std::io::Error::new(std::io::ErrorKind::Other, "boom"));
    assert_eq!(io.message(), "Forward socket bind error: boom");
}

#[test]
fn forward_messages_clone() {
    let d = ForwardMsg::Data(vec![1, 2, 3]);
    match d.clone() {
        ForwardMsg::Data(v) => assert_eq!(v, vec![1, 2, 3]),
        _ => panic!(),
    }
    let a = ForwardMsg::Alarm("ALARM EHZ".to_string());
    match a.clone() {
        ForwardMsg::Alarm(t) => assert_eq!(t, "ALARM EHZ"),
        _ => panic!(),
    }
}

#[test]
fn policy_forwards_data_of_configured_channels_only() {
    let mut settings = ForwardSettings::default();
    settings.channels = vec!["HZ".to_string()];
    let policy = rsudp_rust::forward::ForwardPolicy::from_settings(&settings);
    assert!(policy.accepts_data("EHZ"));
    assert!(!policy.accepts_data("EHN"));
    assert!(!policy.accepts_alarms());
    settings.fwd_data = false;
    settings.fwd_alarms = true;
    let policy = rsudp_rust::forward::ForwardPolicy::from_settings(&settings);
    assert!(!policy.accepts_data("EHZ"));
    assert!(policy.accepts_alarms());
}

#[test]
fn forward_stats_count_each_kind() {
    let mut stats = rsudp_rust::forward::ForwardStats::new();
    assert_eq!((stats.packets_sent, stats.packets_dropped, stats.send_errors), (0, 0, 0));
    stats.record_sent();
    stats.record_sent();
    stats.record_dropped();
    stats.record_error();
    assert_eq!((stats.packets_sent, stats.packets_dropped, stats.send_errors), (2, 1, 1));
    stats.packets_sent = u64::MAX;
    stats.record_sent();
    assert_eq!(stats.packets_sent, 0);
}

#[test]
fn adding_filters_keeps_forwarded_channels() {
    let few = vec!["HZ".to_string()];
    let more = vec!["HZ".to_string(), "ENE".to_string()];
    assert!(should_forward_channel("EHZ", &few));
    assert!(should_forward_channel("EHZ", &more));
    assert!(should_forward_channel("ENE", &more));
}
