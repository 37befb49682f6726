use rsudp_rust::hue::client::{link_result, LinkError, LinkResponse, LinkSuccess};
use rsudp_rust::hue::HueIntegration;
use rsudp_rust::hue::client::base_url;
use rsudp_rust::hue::config::HueConfig;
use rsudp_rust::hue::discovery::Discovery;
use rsudp_rust::pipeline::{intensity_component, intensity_target};
use rsudp_rust::text::contains_str;
use rsudp_rust::rsam::{rsam_format, RsamFormat};
use rsudp_rust::settings::{
    dump_format, is_known_section, AlertSoundSettings, BlueSkySettings, CustomSettings, DiscordSettings, DumpFormat,
    ForwardSettings, GoogleChatSettings, LineSettings, PrintDataSettings, RsamSettings,
    SettingsSection, SnsSettings, TelegramSettings, TweetsSettings, WriteSettings,
};
use rsudp_rust::sound::{playback_request, AudioManager};
use rsudp_rust::text::{decimal_i64, decimal_u64, three_digit_text};
use rsudp_rust::web::alerts::format_shindo_message;
use rsudp_rust::web::sns::discord::DiscordProvider;
use rsudp_rust::web::sns::gchat::GChatProvider;
use rsudp_rust::web::sns::line::LineProvider;
use rsudp_rust::web::sns::messages::{
    discord_trigger_content, gchat_reset_header, gchat_trigger_text, line_trigger_text,
    sns_trigger_message,
};
use rsudp_rust::web::sns::{plan_notifications, split_comma_list};

#[test]
fn shindo_messages() {
    assert_eq!(format_shindo_message("0"), "揺れを検出できませんでした");
    assert_eq!(format_shindo_message("3"), "震度 3相当の揺れを検出しました");
    assert_eq!(format_shindo_message("5-"), "震度 5弱相当の揺れを検出しました");
    assert_eq!(format_shindo_message("5+"), "震度 5強相当の揺れを検出しました");
    assert_eq!(format_shindo_message("6-"), "震度 6弱相当の揺れを検出しました");
    assert_eq!(format_shindo_message("6+"), "震度 6強相当の揺れを検出しました");
    assert_eq!(format_shindo_message("7"), "震度 7相当の揺れを検出しました");
}

#[test]
fn comma_lists_are_cut_and_trimmed() {
    assert_eq!(split_comma_list(" U1 , U2"), vec!["U1".to_string(), "U2".to_string()]);
    assert_eq!(split_comma_list(""), vec!["".to_string()]);
    assert_eq!(split_comma_list("a,,b,"), vec!["a", "", "b", ""]);
    let joined = split_comma_list("x,y,z").join(",");
    assert_eq!(joined, "x,y,z");
}

#[test]
fn notification_plan_follows_sections() {
    let mut discord = DiscordSettings::default();
    let mut line = LineSettings::default();
    let mut gchat = GoogleChatSettings::default();
    let mut sns = SnsSettings::default();
    let plan = plan_notifications(&discord, &line, &gchat, &sns);
    assert!(plan.s3.is_none() && plan.discord.is_none() && plan.line.is_none());
    assert!(plan.gchat.is_none() && plan.sns.is_none());

    discord.enabled = true;
    discord.webhook_url = "https://discord.example/hook".to_string();
    discord.use_embed = false;
    line.enabled = true;
    line.channel_access_token = "tok".to_string();
    line.to_ids = "U1, U2".to_string();
    line.s3_bucket_name = Some("line-bucket".to_string());
    gchat.enabled = true;
    gchat.webhook_url = "https://chat.example/hook".to_string();
    sns.enabled = true;
    sns.topic_arn = "arn:aws:sns:x".to_string();
    sns.aws_region = "ap-northeast-1".to_string();
    let plan = plan_notifications(&discord, &line, &gchat, &sns);
    assert_eq!(plan.s3, Some(("line-bucket".to_string(), "us-east-1".to_string())));
    let d = plan.discord.unwrap();
    assert_eq!(d.webhook_url(), "https://discord.example/hook");
    assert!(!d.use_embed());
    let l = plan.line.unwrap();
    assert_eq!(l.channel_access_token(), "tok");
    assert_eq!(l.to_ids(), &vec!["U1".to_string(), "U2".to_string()]);
    assert_eq!(plan.gchat.unwrap().webhook_url(), "https://chat.example/hook");
    assert_eq!(plan.sns, Some(("arn:aws:sns:x".to_string(), "ap-northeast-1".to_string())));

    gchat.s3_bucket_name = Some("chat-bucket".to_string());
    gchat.s3_aws_region = Some("eu-west-1".to_string());
    let plan = plan_notifications(&discord, &line, &gchat, &sns);
    assert_eq!(plan.s3, Some(("chat-bucket".to_string(), "eu-west-1".to_string())));

    line.send_images = false;
    let plan = plan_notifications(&discord, &line, &gchat, &sns);
    assert!(plan.s3.is_none());
}

#[test]
fn providers_keep_their_parameters() {
    let d = DiscordProvider::new("u".to_string(), true);
    assert_eq!(d.webhook_url(), "u");
    assert!(d.use_embed());
    let g = GChatProvider::new("g".to_string());
    assert_eq!(g.webhook_url(), "g");
    let l = LineProvider::new("t".to_string(), vec!["a".to_string()]);
    assert_eq!(l.channel_access_token(), "t");
    assert_eq!(l.to_ids().len(), 1);
}

#[test]
fn bridge_ids_are_cleaned_and_matched() {
    assert_eq!(Discovery::accept_bridge("bridgeid=ECB5FAFFFE123456", None), Some("ecb5fafffe123456".to_string()));
    assert_eq!(Discovery::accept_bridge("ECB5FAFFFE123456", None), Some("ecb5fafffe123456".to_string()));
    assert_eq!(Discovery::accept_bridge("", None), Some("".to_string()));
    assert_eq!(
        Discovery::accept_bridge("bridgeid=ABC", Some("abc")),
        Some("abc".to_string())
    );
    assert_eq!(Discovery::accept_bridge("bridgeid=ABC", Some("ABC")), Some("abc".to_string()));
    assert_eq!(Discovery::accept_bridge("bridgeid=ABC", Some("abd")), None);
    assert_eq!(Discovery::accept_bridge("xbridgeid=ABC", None), Some("xbridgeid=abc".to_string()));
    assert_eq!(Discovery::accept_bridge("bridgeid=Abridgeid=C", None), Some("ac".to_string()));
}

#[test]
fn bridge_urls() {
    assert_eq!(base_url("192.168.1.10"), "https://192.168.1.10");
    assert_eq!(base_url("fe80::1"), "https://[fe80::1]");
}

#[test]
fn hue_config_defaults() {
    let c = HueConfig::default();
    assert!(!c.enabled);
    assert!(c.app_key.is_empty());
    assert!(c.bridge_id.is_none());
    assert!(c.target_ids.is_empty());
}

#[test]
fn rsam_formats() {
    assert_eq!(rsam_format("json"), (RsamFormat::Json, true));
    assert_eq!(rsam_format("Csv"), (RsamFormat::Csv, true));
    assert_eq!(rsam_format("LITE"), (RsamFormat::Lite, true));
    assert_eq!(rsam_format("xml"), (RsamFormat::Lite, false));
}

#[test]
fn dump_formats() {
    assert_eq!(dump_format("toml"), Some(DumpFormat::Toml));
    assert_eq!(dump_format("TOML"), Some(DumpFormat::Toml));
    assert_eq!(dump_format("yaml"), Some(DumpFormat::Yaml));
    assert_eq!(dump_format("YML"), Some(DumpFormat::Yaml));
    assert_eq!(dump_format("json"), None);
}

#[test]
fn section_defaults() {
    let s = SettingsSection::default();
    assert_eq!(s.port, 8888);
    assert_eq!(s.station, "Z0000");
    assert_eq!(s.output_dir, "rsudp");
    assert!(s.debug);
    assert!(!PrintDataSettings::default().enabled);
    let w = WriteSettings::default();
    assert!(!w.enabled);
    assert_eq!(w.channels, vec!["all".to_string()]);
    let f = ForwardSettings::default();
    assert_eq!(f.address, vec!["192.168.1.254".to_string()]);
    assert_eq!(f.port, vec![8888]);
    assert!(f.fwd_data && !f.fwd_alarms && !f.enabled);
    let a = AlertSoundSettings::default();
    assert!(!a.enabled && a.trigger_file.is_empty() && a.intensity_files.is_empty());
    assert_eq!(CustomSettings::default().codefile, "n/a");
    let t = TweetsSettings::default();
    assert!(t.tweet_images && t.api_key == "n/a");
    let tg = TelegramSettings::default();
    assert_eq!(tg.upload_timeout, 10);
    let g = GoogleChatSettings::default();
    assert_eq!(g.s3_object_key_prefix, "rsudp/googlechat/");
    assert_eq!(g.s3_upload_timeout_seconds, 3);
    let d = DiscordSettings::default();
    assert!(d.use_embed && d.send_images);
    let sn = SnsSettings::default();
    assert_eq!(sn.aws_region, "n/a");
    let l = LineSettings::default();
    assert_eq!(l.s3_object_key_prefix, "rsudp/line/");
    assert!(l.to_ids.is_empty());
    let b = BlueSkySettings::default();
    assert!(b.post_images && b.username == "n/a");
    let r = RsamSettings::default();
    assert_eq!((r.fwport, r.interval), (8887, 10));
    assert_eq!(r.fwformat, "LITE");
    assert_eq!(r.channel, "HZ");
    assert_eq!(r.units, "VEL");
}

#[test]
fn intensity_routing() {
    let chans = vec!["ENE".to_string(), "ENN".to_string(), "ENZ".to_string()];
    assert!(intensity_target("AM.R6E01.00.ENE", &chans));
    assert!(intensity_target("AM.R6E01.00.ENZ", &chans));
    assert!(!intensity_target("AM.R6E01.00.EHZ", &chans));
    assert!(!intensity_target("AM.R6E01.00.ENE", &[]));
    assert_eq!(intensity_component("AM.R6E01.00.ENE"), "ENE");
    assert_eq!(intensity_component("AM.R6E01.00.ENN"), "ENN");
    assert_eq!(intensity_component("AM.R6E01.00.ENZ"), "ENZ");
    assert_eq!(intensity_component("AM.R6E01.00.EHZ"), "ENZ");
    assert!(contains_str("abc", ""));
    assert!(!contains_str("", "a"));
}

#[test]
fn empty_sound_paths_are_not_queued() {
    let (tx, rx) = std::sync::mpsc::channel::<String>();
    let am = AudioManager::from_sender(tx);
    assert_eq!(am.queue_file(""), Ok(false));
    assert!(rx.try_recv().is_err());
    assert_eq!(am.queue_file("alert.wav"), Ok(true));
    assert_eq!(rx.recv().unwrap(), "alert.wav");
    drop(rx);
    assert_eq!(am.queue_file("late.wav"), Err("late.wav".to_string()));
    assert_eq!(playback_request(""), None);
    assert_eq!(playback_request("a.wav"), Some("a.wav".to_string()));
}

#[test]
fn decimal_texts() {
    assert_eq!(decimal_u64(0), "0");
    assert_eq!(decimal_u64(u64::MAX), u64::MAX.to_string());
    assert_eq!(decimal_i64(-42), "-42");
    assert_eq!(decimal_i64(i64::MIN), i64::MIN.to_string());
    assert_eq!(three_digit_text(7), "007");
    assert_eq!(three_digit_text(999), "999");
    assert_eq!(split_comma_list("  a b \n"), vec!["a b".to_string()]);
}

#[test]
fn trigger_messages_name_channel_and_time() {
    let t = "2024-11-25 09:01:23.730 UTC";
    assert_eq!(
        discord_trigger_content("EHZ", t),
        "🚨 **ALERT TRIGGERED** on channel `EHZ` at 2024-11-25 09:01:23.730 UTC 🚨"
    );
    assert_eq!(
        gchat_trigger_text("EHZ", t),
        "🚨 *ALERT TRIGGERED* on channel `EHZ` at 2024-11-25 09:01:23.730 UTC 🚨"
    );
    assert_eq!(gchat_reset_header("ENZ"), "✅ *ALERT RESET* on channel `ENZ`");
    assert_eq!(
        line_trigger_text("EHZ", t),
        "🚨 地震検知 🚨\nチャンネル: EHZ\n発生時刻: 2024-11-25 09:01:23.730 UTC"
    );
    assert_eq!(sns_trigger_message("EHZ", t), "ALERT: EHZ triggered at 2024-11-25 09:01:23.730 UTC");
}

#[test]
fn known_sections_ignore_case() {
    assert!(is_known_section("settings"));
    assert!(is_known_section("ALERTSOUND"));
    assert!(is_known_section("Hue"));
    assert!(!is_known_section("pubsub"));
    assert!(!is_known_section(""));
}

#[test]
fn test_default_settings() {
    let settings = SettingsSection::default();
    assert_eq!(settings.port, 8888);
    assert_eq!(settings.station, "Z0000");
}

#[test]
fn bridge_request_urls() {
    let base = base_url("10.0.0.2");
    assert_eq!(rsudp_rust::hue::client::register_url(&base), "https://10.0.0.2/api");
    assert_eq!(
        rsudp_rust::hue::client::resource_url(&base, "light"),
        "https://10.0.0.2/clip/v2/resource/light"
    );
    assert_eq!(
        rsudp_rust::hue::client::light_url(&base, "abc-1"),
        "https://10.0.0.2/clip/v2/resource/light/abc-1"
    );
}

/// The characters that the trimming contract counts as white space.
fn listed_white_space(u: u32) -> bool {
    (0x9..=0xD).contains(&u)
        || u == 0x20
        || u == 0x85
        || u == 0xA0
        || u == 0x1680
        || (0x2000..=0x200A).contains(&u)
        || u == 0x2028
        || u == 0x2029
        || u == 0x202F
        || u == 0x205F
        || u == 0x3000
}

#[test]
fn white_space_set_matches_std_for_every_char() {
    for u in 0u32..=0x10FFFF {
        if let Some(c) = char::from_u32(u) {
            assert_eq!(c.is_whitespace(), listed_white_space(u), "char {:#x}", u);
        }
    }
}

#[test]
fn list_pieces_lose_every_white_space_char_at_both_ends() {
    for u in 0u32..=0x3000 {
        if listed_white_space(u) {
            let c = char::from_u32(u).unwrap();
            let s = format!("{c}{c}x{c}y{c}");
            assert_eq!(split_comma_list(&s), vec![format!("x{c}y")]);
            assert_eq!(split_comma_list(&s), vec![s.trim().to_string()]);
        }
    }
    assert_eq!(split_comma_list(" \t\n"), vec!["".to_string()]);
    assert_eq!(split_comma_list("\u{200B}a\u{200B}"), vec!["\u{200B}a\u{200B}".to_string()]);
}

fn light(id: &str, on: bool, look: (u32, u32)) -> rsudp_rust::hue::SavedLight<(u32, u32)> {
    rsudp_rust::hue::SavedLight { id: id.to_string(), on, look }
}

fn order_text(o: &rsudp_rust::hue::RestoreOrder<(u32, u32)>) -> String {
    match o.step {
        rsudp_rust::hue::RestoreStep::Restore((a, b)) => format!("{}:on:{}:{}", o.id, a, b),
        rsudp_rust::hue::RestoreStep::TurnOff => format!("{}:off", o.id),
    }
}

#[test]
fn hue_alert_saves_once_and_restores_the_last_reading() {
    let config = HueConfig {
        enabled: true,
        app_key: "k".to_string(),
        bridge_id: None,
        target_ids: vec!["a".to_string(), "b".to_string(), "c".to_string()],
    };
    let mut hue: HueIntegration<(u32, u32)> = HueIntegration::new(config);
    assert!(hue.start());
    assert_eq!(hue.current_token(), 0);
    assert_eq!(hue.trigger_alert(), Some(true));
    hue.remember_lights(vec![
        light("a", true, (1, 2)),
        light("x", true, (9, 9)),
        light("b", false, (3, 4)),
        light("a", true, (5, 6)),
    ]);
    // A second alert before the lights are put back does not read them again.
    assert_eq!(hue.trigger_alert(), Some(false));
    let token = hue.reset_alert().unwrap();
    assert_eq!(token, 2);
    assert!(hue.is_current(token));
    // A new alert overtakes the waiting reset.
    assert_eq!(hue.trigger_alert(), Some(false));
    assert!(!hue.is_current(token));
    let orders: Vec<String> = hue.restore_lights().iter().map(order_text).collect();
    assert_eq!(orders, vec!["a:on:5:6".to_string(), "b:off".to_string()]);
    assert!(hue.restore_lights().is_empty());
    assert_eq!(hue.trigger_alert(), Some(true));
}

#[test]
fn hue_disabled_does_nothing() {
    let mut hue: HueIntegration<(u32, u32)> = HueIntegration::new(HueConfig::default());
    assert!(!hue.start());
    assert_eq!(hue.trigger_alert(), None);
    assert_eq!(hue.current_token(), 0);
    assert_eq!(hue.reset_alert(), None);
    hue.remember_lights(vec![light("a", true, (1, 2))]);
    assert!(hue.restore_lights().is_empty());
}

#[test]
fn hue_registration_answer_first_entry_decides() {
    let ok = LinkResponse { success: Some(LinkSuccess { username: "key1".to_string() }), error: None };
    let err = LinkResponse {
        success: None,
        error: Some(LinkError { description: "link button not pressed".to_string() }),
    };
    let empty = LinkResponse { success: None, error: None };
    assert_eq!(link_result(&vec![]), Err("Unknown error".to_string()));
    assert_eq!(link_result(&vec![empty]), Err("Unknown error".to_string()));
    assert_eq!(link_result(&vec![err]), Err("link button not pressed".to_string()));
    let err2 = LinkResponse { success: None, error: Some(LinkError { description: "x".to_string() }) };
    assert_eq!(link_result(&vec![ok, err2]), Ok("key1".to_string()));
}
