//! The configuration sections of the station and their defaults.
//!
//! Sections whose values are all integers, flags and text live here; the
//! plot and alert sections (which hold real-valued parameters) and the file
//! and environment loading stay with the application.
use vstd::prelude::*;
use vstd::string::*;
use std::collections::BTreeMap;
use crate::text::{to_lower, lowercased, same_text};

verus! {

/// `[settings]`: receiver port, station name, output directory, debug flag.
#[derive(Debug, Clone)]
pub struct SettingsSection {
    pub port: u16,
    pub station: String,
    /// Directory for plots and data (a path, kept as text).
    pub output_dir: String,
    pub debug: bool,
}

/// `[printdata]`
#[derive(Debug, Clone)]
pub struct PrintDataSettings {
    pub enabled: bool,
}

/// `[write]`
#[derive(Debug, Clone)]
pub struct WriteSettings {
    pub enabled: bool,
    pub channels: Vec<String>,
}

/// `[forward]`: UDP forwarding destinations and filters.
#[derive(Debug, Clone)]
pub struct ForwardSettings {
    pub enabled: bool,
    pub address: Vec<String>,
    pub port: Vec<u16>,
    pub channels: Vec<String>,
    pub fwd_data: bool,
    pub fwd_alarms: bool,
}

/// `[alertsound]`
#[derive(Debug, Clone)]
pub struct AlertSoundSettings {
    pub enabled: bool,
    pub trigger_file: String,
    pub default_reset_file: String,
    pub intensity_files: BTreeMap<String, String>,
}

/// `[custom]`
#[derive(Debug, Clone)]
pub struct CustomSettings {
    pub enabled: bool,
    pub codefile: String,
    pub win_override: bool,
}

/// `[tweets]`
#[derive(Debug, Clone)]
pub struct TweetsSettings {
    pub enabled: bool,
    pub tweet_images: bool,
    pub api_key: String,
    pub api_secret: String,
    pub access_token: String,
    pub access_secret: String,
    pub extra_text: String,
}

/// `[telegram]`
#[derive(Debug, Clone)]
pub struct TelegramSettings {
    pub enabled: bool,
    pub send_images: bool,
    pub token: String,
    pub chat_id: String,
    pub extra_text: String,
    pub upload_timeout: u32,
}

/// `[googlechat]`
#[derive(Debug, Clone)]
pub struct GoogleChatSettings {
    pub enabled: bool,
    pub webhook_url: String,
    pub extra_text: String,
    pub send_images: bool,
    pub s3_bucket_name: Option<String>,
    pub s3_object_key_prefix: String,
    pub s3_aws_region: Option<String>,
    pub s3_upload_timeout_seconds: u32,
    pub aws_access_key_id: Option<String>,
    pub aws_secret_access_key: Option<String>,
}

/// `[discord]`
#[derive(Debug, Clone)]
pub struct DiscordSettings {
    pub enabled: bool,
    pub webhook_url: String,
    pub use_embed: bool,
    pub send_images: bool,
    pub extra_text: String,
}

/// `[sns]`
#[derive(Debug, Clone)]
pub struct SnsSettings {
    pub enabled: bool,
    pub topic_arn: String,
    pub aws_access_key_id: Option<String>,
    pub aws_secret_access_key: Option<String>,
    pub aws_region: String,
    pub extra_text: String,
}

/// `[line]`
#[derive(Debug, Clone)]
pub struct LineSettings {
    pub enabled: bool,
    pub channel_access_token: String,
    pub to_ids: String,
    pub extra_text: String,
    pub send_images: bool,
    pub s3_bucket_name: Option<String>,
    pub s3_object_key_prefix: String,
    pub s3_aws_region: Option<String>,
    pub s3_upload_timeout_seconds: u32,
    pub aws_access_key_id: Option<String>,
    pub aws_secret_access_key: Option<String>,
}

/// `[bluesky]`
#[derive(Debug, Clone)]
pub struct BlueSkySettings {
    pub enabled: bool,
    pub post_images: bool,
    pub username: String,
    pub password: String,
    pub extra_text: String,
}

/// `[rsam]`
#[derive(Debug, Clone)]
pub struct RsamSettings {
    pub enabled: bool,
    pub quiet: bool,
    pub fwaddr: String,
    pub fwport: u16,
    pub fwformat: String,
    pub channel: String,
    pub interval: u32,
    pub deconvolve: bool,
    pub units: String,
}

/// The text layouts a configuration can be written in.
#[derive(Debug, Clone, Copy, PartialEq, Eq)]
pub enum DumpFormat {
    Toml,
    Yaml,
}

/// The layout a format name selects, case-insensitively: `toml`, or `yaml`
/// / `yml`; any other name is unsupported.
pub open spec fn dump_format_of(lower: Seq<char>) -> Option<DumpFormat> {
    if lower == "toml"@ {
        Some(DumpFormat::Toml)
    } else if lower == "yaml"@ || lower == "yml"@ {
        Some(DumpFormat::Yaml)
    } else {
        None
    }
}

/// The layout for dumping a configuration in the named format, if supported.
pub fn dump_format(format: &str) -> (r: Option<DumpFormat>)
    ensures
        r == dump_format_of(lowercased(format@)),
{
    let lower = to_lower(format);
    if same_text(lower.as_str(), "toml") {
        Some(DumpFormat::Toml)
    } else if same_text(lower.as_str(), "yaml") || same_text(lower.as_str(), "yml") {
        Some(DumpFormat::Yaml)
    } else {
        None
    }
}

/// The sections that a configuration may have.
pub open spec fn section_names() -> Seq<Seq<char>> {
    seq![
        "settings"@, "printdata"@, "write"@, "plot"@, "forward"@, "alert"@, "alertsound"@,
        "custom"@, "tweets"@, "telegram"@, "googlechat"@, "discord"@, "sns"@, "line"@,
        "bluesky"@, "rsam"@, "hue"@,
    ]
}

/// Whether a top-level key of a configuration names a known section,
/// ignoring case.
pub fn is_known_section(key: &str) -> (r: bool)
    ensures
        r == section_names().contains(lowercased(key@)),
{
    let lower = to_lower(key);
    let names: Vec<&str> = vec![
        "settings", "printdata", "write", "plot", "forward", "alert", "alertsound", "custom",
        "tweets", "telegram", "googlechat", "discord", "sns", "line", "bluesky", "rsam", "hue",
    ];
    let ghost views = names@.map_values(|n: &str| n@);
    assert(views =~= section_names());
    let mut i: usize = 0;
    while i < names.len()
        invariant
            i <= names@.len(),
            views == names@.map_values(|n: &str| n@),
            views == section_names(),
            lower@ == lowercased(key@),
            forall|j: int| 0 <= j < i ==> views[j] != lower@,
        decreases names@.len() - i,
    {
        if same_text(lower.as_str(), names[i]) {
            assert(views[i as int] == lower@);
            return true;
        }
        i = i + 1;
    }
    false
}

/// The text `n/a` that marks unset credentials and addresses.
pub open spec fn not_set() -> Seq<char> {
    seq!['n', '/', 'a']
}

/// A list holding the single channel keyword `all`.
pub open spec fn is_all_channels(v: Seq<String>) -> bool {
    v.len() == 1 && v[0]@ == seq!['a', 'l', 'l']
}

fn all_channels() -> (r: Vec<String>)
    ensures
        is_all_channels(r@),
{
    proof { reveal_strlit("all"); }
    let mut v: Vec<String> = Vec::new();
    v.push(String::from_str("all"));
    assert("all"@ =~= seq!['a', 'l', 'l']);
    v
}

fn na() -> (r: String)
    ensures
        r@ == not_set(),
{
    proof { reveal_strlit("n/a"); }
    String::from_str("n/a")
}

impl Default for SettingsSection {
    fn default() -> (r: Self)
        ensures
            r.port == 8888,
            r.station@ == seq!['Z', '0', '0', '0', '0'],
            r.output_dir@ == seq!['r', 's', 'u', 'd', 'p'],
            r.debug,
    {
        proof {
            reveal_strlit("Z0000");
            reveal_strlit("rsudp");
        }
        SettingsSection {
            port: 8888,
            station: String::from_str("Z0000"),
            output_dir: String::from_str("rsudp"),
            debug: true,
        }
    }
}

impl Default for PrintDataSettings {
    fn default() -> (r: Self)
        ensures
            !r.enabled,
    {
        PrintDataSettings { enabled: false }
    }
}

impl Default for WriteSettings {
    fn default() -> (r: Self)
        ensures
            !r.enabled,
            is_all_channels(r.channels@),
    {
        WriteSettings { enabled: false, channels: all_channels() }
    }
}

impl Default for ForwardSettings {
    fn default() -> (r: Self)
        ensures
            !r.enabled,
            r.address@.len() == 1,
            r.address@[0]@ == seq!['1', '9', '2', '.', '1', '6', '8', '.', '1', '.', '2', '5', '4'],
            r.port@ == seq![8888u16],
            is_all_channels(r.channels@),
            r.fwd_data,
            !r.fwd_alarms,
    {
        proof { reveal_strlit("192.168.1.254"); }
        let r = ForwardSettings {
            enabled: false,
            address: vec![String::from_str("192.168.1.254")],
            port: vec![8888u16],
            channels: all_channels(),
            fwd_data: true,
            fwd_alarms: false,
        };
        assert(r.port@ =~= seq![8888u16]);
        r
    }
}

impl Default for AlertSoundSettings {
    /// The intensity file map is empty by default (keys such as `5+` are
    /// only written out when a configuration is dumped).
    fn default() -> (r: Self)
        ensures
            !r.enabled,
            r.trigger_file@.len() == 0,
            r.default_reset_file@.len() == 0,
            r.intensity_files@ == Map::<String, String>::empty(),
    {
        AlertSoundSettings {
            enabled: false,
            trigger_file: String::new(),
            default_reset_file: String::new(),
            intensity_files: BTreeMap::new(),
        }
    }
}

impl Default for CustomSettings {
    fn default() -> (r: Self)
        ensures
            !r.enabled,
            r.codefile@ == not_set(),
            !r.win_override,
    {
        CustomSettings { enabled: false, codefile: na(), win_override: false }
    }
}

impl Default for TweetsSettings {
    fn default() -> (r: Self)
        ensures
            !r.enabled,
            r.tweet_images,
            r.api_key@ == not_set(),
            r.api_secret@ == not_set(),
            r.access_token@ == not_set(),
            r.access_secret@ == not_set(),
            r.extra_text@.len() == 0,
    {
        TweetsSettings {
            enabled: false,
            tweet_images: true,
            api_key: na(),
            api_secret: na(),
            access_token: na(),
            access_secret: na(),
            extra_text: String::new(),
        }
    }
}

impl Default for TelegramSettings {
    fn default() -> (r: Self)
        ensures
            !r.enabled,
            r.send_images,
            r.token@ == not_set(),
            r.chat_id@ == not_set(),
            r.extra_text@.len() == 0,
            r.upload_timeout == 10,
    {
        TelegramSettings {
            enabled: false,
            send_images: true,
            token: na(),
            chat_id: na(),
            extra_text: String::new(),
            upload_timeout: 10,
        }
    }
}

impl Default for GoogleChatSettings {
    fn default() -> (r: Self)
        ensures
            !r.enabled,
            r.webhook_url@ == not_set(),
            r.extra_text@.len() == 0,
            !r.send_images,
            r.s3_bucket_name is None,
            r.s3_object_key_prefix@ == "rsudp/googlechat/"@,
            r.s3_aws_region is None,
            r.s3_upload_timeout_seconds == 3,
            r.aws_access_key_id is None,
            r.aws_secret_access_key is None,
    {
        GoogleChatSettings {
            enabled: false,
            webhook_url: na(),
            extra_text: String::new(),
            send_images: false,
            s3_bucket_name: None,
            s3_object_key_prefix: String::from_str("rsudp/googlechat/"),
            s3_aws_region: None,
            s3_upload_timeout_seconds: 3,
            aws_access_key_id: None,
            aws_secret_access_key: None,
        }
    }
}

impl Default for DiscordSettings {
    fn default() -> (r: Self)
        ensures
            !r.enabled,
            r.webhook_url@ == not_set(),
            r.use_embed,
            r.send_images,
            r.extra_text@.len() == 0,
    {
        DiscordSettings {
            enabled: false,
            webhook_url: na(),
            use_embed: true,
            send_images: true,
            extra_text: String::new(),
        }
    }
}

impl Default for SnsSettings {
    fn default() -> (r: Self)
        ensures
            !r.enabled,
            r.topic_arn@ == not_set(),
            r.aws_access_key_id is None,
            r.aws_secret_access_key is None,
            r.aws_region@ == not_set(),
            r.extra_text@.len() == 0,
    {
        SnsSettings {
            enabled: false,
            topic_arn: na(),
            aws_access_key_id: None,
            aws_secret_access_key: None,
            aws_region: na(),
            extra_text: String::new(),
        }
    }
}

impl Default for LineSettings {
    fn default() -> (r: Self)
        ensures
            !r.enabled,
            r.channel_access_token@ == not_set(),
            r.to_ids@.len() == 0,
            r.extra_text@.len() == 0,
            r.send_images,
            r.s3_bucket_name is None,
            r.s3_object_key_prefix@ == "rsudp/line/"@,
            r.s3_aws_region is None,
            r.s3_upload_timeout_seconds == 3,
            r.aws_access_key_id is None,
            r.aws_secret_access_key is None,
    {
        LineSettings {
            enabled: false,
            channel_access_token: na(),
            to_ids: String::new(),
            extra_text: String::new(),
            send_images: true,
            s3_bucket_name: None,
            s3_object_key_prefix: String::from_str("rsudp/line/"),
            s3_aws_region: None,
            s3_upload_timeout_seconds: 3,
            aws_access_key_id: None,
            aws_secret_access_key: None,
        }
    }
}

impl Default for BlueSkySettings {
    fn default() -> (r: Self)
        ensures
            !r.enabled,
            r.post_images,
            r.username@ == not_set(),
            r.password@ == not_set(),
            r.extra_text@.len() == 0,
    {
        BlueSkySettings {
            enabled: false,
            post_images: true,
            username: na(),
            password: na(),
            extra_text: String::new(),
        }
    }
}

impl Default for RsamSettings {
    fn default() -> (r: Self)
        ensures
            !r.enabled,
            r.quiet,
            r.fwaddr@ == "192.168.1.254"@,
            r.fwport == 8887,
            r.fwformat@ == seq!['L', 'I', 'T', 'E'],
            r.channel@ == seq!['H', 'Z'],
            r.interval == 10,
            !r.deconvolve,
            r.units@ == seq!['V', 'E', 'L'],
    {
        proof {
            reveal_strlit("LITE");
            reveal_strlit("HZ");
            reveal_strlit("VEL");
        }
        RsamSettings {
            enabled: false,
            quiet: true,
            fwaddr: String::from_str("192.168.1.254"),
            fwport: 8887,
            fwformat: String::from_str("LITE"),
            channel: String::from_str("HZ"),
            interval: 10,
            deconvolve: false,
            units: String::from_str("VEL"),
        }
    }
}

} // verus!
