//! The texts that the notification services send when an alert triggers
//! (`time` is the event time as the application writes it), and the names
//! under which alert images are stored.
use vstd::prelude::*;
use vstd::string::*;

verus! {

/// `pre`, then `a`, then `mid`, then `b`, then `post`.
fn joined(pre: &str, a: &str, mid: &str, b: &str, post: &str) -> (r: String)
    ensures
        r@ == pre@ + a@ + mid@ + b@ + post@,
{
    let mut s = String::from_str(pre);
    s.append(a);
    s.append(mid);
    s.append(b);
    s.append(post);
    s
}

/// The Discord message for a triggered alert.
pub fn discord_trigger_content(channel: &str, time: &str) -> (r: String)
    ensures
        r@ == "🚨 **ALERT TRIGGERED** on channel `"@ + channel@ + "` at "@ + time@ + " 🚨"@,
{
    joined("🚨 **ALERT TRIGGERED** on channel `", channel, "` at ", time, " 🚨")
}

/// The Google Chat message for a triggered alert.
pub fn gchat_trigger_text(channel: &str, time: &str) -> (r: String)
    ensures
        r@ == "🚨 *ALERT TRIGGERED* on channel `"@ + channel@ + "` at "@ + time@ + " 🚨"@,
{
    joined("🚨 *ALERT TRIGGERED* on channel `", channel, "` at ", time, " 🚨")
}

/// The header of the Google Chat message for a reset alert.
pub fn gchat_reset_header(channel: &str) -> (r: String)
    ensures
        r@ == "✅ *ALERT RESET* on channel `"@ + channel@ + "`"@,
{
    proof { reveal_strlit(""); }
    let r = joined("✅ *ALERT RESET* on channel `", channel, "`", "", "");
    assert(r@ =~= "✅ *ALERT RESET* on channel `"@ + channel@ + "`"@);
    r
}

/// The LINE message for a triggered alert.
pub fn line_trigger_text(channel: &str, time: &str) -> (r: String)
    ensures
        r@ == "🚨 地震検知 🚨\nチャンネル: "@ + channel@ + "\n発生時刻: "@ + time@,
{
    proof { reveal_strlit(""); }
    let r = joined("🚨 地震検知 🚨\nチャンネル: ", channel, "\n発生時刻: ", time, "");
    assert(r@ =~= "🚨 地震検知 🚨\nチャンネル: "@ + channel@ + "\n発生時刻: "@ + time@);
    r
}

/// The Amazon SNS message for a triggered alert.
pub fn sns_trigger_message(channel: &str, time: &str) -> (r: String)
    ensures
        r@ == "ALERT: "@ + channel@ + " triggered at "@ + time@,
{
    proof { reveal_strlit(""); }
    let r = joined("ALERT: ", channel, " triggered at ", time, "");
    assert(r@ =~= "ALERT: "@ + channel@ + " triggered at "@ + time@);
    r
}

/// The object key under which an alert image with the given id is stored.
pub fn alert_image_key(id: &str) -> (r: String)
    ensures
        r@ == "alerts/"@ + id@ + ".png"@,
{
    let mut s = String::from_str("alerts/");
    s.append(id);
    s.append(".png");
    s
}

/// The public URL of an object stored in an S3 bucket.
pub fn s3_object_url(bucket: &str, region: &str, key: &str) -> (r: String)
    ensures
        r@ == "https://"@ + bucket@ + ".s3."@ + region@ + ".amazonaws.com/"@ + key@,
{
    let mut s = String::from_str("https://");
    s.append(bucket);
    s.append(".s3.");
    s.append(region);
    s.append(".amazonaws.com/");
    s.append(key);
    s
}

} // verus!
