//! Texts of the alert summaries.
use vstd::prelude::*;
use vstd::string::*;
use crate::text::{same_text, chars_of, char_range};
use crate::parser::stationxml::strip_trailing;

verus! {

/// How a JMA seismic intensity class is written in the summary: the lower and
/// upper halves of classes 5 and 6 as 弱 and 強, other classes unchanged.
pub open spec fn shindo_display(class: Seq<char>) -> Seq<char> {
    if class == "5-"@ {
        "5弱"@
    } else if class == "5+"@ {
        "5強"@
    } else if class == "6-"@ {
        "6弱"@
    } else if class == "6+"@ {
        "6強"@
    } else {
        class
    }
}

/// The summary sentence for an intensity class: no shaking detected for class
/// 0, otherwise shaking of the (displayed) class.
pub open spec fn shindo_message(class: Seq<char>) -> Seq<char> {
    if class == "0"@ {
        "揺れを検出できませんでした"@
    } else {
        "震度 "@ + shindo_display(class) + "相当の揺れを検出しました"@
    }
}

/// The no-shaking sentence is the summary of class 0 and of no other
/// class; every other class is reported as shaking of that class, written
/// as it is except for the halves of classes 5 and 6 (弱 and 強).
pub proof fn lemma_shindo_message_cases(class: Seq<char>)
    ensures
        shindo_message(class) == "揺れを検出できませんでした"@ <==> class == "0"@,
        class != "0"@ ==> shindo_message(class).take(3) == "震度 "@,
        class != "0"@ && class != "5-"@ && class != "5+"@ && class != "6-"@ && class != "6+"@
            ==> shindo_message(class) == "震度 "@ + class + "相当の揺れを検出しました"@,
        class == "5-"@ ==> shindo_message(class) == "震度 5弱相当の揺れを検出しました"@,
        class == "5+"@ ==> shindo_message(class) == "震度 5強相当の揺れを検出しました"@,
        class == "6-"@ ==> shindo_message(class) == "震度 6弱相当の揺れを検出しました"@,
        class == "6+"@ ==> shindo_message(class) == "震度 6強相当の揺れを検出しました"@,
{
    reveal_strlit("揺れを検出できませんでした");
    reveal_strlit("震度 ");
    reveal_strlit("0");
    reveal_strlit("5-");
    reveal_strlit("5+");
    reveal_strlit("6-");
    reveal_strlit("6+");
    reveal_strlit("5弱");
    reveal_strlit("5強");
    reveal_strlit("6弱");
    reveal_strlit("6強");
    reveal_strlit("相当の揺れを検出しました");
    reveal_strlit("震度 5弱相当の揺れを検出しました");
    reveal_strlit("震度 5強相当の揺れを検出しました");
    reveal_strlit("震度 6弱相当の揺れを検出しました");
    reveal_strlit("震度 6強相当の揺れを検出しました");
    assert("5-"@[1] == '-' && "5+"@[1] == '+' && "6-"@[0] == '6' && "6+"@[0] == '6' && "6+"@[1] == '+'
        && "5-"@[0] == '5' && "5+"@[0] == '5');
    assert("5-"@ != "5+"@ && "5-"@ != "6-"@ && "5-"@ != "6+"@ && "5+"@ != "6-"@ && "5+"@ != "6+"@
        && "6-"@ != "6+"@);
    assert("5-"@ != "0"@ && "5+"@ != "0"@ && "6-"@ != "0"@ && "6+"@ != "0"@);
    if class != "0"@ {
        let m = shindo_message(class);
        assert(m[0] == '震');
        assert(m.take(3) =~= "震度 "@);
        assert(m != "揺れを検出できませんでした"@);
    }
    if class == "5-"@ {
        assert(class.len() == 2 && "0"@.len() == 1);
        assert(shindo_display(class) == "5弱"@);
        assert(shindo_message(class) == "震度 "@ + "5弱"@ + "相当の揺れを検出しました"@);
        assert(shindo_message(class) =~= "震度 5弱相当の揺れを検出しました"@);
    }
    if class == "5+"@ {
        assert(class.len() == 2 && "0"@.len() == 1);
        assert(shindo_display(class) == "5強"@);
        assert(shindo_message(class) == "震度 "@ + "5強"@ + "相当の揺れを検出しました"@);
        assert(shindo_message(class) =~= "震度 5強相当の揺れを検出しました"@);
    }
    if class == "6-"@ {
        assert(class.len() == 2 && "0"@.len() == 1);
        assert(shindo_display(class) == "6弱"@);
        assert(shindo_message(class) == "震度 "@ + "6弱"@ + "相当の揺れを検出しました"@);
        assert(shindo_message(class) =~= "震度 6弱相当の揺れを検出しました"@);
    }
    if class == "6+"@ {
        assert(class.len() == 2 && "0"@.len() == 1);
        assert(shindo_display(class) == "6強"@);
        assert(shindo_message(class) == "震度 "@ + "6強"@ + "相当の揺れを検出しました"@);
        assert(shindo_message(class) =~= "震度 6強相当の揺れを検出しました"@);
    }
}

/// The Japanese summary sentence for a JMA intensity class.
pub fn format_shindo_message(shindo_class: &str) -> (r: String)
    ensures
        r@ == shindo_message(shindo_class@),
{
    if same_text(shindo_class, "0") {
        return String::from_str("揺れを検出できませんでした");
    }
    let display_class: &str = if same_text(shindo_class, "5-") {
        "5弱"
    } else if same_text(shindo_class, "5+") {
        "5強"
    } else if same_text(shindo_class, "6-") {
        "6弱"
    } else if same_text(shindo_class, "6+") {
        "6強"
    } else {
        shindo_class
    };
    let mut m = String::from_str("震度 ");
    m.append(display_class);
    m.append("相当の揺れを検出しました");
    m
}

/// `pre`, then `a`, then `mid`, then `b`, then `post`.
fn joined(pre: &str, a: &str, mid: &str, b: &str, post: &str) -> (r: String)
    ensures
        r@ == pre@ + a@ + mid@ + b@ + post@,
{
    let mut s = String::from_str(pre);
    s.append(a);
    s.append(mid);
    s.append(b);
    s.append(post);
    s
}

/// The subject of the e-mail sent when an alert triggers.
pub fn trigger_email_subject(channel: &str) -> (r: String)
    ensures
        r@ == "ALERT TRIGGERED: "@ + channel@,
{
    let mut s = String::from_str("ALERT TRIGGERED: ");
    s.append(channel);
    s
}

/// The body of the e-mail sent when an alert triggers; `time` is the
/// trigger time as the application writes it.
pub fn trigger_email_body(channel: &str, time: &str) -> (r: String)
    ensures
        r@ == "Seismic alert triggered on channel "@ + channel@ + "\nTime: "@ + time@ + "\n"@,
{
    joined("Seismic alert triggered on channel ", channel, "\nTime: ", time, "\n")
}

/// The subject of the summary e-mail sent when an alert resets.
pub fn reset_email_subject(channel: &str) -> (r: String)
    ensures
        r@ == "ALERT SUMMARY: "@ + channel@,
{
    let mut s = String::from_str("ALERT SUMMARY: ");
    s.append(channel);
    s
}

/// The body of the summary e-mail: the channel, the intensity summary, the
/// trigger and reset times and the largest ratio (as the application writes
/// them), then the snapshot link when there is one.
pub fn reset_email_body(
    channel: &str,
    summary: &str,
    triggered: &str,
    reset: &str,
    max_ratio: &str,
    snapshot_url: Option<&str>,
) -> (r: String)
    ensures
        r@ == "Seismic alert RESET on channel "@ + channel@ + "\n\nSummary: "@ + summary@
            + "\nTriggered: "@ + triggered@ + "\nReset: "@ + reset@ + "\nMax STA/LTA Ratio: "@
            + max_ratio@ + "\n"@ + (match snapshot_url {
            Some(u) => "\nWaveform Snapshot: "@ + u@,
            None => Seq::empty(),
        }),
{
    let mut body = joined("Seismic alert RESET on channel ", channel, "\n\nSummary: ", summary, "\nTriggered: ");
    body.append(triggered);
    body.append("\nReset: ");
    body.append(reset);
    body.append("\nMax STA/LTA Ratio: ");
    body.append(max_ratio);
    body.append("\n");
    let ghost head = body@;
    match snapshot_url {
        Some(u) => {
            body.append("\nWaveform Snapshot: ");
            body.append(u);
        },
        None => {
            assert(body@ =~= head + Seq::<char>::empty());
        },
    }
    body
}

/// The endpoint of a screenshot capture service at `service_url` (without
/// its trailing slashes).
pub open spec fn capture_url_of(service_url: Seq<char>) -> Seq<char> {
    strip_trailing(service_url, '/') + "/capture"@
}

/// The endpoint of the screenshot capture service.
pub fn capture_url(service_url: &str) -> (r: String)
    ensures
        r@ == capture_url_of(service_url@),
{
    let cs = chars_of(service_url);
    let mut end: usize = cs.len();
    assert(service_url@.take(end as int) =~= service_url@);
    while end > 0 && cs[end - 1] == '/'
        invariant
            cs@ == service_url@,
            end <= cs@.len(),
            strip_trailing(service_url@, '/') == strip_trailing(service_url@.take(end as int), '/'),
        decreases end,
    {
        assert(service_url@.take(end as int).drop_last() =~= service_url@.take(end - 1));
        end = end - 1;
    }
    assert(service_url@.subrange(0, end as int) =~= service_url@.take(end as int));
    let mut s = char_range(service_url, 0, end);
    s.append("/capture");
    s
}

} // verus!
