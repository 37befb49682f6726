//! Which notification services an alert goes to, decided from the
//! configuration. Sending is the application's part.
use vstd::prelude::*;
use vstd::string::*;
use crate::settings::{DiscordSettings, LineSettings, GoogleChatSettings, SnsSettings};
use crate::text::{chars_of, char_range, trim_text, trimmed};

pub mod discord;
pub mod gchat;
pub mod line;
pub mod messages;

use self::discord::DiscordProvider;
use self::gchat::GChatProvider;
use self::line::LineProvider;

verus! {

/// `s` cut at every comma, as `str::split(',')` does (an empty string gives
/// one empty piece).
pub open spec fn split_commas(s: Seq<char>) -> Seq<Seq<char>>
    decreases s.len(),
{
    if s.len() == 0 {
        seq![Seq::<char>::empty()]
    } else {
        let prev = split_commas(s.drop_last());
        if s.last() == ',' {
            prev.push(Seq::<char>::empty())
        } else {
            prev.update(prev.len() - 1, prev.last().push(s.last()))
        }
    }
}

proof fn lemma_split_nonempty(s: Seq<char>)
    ensures
        split_commas(s).len() >= 1,
    decreases s.len(),
{
    if s.len() > 0 {
        lemma_split_nonempty(s.drop_last());
    }
}

/// The number of commas in `s`.
pub open spec fn comma_count(s: Seq<char>) -> nat
    decreases s.len(),
{
    if s.len() == 0 {
        0
    } else if s.last() == ',' {
        comma_count(s.drop_last()) + 1
    } else {
        comma_count(s.drop_last())
    }
}

/// The pieces joined again with commas between them.
pub open spec fn join_commas(pieces: Seq<Seq<char>>) -> Seq<char>
    decreases pieces.len(),
{
    if pieces.len() == 0 {
        Seq::empty()
    } else if pieces.len() == 1 {
        pieces[0]
    } else {
        join_commas(pieces.drop_last()) + seq![','] + pieces.last()
    }
}

proof fn lemma_join_extend_last(pieces: Seq<Seq<char>>, c: char)
    requires
        pieces.len() >= 1,
    ensures
        join_commas(pieces.update(pieces.len() - 1, pieces.last().push(c))) == join_commas(pieces).push(c),
{
    let p2 = pieces.update(pieces.len() - 1, pieces.last().push(c));
    if pieces.len() > 1 {
        assert(p2.drop_last() =~= pieces.drop_last());
        assert(join_commas(pieces.drop_last()) + seq![','] + pieces.last().push(c)
            =~= (join_commas(pieces.drop_last()) + seq![','] + pieces.last()).push(c));
    }
}

/// A list cut at its commas has one piece more than it has commas.
pub proof fn lemma_split_piece_count(s: Seq<char>)
    ensures
        split_commas(s).len() == comma_count(s) + 1,
    decreases s.len(),
{
    if s.len() > 0 {
        lemma_split_piece_count(s.drop_last());
    }
}

/// Joining the pieces with commas gives back the list: cutting at commas
/// loses no character.
pub proof fn lemma_split_join(s: Seq<char>)
    ensures
        join_commas(split_commas(s)) == s,
    decreases s.len(),
{
    if s.len() > 0 {
        lemma_split_join(s.drop_last());
        lemma_split_nonempty(s.drop_last());
        let prev = split_commas(s.drop_last());
        if s.last() == ',' {
            let p2 = prev.push(Seq::<char>::empty());
            assert(p2.drop_last() =~= prev);
            assert(join_commas(prev) + seq![','] + Seq::<char>::empty() =~= s);
        } else {
            lemma_join_extend_last(prev, s.last());
            assert(s.drop_last().push(s.last()) =~= s);
        }
    }
}

/// The pieces of a comma-separated list, each trimmed.
pub open spec fn comma_list(s: Seq<char>) -> Seq<Seq<char>> {
    split_commas(s).map_values(|p: Seq<char>| trimmed(p))
}

/// The pieces of a comma-separated list, each trimmed of white space.
pub fn split_comma_list(s: &str) -> (r: Vec<String>)
    ensures
        r@.map_values(|x: String| x@) == comma_list(s@),
{
    let cs = chars_of(s);
    let n = cs.len();
    let mut done: Vec<String> = Vec::new();
    let mut raw: Ghost<Seq<Seq<char>>> = Ghost(Seq::empty());
    let mut start: usize = 0;
    let mut i: usize = 0;
    assert(s@.take(0) =~= Seq::<char>::empty());
    assert(s@.subrange(0, 0) =~= Seq::<char>::empty());
    while i < n
        invariant
            n == s@.len(),
            cs@ == s@,
            start <= i <= n,
            raw@.len() == done@.len(),
            split_commas(s@.take(i as int)) == raw@.push(s@.subrange(start as int, i as int)),
            forall|k: int| 0 <= k < done@.len() ==> #[trigger] done@[k]@ == trimmed(raw@[k]),
        decreases n - i,
    {
        let ghost t = s@.take(i + 1);
        assert(t.drop_last() =~= s@.take(i as int));
        assert(t.last() == cs@[i as int]);
        if cs[i] == ',' {
            let piece = char_range(s, start, i);
            let ghost prev_raw = raw@;
            done.push(trim_text(piece.as_str()));
            raw = Ghost(raw@.push(piece@));
            start = i + 1;
            assert(s@.subrange(start as int, i + 1) =~= Seq::<char>::empty());
            assert(split_commas(t) =~= raw@.push(s@.subrange(start as int, i + 1)));
            assert forall|k: int| 0 <= k < done@.len() implies #[trigger] done@[k]@ == trimmed(raw@[k]) by {
                if k < prev_raw.len() {
                    assert(raw@[k] == prev_raw[k]);
                }
            }
        } else {
            assert(s@.subrange(start as int, i + 1) =~= s@.subrange(start as int, i as int).push(cs@[i as int]));
            assert(split_commas(t) =~= raw@.push(s@.subrange(start as int, i + 1)));
        }
        i = i + 1;
    }
    let last = char_range(s, start, n);
    let ghost prev_raw = raw@;
    done.push(trim_text(last.as_str()));
    raw = Ghost(raw@.push(last@));
    assert(s@.take(n as int) =~= s@);
    assert(done@.map_values(|x: String| x@) =~= comma_list(s@)) by {
        assert(split_commas(s@) == raw@);
        assert forall|k: int| 0 <= k < done@.len() implies done@[k]@ == trimmed(raw@[k]) by {
            if k < prev_raw.len() {
                assert(raw@[k] == prev_raw[k]);
            }
        }
    }
    done
}

/// The S3 bucket and region for image uploads, when an image-sending
/// service needs one: the Google Chat bucket, else the LINE one; the Google
/// Chat region, else the LINE one, else `us-east-1`.
pub open spec fn s3_target(line: LineSettings, gchat: GoogleChatSettings) -> Option<(Seq<char>, Seq<char>)> {
    if (line.enabled && line.send_images) || (gchat.enabled && gchat.send_images) {
        let bucket = if gchat.s3_bucket_name is Some { gchat.s3_bucket_name } else { line.s3_bucket_name };
        let region = if gchat.s3_aws_region is Some {
            gchat.s3_aws_region->0@
        } else if line.s3_aws_region is Some {
            line.s3_aws_region->0@
        } else {
            "us-east-1"@
        };
        match bucket {
            Some(b) => Some((b@, region)),
            None => None,
        }
    } else {
        None
    }
}

/// Where alert images go: a target exactly when LINE or Google Chat send
/// images and one of them names a bucket; the bucket is Google Chat's when
/// it names one, else LINE's; the region is Google Chat's when it names
/// one, else LINE's when it names one, else `us-east-1`.
pub proof fn lemma_s3_target_choices(line: LineSettings, gchat: GoogleChatSettings)
    ensures
        s3_target(line, gchat) is Some <==> ((line.enabled && line.send_images) || (gchat.enabled
            && gchat.send_images)) && (gchat.s3_bucket_name is Some || line.s3_bucket_name is Some),
        s3_target(line, gchat) matches Some(t) ==> ({
            &&& (gchat.s3_bucket_name matches Some(b) ==> t.0 == b@)
            &&& (gchat.s3_bucket_name is None ==> (line.s3_bucket_name matches Some(b) && t.0 == b@))
            &&& (gchat.s3_aws_region matches Some(g) ==> t.1 == g@)
            &&& (gchat.s3_aws_region is None ==> (line.s3_aws_region matches Some(l) ==> t.1 == l@))
            &&& (gchat.s3_aws_region is None && line.s3_aws_region is None ==> t.1 == "us-east-1"@)
        }),
{
}

/// The services that alerts are sent to, as the configuration asks.
pub struct NotificationPlan {
    /// S3 bucket and region for uploading alert images.
    pub s3: Option<(String, String)>,
    pub discord: Option<DiscordProvider>,
    pub line: Option<LineProvider>,
    pub gchat: Option<GChatProvider>,
    /// Amazon SNS topic ARN and region.
    pub sns: Option<(String, String)>,
}

fn clone_text(s: &String) -> (r: String)
    ensures
        r@ == s@,
{
    s.clone()
}

/// Decides, from the notification sections, which services to set up: an S3
/// client when LINE or Google Chat send images and a bucket is named, and each
/// enabled service with its parameters.
pub fn plan_notifications(
    discord: &DiscordSettings,
    line: &LineSettings,
    gchat: &GoogleChatSettings,
    sns: &SnsSettings,
) -> (r: NotificationPlan)
    ensures
        r.s3 is Some <==> s3_target(*line, *gchat) is Some,
        r.s3 matches Some(t) ==> s3_target(*line, *gchat) == Some((t.0@, t.1@)),
        r.s3 is Some <==> ((line.enabled && line.send_images) || (gchat.enabled && gchat.send_images)) && (
        gchat.s3_bucket_name is Some || line.s3_bucket_name is Some),
        r.s3 matches Some(t) ==> ({
            &&& (gchat.s3_bucket_name matches Some(b) ==> t.0@ == b@)
            &&& (gchat.s3_bucket_name is None ==> (line.s3_bucket_name matches Some(b) && t.0@ == b@))
            &&& (gchat.s3_aws_region matches Some(g) ==> t.1@ == g@)
            &&& (gchat.s3_aws_region is None ==> (line.s3_aws_region matches Some(l) ==> t.1@ == l@))
            &&& (gchat.s3_aws_region is None && line.s3_aws_region is None ==> t.1@ == "us-east-1"@)
        }),
        r.discord is Some <==> discord.enabled,
        r.discord matches Some(p) ==> p.url() == discord.webhook_url@ && p.embeds() == discord.use_embed,
        r.line is Some <==> line.enabled,
        r.line matches Some(p) ==> p.token() == line.channel_access_token@ && p.recipients()
            == comma_list(line.to_ids@),
        r.gchat is Some <==> gchat.enabled,
        r.gchat matches Some(p) ==> p.url() == gchat.webhook_url@,
        r.sns is Some <==> sns.enabled,
        r.sns matches Some(t) ==> t.0@ == sns.topic_arn@ && t.1@ == sns.aws_region@,
{
    let s3 = if (line.enabled && line.send_images) || (gchat.enabled && gchat.send_images) {
        let bucket = match &gchat.s3_bucket_name {
            Some(b) => Some(clone_text(b)),
            None => match &line.s3_bucket_name {
                Some(b) => Some(clone_text(b)),
                None => None,
            },
        };
        let region = match &gchat.s3_aws_region {
            Some(g) => clone_text(g),
            None => match &line.s3_aws_region {
                Some(l) => clone_text(l),
                None => String::from_str("us-east-1"),
            },
        };
        match bucket {
            Some(b) => Some((b, region)),
            None => None,
        }
    } else {
        None
    };
    let discord_p = if discord.enabled {
        Some(DiscordProvider::new(clone_text(&discord.webhook_url), discord.use_embed))
    } else {
        None
    };
    let line_p = if line.enabled {
        Some(LineProvider::new(clone_text(&line.channel_access_token), split_comma_list(line.to_ids.as_str())))
    } else {
        None
    };
    let gchat_p = if gchat.enabled {
        Some(GChatProvider::new(clone_text(&gchat.webhook_url)))
    } else {
        None
    };
    let sns_p = if sns.enabled {
        Some((clone_text(&sns.topic_arn), clone_text(&sns.aws_region)))
    } else {
        None
    };
    NotificationPlan { s3, discord: discord_p, line: line_p, gchat: gchat_p, sns: sns_p }
}

} // verus!
