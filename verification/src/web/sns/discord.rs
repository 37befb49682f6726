//! The Discord webhook service.
use vstd::prelude::*;

verus! {

/// A Discord webhook and whether messages go out as embeds.
pub struct DiscordProvider {
    webhook_url: String,
    use_embed: bool,
}

impl DiscordProvider {
    /// The webhook URL.
    pub closed spec fn url(&self) -> Seq<char> {
        self.webhook_url@
    }

    /// Whether messages are sent as embeds.
    pub closed spec fn embeds(&self) -> bool {
        self.use_embed
    }

    pub fn new(webhook_url: String, use_embed: bool) -> (r: Self)
        ensures
            r.url() == webhook_url@,
            r.embeds() == use_embed,
    {
        DiscordProvider { webhook_url, use_embed }
    }

    /// The webhook URL.
    pub fn webhook_url(&self) -> (r: &str)
        ensures
            r@ == self.url(),
    {
        self.webhook_url.as_str()
    }

    /// Whether messages are sent as embeds.
    pub fn use_embed(&self) -> (r: bool)
        ensures
            r == self.embeds(),
    {
        self.use_embed
    }
}

} // verus!
