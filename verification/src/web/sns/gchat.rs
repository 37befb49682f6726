//! The Google Chat webhook service.
use vstd::prelude::*;

verus! {

/// A Google Chat webhook.
pub struct GChatProvider {
    webhook_url: String,
}

impl GChatProvider {
    /// The webhook URL.
    pub closed spec fn url(&self) -> Seq<char> {
        self.webhook_url@
    }

    pub fn new(webhook_url: String) -> (r: Self)
        ensures
            r.url() == webhook_url@,
    {
        GChatProvider { webhook_url }
    }

    /// The webhook URL.
    pub fn webhook_url(&self) -> (r: &str)
        ensures
            r@ == self.url(),
    {
        self.webhook_url.as_str()
    }
}

} // verus!
