//! The LINE Messaging API service.
use vstd::prelude::*;

verus! {

/// A LINE channel access token and the recipients of push messages.
pub struct LineProvider {
    channel_access_token: String,
    to_ids: Vec<String>,
}

impl LineProvider {
    /// The channel access token.
    pub closed spec fn token(&self) -> Seq<char> {
        self.channel_access_token@
    }

    /// The recipient IDs, in order.
    pub closed spec fn recipients(&self) -> Seq<Seq<char>> {
        self.to_ids@.map_values(|s: String| s@)
    }

    pub fn new(channel_access_token: String, to_ids: Vec<String>) -> (r: Self)
        ensures
            r.token() == channel_access_token@,
            r.recipients() == to_ids@.map_values(|s: String| s@),
    {
        LineProvider { channel_access_token, to_ids }
    }

    /// The channel access token.
    pub fn channel_access_token(&self) -> (r: &str)
        ensures
            r@ == self.token(),
    {
        self.channel_access_token.as_str()
    }

    /// The recipient IDs, in order.
    pub fn to_ids(&self) -> (r: &Vec<String>)
        ensures
            r@.map_values(|s: String| s@) == self.recipients(),
    {
        &self.to_ids
    }
}

} // verus!
