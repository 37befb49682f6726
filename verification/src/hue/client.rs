//! Resource data reported by the Hue bridge (the parts without real numbers).
use vstd::prelude::*;
use vstd::string::*;
use crate::text::chars_of;

verus! {

/// A resource's metadata.
#[derive(Debug)]
pub struct Metadata {
    pub name: String,
}

/// A light's on/off state.
#[derive(Debug)]
pub struct OnState {
    pub on: bool,
}

/// The HTTPS base URL of a bridge at `ip`: an address with a colon (IPv6)
/// is put in brackets.
pub open spec fn bridge_base_url(ip: Seq<char>) -> Seq<char> {
    if ip.contains(':') {
        "https://["@ + ip + "]"@
    } else {
        "https://"@ + ip
    }
}

/// The HTTPS base URL under which the bridge API at `ip` is reached.
pub fn base_url(ip: &str) -> (r: String)
    ensures
        r@ == bridge_base_url(ip@),
{
    let cs = chars_of(ip);
    let mut i: usize = 0;
    let mut colon = false;
    while i < cs.len()
        invariant
            cs@ == ip@,
            i <= cs@.len(),
            colon == (exists|k: int| 0 <= k < i && cs@[k] == ':'),
        decreases cs@.len() - i,
    {
        if cs[i] == ':' {
            colon = true;
        }
        i = i + 1;
    }
    proof {
        if colon {
            let k = choose|k: int| 0 <= k < i && cs@[k] == ':';
            assert(ip@.contains(cs@[k]));
        }
    }
    if colon {
        let mut u = String::from_str("https://[");
        u.append(ip);
        u.append("]");
        u
    } else {
        let mut u = String::from_str("https://");
        u.append(ip);
        u
    }
}

/// The URL at which an application registers with the bridge.
pub fn register_url(base: &str) -> (r: String)
    ensures
        r@ == base@ + "/api"@,
{
    let mut u = String::from_str(base);
    u.append("/api");
    u
}

/// The URL listing the bridge's resources of one type (`light`, `room`, `zone`).
pub fn resource_url(base: &str, resource_type: &str) -> (r: String)
    ensures
        r@ == base@ + "/clip/v2/resource/"@ + resource_type@,
{
    let mut u = String::from_str(base);
    u.append("/clip/v2/resource/");
    u.append(resource_type);
    u
}

/// The URL of one light, whose state is set there.
pub fn light_url(base: &str, id: &str) -> (r: String)
    ensures
        r@ == base@ + "/clip/v2/resource/light/"@ + id@,
{
    let mut u = String::from_str(base);
    u.append("/clip/v2/resource/light/");
    u.append(id);
    u
}

/// The bridge's confirmation of a registration: the new application key.
pub struct LinkSuccess {
    pub username: String,
}

/// The bridge's refusal of a registration.
pub struct LinkError {
    pub description: String,
}

/// One entry of the bridge's answer to a registration.
pub struct LinkResponse {
    pub success: Option<LinkSuccess>,
    pub error: Option<LinkError>,
}

/// The outcome of a registration answer: the first entry decides, its
/// application key if it has one, else its error description; an answer
/// that says neither is an unknown error.
pub open spec fn link_outcome(results: Seq<LinkResponse>) -> Result<Seq<char>, Seq<char>> {
    if results.len() > 0 && results[0].success is Some {
        Ok(results[0].success->0.username@)
    } else if results.len() > 0 && results[0].error is Some {
        Err(results[0].error->0.description@)
    } else {
        Err("Unknown error"@)
    }
}

/// The application key, or the error, that a registration answer gives.
pub fn link_result(results: &Vec<LinkResponse>) -> (r: Result<String, String>)
    ensures
        match (r, link_outcome(results@)) {
            (Ok(k), Ok(e)) => k@ == e,
            (Err(k), Err(e)) => k@ == e,
            _ => false,
        },
{
    if results.len() > 0 {
        let first = &results[0];
        if let Some(success) = &first.success {
            return Ok(success.username.clone());
        }
        if let Some(error) = &first.error {
            return Err(error.description.clone());
        }
    }
    Err(String::from_str("Unknown error"))
}

} // verus!
