//! `[hue]` configuration.
use vstd::prelude::*;

verus! {

/// Hue integration settings: the application key, the bridge to use (any
/// when unset) and the lights that signal alerts.
#[derive(Debug, Clone)]
pub struct HueConfig {
    pub enabled: bool,
    pub app_key: String,
    pub bridge_id: Option<String>,
    pub target_ids: Vec<String>,
}

impl Default for HueConfig {
    fn default() -> (r: Self)
        ensures
            !r.enabled,
            r.app_key@.len() == 0,
            r.bridge_id is None,
            r.target_ids@.len() == 0,
    {
        HueConfig { enabled: false, app_key: String::new(), bridge_id: None, target_ids: Vec::new() }
    }
}

} // verus!
