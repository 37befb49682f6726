//! Decisions of the processing loop that do not depend on sample values:
//! which channels feed the seismic intensity calculation, and under which
//! component name.
use vstd::prelude::*;
use vstd::string::*;
use crate::text::{contains_str, contains_text};

verus! {

/// Whether a channel id (`NET.STA.LOC.CHA`) feeds the intensity calculation:
/// it contains one of the configured channel names.
pub open spec fn is_intensity_target(id: Seq<char>, channels: Seq<Seq<char>>) -> bool {
    exists|k: int| 0 <= k < channels.len() && #[trigger] contains_text(id, channels[k])
}

/// Whether the channel id feeds the intensity calculation.
pub fn intensity_target(id: &str, channels: &[String]) -> (r: bool)
    ensures
        r == is_intensity_target(id@, channels@.map_values(|c: String| c@)),
{
    let ghost cs = channels@.map_values(|c: String| c@);
    let mut k: usize = 0;
    while k < channels.len()
        invariant
            k <= channels@.len(),
            cs == channels@.map_values(|c: String| c@),
            forall|j: int| 0 <= j < k ==> !#[trigger] contains_text(id@, cs[j]),
        decreases channels@.len() - k,
    {
        if contains_str(id, channels[k].as_str()) {
            assert(contains_text(id@, cs[k as int]));
            return true;
        }
        k = k + 1;
    }
    false
}

/// The component name under which a channel's samples enter the intensity
/// calculation: `ENE` or `ENN` when the id contains it, `ENZ` otherwise.
pub open spec fn intensity_component_of(id: Seq<char>) -> Seq<char> {
    if contains_text(id, "ENE"@) {
        "ENE"@
    } else if contains_text(id, "ENN"@) {
        "ENN"@
    } else {
        "ENZ"@
    }
}

/// The component name for a channel id.
pub fn intensity_component(id: &str) -> (r: &'static str)
    ensures
        r@ == intensity_component_of(id@),
{
    if contains_str(id, "ENE") {
        "ENE"
    } else if contains_str(id, "ENN") {
        "ENN"
    } else {
        "ENZ"
    }
}

} // verus!
