//! The web and notification layer: alert texts, the alert history, capture
//! request checks, and notification routing.
use vstd::prelude::*;

pub mod alerts;
pub mod capture;
pub mod frames;
pub mod history;
pub mod plot;
pub mod sns;

verus! {

} // verus!
