//! Verified core of a Raspberry Shake style seismic station monitor:
//! MiniSEED record parsing and Steim2 decompression, record playback order,
//! StationXML text structure, channel routing, the STA/LTA trigger's state
//! machine, batching and duplicate suppression of relayed samples, alert
//! history and request checks, notification routing and texts, and the
//! configuration model.
use vstd::prelude::*;

pub mod parser;
pub mod pipeline;
pub mod text;
pub mod forward;
pub mod hue;
pub mod settings;
pub mod pubsub;
pub mod rsam;
pub mod sound;
pub mod streamer;
pub mod trigger;
pub mod trigger_new;
pub mod web;

verus! {

/// `std::io::Error` travels inside the error enums of the library.
#[verifier::external_type_specification]
#[verifier::external_body]
pub struct ExIoError(std::io::Error);

} // verus!
