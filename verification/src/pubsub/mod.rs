//! Pieces of the Pub/Sub relay that decide rather than transport.
use vstd::prelude::*;

pub mod dedup;
pub mod publisher;
pub mod subscriber;

verus! {

} // verus!
