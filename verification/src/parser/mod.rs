//! Parsing of station data: MiniSEED fixed headers, Steim compression and
//! record iteration, and the text of StationXML metadata.
use vstd::prelude::*;
use vstd::string::*;

pub mod header;
pub mod steim;
pub mod mseed;
pub mod stationxml;
pub mod response;

verus! {

/// The `network.station.location.channel` identifier of a trace.
pub open spec fn nslc_text(
    network: Seq<char>,
    station: Seq<char>,
    location: Seq<char>,
    channel: Seq<char>,
) -> Seq<char> {
    network + seq!['.'] + station + seq!['.'] + location + seq!['.'] + channel
}

/// Formats the `network.station.location.channel` identifier of a trace.
pub fn nslc(network: &str, station: &str, location: &str, channel: &str) -> (r: String)
    ensures
        r@ == nslc_text(network@, station@, location@, channel@),
{
    proof { reveal_strlit("."); }
    let mut s = String::from_str(network);
    s.append(".");
    s.append(station);
    s.append(".");
    s.append(location);
    s.append(".");
    s.append(channel);
    s
}

} // verus!
