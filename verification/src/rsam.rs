//! RSAM (real-time seismic amplitude) reporting: its errors and the choice
//! of output format. The amplitude statistics themselves are computed by the
//! application.
use vstd::prelude::*;
use vstd::string::*;
use crate::text::{to_upper, uppercased, same_text};
use crate::forward::io_error_text;

verus! {

/// Errors of RSAM initialisation.
#[derive(Debug)]
pub enum RsamError {
    AddressResolve(String),
    SocketBind(std::io::Error),
}

impl RsamError {
    /// The error's message (what the application displays).
    pub fn message(&self) -> (r: String)
        ensures
            self matches RsamError::AddressResolve(a) ==> r@
                == "RSAM: cannot resolve destination address '"@ + a@ + "'"@,
            self is SocketBind ==> "RSAM: failed to bind UDP socket: "@.is_prefix_of(r@),
    {
        match self {
            RsamError::AddressResolve(a) => {
                let mut m = String::from_str("RSAM: cannot resolve destination address '");
                m.append(a.as_str());
                m.append("'");
                m
            },
            RsamError::SocketBind(e) => {
                let mut m = String::from_str("RSAM: failed to bind UDP socket: ");
                let ghost head = m@;
                m.append(io_error_text(e).as_str());
                assert(head =~= m@.subrange(0, head.len() as int));
                m
            },
        }
    }
}

/// The text layouts of an RSAM report.
#[derive(Debug, Clone, Copy, PartialEq, Eq)]
pub enum RsamFormat {
    Lite,
    Json,
    Csv,
}

/// The layout that the configured format name selects, case-insensitively;
/// an unknown name falls back to `LITE` (`known` is then false).
pub open spec fn rsam_format_of(upper: Seq<char>) -> (RsamFormat, bool) {
    if upper == "JSON"@ {
        (RsamFormat::Json, true)
    } else if upper == "CSV"@ {
        (RsamFormat::Csv, true)
    } else if upper == "LITE"@ {
        (RsamFormat::Lite, true)
    } else {
        (RsamFormat::Lite, false)
    }
}

/// The report layout named by `fwformat`, and whether the name is known.
pub fn rsam_format(fwformat: &str) -> (r: (RsamFormat, bool))
    ensures
        r == rsam_format_of(uppercased(fwformat@)),
{
    let upper = to_upper(fwformat);
    if same_text(upper.as_str(), "JSON") {
        (RsamFormat::Json, true)
    } else if same_text(upper.as_str(), "CSV") {
        (RsamFormat::Csv, true)
    } else if same_text(upper.as_str(), "LITE") {
        (RsamFormat::Lite, true)
    } else {
        (RsamFormat::Lite, false)
    }
}

} // verus!
