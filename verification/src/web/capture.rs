//! Checking a request for captured waveform data: the channels named, and a
//! start and end time that parse and make a non-empty window.
use vstd::prelude::*;
use vstd::string::*;
use crate::forward::texts;
use crate::web::sns::{split_comma_list, comma_list};

verus! {

/// The instant that an RFC 3339 text names, if it is valid: whole seconds
/// since 1970-01-01T00:00:00 UTC and the nanoseconds past that second.
pub uninterp spec fn rfc3339_instant(text: Seq<char>) -> Option<(int, int)>;

/// `chrono::DateTime::parse_from_rfc3339`, read as its `timestamp()` and
/// `timestamp_subsec_nanos()`; `None` when the text is not valid RFC 3339.
/// What counts as valid, and which instant a valid text names, is left to
/// the name `rfc3339_instant`.
#[verifier::external_body]
fn parse_rfc3339(text: &str) -> (r: Option<(i64, u32)>)
    ensures
        r matches Some(p) ==> rfc3339_instant(text@) == Some((p.0 as int, p.1 as int)),
        r is None ==> rfc3339_instant(text@) is None,
{
    match chrono::DateTime::parse_from_rfc3339(text) {
        Ok(d) => Some((d.timestamp(), d.timestamp_subsec_nanos())),
        Err(_) => None,
    }
}

/// Nanoseconds since the epoch of an instant given as seconds and
/// nanoseconds past the second.
pub open spec fn instant_nanos(p: (int, int)) -> int {
    p.0 * 1_000_000_000 + p.1
}

/// The instant, in nanoseconds since the epoch, that an RFC 3339 text names.
fn parse_rfc3339_nanos(text: &str) -> (r: Option<i128>)
    ensures
        r matches Some(t) ==> rfc3339_instant(text@) matches Some(p) && t == instant_nanos(p)
            && instant_in_range(t as int),
        r is None ==> rfc3339_instant(text@) is None,
{
    match parse_rfc3339(text) {
        Some((secs, nanos)) => {
            assert(-0x1_0000_0000_0000_0000_0000_0000 <= secs * 1_000_000_000 + nanos
                <= 0x1_0000_0000_0000_0000_0000_0000) by (nonlinear_arith)
                requires
                    i64::MIN <= secs <= i64::MAX,
                    0 <= nanos <= u32::MAX,
            ;
            Some(secs as i128 * 1_000_000_000 + nanos as i128)
        },
        None => None,
    }
}

/// The pieces that are not empty, in order.
pub open spec fn nonempty_pieces(ps: Seq<Seq<char>>) -> Seq<Seq<char>>
    decreases ps.len(),
{
    if ps.len() == 0 {
        Seq::empty()
    } else {
        let prev = nonempty_pieces(ps.drop_last());
        if ps.last().len() > 0 {
            prev.push(ps.last())
        } else {
            prev
        }
    }
}

/// The channels that a comma-separated request parameter names: each
/// trimmed, the empty ones left out.
pub fn channel_list(channels: &str) -> (r: Vec<String>)
    ensures
        texts(r@) == nonempty_pieces(comma_list(channels@)),
{
    let pieces = split_comma_list(channels);
    let ghost ps = pieces@.map_values(|x: String| x@);
    let mut out: Vec<String> = Vec::new();
    let mut i: usize = 0;
    while i < pieces.len()
        invariant
            i <= pieces@.len(),
            ps == pieces@.map_values(|x: String| x@),
            ps == comma_list(channels@),
            texts(out@) == nonempty_pieces(ps.take(i as int)),
        decreases pieces@.len() - i,
    {
        let ghost before = out@;
        assert(ps.take(i + 1).drop_last() =~= ps.take(i as int));
        assert(ps[i as int] == pieces@[i as int]@);
        if !pieces[i].as_str().is_empty() {
            let p = String::from_str(pieces[i].as_str());
            out.push(p);
            assert(texts(out@) =~= texts(before).push(ps[i as int]));
        }
        i = i + 1;
    }
    assert(ps.take(pieces@.len() as int) =~= ps);
    out
}

/// Why a capture request is refused.
#[derive(Debug, Clone, Copy, PartialEq, Eq, Structural)]
pub enum CaptureQueryError {
    MissingChannels,
    MissingStart,
    MissingEnd,
    InvalidStart,
    InvalidEnd,
    EmptyWindow,
}

impl CaptureQueryError {
    /// The error text that the request is answered with.
    pub fn message(&self) -> (r: &'static str)
        ensures
            *self == CaptureQueryError::MissingChannels ==> r@ == "channels parameter is required"@,
            *self == CaptureQueryError::MissingStart ==> r@ == "start parameter is required"@,
            *self == CaptureQueryError::MissingEnd ==> r@ == "end parameter is required"@,
            *self == CaptureQueryError::InvalidStart ==> r@ == "invalid start time format, expected ISO 8601"@,
            *self == CaptureQueryError::InvalidEnd ==> r@ == "invalid end time format, expected ISO 8601"@,
            *self == CaptureQueryError::EmptyWindow ==> r@ == "end must be after start"@,
    {
        match self {
            CaptureQueryError::MissingChannels => "channels parameter is required",
            CaptureQueryError::MissingStart => "start parameter is required",
            CaptureQueryError::MissingEnd => "end parameter is required",
            CaptureQueryError::InvalidStart => "invalid start time format, expected ISO 8601",
            CaptureQueryError::InvalidEnd => "invalid end time format, expected ISO 8601",
            CaptureQueryError::EmptyWindow => "end must be after start",
        }
    }
}

/// An accepted capture request: the channels and the window, in
/// nanoseconds since the epoch.
#[derive(Debug)]
pub struct CaptureRequest {
    pub channels: Vec<String>,
    pub start_ns: i128,
    pub end_ns: i128,
}

/// Whole milliseconds from `a` to `b` (nanoseconds), truncated toward zero.
pub open spec fn window_millis(a: int, b: int) -> int {
    let d = b - a;
    if d >= 0 { d / 1_000_000 } else { -((-d) / 1_000_000) }
}

/// Nanosecond instants that a parsed time can be (`chrono`'s range, with
/// room to spare).
pub open spec fn instant_in_range(t: int) -> bool {
    -0x1_0000_0000_0000_0000_0000_0000 <= t <= 0x1_0000_0000_0000_0000_0000_0000
}

/// Decides on the parsed times of a request whose channels and times are
/// present: each must parse, and the window must last at least a whole
/// millisecond.
pub fn capture_window(channels: Vec<String>, start: Option<i128>, end: Option<i128>) -> (r: Result<
    CaptureRequest,
    CaptureQueryError,
>)
    requires
        start matches Some(s) ==> instant_in_range(s as int),
        end matches Some(e) ==> instant_in_range(e as int),
    ensures
        start is None ==> r == Err::<CaptureRequest, CaptureQueryError>(CaptureQueryError::InvalidStart),
        start is Some && end is None ==> r == Err::<CaptureRequest, CaptureQueryError>(CaptureQueryError::InvalidEnd),
        match (start, end) {
            (Some(s), Some(e)) => if window_millis(s as int, e as int) <= 0 {
                r == Err::<CaptureRequest, CaptureQueryError>(CaptureQueryError::EmptyWindow)
            } else {
                r matches Ok(q) && q.channels@ == channels@ && q.start_ns == s && q.end_ns == e
            },
            _ => true,
        },
{
    let s = match start {
        Some(s) => s,
        None => return Err(CaptureQueryError::InvalidStart),
    };
    let e = match end {
        Some(e) => e,
        None => return Err(CaptureQueryError::InvalidEnd),
    };
    let d = e - s;
    let m = if d >= 0 { d / 1_000_000 } else { -((-d) / 1_000_000) };
    if m <= 0 {
        return Err(CaptureQueryError::EmptyWindow);
    }
    Ok(CaptureRequest { channels, start_ns: s, end_ns: e })
}

/// Checks the parameters of a capture request: at least one channel, then a
/// start and an end time, in that order of checking.
pub fn capture_request(channels: Option<&str>, start: Option<&str>, end: Option<&str>) -> (r: Result<
    CaptureRequest,
    CaptureQueryError,
>)
    ensures
        ({
            let list = nonempty_pieces(comma_list(match channels { Some(c) => c@, None => Seq::empty() }));
            &&& list.len() == 0 ==> r == Err::<CaptureRequest, CaptureQueryError>(CaptureQueryError::MissingChannels)
            &&& list.len() > 0 && start is None ==> r == Err::<CaptureRequest, CaptureQueryError>(CaptureQueryError::MissingStart)
            &&& list.len() > 0 && start is Some && end is None ==> r == Err::<CaptureRequest, CaptureQueryError>(CaptureQueryError::MissingEnd)
            &&& list.len() > 0 ==> match (start, end) {
                (Some(s), Some(e)) => match (rfc3339_instant(s@), rfc3339_instant(e@)) {
                    (None, _) => r == Err::<CaptureRequest, CaptureQueryError>(CaptureQueryError::InvalidStart),
                    (Some(_), None) => r == Err::<CaptureRequest, CaptureQueryError>(CaptureQueryError::InvalidEnd),
                    (Some(a), Some(b)) => if window_millis(instant_nanos(a), instant_nanos(b)) <= 0 {
                        r == Err::<CaptureRequest, CaptureQueryError>(CaptureQueryError::EmptyWindow)
                    } else {
                        r matches Ok(q) && texts(q.channels@) == list && q.start_ns == instant_nanos(a)
                            && q.end_ns == instant_nanos(b)
                    },
                },
                _ => true,
            }
        }),
{
    let text = match channels {
        Some(c) => c,
        None => "",
    };
    proof {
        reveal_strlit("");
    }
    let list = channel_list(text);
    assert(text@ == (match channels { Some(c) => c@, None => Seq::<char>::empty() }));
    if list.len() == 0 {
        return Err(CaptureQueryError::MissingChannels);
    }
    let start_text = match start {
        Some(t) => t,
        None => return Err(CaptureQueryError::MissingStart),
    };
    let end_text = match end {
        Some(t) => t,
        None => return Err(CaptureQueryError::MissingEnd),
    };
    let a = parse_rfc3339_nanos(start_text);
    let b = parse_rfc3339_nanos(end_text);
    capture_window(list, a, b)
}

} // verus!
