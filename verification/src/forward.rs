//! UDP forwarding: which channels are forwarded, the messages handed to the
//! forwarding tasks, and the validation of the forwarding configuration.
use vstd::prelude::*;
use vstd::string::*;
use crate::text::{to_upper, uppercased, is_suffix, ends_with, same_text, decimal_text, decimal_u64};
use crate::settings::ForwardSettings;

verus! {

/// The upper-case keyword that makes a filter match every channel.
pub open spec fn all_keyword() -> Seq<char> {
    seq!['A', 'L', 'L']
}

/// Whether one upper-cased filter accepts an upper-cased channel name: the
/// keyword `ALL`, or a suffix of the name.
pub open spec fn filter_accepts(channel_upper: Seq<char>, filter_upper: Seq<char>) -> bool {
    filter_upper == all_keyword() || is_suffix(filter_upper, channel_upper)
}

/// Whether `channel` is forwarded under `filters`: always when there is no
/// filter, otherwise when some filter accepts it, case-insensitively.
pub open spec fn forwards_channel(channel: Seq<char>, filters: Seq<Seq<char>>) -> bool {
    filters.len() == 0 || exists|i: int|
        0 <= i < filters.len() && #[trigger] filter_accepts(uppercased(channel), uppercased(filters[i]))
}

/// The characters of each string of a list.
pub open spec fn texts(v: Seq<String>) -> Seq<Seq<char>> {
    v.map_values(|s: String| s@)
}

/// Whether the upper-cased filter `filter_upper` accepts the upper-cased
/// channel name `channel_upper` (`ALL`, or a suffix of the name).
pub fn filter_accepts_upper(channel_upper: &str, filter_upper: &str) -> (r: bool)
    ensures
        r == filter_accepts(channel_upper@, filter_upper@),
{
    proof {
        reveal_strlit("ALL");
        assert("ALL"@ =~= all_keyword());
    }
    if same_text(filter_upper, "ALL") {
        return true;
    }
    ends_with(channel_upper, filter_upper)
}

/// Check if a channel name matches the configured filter list.
/// - "all" matches everything.
/// - Otherwise, case-insensitive suffix matching (e.g., filter "HZ" matches "EHZ").
/// - An empty filter list matches every channel.
pub fn should_forward_channel(channel: &str, filters: &[String]) -> (r: bool)
    ensures
        r == forwards_channel(channel@, texts(filters@)),
{
    if filters.len() == 0 {
        return true;
    }
    let channel_upper = to_upper(channel);
    let ghost fs = texts(filters@);
    let mut i: usize = 0;
    while i < filters.len()
        invariant
            i <= filters@.len(),
            fs == texts(filters@),
            channel_upper@ == uppercased(channel@),
            forall|j: int| 0 <= j < i ==> !#[trigger] filter_accepts(uppercased(channel@), uppercased(fs[j])),
        decreases filters@.len() - i,
    {
        let filter_upper = to_upper(filters[i].as_str());
        if filter_accepts_upper(channel_upper.as_str(), filter_upper.as_str()) {
            assert(filter_accepts(uppercased(channel@), uppercased(fs[i as int])));
            return true;
        }
        i = i + 1;
    }
    false
}

/// An empty filter list forwards every channel.
pub proof fn lemma_no_filter_forwards_every_channel(channel: Seq<char>)
    ensures
        forwards_channel(channel, Seq::empty()),
{
}

/// A filter that reads `all` in any case forwards every channel, whatever
/// the other filters are.
pub proof fn lemma_all_filter_forwards_every_channel(channel: Seq<char>, filters: Seq<Seq<char>>, i: int)
    requires
        0 <= i < filters.len(),
        uppercased(filters[i]) == all_keyword(),
    ensures
        forwards_channel(channel, filters),
{
    assert(filter_accepts(uppercased(channel), uppercased(filters[i])));
}

/// A filter whose upper-case form ends the channel's upper-case name
/// forwards the channel; in particular the channel's own name does.
pub proof fn lemma_suffix_filter_forwards_channel(channel: Seq<char>, filters: Seq<Seq<char>>, i: int)
    requires
        0 <= i < filters.len(),
        is_suffix(uppercased(filters[i]), uppercased(channel)),
    ensures
        forwards_channel(channel, filters),
{
    assert(filter_accepts(uppercased(channel), uppercased(filters[i])));
}

/// Adding filters to a non-empty list never stops a channel from being
/// forwarded.
pub proof fn lemma_more_filters_forward_more(channel: Seq<char>, filters: Seq<Seq<char>>, more: Seq<Seq<char>>)
    requires
        filters.len() > 0,
        forwards_channel(channel, filters),
    ensures
        forwards_channel(channel, filters + more),
{
    let i = choose|i: int| 0 <= i < filters.len() && #[trigger] filter_accepts(uppercased(channel), uppercased(filters[i]));
    assert((filters + more)[i] == filters[i]);
    assert(filter_accepts(uppercased(channel), uppercased((filters + more)[i])));
}

/// What a forwarding manager lets through: data packets of the configured
/// channels when data forwarding is on, and alarms when alarm forwarding is
/// on.
#[derive(Debug, Clone)]
pub struct ForwardPolicy {
    pub channels: Vec<String>,
    pub fwd_data: bool,
    pub fwd_alarms: bool,
}

fn clone_texts(v: &Vec<String>) -> (r: Vec<String>)
    ensures
        texts(r@) == texts(v@),
{
    let mut r: Vec<String> = Vec::new();
    let mut i: usize = 0;
    while i < v.len()
        invariant
            i <= v@.len(),
            r@.len() == i,
            texts(r@) == texts(v@).take(i as int),
        decreases v@.len() - i,
    {
        let s = String::from_str(v[i].as_str());
        assert(s@ == v@[i as int]@);
        let ghost prev = r@;
        r.push(s);
        assert(r@ == prev.push(s));
        assert forall|j: int| 0 <= j < i + 1 implies texts(r@)[j] == texts(v@).take(i + 1)[j] by {
            assert(texts(r@)[j] == r@[j]@);
            assert(texts(v@)[j] == v@[j]@);
            if j < i {
                assert(r@[j] == prev[j]);
                assert(texts(prev)[j] == prev[j]@);
                assert(texts(prev)[j] == texts(v@).take(i as int)[j]);
            }
        }
        assert(texts(r@) =~= texts(v@).take(i + 1));
        i = i + 1;
    }
    assert(texts(v@).take(v@.len() as int) =~= texts(v@));
    r
}

impl ForwardPolicy {
    /// The policy that the forwarding section configures.
    pub fn from_settings(settings: &ForwardSettings) -> (r: Self)
        ensures
            texts(r.channels@) == texts(settings.channels@),
            r.fwd_data == settings.fwd_data,
            r.fwd_alarms == settings.fwd_alarms,
    {
        ForwardPolicy {
            channels: clone_texts(&settings.channels),
            fwd_data: settings.fwd_data,
            fwd_alarms: settings.fwd_alarms,
        }
    }

    /// Whether a data packet of `channel` is forwarded.
    pub fn accepts_data(&self, channel: &str) -> (r: bool)
        ensures
            r == (self.fwd_data && forwards_channel(channel@, texts(self.channels@))),
    {
        self.fwd_data && should_forward_channel(channel, self.channels.as_slice())
    }

    /// Whether alarm and reset messages are forwarded.
    pub fn accepts_alarms(&self) -> (r: bool)
        ensures
            r == self.fwd_alarms,
    {
        self.fwd_alarms
    }
}

/// Per-destination forwarding counters.
#[derive(Debug, Clone, Copy)]
pub struct ForwardStats {
    pub packets_sent: u64,
    pub packets_dropped: u64,
    pub send_errors: u64,
}

impl ForwardStats {
    /// All counters at zero.
    pub fn new() -> (r: Self)
        ensures
            r.packets_sent == 0,
            r.packets_dropped == 0,
            r.send_errors == 0,
    {
        ForwardStats { packets_sent: 0, packets_dropped: 0, send_errors: 0 }
    }

    /// Counts one packet sent (wrapping, as an atomic `fetch_add` does).
    pub fn record_sent(&mut self)
        ensures
            final(self).packets_sent == vstd::wrapping::u64_specs::wrapping_add(old(self).packets_sent, 1),
            final(self).packets_dropped == old(self).packets_dropped,
            final(self).send_errors == old(self).send_errors,
    {
        self.packets_sent = self.packets_sent.wrapping_add(1);
    }

    /// Counts one packet dropped because the destination's queue was full or closed.
    pub fn record_dropped(&mut self)
        ensures
            final(self).packets_dropped == vstd::wrapping::u64_specs::wrapping_add(old(self).packets_dropped, 1),
            final(self).packets_sent == old(self).packets_sent,
            final(self).send_errors == old(self).send_errors,
    {
        self.packets_dropped = self.packets_dropped.wrapping_add(1);
    }

    /// Counts one failed send.
    pub fn record_error(&mut self)
        ensures
            final(self).send_errors == vstd::wrapping::u64_specs::wrapping_add(old(self).send_errors, 1),
            final(self).packets_sent == old(self).packets_sent,
            final(self).packets_dropped == old(self).packets_dropped,
    {
        self.send_errors = self.send_errors.wrapping_add(1);
    }
}

/// Message sent from pipeline to forwarding task.
#[derive(Debug, Clone)]
pub enum ForwardMsg {
    /// Raw seismic data packet bytes to forward.
    Data(Vec<u8>),
    /// ALARM or RESET event text message.
    Alarm(String),
}

/// Errors during ForwardManager initialization.
#[derive(Debug)]
pub enum ForwardError {
    /// address and port list lengths do not match.
    ConfigMismatch { addresses: usize, ports: usize },
    /// Failed to bind UDP socket.
    SocketBind(std::io::Error),
    /// Failed to resolve destination address.
    AddressResolve(String),
}

/// `ToString::to_string` on an I/O error: its description, which depends on
/// the operating system's error text and is therefore left unsaid.
#[verifier::external_body]
pub(crate) fn io_error_text(e: &std::io::Error) -> String {
    e.to_string()
}

/// The text of a forwarding configuration error.
pub open spec fn forward_error_text(addresses: nat, ports: nat) -> Seq<char> {
    "Forward config: address count ("@ + decimal_text(addresses) + ") != port count ("@
        + decimal_text(ports) + ")"@
}

impl ForwardError {
    /// The error's message (what the application displays).
    pub fn message(&self) -> (r: String)
        ensures
            self matches ForwardError::ConfigMismatch { addresses, ports } ==> r@
                == forward_error_text(addresses as nat, ports as nat),
            self matches ForwardError::AddressResolve(a) ==> r@
                == "Forward: cannot resolve address '"@ + a@ + "'"@,
            self is SocketBind ==> "Forward socket bind error: "@.is_prefix_of(r@),
    {
        match self {
            ForwardError::ConfigMismatch { addresses, ports } => {
                let mut m = String::from_str("Forward config: address count (");
                m.append(decimal_u64(*addresses as u64).as_str());
                m.append(") != port count (");
                m.append(decimal_u64(*ports as u64).as_str());
                m.append(")");
                m
            },
            ForwardError::SocketBind(e) => {
                let mut m = String::from_str("Forward socket bind error: ");
                let ghost head = m@;
                m.append(io_error_text(e).as_str());
                assert(head =~= m@.subrange(0, head.len() as int));
                m
            },
            ForwardError::AddressResolve(a) => {
                let mut m = String::from_str("Forward: cannot resolve address '");
                m.append(a.as_str());
                m.append("'");
                m
            },
        }
    }
}

/// The destination text `address:port` that is resolved for one destination.
pub open spec fn destination_text_of(address: Seq<char>, port: u16) -> Seq<char> {
    address + ":"@ + decimal_text(port as nat)
}

/// The destination `address:port` for one configured destination.
pub fn destination_text(address: &str, port: u16) -> (r: String)
    ensures
        r@ == destination_text_of(address@, port),
{
    let mut t = String::from_str(address);
    t.append(":");
    t.append(decimal_u64(port as u64).as_str());
    t
}

/// Checks that the forwarding configuration names as many ports as addresses.
pub fn validate_forward_settings(settings: &ForwardSettings) -> (r: Result<(), ForwardError>)
    ensures
        r is Ok <==> settings.address@.len() == settings.port@.len(),
        r matches Err(e) ==> e == (ForwardError::ConfigMismatch {
            addresses: settings.address@.len() as usize,
            ports: settings.port@.len() as usize,
        }),
{
    if settings.address.len() != settings.port.len() {
        return Err(ForwardError::ConfigMismatch {
            addresses: settings.address.len(),
            ports: settings.port.len(),
        });
    }
    Ok(())
}

} // verus!
