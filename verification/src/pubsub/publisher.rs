//! Batching of segments for publication: segments are gathered per channel
//! into a window that starts at the first segment's time (floored to the
//! batch interval) and are handed out as one batch at each flush.
use vstd::prelude::*;
use vstd::string::*;
use crate::pubsub::dedup::{
    dedup_key_of, generate_dedup_key, iso8601_millis, trunc_div, utc_millis_in_range,
    utc_millis_text_opt, window_start_ms,
};

verus! {

/// The samples of one channel in a batch, and the start time of its first
/// segment.
#[derive(Debug, Clone)]
pub struct ChannelBatch {
    pub channel: String,
    pub samples: Vec<i32>,
    pub start_time_ms: i64,
}

/// One batch: its window and the channels gathered in it, in order of first
/// arrival.
#[derive(Debug, Clone)]
pub struct Batch {
    pub window_start_ms: i64,
    pub window_end_ms: i64,
    pub channels: Vec<ChannelBatch>,
}

/// A channel's entry by value: name, samples, start time.
pub type EntryView = (Seq<char>, Seq<i32>, int);

/// The view of a channel entry.
pub open spec fn entry_view(c: ChannelBatch) -> EntryView {
    (c.channel@, c.samples@, c.start_time_ms as int)
}

/// The views of a list of entries.
pub open spec fn entry_views(v: Seq<ChannelBatch>) -> Seq<EntryView> {
    v.map_values(|c: ChannelBatch| entry_view(c))
}

/// The position of `channel` among the entries, if it has one.
pub open spec fn channel_index(entries: Seq<EntryView>, channel: Seq<char>) -> Option<int>
    decreases entries.len(),
{
    if entries.len() == 0 {
        None
    } else {
        match channel_index(entries.drop_last(), channel) {
            Some(i) => Some(i),
            None => if entries.last().0 == channel { Some(entries.len() - 1) } else { None },
        }
    }
}

/// The entries after a segment of `channel` arrives: its samples are appended
/// to the channel's entry, or a new entry starts with the segment's time.
pub open spec fn add_to_entries(
    entries: Seq<EntryView>,
    channel: Seq<char>,
    samples: Seq<i32>,
    start_time_ms: int,
) -> Seq<EntryView> {
    match channel_index(entries, channel) {
        Some(i) => entries.update(i, (entries[i].0, entries[i].1 + samples, entries[i].2)),
        None => entries.push((channel, samples, start_time_ms)),
    }
}

/// The window start for a first segment at `t`: `(t / interval) * interval`
/// with truncating division.
pub open spec fn floor_to_interval(t: int, interval: int) -> int {
    trunc_div(t, interval) * interval
}

/// The state of a [`BatchBuffer`].
pub struct BatchBufferView {
    pub window_start: Option<int>,
    pub entries: Seq<EntryView>,
    pub interval_ms: nat,
}

/// Segments gathered for the next batch.
pub struct BatchBuffer {
    window_start: Option<i64>,
    channels: Vec<ChannelBatch>,
    batch_interval_ms: u64,
}

proof fn lemma_channel_index(entries: Seq<EntryView>, channel: Seq<char>)
    ensures
        channel_index(entries, channel) matches Some(i) ==> 0 <= i < entries.len() && entries[i].0
            == channel && forall|j: int| 0 <= j < i ==> entries[j].0 != channel,
        channel_index(entries, channel) is None ==> forall|j: int|
            0 <= j < entries.len() ==> entries[j].0 != channel,
    decreases entries.len(),
{
    if entries.len() > 0 {
        lemma_channel_index(entries.drop_last(), channel);
        assert(forall|j: int| 0 <= j < entries.len() - 1 ==> entries.drop_last()[j] == entries[j]);
    }
}

/// `(t / iv) * iv` (truncating) lies between 0 and `t`.
proof fn lemma_trunc_floor_bounds(t: int, iv: int)
    requires
        iv >= 1,
    ensures
        t >= 0 ==> 0 <= trunc_div(t, iv) * iv <= t,
        t < 0 ==> t <= trunc_div(t, iv) * iv <= 0,
{
    let a = if t >= 0 { t } else { -t };
    vstd::arithmetic::div_mod::lemma_fundamental_div_mod(a, iv);
    vstd::arithmetic::div_mod::lemma_mod_bound(a, iv);
    vstd::arithmetic::div_mod::lemma_div_pos_is_pos(a, iv);
    let d = a / iv;
    assert(0 <= d * iv <= a) by (nonlinear_arith)
        requires
            a == iv * d + a % iv,
            0 <= a % iv < iv,
            d >= 0,
            iv >= 1,
    ;
    if t < 0 {
        assert(trunc_div(t, iv) * iv == -(d * iv)) by (nonlinear_arith)
            requires
                trunc_div(t, iv) == -d,
        ;
    }
}

/// The entries gathered from segments that arrive in order into an empty
/// buffer.
pub open spec fn gathered(arrivals: Seq<EntryView>) -> Seq<EntryView>
    decreases arrivals.len(),
{
    if arrivals.len() == 0 {
        Seq::empty()
    } else {
        let last = arrivals.last();
        add_to_entries(gathered(arrivals.drop_last()), last.0, last.1, last.2)
    }
}

/// The samples of the segments of `channel` among `arrivals`, in arrival
/// order.
pub open spec fn channel_samples(arrivals: Seq<EntryView>, channel: Seq<char>) -> Seq<i32>
    decreases arrivals.len(),
{
    if arrivals.len() == 0 {
        Seq::empty()
    } else {
        let prev = channel_samples(arrivals.drop_last(), channel);
        if arrivals.last().0 == channel {
            prev + arrivals.last().1
        } else {
            prev
        }
    }
}

/// The samples that the entries hold for `channel`.
pub open spec fn entry_samples(entries: Seq<EntryView>, channel: Seq<char>) -> Seq<i32> {
    match channel_index(entries, channel) {
        Some(i) => entries[i].1,
        None => Seq::empty(),
    }
}

/// Where a channel is found depends only on the names of the entries.
proof fn lemma_channel_index_by_names(a: Seq<EntryView>, b: Seq<EntryView>, channel: Seq<char>)
    requires
        a.len() == b.len(),
        forall|j: int| 0 <= j < a.len() ==> #[trigger] a[j].0 == b[j].0,
    ensures
        channel_index(a, channel) == channel_index(b, channel),
    decreases a.len(),
{
    if a.len() > 0 {
        assert forall|j: int| 0 <= j < a.drop_last().len() implies #[trigger] a.drop_last()[j].0
            == b.drop_last()[j].0 by {
            assert(a[j].0 == b[j].0);
        }
        lemma_channel_index_by_names(a.drop_last(), b.drop_last(), channel);
    }
}

/// How one arriving segment changes the samples held for each channel.
proof fn lemma_entry_samples_after_add(
    entries: Seq<EntryView>,
    channel: Seq<char>,
    samples: Seq<i32>,
    start: int,
    other: Seq<char>,
)
    ensures
        entry_samples(add_to_entries(entries, channel, samples, start), other) == (if other
            == channel {
            entry_samples(entries, other) + samples
        } else {
            entry_samples(entries, other)
        }),
{
    let after = add_to_entries(entries, channel, samples, start);
    lemma_channel_index(entries, channel);
    lemma_channel_index(entries, other);
    match channel_index(entries, channel) {
        Some(i) => {
            assert forall|j: int| 0 <= j < entries.len() implies #[trigger] entries[j].0
                == after[j].0 by {}
            lemma_channel_index_by_names(entries, after, other);
        },
        None => {
            assert(after.drop_last() =~= entries);
            if other == channel {
                assert(entry_samples(entries, other) + samples =~= samples);
            }
        },
    }
}

/// Nothing is lost or reordered while a batch is gathered: for every
/// channel, the batch holds the samples of that channel's segments, in the
/// order in which they arrived.
pub proof fn lemma_gathered_samples(arrivals: Seq<EntryView>, channel: Seq<char>)
    ensures
        entry_samples(gathered(arrivals), channel) == channel_samples(arrivals, channel),
    decreases arrivals.len(),
{
    if arrivals.len() > 0 {
        lemma_gathered_samples(arrivals.drop_last(), channel);
        let last = arrivals.last();
        lemma_entry_samples_after_add(gathered(arrivals.drop_last()), last.0, last.1, last.2, channel);
    }
}

/// For a start time that is not negative, the window that a batch's first
/// segment opens contains that segment's start.
pub proof fn lemma_window_contains_first_start(t: int, interval: int)
    requires
        t >= 0,
        interval >= 1,
    ensures
        floor_to_interval(t, interval) <= t < floor_to_interval(t, interval) + interval,
{
    vstd::arithmetic::div_mod::lemma_fundamental_div_mod(t, interval);
    vstd::arithmetic::div_mod::lemma_mod_bound(t, interval);
    let q = t / interval;
    assert(trunc_div(t, interval) == q);
    assert(q * interval == interval * q) by (nonlinear_arith);
}

/// The text of a window start in the published attributes: ISO 8601 with
/// milliseconds, or empty outside chrono's range.
pub open spec fn window_start_text(ms: int) -> Seq<char> {
    if utc_millis_in_range(ms) {
        iso8601_millis(ms)
    } else {
        seq![]
    }
}

/// The attributes published with a batch of `station` whose window starts at
/// `ws`: the deduplication key, the station, and the window start.
pub fn publish_attributes(station: &str, ws: i64) -> (r: Vec<(String, String)>)
    requires
        utc_millis_in_range(window_start_ms(ws as int)),
    ensures
        r@.len() == 3,
        r@[0].0@ == "dedup_key"@,
        r@[0].1@ == dedup_key_of(station@, ws as int),
        r@[1].0@ == "station"@,
        r@[1].1@ == station@,
        r@[2].0@ == "window_start"@,
        r@[2].1@ == window_start_text(ws as int),
{
    let key = generate_dedup_key(station, ws);
    let start = match utc_millis_text_opt(ws) {
        Some(t) => t,
        None => String::new(),
    };
    let mut r: Vec<(String, String)> = Vec::new();
    r.push((String::from_str("dedup_key"), key));
    r.push((String::from_str("station"), String::from_str(station)));
    r.push((String::from_str("window_start"), start));
    r
}

/// How many times a failed publication is tried again.
pub const MAX_PUBLISH_RETRIES: u32 = 3;

/// The pause, in seconds, before retry number `attempt` (counted from 1):
/// 1, 2, 4, ... seconds.
pub fn publish_backoff_secs(attempt: u32) -> (r: u64)
    requires
        1 <= attempt <= 64,
    ensures
        r == vstd::arithmetic::power2::pow2((attempt - 1) as nat),
{
    let e: u64 = (attempt - 1) as u64;
    proof {
        vstd::bits::lemma_u64_pow2_no_overflow(e as nat);
        assert(1 * vstd::arithmetic::power2::pow2(e as nat) == vstd::arithmetic::power2::pow2(e as nat));
        vstd::bits::lemma_u64_shl_is_mul(1, e);
    }
    1u64 << e
}

impl View for BatchBuffer {
    type V = BatchBufferView;

    closed spec fn view(&self) -> BatchBufferView {
        BatchBufferView {
            window_start: match self.window_start {
                Some(w) => Some(w as int),
                None => None,
            },
            entries: entry_views(self.channels@),
            interval_ms: self.batch_interval_ms as nat,
        }
    }
}

impl BatchBuffer {
    /// The interval is positive and fits `i64`; a window that has started
    /// ends within the range of `i64`.
    #[verifier::type_invariant]
    spec fn well_formed(self) -> bool {
        &&& 1 <= self.batch_interval_ms <= i64::MAX
        &&& (self.window_start matches Some(w) ==> w + self.batch_interval_ms <= i64::MAX)
    }

    /// An empty buffer for batches of `batch_interval_ms` milliseconds.
    pub fn new(batch_interval_ms: u64) -> (r: Self)
        requires
            1 <= batch_interval_ms <= i64::MAX,
        ensures
            r@.window_start is None,
            r@.entries.len() == 0,
            r@.interval_ms == batch_interval_ms,
    {
        let r = BatchBuffer { window_start: None, channels: Vec::new(), batch_interval_ms };
        assert(entry_views(r.channels@) =~= Seq::<EntryView>::empty());
        r
    }

    /// Whether nothing has been gathered since the last batch.
    pub fn is_empty(&self) -> (r: bool)
        ensures
            r == (self@.entries.len() == 0),
    {
        self.channels.len() == 0
    }

    /// Gathers one segment: the first segment of a batch fixes the window
    /// start; the samples go to the channel's entry.
    pub fn add_segment(&mut self, channel: &str, samples: &[i32], start_time_ms: i64)
        requires
            old(self)@.window_start is None ==> floor_to_interval(start_time_ms as int,
                old(self)@.interval_ms as int) + old(self)@.interval_ms <= i64::MAX,
        ensures
            final(self)@.interval_ms == old(self)@.interval_ms,
            final(self)@.window_start == (if old(self)@.window_start is None {
                Some(floor_to_interval(start_time_ms as int, old(self)@.interval_ms as int))
            } else {
                old(self)@.window_start
            }),
            final(self)@.entries == add_to_entries(old(self)@.entries, channel@, samples@,
                start_time_ms as int),
    {
        proof { use_type_invariant(&*self); }
        let iv = self.batch_interval_ms as i64;
        let ws = match self.window_start {
            Some(w) => w,
            None => {
                let q = start_time_ms / iv;
                assert(q as int == trunc_div(start_time_ms as int, iv as int));
                proof { lemma_trunc_floor_bounds(start_time_ms as int, iv as int); }
                let f = q * iv;
                f
            },
        };
        let mut channels: Vec<ChannelBatch> = Vec::new();
        std::mem::swap(&mut channels, &mut self.channels);
        let ghost before = entry_views(channels@);
        proof { lemma_channel_index(before, channel@); }
        let n = channels.len();
        let mut i: usize = 0;
        let mut found = false;
        while i < n
            invariant_except_break
                n == channels@.len(),
                i <= n,
                entry_views(channels@) == before,
                forall|j: int| 0 <= j < i ==> before[j].0 != channel@,
                !found,
            ensures
                n == channels@.len(),
                entry_views(channels@) == before,
                found ==> i < n && before[i as int].0 == channel@ && forall|j: int|
                    0 <= j < i ==> before[j].0 != channel@,
                !found ==> forall|j: int| 0 <= j < n ==> before[j].0 != channel@,
            decreases n - i,
        {
            if same_channel(&channels[i].channel, channel) {
                assert(before[i as int] == entry_view(channels@[i as int]));
                found = true;
                break;
            }
            assert(before[i as int] == entry_view(channels@[i as int]));
            i = i + 1;
        }
        if found {
            let ghost old_entry = channels@[i as int];
            let mut entry = channels.remove(i);
            extend_samples(&mut entry.samples, samples);
            channels.insert(i, entry);
            proof {
                assert(channel_index(before, channel@) == Some(i as int));
                assert(entry_views(channels@) =~= add_to_entries(before, channel@, samples@,
                    start_time_ms as int));
            }
        } else {
            let mut v: Vec<i32> = Vec::new();
            extend_samples(&mut v, samples);
            channels.push(ChannelBatch {
                channel: String::from_str(channel),
                samples: v,
                start_time_ms,
            });
            proof {
                assert(channel_index(before, channel@) is None);
                assert(entry_views(channels@) =~= add_to_entries(before, channel@, samples@,
                    start_time_ms as int));
            }
        }
        self.channels = channels;
        self.window_start = Some(ws);
    }

    /// Hands out the gathered channels as a batch and starts afresh; nothing
    /// when no segment has arrived since the last batch.
    pub fn take_batch(&mut self) -> (r: Option<Batch>)
        ensures
            final(self)@.interval_ms == old(self)@.interval_ms,
            old(self)@.window_start is None ==> r is None && final(self)@ == old(self)@,
            old(self)@.window_start matches Some(ws) ==> r matches Some(b) && b.window_start_ms
                == ws && b.window_end_ms == ws + old(self)@.interval_ms && entry_views(b.channels@)
                == old(self)@.entries && final(self)@.window_start is None
                && final(self)@.entries.len() == 0,
    {
        proof { use_type_invariant(&*self); }
        let ws = match self.window_start {
            Some(w) => w,
            None => return None,
        };
        let mut channels: Vec<ChannelBatch> = Vec::new();
        std::mem::swap(&mut channels, &mut self.channels);
        self.window_start = None;
        let end = ws + self.batch_interval_ms as i64;
        assert(entry_views(self.channels@) =~= Seq::<EntryView>::empty());
        Some(Batch { window_start_ms: ws, window_end_ms: end, channels })
    }
}

fn same_channel(a: &String, b: &str) -> (r: bool)
    ensures
        r == (a@ == b@),
{
    *a == String::from_str(b)
}

fn extend_samples(v: &mut Vec<i32>, samples: &[i32])
    ensures
        final(v)@ == old(v)@ + samples@,
{
    let mut i: usize = 0;
    let ghost start = v@;
    while i < samples.len()
        invariant
            i <= samples@.len(),
            v@ == start + samples@.take(i as int),
        decreases samples@.len() - i,
    {
        v.push(samples[i]);
        assert(samples@.take(i + 1) =~= samples@.take(i as int).push(samples@[i as int]));
        i = i + 1;
    }
    assert(samples@.take(samples@.len() as int) =~= samples@);
}

} // verus!
