//! The STA/LTA trigger apart from its real-valued arithmetic: which channel
//! ids it watches, the window of recent samples kept per channel, when the
//! ratio is evaluated, and the alarm / reset / status state machine that the
//! evaluated ratio drives.
use vstd::prelude::*;
use vstd::string::*;
use crate::text::{chars_of, char_range, contains_str, contains_text, same_text, trim_text, trimmed};
use crate::parser::stationxml::{strip_leading, strip_trailing};

verus! {

/// What a trigger event reports.
#[derive(Debug, Clone, Copy, PartialEq, Eq, Structural)]
pub enum AlertEventType {
    Trigger,
    Reset,
    Status,
}

/// The message an event carries: `ALARM`, `RESET` or `STATUS`.
pub open spec fn event_message_of(e: AlertEventType) -> Seq<char> {
    match e {
        AlertEventType::Trigger => "ALARM"@,
        AlertEventType::Reset => "RESET"@,
        AlertEventType::Status => "STATUS"@,
    }
}

/// The message an event carries.
pub fn event_message(e: AlertEventType) -> (r: &'static str)
    ensures
        r@ == event_message_of(e),
{
    match e {
        AlertEventType::Trigger => "ALARM",
        AlertEventType::Reset => "RESET",
        AlertEventType::Status => "STATUS",
    }
}

/// The part of `s` after its last `.` (all of `s` when it has none).
pub open spec fn after_last_dot(s: Seq<char>) -> Seq<char>
    decreases s.len(),
{
    if s.len() == 0 {
        s
    } else if s.last() == '.' {
        Seq::empty()
    } else {
        after_last_dot(s.drop_last()).push(s.last())
    }
}

/// The channel name under which an id's trigger state is kept: the last
/// dot-separated part, without surrounding `'` characters and white space.
pub open spec fn clean_channel_id_of(id: Seq<char>) -> Seq<char> {
    trimmed(strip_trailing(strip_leading(after_last_dot(id), '\''), '\''))
}

/// The channel name under which an id's trigger state is kept.
pub fn clean_channel_id(id: &str) -> (r: String)
    ensures
        r@ == clean_channel_id_of(id@),
{
    let cs = chars_of(id);
    let n = cs.len();
    let mut j: usize = n;
    assert(id@.subrange(0, n as int) =~= id@);
    assert(id@.subrange(n as int, n as int) =~= Seq::<char>::empty());
    while j > 0 && cs[j - 1] != '.'
        invariant
            n == id@.len(),
            cs@ == id@,
            j <= n,
            after_last_dot(id@) == after_last_dot(id@.subrange(0, j as int)) + id@.subrange(j as int, n as int),
        decreases j,
    {
        let ghost p = id@.subrange(0, j as int);
        assert(p.drop_last() =~= id@.subrange(0, j - 1));
        assert(id@.subrange(j - 1, n as int) =~= seq![p.last()] + id@.subrange(j as int, n as int));
        assert(after_last_dot(p) == after_last_dot(p.drop_last()).push(p.last()));
        assert(after_last_dot(p.drop_last()).push(p.last()) + id@.subrange(j as int, n as int)
            =~= after_last_dot(p.drop_last()) + id@.subrange(j - 1, n as int));
        j = j - 1;
    }
    assert(after_last_dot(id@.subrange(0, j as int)) =~= Seq::<char>::empty());
    assert(after_last_dot(id@) =~= id@.subrange(j as int, n as int));
    let mut a: usize = j;
    while a < n && cs[a] == '\''
        invariant
            n == id@.len(),
            cs@ == id@,
            j <= a <= n,
            strip_leading(after_last_dot(id@), '\'') == strip_leading(id@.subrange(a as int, n as int), '\''),
        decreases n - a,
    {
        assert(id@.subrange(a as int, n as int).drop_first() =~= id@.subrange(a + 1, n as int));
        a = a + 1;
    }
    assert(strip_leading(id@.subrange(a as int, n as int), '\'') == id@.subrange(a as int, n as int));
    let mut b: usize = n;
    while b > a && cs[b - 1] == '\''
        invariant
            n == id@.len(),
            cs@ == id@,
            a <= b <= n,
            strip_trailing(strip_leading(after_last_dot(id@), '\''), '\'') == strip_trailing(id@.subrange(a as int, b as int), '\''),
        decreases b,
    {
        assert(id@.subrange(a as int, b as int).drop_last() =~= id@.subrange(a as int, b - 1));
        b = b - 1;
    }
    assert(strip_trailing(id@.subrange(a as int, b as int), '\'') == id@.subrange(a as int, b as int));
    let piece = char_range(id, a, b);
    trim_text(piece.as_str())
}

/// Samples that arrive within one evaluation period: the ratio is evaluated
/// once every this many samples of a channel.
pub const EVALUATION_PERIOD: usize = 25;

/// Largest time between two samples of a channel, in milliseconds, that is
/// not a gap; after a gap the channel's window starts afresh.
pub const GAP_LIMIT_MS: i128 = 1000;

/// Nanosecond times that this trigger handles: those of `chrono`'s range,
/// with room to spare.
pub open spec fn time_in_range(t: int) -> bool {
    -0x1_0000_0000_0000_0000_0000_0000 <= t <= 0x1_0000_0000_0000_0000_0000_0000
}

/// Whole milliseconds from `a` to `b` (nanoseconds), truncated toward zero.
pub open spec fn millis_between(a: int, b: int) -> int {
    let d = b - a;
    if d >= 0 { d / 1_000_000 } else { -((-d) / 1_000_000) }
}

/// Whether the time since the previous sample makes a gap.
pub open spec fn is_gap(last: Option<int>, now: int) -> bool {
    match last {
        Some(l) => {
            let m = millis_between(l, now);
            (if m < 0 { -m } else { m }) > GAP_LIMIT_MS
        },
        None => false,
    }
}

/// The milliseconds of the second that a nanosecond time falls in.
pub open spec fn subsec_millis(t: int) -> int {
    (t % 1_000_000_000) / 1_000_000
}

/// The state of one channel's trigger, by value.
pub struct ChannelTriggerView<T> {
    pub triggered: bool,
    /// When the ratio started to exceed the threshold, while it does.
    pub exceeding: bool,
    pub exceed_start: Option<int>,
    pub last_time: Option<int>,
    pub window: Seq<T>,
    pub sample_count: nat,
    pub capacity: nat,
}

/// One channel's trigger: the most recent samples (at most `capacity`), the
/// number of samples since the window last started, and the alarm state.
pub struct ChannelTrigger<T> {
    triggered: bool,
    is_exceeding: bool,
    exceed_start_ns: Option<i128>,
    last_time_ns: Option<i128>,
    window: Vec<T>,
    sample_count: usize,
    capacity: usize,
}

impl<T> View for ChannelTrigger<T> {
    type V = ChannelTriggerView<T>;

    closed spec fn view(&self) -> ChannelTriggerView<T> {
        ChannelTriggerView {
            triggered: self.triggered,
            exceeding: self.is_exceeding,
            exceed_start: match self.exceed_start_ns {
                Some(t) => Some(t as int),
                None => None,
            },
            last_time: match self.last_time_ns {
                Some(t) => Some(t as int),
                None => None,
            },
            window: self.window@,
            sample_count: self.sample_count as nat,
            capacity: self.capacity as nat,
        }
    }
}

/// What the trigger does with a newly evaluated ratio.
pub open spec fn step_result<T>(
    s: ChannelTriggerView<T>,
    now: int,
    above: bool,
    reached: bool,
    below_reset: bool,
) -> (ChannelTriggerView<T>, Option<AlertEventType>) {
    let status = if subsec_millis(now) < 10 { Some(AlertEventType::Status) } else { None };
    if !s.triggered {
        if above {
            let start = if s.exceeding { s.exceed_start } else { Some(now) };
            if reached {
                (ChannelTriggerView { triggered: true, exceeding: false, exceed_start: start, ..s },
                    Some(AlertEventType::Trigger))
            } else {
                (ChannelTriggerView { exceeding: true, exceed_start: start, ..s }, status)
            }
        } else {
            (ChannelTriggerView { exceeding: false, exceed_start: None, ..s }, status)
        }
    } else if below_reset {
        (ChannelTriggerView { triggered: false, ..s }, Some(AlertEventType::Reset))
    } else {
        (s, status)
    }
}

/// Alarms and resets alternate: an alarm is raised only while none is on
/// and turns it on, a reset only ends one that is on, and no other step
/// changes whether an alarm is on.
pub proof fn lemma_alarms_and_resets_alternate<T>(
    s: ChannelTriggerView<T>,
    now: int,
    above: bool,
    reached: bool,
    below_reset: bool,
)
    ensures
        ({
            let (next, event) = step_result(s, now, above, reached, below_reset);
            &&& event == Some(AlertEventType::Trigger) ==> !s.triggered && next.triggered
            &&& event == Some(AlertEventType::Reset) ==> s.triggered && !next.triggered
            &&& (event is None || event == Some(AlertEventType::Status)) ==> next.triggered
                == s.triggered
        }),
{
}

/// While no alarm is on, the start of an excess is where it began: a step
/// with the ratio above the threshold keeps the start of an excess under
/// way, and starts one at `now` when none is; a step with the ratio at or
/// below the threshold ends the excess.
pub proof fn lemma_excess_start_is_kept<T>(
    s: ChannelTriggerView<T>,
    now: int,
    above: bool,
    reached: bool,
    below_reset: bool,
)
    requires
        !s.triggered,
    ensures
        ({
            let next = step_result(s, now, above, reached, below_reset).0;
            &&& above && s.exceeding ==> next.exceed_start == s.exceed_start
            &&& above && !s.exceeding ==> next.exceed_start == Some(now)
            &&& above && !reached ==> next.exceeding
            &&& !above ==> !next.exceeding && next.exceed_start is None
        }),
{
}

/// Whether evaluation `i` of `times` is the first at least `duration` after
/// the first evaluation.
pub open spec fn first_lasting(times: Seq<int>, duration: int, i: int) -> bool {
    times[i] - times[0] >= duration && forall|j: int| 0 <= j < i ==> #[trigger] times[j] - times[0] < duration
}

/// The trigger after evaluations at `times` at which the ratio is always
/// above the threshold and never below the reset threshold, each judging the
/// excess lasting once `duration` has passed since its start as
/// [`ChannelTrigger::excess_start`] gives it; and the event of each.
pub open spec fn lasting_excess_run<T>(s: ChannelTriggerView<T>, times: Seq<int>, duration: int) -> (
    ChannelTriggerView<T>,
    Seq<Option<AlertEventType>>,
)
    decreases times.len(),
{
    if times.len() == 0 {
        (s, Seq::empty())
    } else {
        let (m, events) = lasting_excess_run(s, times.drop_last(), duration);
        let now = times.last();
        let start = if m.exceeding { m.exceed_start->0 } else { now };
        let (next, e) = step_result(m, now, true, now - start >= duration, false);
        (next, events.push(e))
    }
}

/// From a quiet channel, when the ratio stays above the threshold, the
/// alarm is raised at the first evaluation that comes `duration` or more
/// after the first one, and at no other.
pub proof fn lemma_alarm_after_duration<T>(s: ChannelTriggerView<T>, times: Seq<int>, duration: int)
    requires
        !s.triggered,
        !s.exceeding,
    ensures
        ({
            let (e, events) = lasting_excess_run(s, times, duration);
            let reached = exists|j: int| 0 <= j < times.len() && #[trigger] times[j] - times[0] >= duration;
            &&& events.len() == times.len()
            &&& forall|i: int| 0 <= i < times.len() ==> (events[i] == Some(AlertEventType::Trigger)
                <==> first_lasting(times, duration, i))
            &&& reached ==> e.triggered
            &&& (times.len() > 0 && !reached) ==> !e.triggered && e.exceeding && e.exceed_start == Some(
                times[0],
            )
        }),
    decreases times.len(),
{
    if times.len() > 0 {
        let pre = times.drop_last();
        lemma_alarm_after_duration(s, pre, duration);
        let (m, evs) = lasting_excess_run(s, pre, duration);
        let (e, all) = lasting_excess_run(s, times, duration);
        let n = times.len() - 1;
        assert(all.drop_last() =~= evs);
        let pre_reached = exists|j: int| 0 <= j < pre.len() && #[trigger] pre[j] - pre[0] >= duration;
        if pre.len() > 0 {
            assert(pre[0] == times[0]);
        }
        assert forall|i: int| 0 <= i < times.len() implies (all[i] == Some(AlertEventType::Trigger)
            <==> first_lasting(times, duration, i)) by {
            if i < n {
                assert(pre[i] == times[i]);
                assert(all[i] == evs[i]);
                if first_lasting(pre, duration, i) {
                    assert forall|j: int| 0 <= j < i implies #[trigger] times[j] - times[0] < duration by {
                        assert(pre[j] == times[j]);
                    }
                }
                if first_lasting(times, duration, i) {
                    assert forall|j: int| 0 <= j < i implies #[trigger] pre[j] - pre[0] < duration by {
                        assert(pre[j] == times[j]);
                    }
                }
            } else {
                if pre_reached {
                    let j = choose|j: int| 0 <= j < pre.len() && #[trigger] pre[j] - pre[0] >= duration;
                    assert(times[j] - times[0] >= duration);
                } else {
                    assert forall|j: int| 0 <= j < n implies #[trigger] times[j] - times[0] < duration by {
                        assert(pre[j] == times[j]);
                    }
                }
            }
        }
        if pre_reached {
            let j = choose|j: int| 0 <= j < pre.len() && #[trigger] pre[j] - pre[0] >= duration;
            assert(times[j] - times[0] >= duration);
        } else if exists|j: int| 0 <= j < times.len() && #[trigger] times[j] - times[0] >= duration {
            let j = choose|j: int| 0 <= j < times.len() && #[trigger] times[j] - times[0] >= duration;
            if j < n {
                assert(pre[j] == times[j]);
            }
        } else {
            assert(times[n] - times[0] < duration);
        }
    }
}

/// No alarm is raised by a ratio that does not exceed the threshold, nor
/// before the excess has lasted long enough; no reset while the ratio stays
/// at or above the reset threshold.
pub proof fn lemma_alarm_needs_lasting_excess<T>(
    s: ChannelTriggerView<T>,
    now: int,
    above: bool,
    reached: bool,
    below_reset: bool,
)
    ensures
        step_result(s, now, above, reached, below_reset).1 == Some(AlertEventType::Trigger) ==> above
            && reached,
        step_result(s, now, above, reached, below_reset).1 == Some(AlertEventType::Reset) ==> below_reset,
{
}

/// Evaluating the ratio never changes the window, the sample count, the
/// time of the last sample or the capacity.
pub proof fn lemma_step_keeps_window<T>(
    s: ChannelTriggerView<T>,
    now: int,
    above: bool,
    reached: bool,
    below_reset: bool,
)
    ensures
        step_result(s, now, above, reached, below_reset).0.window == s.window,
        step_result(s, now, above, reached, below_reset).0.sample_count == s.sample_count,
        step_result(s, now, above, reached, below_reset).0.last_time == s.last_time,
        step_result(s, now, above, reached, below_reset).0.capacity == s.capacity,
{
}

/// The trigger after taking in `sample` at `now`: after a gap the window
/// and the count start afresh; the sample joins the window, whose oldest
/// sample leaves when it is full; the sample is counted (the count wraps to
/// zero past `usize::MAX`).
pub open spec fn pushed_view<T>(s: ChannelTriggerView<T>, sample: T, now: int) -> ChannelTriggerView<T> {
    let gap = is_gap(s.last_time, now);
    let base = if gap { Seq::empty() } else { s.window };
    let count = if gap { 0 } else { s.sample_count };
    let pushed = base.push(sample);
    ChannelTriggerView {
        window: if pushed.len() > s.capacity { pushed.drop_first() } else { pushed },
        sample_count: if count + 1 > usize::MAX { 0 } else { (count + 1) as nat },
        last_time: Some(now),
        ..s
    }
}

/// Whether the ratio is due for evaluation in state `s`: at every
/// `EVALUATION_PERIOD`-th sample once the window is full.
pub open spec fn due_view<T>(s: ChannelTriggerView<T>) -> bool {
    s.sample_count % EVALUATION_PERIOD as nat == 0 && s.window.len() >= s.capacity
}

/// One sample of a channel as the trigger sees it: the sample, its time,
/// and the verdicts on the ratio that would be evaluated after it (whether
/// its largest recent value exceeds the threshold, whether the excess has
/// lasted long enough, whether its last value is under the reset
/// threshold), which count only when the ratio is due.
pub struct Arrival<T> {
    pub sample: T,
    pub time: int,
    pub above: bool,
    pub reached: bool,
    pub below_reset: bool,
}

/// What one sample does: it is taken in, and when the ratio is due the
/// alarm state advances with the verdicts; the event reported, if any.
pub open spec fn arrival_result<T>(s: ChannelTriggerView<T>, a: Arrival<T>) -> (
    ChannelTriggerView<T>,
    Option<AlertEventType>,
) {
    let p = pushed_view(s, a.sample, a.time);
    if due_view(p) {
        step_result(p, a.time, a.above, a.reached, a.below_reset)
    } else {
        (p, None)
    }
}

/// The state after the samples `arrivals` in turn, and the event of each.
pub open spec fn run_arrivals<T>(s: ChannelTriggerView<T>, arrivals: Seq<Arrival<T>>) -> (
    ChannelTriggerView<T>,
    Seq<Option<AlertEventType>>,
)
    decreases arrivals.len(),
{
    if arrivals.len() == 0 {
        (s, Seq::empty())
    } else {
        let (mid, events) = run_arrivals(s, arrivals.drop_last());
        let (next, event) = arrival_result(mid, arrivals.last());
        (next, events.push(event))
    }
}

/// The time of the latest of `arrivals`, or `start` when there are none.
pub open spec fn latest_time<T>(start: Option<int>, arrivals: Seq<Arrival<T>>) -> Option<int> {
    if arrivals.len() == 0 {
        start
    } else {
        Some(arrivals.last().time)
    }
}

/// The samples counted since the channel's first sample or its last gap,
/// starting from `start_count` samples counted before `arrivals`.
pub open spec fn count_since_gap<T>(start_last: Option<int>, start_count: nat, arrivals: Seq<Arrival<T>>) -> nat
    decreases arrivals.len(),
{
    if arrivals.len() == 0 {
        start_count
    } else if is_gap(latest_time(start_last, arrivals.drop_last()), arrivals.last().time) {
        1
    } else {
        count_since_gap(start_last, start_count, arrivals.drop_last()) + 1
    }
}

/// The smaller of two numbers.
pub open spec fn min_nat(a: nat, b: nat) -> nat {
    if a < b {
        a
    } else {
        b
    }
}

/// The trigger events that are alarms or resets, in order.
pub open spec fn alarm_events(events: Seq<Option<AlertEventType>>) -> Seq<AlertEventType>
    decreases events.len(),
{
    if events.len() == 0 {
        Seq::empty()
    } else {
        let before = alarm_events(events.drop_last());
        match events.last() {
            Some(AlertEventType::Trigger) => before.push(AlertEventType::Trigger),
            Some(AlertEventType::Reset) => before.push(AlertEventType::Reset),
            _ => before,
        }
    }
}

/// Over any run of samples of a channel whose window holds as many samples
/// as were counted (up to its capacity), as a new channel's does: the count
/// is the number of samples since the first one or since the last gap; the
/// window holds that many, up to its capacity; and a sample reports an
/// event only when that count is a multiple of `EVALUATION_PERIOD` and at
/// least the capacity. (The count is kept within `usize`, past which the
/// count would wrap.)
pub proof fn lemma_evaluation_count<T>(s: ChannelTriggerView<T>, arrivals: Seq<Arrival<T>>)
    requires
        s.window.len() == min_nat(s.sample_count, s.capacity),
        s.sample_count + arrivals.len() <= usize::MAX,
    ensures
        ({
            let (e, events) = run_arrivals(s, arrivals);
            let n = count_since_gap(s.last_time, s.sample_count, arrivals);
            &&& e.sample_count == n
            &&& n <= s.sample_count + arrivals.len()
            &&& e.window.len() == min_nat(n, s.capacity)
            &&& e.capacity == s.capacity
            &&& e.last_time == latest_time(s.last_time, arrivals)
            &&& events.len() == arrivals.len()
            &&& (arrivals.len() > 0 && events.last() is Some) ==> n % EVALUATION_PERIOD as nat == 0
                && n >= s.capacity
        }),
    decreases arrivals.len(),
{
    if arrivals.len() > 0 {
        let prefix = arrivals.drop_last();
        lemma_evaluation_count(s, prefix);
        let (mid, events) = run_arrivals(s, prefix);
        let a = arrivals.last();
        let p = pushed_view(mid, a.sample, a.time);
        lemma_step_keeps_window(p, a.time, a.above, a.reached, a.below_reset);
    }
}

/// Over any run of samples of a channel with no alarm on, the alarms and
/// resets it reports alternate, starting with an alarm; an alarm is on
/// afterwards exactly when the last of them was an alarm.
pub proof fn lemma_alarms_alternate_over_a_run<T>(s: ChannelTriggerView<T>, arrivals: Seq<Arrival<T>>)
    requires
        !s.triggered,
    ensures
        ({
            let (e, events) = run_arrivals(s, arrivals);
            let alarms = alarm_events(events);
            &&& forall|i: int| 0 <= i < alarms.len() ==> alarms[i] == if i % 2 == 0 {
                AlertEventType::Trigger
            } else {
                AlertEventType::Reset
            }
            &&& e.triggered == (alarms.len() % 2 == 1)
        }),
    decreases arrivals.len(),
{
    if arrivals.len() > 0 {
        let prefix = arrivals.drop_last();
        lemma_alarms_alternate_over_a_run(s, prefix);
        let (mid, events) = run_arrivals(s, prefix);
        let a = arrivals.last();
        let p = pushed_view(mid, a.sample, a.time);
        lemma_alarms_and_resets_alternate(p, a.time, a.above, a.reached, a.below_reset);
        let (e, all) = run_arrivals(s, arrivals);
        assert(all.drop_last() =~= events);
    }
}

impl<T> ChannelTrigger<T> {
    /// While the ratio exceeds the threshold its start is known, and the
    /// window holds at most `capacity` samples.
    #[verifier::type_invariant]
    spec fn well_formed(self) -> bool {
        &&& (self.is_exceeding ==> self.exceed_start_ns is Some)
        &&& self.window@.len() <= self.capacity
        &&& (self.last_time_ns matches Some(t) ==> time_in_range(t as int))
    }

    /// A quiet channel with an empty window of `capacity` samples.
    pub fn new(capacity: usize) -> (r: Self)
        ensures
            !r@.triggered,
            !r@.exceeding,
            r@.exceed_start is None,
            r@.last_time is None,
            r@.window.len() == 0,
            r@.sample_count == 0,
            r@.capacity == capacity,
    {
        ChannelTrigger {
            triggered: false,
            is_exceeding: false,
            exceed_start_ns: None,
            last_time_ns: None,
            window: Vec::new(),
            sample_count: 0,
            capacity,
        }
    }

    /// The samples in the window, oldest first.
    pub fn window(&self) -> (r: &Vec<T>)
        ensures
            r@ == self@.window,
    {
        &self.window
    }

    /// Whether an alarm is on.
    pub fn is_triggered(&self) -> (r: bool)
        ensures
            r == self@.triggered,
    {
        self.triggered
    }

    /// The time from which the threshold counts as exceeded if the ratio
    /// evaluated at `now` exceeds it: the start of the current excess, or
    /// `now` when none is under way.
    pub fn excess_start(&self, now_ns: i128) -> (r: i128)
        ensures
            r == (if self@.exceeding { self@.exceed_start->0 } else { now_ns as int }),
    {
        proof { use_type_invariant(self); }
        if self.is_exceeding {
            match self.exceed_start_ns {
                Some(t) => t,
                None => now_ns,
            }
        } else {
            now_ns
        }
    }

    /// Takes in one sample at `now_ns`: after a gap the window starts
    /// afresh; the sample joins the window, whose oldest sample leaves when
    /// it is full. Returns whether the ratio is due for evaluation: at every
    /// `EVALUATION_PERIOD`-th sample once the window is full.
    pub fn push_sample(&mut self, sample: T, now_ns: i128) -> (due: bool)
        requires
            time_in_range(now_ns as int),
        ensures
            final(self)@ == pushed_view(old(self)@, sample, now_ns as int),
            final(self)@.window.len() <= final(self)@.capacity,
            due == due_view(final(self)@),
    {
        proof { use_type_invariant(&*self); }
        let gap = match self.last_time_ns {
            Some(last) => {
                let d = now_ns - last;
                let m = if d >= 0 { d / 1_000_000 } else { -((-d) / 1_000_000) };
                let a = if m < 0 { -m } else { m };
                a > GAP_LIMIT_MS
            },
            None => false,
        };
        let mut window: Vec<T> = Vec::new();
        std::mem::swap(&mut window, &mut self.window);
        let mut count = self.sample_count;
        if gap {
            window = Vec::new();
            count = 0;
        }
        let ghost pushed = window@.push(sample);
        window.push(sample);
        if window.len() > self.capacity {
            window.remove(0);
            assert(window@ =~= pushed.drop_first());
        }
        self.window = window;
        self.sample_count = count.wrapping_add(1);
        self.last_time_ns = Some(now_ns);
        assert(self@.window =~= pushed_view(old(self)@, sample, now_ns as int).window);
        self.sample_count % EVALUATION_PERIOD == 0 && self.window.len() >= self.capacity
    }

    /// Advances the alarm state with the ratio evaluated at `now_ns`:
    /// `above` whether its largest recent value exceeds the threshold,
    /// `reached` whether the excess has lasted the required duration counted
    /// from [`Self::excess_start`], `below_reset` whether its last value is
    /// under the reset threshold. Returns the event to report, if any.
    pub fn step(&mut self, now_ns: i128, above: bool, reached: bool, below_reset: bool) -> (r: Option<AlertEventType>)
        ensures
            (final(self)@, r) == step_result(old(self)@, now_ns as int, above, reached, below_reset),
    {
        proof { use_type_invariant(&*self); }
        let sub = now_ns % 1_000_000_000;
        let sub = if sub < 0 { sub + 1_000_000_000 } else { sub };
        let status = if sub / 1_000_000 < 10 { Some(AlertEventType::Status) } else { None };
        proof {
            assert(sub as int == (now_ns as int) % 1_000_000_000);
        }
        if !self.triggered {
            if above {
                if !self.is_exceeding {
                    self.exceed_start_ns = Some(now_ns);
                    self.is_exceeding = true;
                }
                if reached {
                    self.triggered = true;
                    self.is_exceeding = false;
                    return Some(AlertEventType::Trigger);
                }
                status
            } else {
                self.is_exceeding = false;
                self.exceed_start_ns = None;
                status
            }
        } else if below_reset {
            self.triggered = false;
            Some(AlertEventType::Reset)
        } else {
            status
        }
    }
}

/// The state of a channel that has seen no sample.
pub open spec fn fresh_channel<T>(capacity: nat) -> ChannelTriggerView<T> {
    ChannelTriggerView {
        triggered: false,
        exceeding: false,
        exceed_start: None,
        last_time: None,
        window: Seq::empty(),
        sample_count: 0,
        capacity,
    }
}

/// The trigger states of the watched channels, by value: the text that
/// picks the watched ids, the window size, and each channel's key and
/// state.
pub struct TriggerManagerView<T> {
    pub target: Seq<char>,
    pub capacity: nat,
    pub keys: Seq<Seq<char>>,
    pub states: Seq<ChannelTriggerView<T>>,
}

/// One key and one state per channel, no key twice.
pub open spec fn manager_wf<T>(m: TriggerManagerView<T>) -> bool {
    &&& m.keys.len() == m.states.len()
    &&& forall|i: int, j: int| 0 <= i < j < m.keys.len() ==> m.keys[i] != m.keys[j]
}

/// Whether the manager has a channel under key `k`.
pub open spec fn has_key<T>(m: TriggerManagerView<T>, k: Seq<char>) -> bool {
    exists|i: int| 0 <= i < m.keys.len() && m.keys[i] == k
}

/// The position of key `k` (meaningful when the manager has it).
pub open spec fn key_index<T>(m: TriggerManagerView<T>, k: Seq<char>) -> int {
    choose|i: int| 0 <= i < m.keys.len() && m.keys[i] == k
}

/// The state of the channel under key `k`: a fresh one when there is none.
pub open spec fn channel_state<T>(m: TriggerManagerView<T>, k: Seq<char>) -> ChannelTriggerView<T> {
    if has_key(m, k) {
        m.states[key_index(m, k)]
    } else {
        fresh_channel(m.capacity)
    }
}

/// The manager with the channel under key `k` in state `s` (added at the
/// end when it is new).
pub open spec fn with_channel<T>(m: TriggerManagerView<T>, k: Seq<char>, s: ChannelTriggerView<T>) -> TriggerManagerView<T> {
    if has_key(m, k) {
        TriggerManagerView { states: m.states.update(key_index(m, k), s), ..m }
    } else {
        TriggerManagerView { keys: m.keys.push(k), states: m.states.push(s), ..m }
    }
}

/// Whether the manager watches samples of channel id `id`: those whose id
/// contains the target text.
pub open spec fn watches<T>(m: TriggerManagerView<T>, id: Seq<char>) -> bool {
    contains_text(id, m.target)
}

/// What one sample of channel `id` does to the manager: nothing, and no
/// event, when the id is not watched; otherwise the sample goes to the
/// channel under the id's key, as [`arrival_result`] says.
pub open spec fn manager_call<T>(m: TriggerManagerView<T>, id: Seq<char>, a: Arrival<T>) -> (
    TriggerManagerView<T>,
    Option<AlertEventType>,
) {
    if !watches(m, id) {
        (m, None)
    } else {
        let k = clean_channel_id_of(id);
        let (s, e) = arrival_result(channel_state(m, k), a);
        (with_channel(m, k, s), e)
    }
}

/// The manager after the samples `calls` (each with its channel id) in
/// turn, and the event of each.
pub open spec fn run_manager<T>(m: TriggerManagerView<T>, calls: Seq<(Seq<char>, Arrival<T>)>) -> (
    TriggerManagerView<T>,
    Seq<Option<AlertEventType>>,
)
    decreases calls.len(),
{
    if calls.len() == 0 {
        (m, Seq::empty())
    } else {
        let (mid, events) = run_manager(m, calls.drop_last());
        let (next, event) = manager_call(mid, calls.last().0, calls.last().1);
        (next, events.push(event))
    }
}

/// Whether a sample of channel `id` goes to key `k` of a manager watching
/// `target`.
pub open spec fn goes_to(target: Seq<char>, k: Seq<char>, id: Seq<char>) -> bool {
    contains_text(id, target) && clean_channel_id_of(id) == k
}

/// The samples among `calls` that go to key `k`, in order.
pub open spec fn arrivals_for<T>(target: Seq<char>, k: Seq<char>, calls: Seq<(Seq<char>, Arrival<T>)>) -> Seq<
    Arrival<T>,
>
    decreases calls.len(),
{
    if calls.len() == 0 {
        Seq::empty()
    } else {
        let before = arrivals_for(target, k, calls.drop_last());
        if goes_to(target, k, calls.last().0) {
            before.push(calls.last().1)
        } else {
            before
        }
    }
}

/// The events of the samples among `calls` that go to key `k`, in order
/// (`events` holding one event per call).
pub open spec fn events_for<T>(
    target: Seq<char>,
    k: Seq<char>,
    calls: Seq<(Seq<char>, Arrival<T>)>,
    events: Seq<Option<AlertEventType>>,
) -> Seq<Option<AlertEventType>>
    decreases calls.len(),
{
    if calls.len() == 0 || events.len() == 0 {
        Seq::empty()
    } else {
        let before = events_for(target, k, calls.drop_last(), events.drop_last());
        if goes_to(target, k, calls.last().0) {
            before.push(events.last())
        } else {
            before
        }
    }
}

/// A manager with no channel yet.
pub open spec fn empty_manager<T>(target: Seq<char>, capacity: nat) -> TriggerManagerView<T> {
    TriggerManagerView { target, capacity, keys: Seq::empty(), states: Seq::empty() }
}

proof fn lemma_key_index<T>(m: TriggerManagerView<T>, k: Seq<char>, i: int)
    requires
        manager_wf(m),
        0 <= i < m.keys.len(),
        m.keys[i] == k,
    ensures
        has_key(m, k),
        key_index(m, k) == i,
{
    assert(has_key(m, k));
}

proof fn lemma_with_channel<T>(m: TriggerManagerView<T>, k: Seq<char>, s: ChannelTriggerView<T>, k2: Seq<char>)
    requires
        manager_wf(m),
    ensures
        manager_wf(with_channel(m, k, s)),
        with_channel(m, k, s).target == m.target,
        with_channel(m, k, s).capacity == m.capacity,
        channel_state(with_channel(m, k, s), k2) == if k2 == k {
            s
        } else {
            channel_state(m, k2)
        },
{
    let w = with_channel(m, k, s);
    if has_key(m, k) {
        let i = key_index(m, k);
        assert(w.keys == m.keys);
        lemma_key_index(w, k, i);
        if k2 != k && has_key(m, k2) {
            let j = key_index(m, k2);
            lemma_key_index(w, k2, j);
        }
    } else {
        let n = m.keys.len() as int;
        assert forall|a: int, b: int| 0 <= a < b < w.keys.len() implies w.keys[a] != w.keys[b] by {
            if b == n {
                assert(w.keys[a] == m.keys[a]);
            } else {
                assert(w.keys[a] == m.keys[a] && w.keys[b] == m.keys[b]);
            }
        }
        lemma_key_index(w, k, n);
        if k2 != k {
            if has_key(m, k2) {
                let j = key_index(m, k2);
                assert(w.keys[j] == k2);
                lemma_key_index(w, k2, j);
            } else {
                assert forall|j: int| 0 <= j < w.keys.len() implies w.keys[j] != k2 by {
                    if j < n {
                        assert(w.keys[j] == m.keys[j]);
                    }
                }
            }
        }
    }
}

/// The manager keeps each channel apart: over any run of samples, the state
/// of the channel under key `k`, and the events of the samples that go to
/// it, are those of a single channel trigger fed only those samples; a
/// sample whose id is not watched reports no event.
pub proof fn lemma_manager_channels_apart<T>(m: TriggerManagerView<T>, calls: Seq<(Seq<char>, Arrival<T>)>)
    requires
        manager_wf(m),
    ensures
        ({
            let (e, events) = run_manager(m, calls);
            &&& manager_wf(e)
            &&& e.target == m.target
            &&& e.capacity == m.capacity
            &&& events.len() == calls.len()
            &&& forall|i: int| 0 <= i < calls.len() && !contains_text(#[trigger] calls[i].0, m.target)
                ==> events[i] is None
            &&& forall|k: Seq<char>| {
                let (c, ce) = #[trigger] run_arrivals(channel_state(m, k), arrivals_for(m.target, k, calls));
                channel_state(e, k) == c && events_for(m.target, k, calls, events) == ce
            }
        }),
    decreases calls.len(),
{
    if calls.len() > 0 {
        let prefix = calls.drop_last();
        lemma_manager_channels_apart(m, prefix);
        let (mid, evs) = run_manager(m, prefix);
        let (id, a) = calls.last();
        let (e, all) = run_manager(m, calls);
        assert(all.drop_last() =~= evs);
        assert forall|i: int| 0 <= i < calls.len() && !contains_text(#[trigger] calls[i].0, m.target)
            implies all[i] is None by {
            if i < prefix.len() {
                assert(calls[i] == prefix[i]);
            }
        }
        if watches(mid, id) {
            let kc = clean_channel_id_of(id);
            let (s2, ev) = arrival_result(channel_state(mid, kc), a);
            assert forall|k: Seq<char>| {
                let (c, ce) = #[trigger] run_arrivals(channel_state(m, k), arrivals_for(m.target, k, calls));
                channel_state(e, k) == c && events_for(m.target, k, calls, all) == ce
            } by {
                lemma_with_channel(mid, kc, s2, k);
                let pre = arrivals_for(m.target, k, prefix);
                let _ = run_arrivals(channel_state(m, k), pre);
                if k == kc {
                    let arr = arrivals_for(m.target, k, calls);
                    assert(arr.drop_last() =~= pre);
                }
            }
            lemma_with_channel(mid, kc, s2, kc);
        } else {
            assert forall|k: Seq<char>| {
                let (c, ce) = #[trigger] run_arrivals(channel_state(m, k), arrivals_for(m.target, k, calls));
                channel_state(e, k) == c && events_for(m.target, k, calls, all) == ce
            } by {
                let _ = run_arrivals(channel_state(m, k), arrivals_for(m.target, k, prefix));
            }
        }
    }
}

proof fn lemma_arrivals_for_len<T>(target: Seq<char>, k: Seq<char>, calls: Seq<(Seq<char>, Arrival<T>)>)
    ensures
        arrivals_for(target, k, calls).len() <= calls.len(),
    decreases calls.len(),
{
    if calls.len() > 0 {
        lemma_arrivals_for_len(target, k, calls.drop_last());
    }
}

/// Over any run of samples from a new manager: a sample whose id is not
/// watched reports nothing; a sample that reports an event is watched, and
/// the samples of its channel, counted since the channel's first sample or
/// its last gap, then number a multiple of `EVALUATION_PERIOD` and at least
/// the window size. (The run is kept within `usize` samples, past which a
/// count would wrap.)
pub proof fn lemma_manager_evaluation_count<T>(target: Seq<char>, capacity: nat, calls: Seq<(Seq<char>, Arrival<T>)>)
    requires
        calls.len() <= usize::MAX,
    ensures
        ({
            let (e, events) = run_manager(empty_manager::<T>(target, capacity), calls);
            &&& events.len() == calls.len()
            &&& forall|i: int| 0 <= i < calls.len() && !contains_text(#[trigger] calls[i].0, target)
                ==> events[i] is None
            &&& (calls.len() > 0 && events.last() is Some) ==> ({
                let k = clean_channel_id_of(calls.last().0);
                let n = count_since_gap(None, 0, arrivals_for(target, k, calls));
                &&& contains_text(calls.last().0, target)
                &&& n % EVALUATION_PERIOD as nat == 0
                &&& n >= capacity
            })
        }),
{
    let m = empty_manager::<T>(target, capacity);
    lemma_manager_channels_apart(m, calls);
    let (e, events) = run_manager(m, calls);
    if calls.len() > 0 && events.last() is Some {
        let id = calls.last().0;
        if !contains_text(id, target) {
            assert(events[calls.len() - 1] is None);
        }
        let k = clean_channel_id_of(id);
        let arr = arrivals_for(target, k, calls);
        assert(!has_key(m, k));
        let c0 = channel_state(m, k);
        lemma_arrivals_for_len(target, k, calls);
        let _ = run_arrivals(c0, arr);
        lemma_evaluation_count(c0, arr);
        let (mid, evs) = run_manager(m, calls.drop_last());
        assert(events.drop_last() =~= evs);
        assert(events_for(target, k, calls, events).last() == events.last());
    }
}

/// Over any run of samples from a new manager, the alarms and resets of
/// each channel alternate, starting with an alarm; an alarm is on for the
/// channel afterwards exactly when the last of them was an alarm.
pub proof fn lemma_manager_alarms_alternate<T>(
    target: Seq<char>,
    capacity: nat,
    calls: Seq<(Seq<char>, Arrival<T>)>,
    k: Seq<char>,
)
    ensures
        ({
            let (e, events) = run_manager(empty_manager::<T>(target, capacity), calls);
            let alarms = alarm_events(events_for(target, k, calls, events));
            &&& forall|i: int| 0 <= i < alarms.len() ==> alarms[i] == if i % 2 == 0 {
                AlertEventType::Trigger
            } else {
                AlertEventType::Reset
            }
            &&& channel_state(e, k).triggered == (alarms.len() % 2 == 1)
        }),
{
    let m = empty_manager::<T>(target, capacity);
    lemma_manager_channels_apart(m, calls);
    assert(!has_key(m, k));
    let c0 = channel_state(m, k);
    let arr = arrivals_for(target, k, calls);
    let _ = run_arrivals(c0, arr);
    lemma_alarms_alternate_over_a_run(c0, arr);
}

/// Taking in a sample and then, when it says the ratio is due, evaluating
/// the channel it names is one manager call: the state and the event are
/// those of [`manager_call`].
pub proof fn lemma_sample_then_evaluate_is_a_call<T>(m: TriggerManagerView<T>, id: Seq<char>, a: Arrival<T>)
    requires
        manager_wf(m),
        watches(m, id),
    ensures
        ({
            let k = clean_channel_id_of(id);
            let p = pushed_view(channel_state(m, k), a.sample, a.time);
            let m1 = with_channel(m, k, p);
            let i = key_index(m1, k);
            &&& has_key(m1, k) && 0 <= i < m1.keys.len() && m1.states[i] == p
            &&& !due_view(p) ==> manager_call(m, id, a) == (m1, None::<AlertEventType>)
            &&& due_view(p) ==> ({
                let (s, e) = step_result(m1.states[i], a.time, a.above, a.reached, a.below_reset);
                manager_call(m, id, a) == (TriggerManagerView { states: m1.states.update(i, s), ..m1 }, e)
            })
        }),
{
    let k = clean_channel_id_of(id);
    let p = pushed_view(channel_state(m, k), a.sample, a.time);
    lemma_with_channel(m, k, p, k);
    let m1 = with_channel(m, k, p);
    assert(has_key(m1, k));
    let i = key_index(m1, k);
    lemma_key_index(m1, k, i);
    if due_view(p) {
        let (s, e) = step_result(p, a.time, a.above, a.reached, a.below_reset);
        let w = with_channel(m, k, s);
        if has_key(m, k) {
            let j = key_index(m, k);
            assert(m1.keys == m.keys);
            lemma_key_index(m1, k, j);
            assert(w.states =~= m1.states.update(i, s));
        } else {
            assert(w.states =~= m1.states.update(i, s));
        }
    }
}

/// A channel's key and trigger.
pub struct KeyedTrigger<T> {
    pub key: String,
    pub trigger: ChannelTrigger<T>,
}

/// The per-channel trigger states of the samples whose channel id contains
/// the target text, each channel under the key [`clean_channel_id`] gives.
pub struct TriggerManager<T> {
    target: String,
    capacity: usize,
    channels: Vec<KeyedTrigger<T>>,
}

/// The keys of a list of keyed triggers.
pub open spec fn keys_of<T>(v: Seq<KeyedTrigger<T>>) -> Seq<Seq<char>> {
    v.map_values(|e: KeyedTrigger<T>| e.key@)
}

/// The states of a list of keyed triggers.
pub open spec fn states_of<T>(v: Seq<KeyedTrigger<T>>) -> Seq<ChannelTriggerView<T>> {
    v.map_values(|e: KeyedTrigger<T>| e.trigger@)
}

impl<T> View for TriggerManager<T> {
    type V = TriggerManagerView<T>;

    closed spec fn view(&self) -> TriggerManagerView<T> {
        TriggerManagerView {
            target: self.target@,
            capacity: self.capacity as nat,
            keys: keys_of(self.channels@),
            states: states_of(self.channels@),
        }
    }
}

impl<T> TriggerManager<T> {
    /// No key twice, each trigger's window of the manager's size.
    #[verifier::type_invariant]
    spec fn well_formed(self) -> bool {
        &&& manager_wf(self@)
        &&& forall|i: int| 0 <= i < self.channels@.len() ==> (#[trigger] self.channels@[i]).trigger@.capacity
            == self.capacity
    }

    /// A manager for the ids that contain `target_channel`, with windows of
    /// `capacity` samples, and no channel yet.
    pub fn new(target_channel: String, capacity: usize) -> (r: Self)
        ensures
            r@ == empty_manager::<T>(target_channel@, capacity as nat),
    {
        let r = TriggerManager { target: target_channel, capacity, channels: Vec::new() };
        assert(r@.keys =~= Seq::<Seq<char>>::empty());
        assert(r@.states =~= Seq::<ChannelTriggerView<T>>::empty());
        r
    }

    /// Takes in a sample of channel `id` at `now_ns`. When the id is not
    /// watched nothing changes and the result is `None`. Otherwise the sample
    /// goes to the channel under the id's key (a new one when there is
    /// none), as [`ChannelTrigger::push_sample`] says, and the result is that
    /// channel's position when its ratio is due for evaluation.
    pub fn take_sample(&mut self, id: &str, sample: T, now_ns: i128) -> (r: Option<usize>)
        requires
            time_in_range(now_ns as int),
        ensures
            !watches(old(self)@, id@) ==> r is None && final(self)@ == old(self)@,
            watches(old(self)@, id@) ==> ({
                let k = clean_channel_id_of(id@);
                let p = pushed_view(channel_state(old(self)@, k), sample, now_ns as int);
                &&& final(self)@ == with_channel(old(self)@, k, p)
                &&& (r is Some <==> due_view(p))
                &&& (r matches Some(i) ==> i == key_index(final(self)@, k) && i < final(self)@.keys.len())
            }),
    {
        proof { use_type_invariant(&*self); }
        if !contains_str(id, self.target.as_str()) {
            return None;
        }
        let key = clean_channel_id(id);
        let ghost m = self@;
        let ghost k = key@;
        let cap = self.capacity;
        let mut chans: Vec<KeyedTrigger<T>> = Vec::new();
        std::mem::swap(&mut chans, &mut self.channels);
        assert(keys_of(chans@) == m.keys && states_of(chans@) == m.states);
        let n = chans.len();
        let mut i: usize = 0;
        while i < n && !same_text(chans[i].key.as_str(), key.as_str())
            invariant
                n == chans@.len(),
                i <= n,
                keys_of(chans@) == m.keys,
                k == key@,
                forall|j: int| 0 <= j < i ==> m.keys[j] != k,
            decreases n - i,
        {
            assert(m.keys[i as int] == chans@[i as int].key@);
            i = i + 1;
        }
        let r = if i < n {
            assert(m.keys[i as int] == chans@[i as int].key@);
            proof { lemma_key_index(m, k, i as int); }
            let mut entry = KeyedTrigger { key: String::new(), trigger: ChannelTrigger::new(cap) };
            chans.set_and_swap(i, &mut entry);
            assert(entry == old(self).channels@[i as int]);
            assert(entry.trigger@ == channel_state(m, k));
            let due = entry.trigger.push_sample(sample, now_ns);
            let ghost p = entry.trigger@;
            let ghost e = entry;
            chans.set_and_swap(i, &mut entry);
            proof {
                assert(keys_of(chans@) =~= m.keys);
                assert(states_of(chans@) =~= m.states.update(i as int, p));
                lemma_with_channel(m, k, p, k);
                let w = with_channel(m, k, p);
                lemma_key_index(w, k, i as int);
                assert forall|j: int| 0 <= j < chans@.len() implies (#[trigger] chans@[j]).trigger@.capacity == cap by {
                    if j != i {
                        assert(chans@[j] == old(self).channels@[j]);
                    }
                }
            }
            if due { Some(i) } else { None }
        } else {
            assert(!has_key(m, k));
            let mut trigger: ChannelTrigger<T> = ChannelTrigger::new(cap);
            assert(trigger@.window =~= Seq::<T>::empty());
            assert(trigger@ == fresh_channel::<T>(cap as nat));
            let due = trigger.push_sample(sample, now_ns);
            let ghost p = trigger@;
            chans.push(KeyedTrigger { key, trigger });
            proof {
                assert(keys_of(chans@) =~= m.keys.push(k));
                assert(states_of(chans@) =~= m.states.push(p));
                lemma_with_channel(m, k, p, k);
                let w = with_channel(m, k, p);
                lemma_key_index(w, k, n as int);
                assert forall|j: int| 0 <= j < chans@.len() implies (#[trigger] chans@[j]).trigger@.capacity == cap by {
                    if j < n {
                        assert(chans@[j] == old(self).channels@[j]);
                    }
                }
            }
            if due { Some(n) } else { None }
        };
        self.channels = chans;
        r
    }

    /// The window of the channel at position `i`.
    pub fn window(&self, i: usize) -> (r: &Vec<T>)
        requires
            i < self@.keys.len(),
        ensures
            r@ == self@.states[i as int].window,
    {
        proof { use_type_invariant(self); }
        self.channels[i].trigger.window()
    }

    /// Whether an alarm is on for the channel at position `i`.
    pub fn is_triggered(&self, i: usize) -> (r: bool)
        requires
            i < self@.keys.len(),
        ensures
            r == self@.states[i as int].triggered,
    {
        proof { use_type_invariant(self); }
        self.channels[i].trigger.is_triggered()
    }

    /// The start of the excess of the channel at position `i` for a ratio
    /// evaluated at `now_ns` (see [`ChannelTrigger::excess_start`]).
    pub fn excess_start(&self, i: usize, now_ns: i128) -> (r: i128)
        requires
            i < self@.keys.len(),
        ensures
            r == (if self@.states[i as int].exceeding {
                self@.states[i as int].exceed_start->0
            } else {
                now_ns as int
            }),
    {
        proof { use_type_invariant(self); }
        self.channels[i].trigger.excess_start(now_ns)
    }

    /// Advances the alarm state of the channel at position `i` with the
    /// verdicts on its ratio evaluated at `now_ns`, as
    /// [`ChannelTrigger::step`] says; the event to report, if any.
    pub fn evaluate(&mut self, i: usize, now_ns: i128, above: bool, reached: bool, below_reset: bool) -> (r:
        Option<AlertEventType>)
        requires
            i < old(self)@.keys.len(),
        ensures
            ({
                let (s, e) = step_result(old(self)@.states[i as int], now_ns as int, above, reached, below_reset);
                final(self)@ == TriggerManagerView { states: old(self)@.states.update(i as int, s), ..old(self)@ }
                    && r == e
            }),
    {
        proof { use_type_invariant(&*self); }
        let ghost m = self@;
        let cap = self.capacity;
        let mut chans: Vec<KeyedTrigger<T>> = Vec::new();
        std::mem::swap(&mut chans, &mut self.channels);
        let mut entry = KeyedTrigger { key: String::new(), trigger: ChannelTrigger::new(cap) };
        chans.set_and_swap(i, &mut entry);
        assert(entry == old(self).channels@[i as int]);
        let r = entry.trigger.step(now_ns, above, reached, below_reset);
        let ghost s = entry.trigger@;
        chans.set_and_swap(i, &mut entry);
        proof {
            lemma_step_keeps_window(m.states[i as int], now_ns as int, above, reached, below_reset);
            assert(keys_of(chans@) =~= m.keys);
            assert(states_of(chans@) =~= m.states.update(i as int, s));
            assert forall|j: int| 0 <= j < chans@.len() implies (#[trigger] chans@[j]).trigger@.capacity == cap by {
                if j != i {
                    assert(chans@[j] == old(self).channels@[j]);
                }
            }
        }
        self.channels = chans;
        r
    }
}

} // verus!
