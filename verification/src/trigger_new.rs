//! The continuous (recursive) STA/LTA trigger apart from its real-valued
//! arithmetic: the detection of jumps in time, the warm-up count, and the
//! alarm / reset state machine that the evaluated ratio drives.
use vstd::prelude::*;
use crate::trigger::{first_lasting, millis_between, time_in_range};

verus! {

/// What an event of the continuous trigger reports.
#[derive(Debug, Clone, Copy, PartialEq, Eq, Structural)]
pub enum AlertEventType {
    Trigger,
    Reset,
}

/// The nominal time between two samples at 100 samples per second, in
/// nanoseconds.
pub const SAMPLE_INTERVAL_NS: i128 = 10_000_000;

/// Whether a sample at `now` breaks the time series: it is more than a
/// second away from where the next sample after `last` was expected.
pub open spec fn is_jump(last: Option<int>, now: int) -> bool {
    match last {
        Some(l) => {
            let m = millis_between(l + SAMPLE_INTERVAL_NS, now);
            (if m < 0 { -m } else { m }) > 1000
        },
        None => false,
    }
}

/// The state of one channel's continuous trigger, by value.
pub struct ContinuousTriggerView {
    pub triggered: bool,
    pub exceeding: bool,
    pub exceed_start: Option<int>,
    pub last_time: Option<int>,
    pub sample_count: nat,
}

/// One channel's continuous trigger.
pub struct ContinuousTrigger {
    triggered: bool,
    is_exceeding: bool,
    exceed_start_ns: Option<i128>,
    last_time_ns: Option<i128>,
    sample_count: u64,
}

impl View for ContinuousTrigger {
    type V = ContinuousTriggerView;

    closed spec fn view(&self) -> ContinuousTriggerView {
        ContinuousTriggerView {
            triggered: self.triggered,
            exceeding: self.is_exceeding,
            exceed_start: match self.exceed_start_ns {
                Some(t) => Some(t as int),
                None => None,
            },
            last_time: match self.last_time_ns {
                Some(t) => Some(t as int),
                None => None,
            },
            sample_count: self.sample_count as nat,
        }
    }
}

/// What the continuous trigger does with a ratio evaluated at `now`.
pub open spec fn continuous_step(
    s: ContinuousTriggerView,
    now: int,
    above: bool,
    reached: bool,
    below_reset: bool,
) -> (ContinuousTriggerView, Option<AlertEventType>) {
    if !s.triggered {
        if above {
            let start = if s.exceeding { s.exceed_start } else { Some(now) };
            if reached {
                (ContinuousTriggerView { triggered: true, exceeding: false, exceed_start: start, ..s },
                    Some(AlertEventType::Trigger))
            } else {
                (ContinuousTriggerView { exceeding: true, exceed_start: start, ..s }, None)
            }
        } else {
            (ContinuousTriggerView { exceeding: false, exceed_start: None, ..s }, None)
        }
    } else if below_reset {
        (ContinuousTriggerView { triggered: false, ..s }, Some(AlertEventType::Reset))
    } else {
        (s, None)
    }
}

impl ContinuousTrigger {
    #[verifier::type_invariant]
    spec fn well_formed(self) -> bool {
        &&& (self.is_exceeding ==> self.exceed_start_ns is Some)
        &&& (self.last_time_ns matches Some(t) ==> time_in_range(t as int))
    }

    /// A quiet channel that has seen no sample.
    pub fn new() -> (r: Self)
        ensures
            !r@.triggered,
            !r@.exceeding,
            r@.exceed_start is None,
            r@.last_time is None,
            r@.sample_count == 0,
    {
        ContinuousTrigger {
            triggered: false,
            is_exceeding: false,
            exceed_start_ns: None,
            last_time_ns: None,
            sample_count: 0,
        }
    }

    /// Takes in the time of a new sample. After a jump the channel starts
    /// afresh (no alarm, no excess, count zero), and the application resets
    /// its averages and filter; returns whether that happened. The sample is
    /// then counted.
    pub fn observe(&mut self, now_ns: i128) -> (jumped: bool)
        requires
            time_in_range(now_ns as int),
        ensures
            jumped == is_jump(old(self)@.last_time, now_ns as int),
            final(self)@.last_time == Some(now_ns as int),
            jumped ==> !final(self)@.triggered && !final(self)@.exceeding && final(self)@.exceed_start is None,
            !jumped ==> final(self)@.triggered == old(self)@.triggered && final(self)@.exceeding
                == old(self)@.exceeding && final(self)@.exceed_start == old(self)@.exceed_start,
            final(self)@.sample_count == (if jumped {
                1
            } else if old(self)@.sample_count == u64::MAX {
                0
            } else {
                old(self)@.sample_count + 1
            }),
    {
        proof { use_type_invariant(&*self); }
        let jumped = match self.last_time_ns {
            Some(last) => {
                let d = now_ns - (last + SAMPLE_INTERVAL_NS);
                let m = if d >= 0 { d / 1_000_000 } else { -((-d) / 1_000_000) };
                let a = if m < 0 { -m } else { m };
                a > 1000
            },
            None => false,
        };
        if jumped {
            self.sample_count = 0;
            self.triggered = false;
            self.is_exceeding = false;
            self.exceed_start_ns = None;
        }
        self.last_time_ns = Some(now_ns);
        self.sample_count = self.sample_count.wrapping_add(1);
        jumped
    }

    /// Whether at least `needed` samples have been seen since the channel
    /// last started afresh.
    pub fn warmed_up(&self, needed: u64) -> (r: bool)
        ensures
            r == (self@.sample_count >= needed),
    {
        self.sample_count >= needed
    }

    /// Whether an alarm is on.
    pub fn is_triggered(&self) -> (r: bool)
        ensures
            r == self@.triggered,
    {
        self.triggered
    }

    /// The time from which the threshold counts as exceeded if the ratio at
    /// `now_ns` exceeds it: the start of the current excess, or `now_ns`.
    pub fn excess_start(&self, now_ns: i128) -> (r: i128)
        ensures
            r == (if self@.exceeding { self@.exceed_start->0 } else { now_ns as int }),
    {
        proof { use_type_invariant(self); }
        if self.is_exceeding {
            match self.exceed_start_ns {
                Some(t) => t,
                None => now_ns,
            }
        } else {
            now_ns
        }
    }

    /// Advances the alarm state with the ratio evaluated at `now_ns` (see
    /// [`crate::trigger::ChannelTrigger::step`]); no status events.
    pub fn step(&mut self, now_ns: i128, above: bool, reached: bool, below_reset: bool) -> (r: Option<AlertEventType>)
        ensures
            (final(self)@, r) == continuous_step(old(self)@, now_ns as int, above, reached, below_reset),
    {
        proof { use_type_invariant(&*self); }
        if !self.triggered {
            if above {
                if !self.is_exceeding {
                    self.exceed_start_ns = Some(now_ns);
                    self.is_exceeding = true;
                }
                if reached {
                    self.triggered = true;
                    self.is_exceeding = false;
                    return Some(AlertEventType::Trigger);
                }
                None
            } else {
                self.is_exceeding = false;
                self.exceed_start_ns = None;
                None
            }
        } else if below_reset {
            self.triggered = false;
            Some(AlertEventType::Reset)
        } else {
            None
        }
    }
}

/// Alarms and resets of the continuous trigger alternate, as those of the
/// windowed one do.
pub proof fn lemma_continuous_alarms_alternate(
    s: ContinuousTriggerView,
    now: int,
    above: bool,
    reached: bool,
    below_reset: bool,
)
    ensures
        ({
            let (next, event) = continuous_step(s, now, above, reached, below_reset);
            &&& event == Some(AlertEventType::Trigger) ==> !s.triggered && next.triggered && above && reached
            &&& event == Some(AlertEventType::Reset) ==> s.triggered && !next.triggered && below_reset
            &&& event is None ==> next.triggered == s.triggered
        }),
{
}

/// While no alarm is on, the start of an excess is where it began: a step
/// with the ratio above the threshold keeps the start of an excess under
/// way, and starts one at `now` when none is; a step with the ratio at or
/// below the threshold ends the excess.
pub proof fn lemma_continuous_excess_start_is_kept(
    s: ContinuousTriggerView,
    now: int,
    above: bool,
    reached: bool,
    below_reset: bool,
)
    requires
        !s.triggered,
    ensures
        ({
            let next = continuous_step(s, now, above, reached, below_reset).0;
            &&& above && s.exceeding ==> next.exceed_start == s.exceed_start
            &&& above && !s.exceeding ==> next.exceed_start == Some(now)
            &&& above && !reached ==> next.exceeding
            &&& !above ==> !next.exceeding && next.exceed_start is None
        }),
{
}

/// The continuous trigger after evaluations at `times` at which the ratio
/// is always above the threshold and never below the reset threshold, each
/// judging the excess lasting once `duration` has passed since its start as
/// [`ContinuousTrigger::excess_start`] gives it; and the event of each.
pub open spec fn continuous_lasting_run(s: ContinuousTriggerView, times: Seq<int>, duration: int) -> (
    ContinuousTriggerView,
    Seq<Option<AlertEventType>>,
)
    decreases times.len(),
{
    if times.len() == 0 {
        (s, Seq::empty())
    } else {
        let (m, events) = continuous_lasting_run(s, times.drop_last(), duration);
        let now = times.last();
        let start = if m.exceeding { m.exceed_start->0 } else { now };
        let (next, e) = continuous_step(m, now, true, now - start >= duration, false);
        (next, events.push(e))
    }
}

/// From a quiet channel, when the ratio stays above the threshold, the
/// continuous trigger raises its alarm at the first evaluation that comes
/// `duration` or more after the first one, and at no other.
pub proof fn lemma_continuous_alarm_after_duration(s: ContinuousTriggerView, times: Seq<int>, duration: int)
    requires
        !s.triggered,
        !s.exceeding,
    ensures
        ({
            let (e, events) = continuous_lasting_run(s, times, duration);
            let reached = exists|j: int| 0 <= j < times.len() && #[trigger] times[j] - times[0] >= duration;
            &&& events.len() == times.len()
            &&& forall|i: int| 0 <= i < times.len() ==> (events[i] == Some(AlertEventType::Trigger)
                <==> first_lasting(times, duration, i))
            &&& reached ==> e.triggered
            &&& (times.len() > 0 && !reached) ==> !e.triggered && e.exceeding && e.exceed_start == Some(
                times[0],
            )
        }),
    decreases times.len(),
{
    if times.len() > 0 {
        let pre = times.drop_last();
        lemma_continuous_alarm_after_duration(s, pre, duration);
        let (m, evs) = continuous_lasting_run(s, pre, duration);
        let (e, all) = continuous_lasting_run(s, times, duration);
        let n = times.len() - 1;
        assert(all.drop_last() =~= evs);
        let pre_reached = exists|j: int| 0 <= j < pre.len() && #[trigger] pre[j] - pre[0] >= duration;
        if pre.len() > 0 {
            assert(pre[0] == times[0]);
        }
        assert forall|i: int| 0 <= i < times.len() implies (all[i] == Some(AlertEventType::Trigger)
            <==> first_lasting(times, duration, i)) by {
            if i < n {
                assert(pre[i] == times[i]);
                assert(all[i] == evs[i]);
                if first_lasting(pre, duration, i) {
                    assert forall|j: int| 0 <= j < i implies #[trigger] times[j] - times[0] < duration by {
                        assert(pre[j] == times[j]);
                    }
                }
                if first_lasting(times, duration, i) {
                    assert forall|j: int| 0 <= j < i implies #[trigger] pre[j] - pre[0] < duration by {
                        assert(pre[j] == times[j]);
                    }
                }
            } else {
                if pre_reached {
                    let j = choose|j: int| 0 <= j < pre.len() && #[trigger] pre[j] - pre[0] >= duration;
                    assert(times[j] - times[0] >= duration);
                } else {
                    assert forall|j: int| 0 <= j < n implies #[trigger] times[j] - times[0] < duration by {
                        assert(pre[j] == times[j]);
                    }
                }
            }
        }
        if pre_reached {
            let j = choose|j: int| 0 <= j < pre.len() && #[trigger] pre[j] - pre[0] >= duration;
            assert(times[j] - times[0] >= duration);
        } else if exists|j: int| 0 <= j < times.len() && #[trigger] times[j] - times[0] >= duration {
            let j = choose|j: int| 0 <= j < times.len() && #[trigger] times[j] - times[0] >= duration;
            if j < n {
                assert(pre[j] == times[j]);
            }
        } else {
            assert(times[n] - times[0] < duration);
        }
    }
}

} // verus!
