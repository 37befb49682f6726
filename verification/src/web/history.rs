//! The recent alert history: alerts kept in the order they triggered,
//! found by id, and forgotten from the oldest on once older than a cutoff.
//! What an alert records (ratios, times, snapshot) is the application's.
use vstd::prelude::*;

verus! {

/// One remembered alert: its id, its trigger time (milliseconds since
/// 1970-01-01T00:00:00 UTC) and what the application records of it.
pub struct HistoryEntry<T> {
    pub id: u128,
    pub trigger_time_ms: i64,
    pub event: T,
}

/// How long an alert stays in the history: 24 hours, in milliseconds.
pub const RETENTION_MS: i64 = 86_400_000;

/// The cutoff of a history cleaned up at `now_ms`: alerts that triggered
/// more than 24 hours earlier are forgotten.
pub fn retention_cutoff_ms(now_ms: i64) -> (r: i64)
    requires
        now_ms >= i64::MIN + RETENTION_MS,
    ensures
        r == now_ms - RETENTION_MS,
{
    now_ms - RETENTION_MS
}

/// The number of leading entries that triggered before `cutoff`.
pub open spec fn expired_prefix_len<T>(entries: Seq<HistoryEntry<T>>, cutoff: int) -> nat
    decreases entries.len(),
{
    if entries.len() > 0 && entries[0].trigger_time_ms < cutoff {
        1 + expired_prefix_len(entries.drop_first(), cutoff)
    } else {
        0
    }
}

/// The position of the first entry with the given id.
pub open spec fn first_with_id<T>(entries: Seq<HistoryEntry<T>>, id: u128) -> Option<int>
    decreases entries.len(),
{
    if entries.len() == 0 {
        None
    } else if entries[0].id == id {
        Some(0)
    } else {
        match first_with_id(entries.drop_first(), id) {
            Some(i) => Some(i + 1),
            None => None,
        }
    }
}

proof fn lemma_expired_prefix<T>(entries: Seq<HistoryEntry<T>>, cutoff: int)
    ensures
        expired_prefix_len(entries, cutoff) <= entries.len(),
        forall|i: int| 0 <= i < expired_prefix_len(entries, cutoff) ==> #[trigger] entries[i].trigger_time_ms
            < cutoff,
        expired_prefix_len(entries, cutoff) < entries.len() ==> entries[expired_prefix_len(entries, cutoff) as int].trigger_time_ms >= cutoff,
    decreases entries.len(),
{
    if entries.len() > 0 && entries[0].trigger_time_ms < cutoff {
        lemma_expired_prefix(entries.drop_first(), cutoff);
        assert forall|i: int| 0 <= i < expired_prefix_len(entries, cutoff) implies #[trigger] entries[i].trigger_time_ms
            < cutoff by {
            if i > 0 {
                assert(entries[i] == entries.drop_first()[i - 1]);
            }
        }
    }
}

proof fn lemma_first_with_id<T>(entries: Seq<HistoryEntry<T>>, id: u128)
    ensures
        first_with_id(entries, id) matches Some(i) ==> 0 <= i < entries.len() && entries[i].id == id
            && forall|j: int| 0 <= j < i ==> #[trigger] entries[j].id != id,
        first_with_id(entries, id) is None ==> forall|j: int| 0 <= j < entries.len() ==> #[trigger] entries[j].id != id,
    decreases entries.len(),
{
    if entries.len() > 0 && entries[0].id != id {
        let t = entries.drop_first();
        lemma_first_with_id(t, id);
        match first_with_id(t, id) {
            Some(i) => {
                assert(entries[i + 1] == t[i]);
                assert forall|j: int| 0 <= j < i + 1 implies #[trigger] entries[j].id != id by {
                    if j > 0 {
                        assert(entries[j] == t[j - 1]);
                    }
                }
            },
            None => {
                assert forall|j: int| 0 <= j < entries.len() implies #[trigger] entries[j].id != id by {
                    if j > 0 {
                        assert(entries[j] == t[j - 1]);
                    }
                }
            },
        }
    }
}

/// The remembered alerts, oldest trigger first.
pub struct AlertHistoryManager<T> {
    events: Vec<HistoryEntry<T>>,
}

impl<T> View for AlertHistoryManager<T> {
    type V = Seq<HistoryEntry<T>>;

    closed spec fn view(&self) -> Seq<HistoryEntry<T>> {
        self.events@
    }
}

impl<T> AlertHistoryManager<T> {
    /// An empty history.
    pub fn new() -> (r: Self)
        ensures
            r@.len() == 0,
    {
        AlertHistoryManager { events: Vec::new() }
    }

    /// Records a new alert at `now_ms`, then forgets the alerts at the front
    /// of the history that triggered more than 24 hours before `now_ms`;
    /// returns those, oldest first.
    pub fn record_at(&mut self, entry: HistoryEntry<T>, now_ms: i64) -> (removed: Vec<HistoryEntry<T>>)
        requires
            now_ms >= i64::MIN + RETENTION_MS,
        ensures
            ({
                let pushed = old(self)@.push(entry);
                let k = expired_prefix_len(pushed, now_ms - RETENTION_MS) as int;
                &&& final(self)@ == pushed.subrange(k, pushed.len() as int)
                &&& removed@ == pushed.subrange(0, k)
            }),
    {
        let cutoff = retention_cutoff_ms(now_ms);
        self.add_event(entry, cutoff)
    }

    /// Records a new alert, then forgets the alerts at the front of the
    /// history that triggered before `cutoff_ms`; returns those, oldest
    /// first, so that their files can be removed.
    pub fn add_event(&mut self, entry: HistoryEntry<T>, cutoff_ms: i64) -> (removed: Vec<HistoryEntry<T>>)
        ensures
            ({
                let pushed = old(self)@.push(entry);
                let k = expired_prefix_len(pushed, cutoff_ms as int) as int;
                &&& final(self)@ == pushed.subrange(k, pushed.len() as int)
                &&& removed@ == pushed.subrange(0, k)
            }),
    {
        let ghost pushed = self.events@.push(entry);
        self.events.push(entry);
        assert(pushed.len() == self.events.len());
        proof { lemma_expired_prefix(pushed, cutoff_ms as int); }
        let ghost k = expired_prefix_len(pushed, cutoff_ms as int) as int;
        let mut removed: Vec<HistoryEntry<T>> = Vec::new();
        let mut events: Vec<HistoryEntry<T>> = Vec::new();
        std::mem::swap(&mut events, &mut self.events);
        let mut m: usize = 0;
        while events.len() > 0 && events[0].trigger_time_ms < cutoff_ms
            invariant
                m <= k,
                0 <= k <= pushed.len(),
                pushed.len() <= usize::MAX,
                removed@ == pushed.subrange(0, m as int),
                events@ == pushed.subrange(m as int, pushed.len() as int),
                forall|i: int| 0 <= i < k ==> #[trigger] pushed[i].trigger_time_ms < cutoff_ms,
                k < pushed.len() ==> pushed[k].trigger_time_ms >= cutoff_ms,
            decreases pushed.len() - m,
        {
            assert(events@[0] == pushed[m as int]);
            let front = events.remove(0);
            removed.push(front);
            assert(removed@ =~= pushed.subrange(0, m + 1));
            assert(events@ =~= pushed.subrange(m + 1, pushed.len() as int));
            m = m + 1;
        }
        proof {
            if m < k {
                assert(events@[0] == pushed[m as int]);
            }
        }
        self.events = events;
        removed
    }

    /// The position of the alert with the given id, if it is remembered.
    pub fn position(&self, id: u128) -> (r: Option<usize>)
        ensures
            r matches Some(i) ==> first_with_id(self@, id) == Some(i as int),
            r is None ==> first_with_id(self@, id) is None,
    {
        let mut i: usize = 0;
        while i < self.events.len()
            invariant
                i <= self.events@.len(),
                forall|j: int| 0 <= j < i ==> #[trigger] self.events@[j].id != id,
            decreases self.events@.len() - i,
        {
            proof { lemma_first_with_id(self.events@, id); }
            if self.events[i].id == id {
                return Some(i);
            }
            i = i + 1;
        }
        proof { lemma_first_with_id(self.events@, id); }
        None
    }

    /// Replaces the remembered alert with the same id as `entry`, if any.
    pub fn update_event(&mut self, entry: HistoryEntry<T>)
        ensures
            match first_with_id(old(self)@, entry.id) {
                Some(i) => final(self)@ == old(self)@.update(i, entry),
                None => final(self)@ == old(self)@,
            },
    {
        proof { lemma_first_with_id(self.events@, entry.id); }
        match self.position(entry.id) {
            Some(i) => {
                self.events.set(i, entry);
            },
            None => {},
        }
    }

    /// The remembered alerts, oldest trigger first.
    pub fn events(&self) -> (r: &Vec<HistoryEntry<T>>)
        ensures
            r@ == self@,
    {
        &self.events
    }
}

/// Nothing is lost when the history is cleaned: the forgotten alerts
/// followed by the kept ones are all the alerts; every forgotten one is
/// older than the cutoff; and a new alert that is not older than the cutoff
/// is kept, as the newest.
pub proof fn lemma_cleanup_keeps_recent<T>(events: Seq<HistoryEntry<T>>, entry: HistoryEntry<T>, cutoff: int)
    ensures
        ({
            let pushed = events.push(entry);
            let k = expired_prefix_len(pushed, cutoff) as int;
            &&& pushed.subrange(0, k) + pushed.subrange(k, pushed.len() as int) == pushed
            &&& forall|i: int| 0 <= i < k ==> #[trigger] pushed[i].trigger_time_ms < cutoff
            &&& entry.trigger_time_ms >= cutoff ==> k < pushed.len() && pushed.subrange(k, pushed.len() as int).last() == entry
        }),
{
    let pushed = events.push(entry);
    lemma_expired_prefix(pushed, cutoff);
    let k = expired_prefix_len(pushed, cutoff) as int;
    assert(pushed.subrange(0, k) + pushed.subrange(k, pushed.len() as int) =~= pushed);
    if entry.trigger_time_ms >= cutoff {
        if k == pushed.len() {
            assert(pushed[pushed.len() - 1].trigger_time_ms < cutoff);
        }
    }
}

} // verus!
